use rustube::error::Error;
use rustube::id::IdBuf;

fn parsed(raw: &str) -> String {
    IdBuf::from_raw(raw).unwrap().as_str().to_string()
}

#[test]
fn ids_from_urls() {
    assert_eq!(parsed("https://youtube.com/watch?v=5jlI4uzZGjU"), "5jlI4uzZGjU");
    assert_eq!(parsed("https://www.youtube.com/watch?v=5jlI4uzZGjU&t=10"), "5jlI4uzZGjU");
    assert_eq!(parsed("youtube.com/watch?v=5jlI4uzZGjU"), "5jlI4uzZGjU");
    assert_eq!(parsed("https://youtube.com/watch?iv=5jlI4uzZGjU"), "5jlI4uzZGjU");
    assert_eq!(parsed("https://youtube.com/embed/5jlI4uzZGjU"), "5jlI4uzZGjU");
    assert_eq!(parsed("https://youtu.be/5jlI4uzZGjU"), "5jlI4uzZGjU");
    assert_eq!(parsed("5jlI4uzZGjU"), "5jlI4uzZGjU");
    assert_eq!(parsed("a-b_c-D_e9Z"), "a-b_c-D_e9Z");
}

#[test]
fn texts_without_id() {
    for raw in ["", "https://example.com/watch?v=5jlI4uzZGjU", "5jlI4uzZGj", "5jlI4uzZGjU!", "https://youtube.com/"] {
        match IdBuf::from_raw(raw) {
            Err(Error::BadIdFormat) => {}
            other => panic!("unexpected {:?} for {:?}", other, raw),
        }
    }
}

#[test]
fn id_validation() {
    assert!(IdBuf::from_string("5jlI4uzZGjU".to_string()).is_some());
    assert!(IdBuf::from_string("5jlI4uzZGj".to_string()).is_none());
    assert!(IdBuf::from_string("5jlI4uzZGjUU".to_string()).is_none());
    assert!(IdBuf::from_string("5jlI4uzZGj!".to_string()).is_none());
    assert!(IdBuf::from_string("5jlI4uzZGjé".to_string()).is_none());
}

#[test]
fn id_urls() {
    let id = IdBuf::from_string("5jlI4uzZGjU".to_string()).unwrap();
    assert_eq!(id.watch_url(), "https://youtube.com/watch?v=5jlI4uzZGjU");
    assert_eq!(id.embed_url(), "https://youtube.com/embed/5jlI4uzZGjU");
    assert!(id.clone() == id);
}

#[test]
fn watch_url_round_trip() {
    let id = IdBuf::from_string("Zx_-09azAZq".to_string()).unwrap();
    assert!(IdBuf::from_raw(&id.watch_url()).unwrap() == id);
    assert!(IdBuf::from_raw(&id.embed_url()).unwrap() == id);
}
