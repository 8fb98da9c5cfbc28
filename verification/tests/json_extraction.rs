use rustube::error::Error;
use rustube::json::{find_json_object, json_object};

fn internal(r: Result<&str, Error>) -> &'static str {
    match r {
        Err(Error::Internal(m)) => m,
        other => panic!("expected an internal error, got {:?}", other),
    }
}

#[test]
fn extracts_first_object_and_stops_at_its_end() {
    let html = r#"var cfg = {"a": [1, {"b": 2}], "c": "x"}; var other = {"d": 1};"#;
    assert_eq!(json_object(html).unwrap(), r#"{"a": [1, {"b": 2}], "c": "x"}"#);
}

#[test]
fn closing_braces_inside_strings_do_not_close() {
    let html = r#"x = {"a": "}]", "b": "[{"} rest"#;
    assert_eq!(json_object(html).unwrap(), r#"{"a": "}]", "b": "[{"}"#);
}

#[test]
fn escaped_quotes_stay_inside_strings() {
    let html = r#"= {"a": "say \"}\" loud", "b": 1}}}"#;
    assert_eq!(json_object(html).unwrap(), r#"{"a": "say \"}\" loud", "b": 1}"#);
}

#[test]
fn escaped_backslash_ends_the_escape() {
    let html = r#"{"a": "\\"}, tail"#;
    assert_eq!(json_object(html).unwrap(), r#"{"a": "\\"}"#);
}

#[test]
fn multibyte_text_around_and_inside_the_object() {
    let html = "héllo wörld {\"name\": \"Ünïcödé ✓\", \"n\": [1]} ende ☃";
    assert_eq!(json_object(html).unwrap(), "{\"name\": \"Ünïcödé ✓\", \"n\": [1]}");
}

#[test]
fn smallest_object() {
    assert_eq!(json_object("{}").unwrap(), "{}");
    assert_eq!(json_object("abc{}def").unwrap(), "{}");
}

#[test]
fn text_without_an_opening_brace_is_refused() {
    assert_eq!(
        internal(json_object("no object here [1, 2]")),
        "cannot parse a json object from an empty string"
    );
    assert_eq!(internal(json_object("")), "cannot parse a json object from an empty string");
}

#[test]
fn unclosed_object_is_refused() {
    assert_eq!(internal(json_object(r#"x {"a": [1, 2}"#)), "could not find a closing delimiter");
    assert_eq!(internal(json_object(r#"{"a": "}"#)), "could not find a closing delimiter");
}

#[test]
fn extraction_is_idempotent() {
    let html = r#"prefix {"k": {"v": [1, 2, "]"]}} suffix {"z": 0}"#;
    let once = json_object(html).unwrap();
    let twice = json_object(once).unwrap();
    assert_eq!(once, twice);
}

#[test]
fn trailing_text_does_not_change_the_object() {
    let base = r#"a = {"x": [true, false]}"#;
    let extended = format!("{}{}", base, r#" ; b = {"y": 1} }}}} ]]"#);
    assert_eq!(json_object(base).unwrap(), json_object(&extended).unwrap());
}

#[test]
fn scanner_steps() {
    let mut skip = false;
    let mut stack = vec![b'{'];
    assert!(!find_json_object(b'"', &mut skip, &mut stack));
    assert_eq!(stack, vec![b'{', b'"']);
    assert!(!find_json_object(b'\\', &mut skip, &mut stack));
    assert!(skip);
    assert!(!find_json_object(b'"', &mut skip, &mut stack));
    assert!(!skip);
    assert_eq!(stack, vec![b'{', b'"']);
    assert!(!find_json_object(b'{', &mut skip, &mut stack));
    assert_eq!(stack, vec![b'{', b'"']);
    assert!(!find_json_object(b'"', &mut skip, &mut stack));
    assert_eq!(stack, vec![b'{']);
    assert!(!find_json_object(b'[', &mut skip, &mut stack));
    assert_eq!(stack, vec![b'{', b'[']);
    assert!(!find_json_object(b'}', &mut skip, &mut stack));
    assert_eq!(stack, vec![b'{', b'[']);
    assert!(!find_json_object(b']', &mut skip, &mut stack));
    assert!(find_json_object(b'}', &mut skip, &mut stack));
    assert!(stack.is_empty());
}

#[test]
fn skipped_byte_is_not_read_even_on_an_empty_stack() {
    let mut skip = true;
    let mut stack: Vec<u8> = Vec::new();
    assert!(!find_json_object(b'}', &mut skip, &mut stack));
    assert!(!skip);
    assert!(stack.is_empty());
}

#[test]
fn leading_text_without_brace_does_not_change_the_object() {
    let h = r#"{"a": [1, {"b": "}"}]} tail"#;
    let with_prefix = format!("{}{}", "var x = [1, \"q\"]; // é ", h);
    assert_eq!(json_object(h).unwrap(), json_object(&with_prefix).unwrap());
    let unclosed = r#"{"a": ["#;
    let unclosed_with_prefix = format!("{}{}", "prefix ", unclosed);
    assert_eq!(internal(json_object(unclosed)), internal(json_object(&unclosed_with_prefix)));
}

#[test]
fn valid_json_objects_are_extracted_whole() {
    let objects = [
        r#"{}"#,
        r#"{ }"#,
        r#"{"a":null}"#,
        r#"{"a": true, "b": [false, -1.5e+3, 0], "c": {"d": "x\"}\\]\u00e9"}}"#,
        "{\n\t\"k\" : [ [], {}, \"[{\" ]\r\n}",
        r#"{"ü": "ß✓"}"#,
    ];
    for j in objects {
        assert!(serde_json::from_str::<serde_json::Value>(j).unwrap().is_object());
        let page = format!("<script>var cfg = {}; var y = {{\"z\": 1}};</script>", j);
        assert_eq!(json_object(&page).unwrap(), j);
    }
}
