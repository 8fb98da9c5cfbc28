//! The id of a video: eleven characters out of letters, digits, `_` and `-`.
use vstd::prelude::*;
use vstd::string::*;

use crate::error::Error;
use crate::pattern::{compile, is_part_of, regex_compiles, regex_first_group};

verus! {

/// A video id in a watch URL: `youtube.<tld>/watch?...v=<id>`.
pub const WATCH_URL_PATTERN: &'static str =
    r"^(?:https?://)?(?:www\.)?youtube\.\w\w\w?/watch\?.*v=([a-zA-Z0-9_-]{11})";

/// A video id in an embed URL: `youtube.<tld>/embed/<id>`.
pub const EMBED_URL_PATTERN: &'static str =
    r"^(?:https?://)?(?:www\.)?youtube\.\w\w\w?/embed/([a-zA-Z0-9_-]{11})";

/// A video id in a share URL: `youtu.be/<id>`.
pub const SHARE_URL_PATTERN: &'static str = r"^(?:https?://)?youtu\.be/([a-zA-Z0-9_-]{11})";

/// A bare video id.
pub const BARE_ID_PATTERN: &'static str = r"^([a-zA-Z0-9_-]{11})$";

/// The characters that a video id is made of.
pub open spec fn is_id_char(c: char) -> bool {
    ('a' <= c && c <= 'z') || ('A' <= c && c <= 'Z') || ('0' <= c && c <= '9') || c == '_' || c
        == '-'
}

/// Whether `s` is a video id.
pub open spec fn is_video_id(s: Seq<char>) -> bool {
    s.len() == 11 && forall|i: int| 0 <= i < s.len() ==> is_id_char(#[trigger] s[i])
}

/// The patterns that `IdBuf::from_raw` tries, in order.
pub open spec fn id_patterns() -> Seq<Seq<char>> {
    seq![WATCH_URL_PATTERN@, EMBED_URL_PATTERN@, SHARE_URL_PATTERN@, BARE_ID_PATTERN@]
}

/// The text that the first of `patterns` (from index `k` on) that matches
/// `raw` captures as the id.
pub open spec fn id_candidate(patterns: Seq<Seq<char>>, raw: Seq<char>, k: int) -> Option<
    Seq<char>,
>
    decreases patterns.len() - k,
{
    if k < 0 || k >= patterns.len() {
        None
    } else {
        match regex_first_group(patterns[k], raw) {
            Some(g) => Some(g),
            None => id_candidate(patterns, raw, k + 1),
        }
    }
}

/// An owned video id.
#[derive(Debug)]
pub struct IdBuf {
    id: String,
}

impl View for IdBuf {
    type V = Seq<char>;

    closed spec fn view(&self) -> Seq<char> {
        self.id@
    }
}

/// Whether `c` may stand in a video id.
pub fn is_id_character(c: char) -> (r: bool)
    ensures
        r == is_id_char(c),
{
    ('a' <= c && c <= 'z') || ('A' <= c && c <= 'Z') || ('0' <= c && c <= '9') || c == '_' || c
        == '-'
}

impl IdBuf {
    #[verifier::type_invariant]
    spec fn well_formed(self) -> bool {
        is_video_id(self.id@)
    }

    /// Takes `id` as a video id, if it is one.
    pub fn from_string(id: String) -> (r: Option<IdBuf>)
        ensures
            r is Some <==> is_video_id(id@),
            r matches Some(v) ==> v@ == id@,
    {
        let n = id.as_str().unicode_len();
        if n != 11 {
            return None;
        }
        let mut i: usize = 0;
        while i < n
            invariant
                n == id@.len(),
                i <= n,
                forall|j: int| 0 <= j < i ==> is_id_char(#[trigger] id@[j]),
            decreases n - i,
        {
            if !is_id_character(id.as_str().get_char(i)) {
                return None;
            }
            i = i + 1;
        }
        Some(IdBuf { id })
    }

    /// Extracts the video id from a watch, embed or share URL, or takes a bare id.
    pub fn from_raw(raw: &str) -> (r: Result<IdBuf, Error>)
        ensures
            !(forall|k: int| 0 <= k < 4 ==> regex_compiles(#[trigger] id_patterns()[k])) <==> (
            r matches Err(e) && e is InvalidPattern),
            (forall|k: int| 0 <= k < 4 ==> regex_compiles(#[trigger] id_patterns()[k])) ==> (
            match id_candidate(id_patterns(), raw@, 0) {
                Some(g) => if is_video_id(g) {
                    r is Ok && r->Ok_0@ == g
                } else {
                    r == Err::<IdBuf, Error>(Error::BadIdFormat)
                },
                None => r == Err::<IdBuf, Error>(Error::BadIdFormat),
            }),
            r matches Ok(id) ==> is_part_of(id@, raw@),
    {
        let watch = compile(WATCH_URL_PATTERN);
        let embed = compile(EMBED_URL_PATTERN);
        let share = compile(SHARE_URL_PATTERN);
        let bare = compile(BARE_ID_PATTERN);
        let ghost ps = id_patterns();
        assert(ps[0] == WATCH_URL_PATTERN@ && ps[1] == EMBED_URL_PATTERN@ && ps[2]
            == SHARE_URL_PATTERN@ && ps[3] == BARE_ID_PATTERN@);
        let (watch, embed, share, bare) = match (watch, embed, share, bare) {
            (Ok(w), Ok(e), Ok(s), Ok(b)) => (w, e, s, b),
            (Err(e), _, _, _) => return Err(e),
            (_, Err(e), _, _) => return Err(e),
            (_, _, Err(e), _) => return Err(e),
            (_, _, _, Err(e)) => return Err(e),
        };
        assert(regex_compiles(ps[0]) && regex_compiles(ps[1]) && regex_compiles(ps[2])
            && regex_compiles(ps[3]));
        let found = match watch.first_group(raw) {
            Some(g) => Some(g),
            None => match embed.first_group(raw) {
                Some(g) => Some(g),
                None => match share.first_group(raw) {
                    Some(g) => Some(g),
                    None => bare.first_group(raw),
                },
            },
        };
        proof {
            reveal_with_fuel(id_candidate, 5);
        }
        match found {
            Some(g) => match IdBuf::from_string(String::from_str(g)) {
                Some(id) => Ok(id),
                None => Err(Error::BadIdFormat),
            },
            None => Err(Error::BadIdFormat),
        }
    }

    /// The id as text.
    pub fn as_str(&self) -> (r: &str)
        ensures
            r@ == self@,
            is_video_id(r@),
    {
        proof {
            use_type_invariant(self);
        }
        self.id.as_str()
    }

    /// The URL of the video's watch page.
    pub fn watch_url(&self) -> (r: String)
        ensures
            r@ == "https://youtube.com/watch?v="@ + self@,
    {
        let mut url = String::from_str("https://youtube.com/watch?v=");
        url.append(self.id.as_str());
        url
    }

    /// The URL of the video's embed page.
    pub fn embed_url(&self) -> (r: String)
        ensures
            r@ == "https://youtube.com/embed/"@ + self@,
    {
        let mut url = String::from_str("https://youtube.com/embed/");
        url.append(self.id.as_str());
        url
    }
}

impl Clone for IdBuf {
    fn clone(&self) -> (r: IdBuf)
        ensures
            r@ == self@,
    {
        proof {
            use_type_invariant(self);
        }
        IdBuf { id: self.id.clone() }
    }
}

impl PartialEq for IdBuf {
    fn eq(&self, other: &IdBuf) -> (r: bool) {
        self.id == other.id
    }
}

impl vstd::std_specs::cmp::PartialEqSpecImpl for IdBuf {
    open spec fn obeys_eq_spec() -> bool {
        true
    }

    open spec fn eq_spec(&self, other: &IdBuf) -> bool {
        self@ == other@
    }
}

/// The characters of a video id are exactly the 64 ASCII letters, digits,
/// `_` and `-`, by their code points: `0`..=`9`, `A`..=`Z`, `a`..=`z`, `_`, `-`.
pub proof fn law_id_characters(c: char)
    ensures
        is_id_char(c) <==> ((0x30 <= (c as u32) <= 0x39) || (0x41 <= (c as u32) <= 0x5a) || (0x61
            <= (c as u32) <= 0x7a) || (c as u32) == 0x5f || (c as u32) == 0x2d),
{
}

/// A video id is any text of exactly eleven characters out of the ASCII
/// letters, digits, `_` and `-`, and nothing else; `IdBuf::from_string`
/// accepts exactly these.
pub proof fn law_video_ids(s: Seq<char>)
    ensures
        is_video_id(s) <==> (s.len() == 11 && forall|i: int|
            0 <= i < s.len() ==> ((0x30 <= (#[trigger] s[i] as u32) <= 0x39) || (0x41 <= (
            s[i] as u32) <= 0x5a) || (0x61 <= (s[i] as u32) <= 0x7a) || (s[i] as u32) == 0x5f
            || (s[i] as u32) == 0x2d)),
{
    assert forall|i: int| 0 <= i < s.len() implies is_id_char(#[trigger] s[i]) <==> ((0x30 <= (
    s[i] as u32) <= 0x39) || (0x41 <= (s[i] as u32) <= 0x5a) || (0x61 <= (s[i] as u32) <= 0x7a)
        || (s[i] as u32) == 0x5f || (s[i] as u32) == 0x2d) by {
        law_id_characters(s[i]);
    }
}

} // verus!
