//! JSON values as RFC 8259 writes them, and the law that a page extraction
//! returns a valid JSON object whole.
use vstd::prelude::*;

use crate::error::Error;
use crate::json::{
    json_object_in, law_json_object_extracts_well_formed_object, piece_ok, pieces_ok,
    pieces_text, piece_text, is_plain_byte, is_string_body, JsonPiece, BRACE_OPEN, QUOTE,
    BACKSLASH,
};

verus! {

/// A JSON number: `-`? int (`.` digits)? ((`e`|`E`) (`+`|`-`)? digits)?.
pub struct JsonNumber {
    pub negative: bool,
    pub int: Seq<u8>,
    pub frac: Option<Seq<u8>>,
    pub exp: Option<JsonExponent>,
}

/// The exponent of a JSON number.
pub struct JsonExponent {
    pub upper: bool,
    pub sign: Option<bool>,
    pub digits: Seq<u8>,
}

/// A JSON value together with the whitespace written inside it.
pub enum JsonValue {
    Null,
    True,
    False,
    Number(JsonNumber),
    /// A string, by the bytes between its quotes as written.
    Str(Seq<u8>),
    /// The elements, each with the whitespace before and after it; and the
    /// whitespace inside the brackets when there is no element.
    Array(Seq<(Seq<u8>, JsonValue, Seq<u8>)>, Seq<u8>),
    /// The members: whitespace, key (the bytes between its quotes),
    /// whitespace, `:`, whitespace, value, whitespace; and the whitespace
    /// inside the braces when there is no member.
    Object(Seq<(Seq<u8>, Seq<u8>, Seq<u8>, Seq<u8>, JsonValue, Seq<u8>)>, Seq<u8>),
}

pub open spec fn is_digit(c: u8) -> bool {
    0x30 <= c <= 0x39
}

pub open spec fn is_hex_digit(c: u8) -> bool {
    is_digit(c) || (0x41 <= c <= 0x46) || (0x61 <= c <= 0x66)
}

pub open spec fn is_json_whitespace(c: u8) -> bool {
    c == 0x20 || c == 0x09 || c == 0x0a || c == 0x0d
}

pub open spec fn all_whitespace(s: Seq<u8>) -> bool {
    forall|i: int| 0 <= i < s.len() ==> is_json_whitespace(#[trigger] s[i])
}

pub open spec fn all_digits(s: Seq<u8>) -> bool {
    s.len() >= 1 && forall|i: int| 0 <= i < s.len() ==> is_digit(#[trigger] s[i])
}

/// The integer part: `0`, or a nonzero digit followed by digits.
pub open spec fn is_json_int(s: Seq<u8>) -> bool {
    s == seq![0x30u8] || (all_digits(s) && s[0] != 0x30)
}

pub open spec fn number_ok(n: JsonNumber) -> bool {
    &&& is_json_int(n.int)
    &&& (n.frac matches Some(f) ==> all_digits(f))
    &&& (n.exp matches Some(e) ==> all_digits(e.digits))
}

/// The text of a number.
pub open spec fn number_text(n: JsonNumber) -> Seq<u8> {
    (if n.negative {
        seq![0x2du8]
    } else {
        Seq::<u8>::empty()
    }) + n.int + match n.frac {
        Some(f) => seq![0x2eu8] + f,
        None => Seq::<u8>::empty(),
    } + match n.exp {
        Some(e) => seq![if e.upper {
            0x45u8
        } else {
            0x65u8
        }] + match e.sign {
            Some(plus) => seq![if plus {
                0x2bu8
            } else {
                0x2du8
            }],
            None => Seq::<u8>::empty(),
        } + e.digits,
        None => Seq::<u8>::empty(),
    }
}

/// The bytes between the quotes of a JSON string: no control byte, and a
/// quote or backslash only within one of the escapes `\"`, `\\`, `\/`, `\b`,
/// `\f`, `\n`, `\r`, `\t`, `\uXXXX`.
pub open spec fn is_json_string_body(s: Seq<u8>) -> bool
    decreases s.len(),
{
    if s.len() == 0 {
        true
    } else if s[0] == BACKSLASH {
        if s.len() >= 2 && (s[1] == QUOTE || s[1] == BACKSLASH || s[1] == 0x2f || s[1] == 0x62
            || s[1] == 0x66 || s[1] == 0x6e || s[1] == 0x72 || s[1] == 0x74) {
            is_json_string_body(s.subrange(2, s.len() as int))
        } else if s.len() >= 6 && s[1] == 0x75 && is_hex_digit(s[2]) && is_hex_digit(s[3])
            && is_hex_digit(s[4]) && is_hex_digit(s[5]) {
            is_json_string_body(s.subrange(6, s.len() as int))
        } else {
            false
        }
    } else {
        s[0] >= 0x20 && s[0] != QUOTE && is_json_string_body(s.subrange(1, s.len() as int))
    }
}

/// Whether a value is valid JSON.
pub open spec fn json_ok(v: JsonValue) -> bool
    decreases v,
{
    match v {
        JsonValue::Null => true,
        JsonValue::True => true,
        JsonValue::False => true,
        JsonValue::Number(n) => number_ok(n),
        JsonValue::Str(body) => is_json_string_body(body),
        JsonValue::Array(es, ws) => all_whitespace(ws) && elements_ok(es),
        JsonValue::Object(ms, ws) => all_whitespace(ws) && members_ok(ms),
    }
}

pub open spec fn elements_ok(es: Seq<(Seq<u8>, JsonValue, Seq<u8>)>) -> bool
    decreases es,
{
    if es.len() == 0 {
        true
    } else {
        elements_ok(es.drop_last()) && all_whitespace(es.last().0) && json_ok(es.last().1)
            && all_whitespace(es.last().2)
    }
}

pub open spec fn members_ok(ms: Seq<(Seq<u8>, Seq<u8>, Seq<u8>, Seq<u8>, JsonValue, Seq<u8>)>) -> bool
    decreases ms,
{
    if ms.len() == 0 {
        true
    } else {
        let m = ms.last();
        members_ok(ms.drop_last()) && all_whitespace(m.0) && is_json_string_body(m.1)
            && all_whitespace(m.2) && all_whitespace(m.3) && json_ok(m.4) && all_whitespace(m.5)
    }
}

/// Bytes outside strings, one piece each.
pub open spec fn plain(s: Seq<u8>) -> Seq<JsonPiece> {
    s.map_values(|c: u8| JsonPiece::Plain(c))
}

/// The pieces of a value's text.
pub open spec fn value_pieces(v: JsonValue) -> Seq<JsonPiece>
    decreases v,
{
    match v {
        JsonValue::Null => plain(seq![0x6eu8, 0x75, 0x6c, 0x6c]),
        JsonValue::True => plain(seq![0x74u8, 0x72, 0x75, 0x65]),
        JsonValue::False => plain(seq![0x66u8, 0x61, 0x6c, 0x73, 0x65]),
        JsonValue::Number(n) => plain(number_text(n)),
        JsonValue::Str(body) => seq![JsonPiece::Str(body)],
        JsonValue::Array(es, ws) => seq![
            JsonPiece::Array(
                if es.len() == 0 {
                    plain(ws)
                } else {
                    elements_pieces(es)
                },
            ),
        ],
        JsonValue::Object(ms, ws) => seq![
            JsonPiece::Object(
                if ms.len() == 0 {
                    plain(ws)
                } else {
                    members_pieces(ms)
                },
            ),
        ],
    }
}

/// The pieces of the elements of an array, separated by `,`.
pub open spec fn elements_pieces(es: Seq<(Seq<u8>, JsonValue, Seq<u8>)>) -> Seq<JsonPiece>
    decreases es,
{
    if es.len() == 0 {
        seq![]
    } else {
        let e = es.last();
        let last = plain(e.0) + value_pieces(e.1) + plain(e.2);
        if es.len() == 1 {
            last
        } else {
            elements_pieces(es.drop_last()) + seq![JsonPiece::Plain(0x2c)] + last
        }
    }
}

/// The pieces of the members of an object, separated by `,`.
pub open spec fn members_pieces(
    ms: Seq<(Seq<u8>, Seq<u8>, Seq<u8>, Seq<u8>, JsonValue, Seq<u8>)>,
) -> Seq<JsonPiece>
    decreases ms,
{
    if ms.len() == 0 {
        seq![]
    } else {
        let m = ms.last();
        let last = plain(m.0) + seq![JsonPiece::Str(m.1)] + plain(m.2) + seq![
            JsonPiece::Plain(0x3a),
        ] + plain(m.3) + value_pieces(m.4) + plain(m.5);
        if ms.len() == 1 {
            last
        } else {
            members_pieces(ms.drop_last()) + seq![JsonPiece::Plain(0x2c)] + last
        }
    }
}

/// The JSON text of a value.
pub open spec fn json_text(v: JsonValue) -> Seq<u8> {
    pieces_text(value_pieces(v))
}

proof fn lemma_pieces_ok_concat(a: Seq<JsonPiece>, b: Seq<JsonPiece>)
    requires
        pieces_ok(a),
        pieces_ok(b),
    ensures
        pieces_ok(a + b),
    decreases b.len(),
{
    if b.len() == 0 {
        assert(a + b =~= a);
    } else {
        assert((a + b).drop_last() =~= a + b.drop_last());
        assert((a + b).last() == b.last());
        lemma_pieces_ok_concat(a, b.drop_last());
    }
}

proof fn lemma_pieces_ok_one(x: JsonPiece)
    requires
        piece_ok(x),
    ensures
        pieces_ok(seq![x]),
{
    assert(pieces_ok(Seq::<JsonPiece>::empty()));
    assert(seq![x].drop_last() =~= Seq::<JsonPiece>::empty());
    assert(seq![x].last() == x);
}

proof fn lemma_plain_ok(s: Seq<u8>)
    requires
        forall|i: int| 0 <= i < s.len() ==> is_plain_byte(#[trigger] s[i]),
    ensures
        pieces_ok(plain(s)),
    decreases s.len(),
{
    if s.len() == 0 {
        assert(plain(s) =~= Seq::<JsonPiece>::empty());
    } else {
        let d = s.drop_last();
        assert forall|i: int| 0 <= i < d.len() implies is_plain_byte(#[trigger] d[i]) by {
            assert(d[i] == s[i]);
        }
        lemma_plain_ok(d);
        assert(plain(s).drop_last() =~= plain(d));
        assert(is_plain_byte(s[s.len() - 1]));
        assert(plain(s).last() == JsonPiece::Plain(s.last()));
        assert(piece_ok(plain(s).last()));
    }
}

/// The plain pieces of `s` are the text `s`.
pub proof fn lemma_plain_text(s: Seq<u8>)
    ensures
        pieces_text(plain(s)) == s,
    decreases s.len(),
{
    if s.len() == 0 {
        assert(plain(s) =~= Seq::<JsonPiece>::empty());
    } else {
        assert(plain(s).drop_last() =~= plain(s.drop_last()));
        lemma_plain_text(s.drop_last());
        assert(plain(s).last() == JsonPiece::Plain(s.last()));
        assert(piece_text(JsonPiece::Plain(s.last())) == seq![s.last()]);
        assert(s =~= s.drop_last() + seq![s.last()]);
    }
}

/// The text of two runs of pieces is the text of the first, then of the second.
pub proof fn lemma_pieces_text_concat(a: Seq<JsonPiece>, b: Seq<JsonPiece>)
    ensures
        pieces_text(a + b) == pieces_text(a) + pieces_text(b),
    decreases b.len(),
{
    if b.len() == 0 {
        assert(a + b =~= a);
        assert(pieces_text(a) + pieces_text(b) =~= pieces_text(a));
    } else {
        assert((a + b).drop_last() =~= a + b.drop_last());
        assert((a + b).last() == b.last());
        lemma_pieces_text_concat(a, b.drop_last());
        assert(pieces_text(a) + pieces_text(b) =~= pieces_text(a) + pieces_text(b.drop_last())
            + piece_text(b.last()));
    }
}

proof fn lemma_whitespace_ok(s: Seq<u8>)
    requires
        all_whitespace(s),
    ensures
        pieces_ok(plain(s)),
{
    assert forall|i: int| 0 <= i < s.len() implies is_plain_byte(#[trigger] s[i]) by {
        assert(is_json_whitespace(s[i]));
    }
    lemma_plain_ok(s);
}

proof fn lemma_string_body_ok(s: Seq<u8>)
    requires
        is_json_string_body(s),
    ensures
        is_string_body(s),
    decreases s.len(),
{
    if s.len() > 0 {
        if s[0] == BACKSLASH {
            if s.len() >= 2 && (s[1] == QUOTE || s[1] == BACKSLASH || s[1] == 0x2f || s[1] == 0x62
                || s[1] == 0x66 || s[1] == 0x6e || s[1] == 0x72 || s[1] == 0x74) {
                lemma_string_body_ok(s.subrange(2, s.len() as int));
            } else {
                let rest = s.subrange(6, s.len() as int);
                lemma_string_body_ok(rest);
                let t5 = s.subrange(5, s.len() as int);
                let t4 = s.subrange(4, s.len() as int);
                let t3 = s.subrange(3, s.len() as int);
                let t2 = s.subrange(2, s.len() as int);
                assert(t5.subrange(1, t5.len() as int) =~= rest);
                assert(is_string_body(t5));
                assert(t4.subrange(1, t4.len() as int) =~= t5);
                assert(is_string_body(t4));
                assert(t3.subrange(1, t3.len() as int) =~= t4);
                assert(is_string_body(t3));
                assert(t2.subrange(1, t2.len() as int) =~= t3);
                assert(is_string_body(t2));
            }
        } else {
            lemma_string_body_ok(s.subrange(1, s.len() as int));
        }
    }
}

proof fn lemma_number_ok(n: JsonNumber)
    requires
        number_ok(n),
    ensures
        pieces_ok(plain(number_text(n))),
{
    let t = number_text(n);
    assert forall|i: int| 0 <= i < t.len() implies is_plain_byte(#[trigger] t[i]) by {
        let sign = if n.negative {
            seq![0x2du8]
        } else {
            Seq::<u8>::empty()
        };
        let frac = match n.frac {
            Some(f) => seq![0x2eu8] + f,
            None => Seq::<u8>::empty(),
        };
        let exp = match n.exp {
            Some(e) => seq![if e.upper {
                0x45u8
            } else {
                0x65u8
            }] + match e.sign {
                Some(plus) => seq![if plus {
                    0x2bu8
                } else {
                    0x2du8
                }],
                None => Seq::<u8>::empty(),
            } + e.digits,
            None => Seq::<u8>::empty(),
        };
        assert(t == sign + n.int + frac + exp);
        if i < sign.len() {
        } else if i < sign.len() + n.int.len() {
            assert(is_digit(n.int[i - sign.len()]));
        } else if i < sign.len() + n.int.len() + frac.len() {
            let k = i - sign.len() - n.int.len();
            if k > 0 {
                assert(is_digit(n.frac->Some_0[k - 1]));
            }
        } else {
            let k = i - sign.len() - n.int.len() - frac.len();
            let e = n.exp->Some_0;
            let sl: int = if e.sign is Some {
                1
            } else {
                0
            };
            if k > sl {
                assert(is_digit(e.digits[k - 1 - sl]));
            }
        }
    }
    lemma_plain_ok(t);
}

proof fn lemma_value_ok(v: JsonValue)
    requires
        json_ok(v),
    ensures
        pieces_ok(value_pieces(v)),
    decreases v,
{
    match v {
        JsonValue::Null => {
            lemma_plain_ok(seq![0x6eu8, 0x75, 0x6c, 0x6c]);
        },
        JsonValue::True => {
            lemma_plain_ok(seq![0x74u8, 0x72, 0x75, 0x65]);
        },
        JsonValue::False => {
            lemma_plain_ok(seq![0x66u8, 0x61, 0x6c, 0x73, 0x65]);
        },
        JsonValue::Number(n) => {
            lemma_number_ok(n);
        },
        JsonValue::Str(body) => {
            lemma_string_body_ok(body);
            lemma_pieces_ok_one(JsonPiece::Str(body));
        },
        JsonValue::Array(es, ws) => {
            if es.len() == 0 {
                lemma_whitespace_ok(ws);
            } else {
                lemma_elements_ok(es);
            }
            let inner = if es.len() == 0 {
                plain(ws)
            } else {
                elements_pieces(es)
            };
            assert(piece_ok(JsonPiece::Array(inner)));
            lemma_pieces_ok_one(JsonPiece::Array(inner));
        },
        JsonValue::Object(ms, ws) => {
            if ms.len() == 0 {
                lemma_whitespace_ok(ws);
            } else {
                lemma_members_ok(ms);
            }
            let inner = if ms.len() == 0 {
                plain(ws)
            } else {
                members_pieces(ms)
            };
            assert(piece_ok(JsonPiece::Object(inner)));
            lemma_pieces_ok_one(JsonPiece::Object(inner));
        },
    }
}

proof fn lemma_separator_ok()
    ensures
        pieces_ok(seq![JsonPiece::Plain(0x2c)]),
        pieces_ok(seq![JsonPiece::Plain(0x3a)]),
{
    lemma_pieces_ok_one(JsonPiece::Plain(0x2c));
    lemma_pieces_ok_one(JsonPiece::Plain(0x3a));
}

proof fn lemma_elements_ok(es: Seq<(Seq<u8>, JsonValue, Seq<u8>)>)
    requires
        elements_ok(es),
    ensures
        pieces_ok(elements_pieces(es)),
    decreases es,
{
    if es.len() > 0 {
        let e = es.last();
        lemma_whitespace_ok(e.0);
        lemma_value_ok(e.1);
        lemma_whitespace_ok(e.2);
        lemma_pieces_ok_concat(plain(e.0), value_pieces(e.1));
        lemma_pieces_ok_concat(plain(e.0) + value_pieces(e.1), plain(e.2));
        if es.len() > 1 {
            lemma_elements_ok(es.drop_last());
            lemma_separator_ok();
            lemma_pieces_ok_concat(elements_pieces(es.drop_last()), seq![JsonPiece::Plain(0x2c)]);
            lemma_pieces_ok_concat(
                elements_pieces(es.drop_last()) + seq![JsonPiece::Plain(0x2c)],
                plain(e.0) + value_pieces(e.1) + plain(e.2),
            );
        }
    }
}

proof fn lemma_members_ok(ms: Seq<(Seq<u8>, Seq<u8>, Seq<u8>, Seq<u8>, JsonValue, Seq<u8>)>)
    requires
        members_ok(ms),
    ensures
        pieces_ok(members_pieces(ms)),
    decreases ms,
{
    if ms.len() > 0 {
        let m = ms.last();
        lemma_whitespace_ok(m.0);
        lemma_string_body_ok(m.1);
        lemma_pieces_ok_one(JsonPiece::Str(m.1));
        lemma_whitespace_ok(m.2);
        lemma_separator_ok();
        lemma_whitespace_ok(m.3);
        lemma_value_ok(m.4);
        lemma_whitespace_ok(m.5);
        let a = plain(m.0);
        let b = a + seq![JsonPiece::Str(m.1)];
        let c = b + plain(m.2);
        let d = c + seq![JsonPiece::Plain(0x3a)];
        let e = d + plain(m.3);
        let f = e + value_pieces(m.4);
        lemma_pieces_ok_concat(a, seq![JsonPiece::Str(m.1)]);
        lemma_pieces_ok_concat(b, plain(m.2));
        lemma_pieces_ok_concat(c, seq![JsonPiece::Plain(0x3a)]);
        lemma_pieces_ok_concat(d, plain(m.3));
        lemma_pieces_ok_concat(e, value_pieces(m.4));
        lemma_pieces_ok_concat(f, plain(m.5));
        if ms.len() > 1 {
            lemma_members_ok(ms.drop_last());
            lemma_pieces_ok_concat(members_pieces(ms.drop_last()), seq![JsonPiece::Plain(0x2c)]);
            lemma_pieces_ok_concat(
                members_pieces(ms.drop_last()) + seq![JsonPiece::Plain(0x2c)],
                f + plain(m.5),
            );
        }
    }
}

/// A valid JSON object, after text that holds no `{` and before any text,
/// is extracted whole: exactly its text, from its `{` to its `}`.
pub proof fn law_json_object_extracts_valid_json_object(
    p: Seq<u8>,
    ms: Seq<(Seq<u8>, Seq<u8>, Seq<u8>, Seq<u8>, JsonValue, Seq<u8>)>,
    ws: Seq<u8>,
    t: Seq<u8>,
)
    requires
        forall|k: int| 0 <= k < p.len() ==> p[k] != BRACE_OPEN,
        json_ok(JsonValue::Object(ms, ws)),
    ensures
        json_object_in(p + json_text(JsonValue::Object(ms, ws)) + t) == Ok::<(int, int), Error>(
            (p.len() as int, (p.len() + json_text(JsonValue::Object(ms, ws)).len()) as int),
        ),
{
    let v = JsonValue::Object(ms, ws);
    lemma_value_ok(v);
    let inner = if ms.len() == 0 {
        plain(ws)
    } else {
        members_pieces(ms)
    };
    let one = seq![JsonPiece::Object(inner)];
    assert(value_pieces(v) == one);
    assert(pieces_text(Seq::<JsonPiece>::empty()) == Seq::<u8>::empty());
    assert(one.drop_last() =~= Seq::<JsonPiece>::empty());
    assert(one.last() == JsonPiece::Object(inner));
    assert(pieces_text(one) =~= piece_text(JsonPiece::Object(inner)));
    assert(pieces_ok(one));
    assert(piece_ok(one.last()));
    assert(pieces_ok(inner));
    law_json_object_extracts_well_formed_object(p, inner, t);
}

} // verus!
