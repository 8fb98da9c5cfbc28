//! Locating one JSON object inside a larger text (an HTML page), by tracking
//! the nesting of objects, arrays and strings byte by byte.
use vstd::prelude::*;
use vstd::utf8::*;
use vstd::string::*;

use crate::error::Error;

verus! {

broadcast use vstd::utf8::encode_utf8_valid_utf8;

/// The byte of `{`.
pub const BRACE_OPEN: u8 = 0x7b;
/// The byte of `}`.
pub const BRACE_CLOSE: u8 = 0x7d;
/// The byte of `[`.
pub const BRACKET_OPEN: u8 = 0x5b;
/// The byte of `]`.
pub const BRACKET_CLOSE: u8 = 0x5d;
/// The byte of `"`.
pub const QUOTE: u8 = 0x22;
/// The byte of a backslash.
pub const BACKSLASH: u8 = 0x5c;

/// The state that the scanner carries from byte to byte: whether the next
/// byte is escaped, and the stack of delimiters that are still open.
pub open spec fn scan_step(skip: bool, stack: Seq<u8>, c: u8) -> (bool, Seq<u8>) {
    if skip {
        (false, stack)
    } else {
        let context = stack.last();
        if (c == BRACE_CLOSE && context == BRACE_OPEN) || (c == BRACKET_CLOSE && context == BRACKET_OPEN) || (c == QUOTE
            && context == QUOTE) {
            (false, stack.subrange(0, stack.len() - 1))
        } else if c == BACKSLASH && context == QUOTE {
            (true, stack)
        } else if c == BRACE_OPEN && context != QUOTE {
            (false, stack.push(BRACE_OPEN))
        } else if c == BRACKET_OPEN && context != QUOTE {
            (false, stack.push(BRACKET_OPEN))
        } else if c == QUOTE && context != QUOTE {
            (false, stack.push(QUOTE))
        } else {
            (false, stack)
        }
    }
}

/// Whether processing `c` in the given state closes the outermost delimiter.
pub open spec fn closes_with(skip: bool, stack: Seq<u8>, c: u8) -> bool {
    !skip && scan_step(skip, stack, c).1.len() == 0
}

/// The scanner state after the bytes strictly between `open` and `end`,
/// starting from the object opened at `open`.
pub open spec fn scan(b: Seq<u8>, open: int, end: int) -> (bool, Seq<u8>)
    decreases end - open,
{
    if end <= open + 1 {
        (false, seq![BRACE_OPEN])
    } else {
        let prev = scan(b, open, end - 1);
        scan_step(prev.0, prev.1, b[end - 1])
    }
}

/// Whether the byte at `i` closes the object opened at `open`.
pub open spec fn closes_at(b: Seq<u8>, open: int, i: int) -> bool {
    let st = scan(b, open, i);
    closes_with(st.0, st.1, b[i])
}

/// The first index at or after `i` at which the object opened at `open` closes.
pub open spec fn first_close_from(b: Seq<u8>, open: int, i: int) -> Option<int>
    decreases b.len() - i,
{
    if i < 0 || i >= b.len() {
        None
    } else if closes_at(b, open, i) {
        Some(i)
    } else {
        first_close_from(b, open, i + 1)
    }
}

/// The first index at or after `i` that holds the byte `x`.
pub open spec fn first_index_of(b: Seq<u8>, x: u8, i: int) -> Option<int>
    decreases b.len() - i,
{
    if i < 0 || i >= b.len() {
        None
    } else if b[i] == x {
        Some(i)
    } else {
        first_index_of(b, x, i + 1)
    }
}

/// The outcome of extracting the first complete JSON object of `b`: where it
/// stands (it opens at the first `{` and ends just after the byte that
/// closes it), or why there is none.
pub open spec fn json_object_in(b: Seq<u8>) -> Result<(int, int), Error> {
    match first_index_of(b, BRACE_OPEN, 0) {
        None => Err(Error::Internal("cannot parse a json object from an empty string")),
        Some(open) => match first_close_from(b, open, open + 1) {
            None => Err(Error::Internal("could not find a closing delimiter")),
            Some(close) => Ok((open, close + 1)),
        },
    }
}

/// Where the first complete JSON object of `b` stands, if there is one.
pub open spec fn json_object_span(b: Seq<u8>) -> Option<(int, int)> {
    match json_object_in(b) {
        Ok(span) => Some(span),
        Err(_) => None,
    }
}

/// Processes one byte of a JSON text: updates whether the next byte is
/// escaped and the stack of open delimiters, and reports whether the
/// outermost delimiter has just been closed.
pub fn find_json_object(curr_char: u8, skip: &mut bool, stack: &mut Vec<u8>) -> (closed: bool)
    requires
        !*old(skip) ==> old(stack)@.len() > 0,
    ensures
        (*final(skip), final(stack)@) == scan_step(*old(skip), old(stack)@, curr_char),
        closed == closes_with(*old(skip), old(stack)@, curr_char),
        *old(skip) ==> !closed && final(stack)@ == old(stack)@ && !*final(skip),
{
    if *skip {
        *skip = false;
        return false;
    }
    let context = stack[stack.len() - 1];

    if curr_char == BRACE_CLOSE && context == BRACE_OPEN {
        stack.pop();
    } else if curr_char == BRACKET_CLOSE && context == BRACKET_OPEN {
        stack.pop();
    } else if curr_char == QUOTE && context == QUOTE {
        stack.pop();
    } else if curr_char == BACKSLASH && context == QUOTE {
        *skip = true;
    } else if curr_char == BRACE_OPEN && context != QUOTE {
        stack.push(BRACE_OPEN);
    } else if curr_char == BRACKET_OPEN && context != QUOTE {
        stack.push(BRACKET_OPEN);
    } else if curr_char == QUOTE && context != QUOTE {
        stack.push(QUOTE);
    }
    stack.len() == 0
}

/// A byte below 0x80 in valid UTF-8 is a whole character, so the index
/// right after it is a character boundary.
proof fn lemma_boundary_after_ascii(bytes: Seq<u8>, i: int)
    requires
        valid_utf8(bytes),
        0 <= i < bytes.len(),
        bytes[i] < 0x80,
    ensures
        is_char_boundary(bytes, i + 1),
    decreases bytes.len(),
{
    let l = length_of_first_scalar(bytes);
    let tail = pop_first_scalar(bytes);
    assert(valid_first_scalar(bytes) && valid_utf8(tail));
    assert(tail.len() == bytes.len() - l);
    assert(is_char_boundary(bytes, i + 1) == is_char_boundary(tail, i + 1 - l));
    if i < l {
        assert(i == 0 && l == 1);
        assert(is_char_boundary(tail, 0));
    } else {
        assert(tail[i - l] == bytes[i]);
        lemma_boundary_after_ascii(tail, i - l);
    }
}

/// Returns the first complete JSON object in `html`: the text from its first
/// `{` up to and including the delimiter that closes it.
pub fn json_object(html: &str) -> (r: Result<&str, Error>)
    ensures
        match json_object_in(html.spec_bytes()) {
            Ok((start, end)) => r is Ok && r->Ok_0.spec_bytes() == html.spec_bytes().subrange(
                start,
                end,
            ),
            Err(e) => r == Err::<&str, Error>(e),
        },
        r matches Ok(obj) ==> {
            &&& obj.spec_bytes().len() >= 2
            &&& obj.spec_bytes()[0] == BRACE_OPEN
            &&& obj.spec_bytes().last() == BRACE_CLOSE
        },
{
    let bytes = html.as_bytes();
    let ghost b = html.spec_bytes();
    let len = bytes.len();

    let mut start: usize = 0;
    while start < len && bytes[start] != BRACE_OPEN
        invariant
            bytes@ == b,
            len == b.len(),
            start <= len,
            first_index_of(b, BRACE_OPEN, 0) == first_index_of(b, BRACE_OPEN, start as int),
        decreases len - start,
    {
        start = start + 1;
    }
    if start == len {
        return Err(Error::Internal("cannot parse a json object from an empty string"));
    }

    let mut stack: Vec<u8> = Vec::new();
    stack.push(BRACE_OPEN);
    let mut skip = false;
    let mut i: usize = start + 1;
    let mut found = false;
    while i < len
        invariant_except_break
            !found,
            (skip, stack@) == scan(b, start as int, i as int),
            stack@.len() > 0,
        invariant
            bytes@ == b,
            len == b.len(),
            start < len,
            b[start as int] == BRACE_OPEN,
            start < i <= len,
            stack@.len() > 0 ==> stack@[0] == BRACE_OPEN,
            first_index_of(b, BRACE_OPEN, 0) == Some(start as int),
            !found ==> first_close_from(b, start as int, start + 1) == first_close_from(
                b,
                start as int,
                i as int,
            ),
            found ==> first_close_from(b, start as int, start + 1) == Some(i as int) && i < len
                && b[i as int] == BRACE_CLOSE,
        ensures
            found || i == len,
        decreases len - i,
    {
        let ghost prev = stack@;
        if find_json_object(bytes[i], &mut skip, &mut stack) {
            assert(prev.len() == 1);
            found = true;
            break;
        }
        i = i + 1;
    }
    if !found {
        return Err(Error::Internal("could not find a closing delimiter"));
    }
    proof {
        encode_utf8_valid_utf8(html@);
        is_char_boundary_iff_not_is_continuation_byte(b, start as int);
    }
    let (_, from_open) = html.split_at(start);
    let ghost rest = from_open.spec_bytes();
    assert(rest =~= b.subrange(start as int, len as int));
    proof {
        encode_utf8_valid_utf8(from_open@);
        lemma_boundary_after_ascii(rest, (i - start) as int);
    }
    let (obj, _) = from_open.split_at(i - start + 1);
    assert(obj.spec_bytes() =~= b.subrange(start as int, i + 1));
    Ok(obj)
}


proof fn lemma_first_index_of(b: Seq<u8>, x: u8, i: int)
    ensures
        first_index_of(b, x, i) matches Some(k) ==> 0 <= i <= k < b.len() && b[k] == x,
    decreases b.len() - i,
{
    if 0 <= i < b.len() && b[i] != x {
        lemma_first_index_of(b, x, i + 1);
    }
}

proof fn lemma_first_close_from(b: Seq<u8>, open: int, i: int)
    ensures
        first_close_from(b, open, i) matches Some(c) ==> {
            &&& 0 <= i <= c < b.len()
            &&& closes_at(b, open, c)
            &&& forall|j: int| i <= j < c ==> !closes_at(b, open, j)
        },
    decreases b.len() - i,
{
    if 0 <= i < b.len() && !closes_at(b, open, i) {
        lemma_first_close_from(b, open, i + 1);
    }
}

proof fn lemma_scan_shift(b: Seq<u8>, open: int, end: int, k: int)
    requires
        0 <= open < end <= b.len(),
        0 <= k <= end - open,
    ensures
        scan(b.subrange(open, end), 0, k) == scan(b, open, open + k),
    decreases k,
{
    if k > 1 {
        lemma_scan_shift(b, open, end, k - 1);
    }
}

proof fn lemma_first_close_shift(b: Seq<u8>, open: int, end: int, j: int)
    requires
        0 <= open < end <= b.len(),
        first_close_from(b, open, open + 1) == Some(end - 1),
        1 <= j <= end - 1 - open,
    ensures
        first_close_from(b.subrange(open, end), 0, j) == Some(end - 1 - open),
    decreases end - 1 - open - j,
{
    let r = b.subrange(open, end);
    lemma_first_close_from(b, open, open + 1);
    lemma_scan_shift(b, open, end, j);
    assert(r[j] == b[open + j]);
    assert(closes_at(r, 0, j) == closes_at(b, open, open + j));
    if j < end - 1 - open {
        lemma_first_close_shift(b, open, end, j + 1);
    }
}

/// Extracting a JSON object from a text that is itself an extracted object
/// gives that whole object back.
pub proof fn law_json_object_idempotent(b: Seq<u8>)
    requires
        json_object_span(b) is Some,
    ensures
        ({
            let (start, end) = json_object_span(b)->Some_0;
            json_object_span(b.subrange(start, end)) == Some((0int, end - start))
        }),
{
    let (start, end) = json_object_span(b)->Some_0;
    lemma_first_index_of(b, BRACE_OPEN, 0);
    let close = end - 1;
    lemma_first_close_from(b, start, start + 1);
    let r = b.subrange(start, end);
    assert(r[0] == BRACE_OPEN);
    assert(first_index_of(r, BRACE_OPEN, 0) == Some(0int));
    lemma_first_close_shift(b, start, end, 1);
}

proof fn lemma_first_index_of_extend(b: Seq<u8>, x: Seq<u8>, c: u8, i: int)
    requires
        first_index_of(b, c, i) is Some,
    ensures
        first_index_of(b + x, c, i) == first_index_of(b, c, i),
    decreases b.len() - i,
{
    if 0 <= i < b.len() && b[i] != c {
        lemma_first_index_of_extend(b, x, c, i + 1);
    }
}

proof fn lemma_scan_extend(b: Seq<u8>, x: Seq<u8>, open: int, k: int)
    requires
        0 <= open,
        k <= b.len(),
    ensures
        scan(b + x, open, k) == scan(b, open, k),
    decreases k - open,
{
    if k > open + 1 {
        lemma_scan_extend(b, x, open, k - 1);
    }
}

proof fn lemma_first_close_extend(b: Seq<u8>, x: Seq<u8>, open: int, i: int)
    requires
        0 <= open,
        first_close_from(b, open, i) is Some,
    ensures
        first_close_from(b + x, open, i) == first_close_from(b, open, i),
    decreases b.len() - i,
{
    if 0 <= i < b.len() {
        lemma_scan_extend(b, x, open, i);
        assert((b + x)[i] == b[i]);
        if !closes_at(b, open, i) {
            lemma_first_close_extend(b, x, open, i + 1);
        }
    }
}

/// Text that follows a complete JSON object does not change which object is
/// extracted.
pub proof fn law_json_object_ignores_trailing_text(b: Seq<u8>, x: Seq<u8>)
    requires
        json_object_span(b) is Some,
    ensures
        json_object_span(b + x) == json_object_span(b),
{
    lemma_first_index_of(b, BRACE_OPEN, 0);
    lemma_first_index_of_extend(b, x, BRACE_OPEN, 0);
    let start = first_index_of(b, BRACE_OPEN, 0)->Some_0;
    lemma_first_close_extend(b, x, start, start + 1);
}

/// The span of an extracted object lies within the text, and is not empty.
pub proof fn lemma_json_object_in_bounds(b: Seq<u8>)
    ensures
        json_object_in(b) matches Ok((s, t)) ==> 0 <= s < t <= b.len(),
{
    lemma_first_index_of(b, BRACE_OPEN, 0);
    if let Some(open) = first_index_of(b, BRACE_OPEN, 0) {
        lemma_first_close_from(b, open, open + 1);
    }
}

/// An index moved right by `d`, if there is one.
pub open spec fn shift_index(i: Option<int>, d: int) -> Option<int> {
    match i {
        Some(k) => Some(k + d),
        None => None,
    }
}

proof fn lemma_first_index_of_shift(p: Seq<u8>, b: Seq<u8>, x: u8, i: int)
    requires
        0 <= i,
    ensures
        first_index_of(p + b, x, p.len() + i) == shift_index(first_index_of(b, x, i), p.len() as int),
    decreases b.len() - i,
{
    if i < b.len() {
        assert((p + b)[p.len() + i] == b[i]);
        if b[i] != x {
            lemma_first_index_of_shift(p, b, x, i + 1);
        }
    }
}

proof fn lemma_first_index_of_prefix(p: Seq<u8>, b: Seq<u8>, x: u8, i: int)
    requires
        forall|k: int| 0 <= k < p.len() ==> p[k] != x,
        0 <= i <= p.len(),
    ensures
        first_index_of(p + b, x, i) == shift_index(first_index_of(b, x, 0), p.len() as int),
    decreases p.len() - i,
{
    if i < p.len() {
        assert((p + b)[i] == p[i]);
        lemma_first_index_of_prefix(p, b, x, i + 1);
    } else {
        lemma_first_index_of_shift(p, b, x, 0);
    }
}

proof fn lemma_scan_prefix(p: Seq<u8>, b: Seq<u8>, open: int, k: int)
    requires
        0 <= open,
        k <= b.len(),
    ensures
        scan(p + b, p.len() + open, p.len() + k) == scan(b, open, k),
    decreases k - open,
{
    if k > open + 1 {
        lemma_scan_prefix(p, b, open, k - 1);
        assert((p + b)[p.len() + k - 1] == b[k - 1]);
    }
}

proof fn lemma_first_close_prefix(p: Seq<u8>, b: Seq<u8>, open: int, i: int)
    requires
        0 <= open,
        0 <= i,
    ensures
        first_close_from(p + b, p.len() + open, p.len() + i) == shift_index(
            first_close_from(b, open, i),
            p.len() as int,
        ),
    decreases b.len() - i,
{
    if i < b.len() {
        lemma_scan_prefix(p, b, open, i);
        assert((p + b)[p.len() + i] == b[i]);
        if !closes_at(b, open, i) {
            lemma_first_close_prefix(p, b, open, i + 1);
        }
    }
}

/// Text before the object that holds no `{` does not change the outcome of
/// an extraction: the object found (or the error) is the same, only moved.
pub proof fn law_json_object_ignores_leading_text(p: Seq<u8>, b: Seq<u8>)
    requires
        forall|k: int| 0 <= k < p.len() ==> p[k] != BRACE_OPEN,
    ensures
        json_object_in(p + b) == match json_object_in(b) {
            Ok((s, t)) => Ok((s + p.len(), t + p.len())),
            Err(e) => Err(e),
        },
{
    lemma_first_index_of_prefix(p, b, BRACE_OPEN, 0);
    lemma_first_index_of(b, BRACE_OPEN, 0);
    if let Some(open) = first_index_of(b, BRACE_OPEN, 0) {
        lemma_first_close_prefix(p, b, open, open + 1);
    }
}

/// Text before the object that holds no `{`, and any text after a complete
/// object, do not change which object is extracted.
pub proof fn law_json_object_ignores_surrounding_text(p: Seq<u8>, h: Seq<u8>, t: Seq<u8>)
    requires
        forall|k: int| 0 <= k < p.len() ==> p[k] != BRACE_OPEN,
        json_object_span(h) is Some,
    ensures
        json_object_span(p + h + t) == Some(
            (json_object_span(h)->Some_0.0 + p.len(), json_object_span(h)->Some_0.1 + p.len()),
        ),
{
    law_json_object_ignores_trailing_text(h, t);
    law_json_object_ignores_leading_text(p, h + t);
    assert(p + h + t =~= p + (h + t));
}

/// A piece of JSON text as the nesting of objects, arrays and strings
/// shows it. Every valid JSON object is the text of an `Object` whose
/// pieces are well formed: each string is a `Str`, and every other byte
/// outside strings (whitespace, digits, the letters of `true`, `false` and
/// `null`, `,`, `:`, `-`, `+`, `.`) is a `Plain`.
pub enum JsonPiece {
    /// One byte outside strings that opens or closes nothing.
    Plain(u8),
    /// A string, given by the bytes between its quotes as written.
    Str(Seq<u8>),
    /// `{`, the pieces inside, `}`.
    Object(Seq<JsonPiece>),
    /// `[`, the pieces inside, `]`.
    Array(Seq<JsonPiece>),
}

/// A byte that may stand outside strings without opening or closing anything.
pub open spec fn is_plain_byte(c: u8) -> bool {
    c != BRACE_OPEN && c != BRACE_CLOSE && c != BRACKET_OPEN && c != BRACKET_CLOSE && c != QUOTE
}

/// The bytes between the quotes of a string: a quote appears only escaped,
/// and every backslash escapes the byte after it.
pub open spec fn is_string_body(s: Seq<u8>) -> bool
    decreases s.len(),
{
    if s.len() == 0 {
        true
    } else if s[0] == BACKSLASH {
        s.len() >= 2 && is_string_body(s.subrange(2, s.len() as int))
    } else {
        s[0] != QUOTE && is_string_body(s.subrange(1, s.len() as int))
    }
}

/// The text of a piece.
pub open spec fn piece_text(p: JsonPiece) -> Seq<u8>
    decreases p,
{
    match p {
        JsonPiece::Plain(c) => seq![c],
        JsonPiece::Str(body) => seq![QUOTE] + body + seq![QUOTE],
        JsonPiece::Object(ps) => seq![BRACE_OPEN] + pieces_text(ps) + seq![BRACE_CLOSE],
        JsonPiece::Array(ps) => seq![BRACKET_OPEN] + pieces_text(ps) + seq![BRACKET_CLOSE],
    }
}

/// The text of a sequence of pieces, one after the other.
pub open spec fn pieces_text(ps: Seq<JsonPiece>) -> Seq<u8>
    decreases ps,
{
    if ps.len() == 0 {
        seq![]
    } else {
        pieces_text(ps.drop_last()) + piece_text(ps.last())
    }
}

/// Whether a piece, and every piece inside it, is well formed.
pub open spec fn piece_ok(p: JsonPiece) -> bool
    decreases p,
{
    match p {
        JsonPiece::Plain(c) => is_plain_byte(c),
        JsonPiece::Str(body) => is_string_body(body),
        JsonPiece::Object(ps) => pieces_ok(ps),
        JsonPiece::Array(ps) => pieces_ok(ps),
    }
}

/// Whether every piece of a sequence is well formed.
pub open spec fn pieces_ok(ps: Seq<JsonPiece>) -> bool
    decreases ps,
{
    if ps.len() == 0 {
        true
    } else {
        pieces_ok(ps.drop_last()) && piece_ok(ps.last())
    }
}

/// The scanner state after the bytes `bytes`, starting from `st`.
pub open spec fn run(st: (bool, Seq<u8>), bytes: Seq<u8>) -> (bool, Seq<u8>)
    decreases bytes.len(),
{
    if bytes.len() == 0 {
        st
    } else {
        let prev = run(st, bytes.drop_last());
        scan_step(prev.0, prev.1, bytes.last())
    }
}

/// Whether no prefix of `bytes` takes the stack below `n` delimiters.
pub open spec fn stays_open(st: (bool, Seq<u8>), bytes: Seq<u8>, n: int) -> bool {
    forall|k: int| 0 <= k <= bytes.len() ==> #[trigger] run(st, bytes.take(k)).1.len() >= n
}

proof fn lemma_run_concat(st: (bool, Seq<u8>), a: Seq<u8>, b: Seq<u8>)
    ensures
        run(st, a + b) == run(run(st, a), b),
    decreases b.len(),
{
    if b.len() == 0 {
        assert(a + b =~= a);
    } else {
        assert((a + b).drop_last() =~= a + b.drop_last());
        lemma_run_concat(st, a, b.drop_last());
    }
}

proof fn lemma_stays_open_concat(st: (bool, Seq<u8>), a: Seq<u8>, b: Seq<u8>, n: int)
    requires
        stays_open(st, a, n),
        stays_open(run(st, a), b, n),
    ensures
        stays_open(st, a + b, n),
{
    assert forall|k: int| 0 <= k <= (a + b).len() implies #[trigger] run(st, (a + b).take(k)).1.len()
        >= n by {
        if k <= a.len() {
            assert((a + b).take(k) =~= a.take(k));
        } else {
            assert((a + b).take(k) =~= a + b.take(k - a.len()));
            lemma_run_concat(st, a, b.take(k - a.len()));
        }
    }
}

proof fn lemma_run_one(st: (bool, Seq<u8>), c: u8, n: int)
    ensures
        run(st, seq![c]) == scan_step(st.0, st.1, c),
        stays_open(st, seq![c], n) <== st.1.len() >= n && scan_step(st.0, st.1, c).1.len() >= n,
{
    let e = Seq::<u8>::empty();
    assert(run(st, e) == st);
    assert(seq![c].drop_last() =~= e);
    assert(seq![c].last() == c);
    assert(run(st, seq![c]) == scan_step(st.0, st.1, c));
    assert(seq![c].take(0) =~= e);
    assert(seq![c].take(1) =~= seq![c]);
    if st.1.len() >= n && scan_step(st.0, st.1, c).1.len() >= n {
        assert forall|k: int| 0 <= k <= seq![c].len() implies #[trigger] run(
            st,
            seq![c].take(k),
        ).1.len() >= n by {
            if k == 0 {
                assert(seq![c].take(k) =~= e);
            } else {
                assert(seq![c].take(k) =~= seq![c]);
            }
        }
    }
}

proof fn lemma_string_body(stack: Seq<u8>, body: Seq<u8>)
    requires
        stack.len() >= 1,
        stack.last() == QUOTE,
        is_string_body(body),
    ensures
        run((false, stack), body) == (false, stack),
        stays_open((false, stack), body, stack.len() as int),
    decreases body.len(),
{
    let st = (false, stack);
    if body.len() == 0 {
        assert(body.take(0) =~= body);
    } else if body[0] == BACKSLASH {
        let rest = body.subrange(2, body.len() as int);
        lemma_string_body(stack, rest);
        lemma_run_one(st, BACKSLASH, stack.len() as int);
        lemma_run_one((true, stack), body[1], stack.len() as int);
        assert(seq![BACKSLASH, body[1]] =~= seq![BACKSLASH] + seq![body[1]]);
        lemma_run_concat(st, seq![BACKSLASH], seq![body[1]]);
        lemma_stays_open_concat(st, seq![BACKSLASH], seq![body[1]], stack.len() as int);
        assert(body =~= seq![BACKSLASH, body[1]] + rest);
        lemma_run_concat(st, seq![BACKSLASH, body[1]], rest);
        lemma_stays_open_concat(st, seq![BACKSLASH, body[1]], rest, stack.len() as int);
    } else {
        let rest = body.subrange(1, body.len() as int);
        lemma_string_body(stack, rest);
        lemma_run_one(st, body[0], stack.len() as int);
        assert(body =~= seq![body[0]] + rest);
        lemma_run_concat(st, seq![body[0]], rest);
        lemma_stays_open_concat(st, seq![body[0]], rest, stack.len() as int);
    }
}

proof fn lemma_delimited(stack: Seq<u8>, open: u8, inner: Seq<u8>, close: u8)
    requires
        stack.len() >= 1,
        stack.last() != QUOTE,
        open == BRACE_OPEN || open == BRACKET_OPEN || open == QUOTE,
        close == if open == BRACE_OPEN {
            BRACE_CLOSE
        } else if open == BRACKET_OPEN {
            BRACKET_CLOSE
        } else {
            QUOTE
        },
        run((false, stack.push(open)), inner) == (false, stack.push(open)),
        stays_open((false, stack.push(open)), inner, stack.len() + 1int),
    ensures
        run((false, stack), seq![open] + inner + seq![close]) == (false, stack),
        stays_open((false, stack), seq![open] + inner + seq![close], stack.len() as int),
{
    let st = (false, stack);
    let inside = (false, stack.push(open));
    lemma_run_one(st, open, stack.len() as int);
    assert(run(st, seq![open]) == inside);
    lemma_run_one(inside, close, stack.len() as int);
    assert(stack.push(open).subrange(0, stack.len() as int) =~= stack);
    assert(run(inside, seq![close]) == st);
    assert(stays_open(inside, inner, stack.len() as int));
    lemma_run_concat(st, seq![open], inner);
    lemma_stays_open_concat(st, seq![open], inner, stack.len() as int);
    lemma_run_concat(st, seq![open] + inner, seq![close]);
    lemma_stays_open_concat(st, seq![open] + inner, seq![close], stack.len() as int);
}

proof fn lemma_piece(stack: Seq<u8>, p: JsonPiece)
    requires
        stack.len() >= 1,
        stack.last() != QUOTE,
        piece_ok(p),
    ensures
        run((false, stack), piece_text(p)) == (false, stack),
        stays_open((false, stack), piece_text(p), stack.len() as int),
    decreases p,
{
    match p {
        JsonPiece::Plain(c) => {
            lemma_run_one((false, stack), c, stack.len() as int);
        },
        JsonPiece::Str(body) => {
            lemma_string_body(stack.push(QUOTE), body);
            lemma_delimited(stack, QUOTE, body, QUOTE);
        },
        JsonPiece::Object(ps) => {
            lemma_pieces(stack.push(BRACE_OPEN), ps);
            lemma_delimited(stack, BRACE_OPEN, pieces_text(ps), BRACE_CLOSE);
        },
        JsonPiece::Array(ps) => {
            lemma_pieces(stack.push(BRACKET_OPEN), ps);
            lemma_delimited(stack, BRACKET_OPEN, pieces_text(ps), BRACKET_CLOSE);
        },
    }
}

proof fn lemma_pieces(stack: Seq<u8>, ps: Seq<JsonPiece>)
    requires
        stack.len() >= 1,
        stack.last() != QUOTE,
        pieces_ok(ps),
    ensures
        run((false, stack), pieces_text(ps)) == (false, stack),
        stays_open((false, stack), pieces_text(ps), stack.len() as int),
    decreases ps,
{
    if ps.len() == 0 {
        assert(pieces_text(ps).take(0) =~= pieces_text(ps));
    } else {
        lemma_pieces(stack, ps.drop_last());
        lemma_piece(stack, ps.last());
        lemma_run_concat((false, stack), pieces_text(ps.drop_last()), piece_text(ps.last()));
        lemma_stays_open_concat(
            (false, stack),
            pieces_text(ps.drop_last()),
            piece_text(ps.last()),
            stack.len() as int,
        );
    }
}

proof fn lemma_scan_is_run(b: Seq<u8>, open: int, end: int)
    requires
        0 <= open < end <= b.len(),
    ensures
        scan(b, open, end) == run((false, seq![BRACE_OPEN]), b.subrange(open + 1, end)),
    decreases end - open,
{
    if end > open + 1 {
        lemma_scan_is_run(b, open, end - 1);
        assert(b.subrange(open + 1, end).drop_last() =~= b.subrange(open + 1, end - 1));
    } else {
        assert(b.subrange(open + 1, end).len() == 0);
    }
}

proof fn lemma_first_close_is(b: Seq<u8>, open: int, i: int, c: int)
    requires
        0 <= i <= c < b.len(),
        closes_at(b, open, c),
        forall|j: int| i <= j < c ==> !closes_at(b, open, j),
    ensures
        first_close_from(b, open, i) == Some(c),
    decreases c - i,
{
    if i < c {
        lemma_first_close_is(b, open, i + 1, c);
    }
}

/// A well-formed object is extracted whole: its first byte is the first `{`
/// of the text and the scan closes exactly at its last byte.
proof fn lemma_object_alone(ps: Seq<JsonPiece>)
    requires
        pieces_ok(ps),
    ensures
        json_object_in(piece_text(JsonPiece::Object(ps))) == Ok::<(int, int), Error>(
            (0, piece_text(JsonPiece::Object(ps)).len() as int),
        ),
{
    let j = piece_text(JsonPiece::Object(ps));
    let inner = pieces_text(ps);
    let init = (false, seq![BRACE_OPEN]);
    assert(seq![BRACE_OPEN].last() == BRACE_OPEN);
    lemma_pieces(seq![BRACE_OPEN], ps);
    assert(j[0] == BRACE_OPEN);
    assert(first_index_of(j, BRACE_OPEN, 0) == Some(0int));
    let last = j.len() - 1;
    assert(last == inner.len() + 1);
    assert forall|i: int| 1 <= i < last implies !closes_at(j, 0, i) by {
        let k = i - 1;
        lemma_scan_is_run(j, 0, i);
        assert(j.subrange(1, i) =~= inner.take(k));
        assert(j[i] == inner[k]);
        assert(inner.take(k + 1).drop_last() =~= inner.take(k));
        assert(run(init, inner.take(k + 1)).1.len() >= 1);
    }
    lemma_scan_is_run(j, 0, last);
    assert(j.subrange(1, last) =~= inner);
    assert(j[last] == BRACE_CLOSE);
    assert(seq![BRACE_OPEN].subrange(0, 0) =~= Seq::<u8>::empty());
    assert(closes_at(j, 0, last));
    lemma_first_close_is(j, 0, 1, last);
}

/// A well-formed JSON object, after text that holds no `{` and before any
/// text, is extracted whole: exactly its bytes, from its `{` to its `}`.
pub proof fn law_json_object_extracts_well_formed_object(
    p: Seq<u8>,
    ps: Seq<JsonPiece>,
    t: Seq<u8>,
)
    requires
        forall|k: int| 0 <= k < p.len() ==> p[k] != BRACE_OPEN,
        pieces_ok(ps),
    ensures
        json_object_in(p + piece_text(JsonPiece::Object(ps)) + t) == Ok::<(int, int), Error>(
            (p.len() as int, (p.len() + piece_text(JsonPiece::Object(ps)).len()) as int),
        ),
{
    let j = piece_text(JsonPiece::Object(ps));
    lemma_object_alone(ps);
    law_json_object_ignores_trailing_text(j, t);
    law_json_object_ignores_leading_text(p, j + t);
    assert(p + j + t =~= p + (j + t));
}

/// An extracted object opens at the first `{` of the text.
pub proof fn lemma_first_brace(b: Seq<u8>)
    ensures
        json_object_in(b) matches Ok((s, t)) ==> b[s] == BRACE_OPEN && forall|k: int|
            0 <= k < s ==> b[k] != BRACE_OPEN,
{
    lemma_first_index_of_none_before(b, BRACE_OPEN, 0);
    lemma_first_index_of(b, BRACE_OPEN, 0);
}

proof fn lemma_first_index_of_none_before(b: Seq<u8>, x: u8, i: int)
    requires
        0 <= i,
    ensures
        first_index_of(b, x, i) matches Some(k) ==> forall|j: int| i <= j < k ==> b[j] != x,
    decreases b.len() - i,
{
    if i < b.len() && b[i] != x {
        lemma_first_index_of_none_before(b, x, i + 1);
    }
}

} // verus!
