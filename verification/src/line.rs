//! The line grammar of a raw chain specification and of a hex snapshot.
//!
//! Both documents are read one line at a time. A line is a sequence of
//! characters without its line terminator, and three shapes matter:
//!
//! * the line that opens the `top` object: it holds `"top":`, optional
//!   whitespace and an opening brace, anywhere in the line;
//! * a line that closes an object: it holds a closing brace anywhere;
//! * a record: optional whitespace, then a quoted key `"0x<hex digits>"`,
//!   optional whitespace and a colon. What follows the colon is not read.

use crate::hex_text::{is_hex_char, is_hex_digit};
use std::str::Chars;
use vstd::prelude::*;
use vstd::std_specs::iter::IteratorSpec;

verus! {

/// Whether `c` is whitespace: a character with the Unicode property
/// `White_Space`.
pub open spec fn is_space(c: char) -> bool {
    let n = c as u32;
    ||| 0x09 <= n <= 0x0d
    ||| n == 0x20
    ||| n == 0x85
    ||| n == 0xa0
    ||| n == 0x1680
    ||| 0x2000 <= n <= 0x200a
    ||| n == 0x2028
    ||| n == 0x2029
    ||| n == 0x202f
    ||| n == 0x205f
    ||| n == 0x3000
}

/// Whether `line` holds the six characters `"top":` from index `start` on.
pub open spec fn top_marker_at(line: Seq<char>, start: int) -> bool {
    &&& 0 <= start
    &&& start + 6 <= line.len()
    &&& line[start] == '"'
    &&& line[start + 1] == 't'
    &&& line[start + 2] == 'o'
    &&& line[start + 3] == 'p'
    &&& line[start + 4] == '"'
    &&& line[start + 5] == ':'
}

/// Whether `"top":` starts at `start` and, after whitespace only, an opening
/// brace stands at `brace`.
pub open spec fn opens_top_at(line: Seq<char>, start: int, brace: int) -> bool {
    &&& top_marker_at(line, start)
    &&& start + 6 <= brace < line.len()
    &&& forall|k: int| start + 6 <= k < brace ==> is_space(#[trigger] line[k])
    &&& line[brace] == '{'
}

/// Whether `line` opens the `top` object.
pub open spec fn opens_top(line: Seq<char>) -> bool {
    exists|start: int, brace: int| opens_top_at(line, start, brace)
}

/// Whether `line` closes an object: it holds a closing brace.
pub open spec fn closes_object(line: Seq<char>) -> bool {
    line.contains('}')
}

/// Whether `line` begins as a record whose opening quote stands at `open`,
/// whose closing quote stands at `close` and whose colon stands at `colon`.
pub open spec fn record_head(line: Seq<char>, open: int, close: int, colon: int) -> bool {
    &&& 0 <= open
    &&& open + 3 <= close < colon < line.len()
    &&& forall|k: int| 0 <= k < open ==> is_space(#[trigger] line[k])
    &&& line[open] == '"'
    &&& line[open + 1] == '0'
    &&& line[open + 2] == 'x'
    &&& forall|k: int| open + 3 <= k < close ==> is_hex_digit(#[trigger] line[k])
    &&& line[close] == '"'
    &&& forall|k: int| close < k < colon ==> is_space(#[trigger] line[k])
    &&& line[colon] == ':'
}

/// Whether `line` is a record.
pub open spec fn is_record(line: Seq<char>) -> bool {
    exists|open: int, close: int, colon: int| record_head(line, open, close, colon)
}

/// The hexadecimal digits of the key of a record, without quotes and without
/// the leading `0x`. Of a line that is no record nothing is said.
pub open spec fn record_key(line: Seq<char>) -> Seq<char> {
    let (open, close, colon) = choose|open: int, close: int, colon: int|
        record_head(line, open, close, colon);
    line.subrange(open + 3, close)
}

/// A line is a record in one way only.
pub proof fn lemma_record_head_unique(
    line: Seq<char>,
    open: int,
    close: int,
    colon: int,
    open2: int,
    close2: int,
    colon2: int,
)
    requires
        record_head(line, open, close, colon),
        record_head(line, open2, close2, colon2),
    ensures
        open == open2,
        close == close2,
        colon == colon2,
{
    if open < open2 {
        assert(is_space(line[open]));
    }
    if open2 < open {
        assert(is_space(line[open2]));
    }
    if close < close2 {
        assert(is_hex_digit(line[close]));
    }
    if close2 < close {
        assert(is_hex_digit(line[close2]));
    }
    if colon < colon2 {
        assert(is_space(line[colon]));
    }
    if colon2 < colon {
        assert(is_space(line[colon2]));
    }
}

/// The key of a record is the text between its `0x` and its closing quote.
pub proof fn lemma_record_key(line: Seq<char>, open: int, close: int, colon: int)
    requires
        record_head(line, open, close, colon),
    ensures
        is_record(line),
        record_key(line) == line.subrange(open + 3, close),
{
    let (open2, close2, colon2) = choose|open: int, close: int, colon: int|
        record_head(line, open, close, colon);
    lemma_record_head_unique(line, open, close, colon, open2, close2, colon2);
}

/// Tells whether `c` is whitespace.
pub fn is_space_char(c: char) -> (b: bool)
    ensures
        b == is_space(c),
{
    let n: u32 = c as u32;
    (0x09 <= n && n <= 0x0d) || n == 0x20 || n == 0x85 || n == 0xa0 || n == 0x1680 || (0x2000 <= n
        && n <= 0x200a) || n == 0x2028 || n == 0x2029 || n == 0x202f || n == 0x205f || n == 0x3000
}

/// Takes the next character of `text` from `it`, which has handed out the
/// first `pos` of them.
pub(crate) fn next_char(
    it: &mut Chars<'_>,
    Ghost(text): Ghost<Seq<char>>,
    Ghost(pos): Ghost<int>,
) -> (c: Option<char>)
    requires
        0 <= pos <= text.len(),
        (*old(it)).obeys_prophetic_iter_laws(),
        (*old(it)).remaining() == text.skip(pos),
    ensures
        (*final(it)).obeys_prophetic_iter_laws(),
        pos < text.len() ==> c == Some(text[pos]) && (*final(it)).remaining() == text.skip(pos + 1),
        pos == text.len() ==> c is None && (*final(it)).remaining() == text.skip(pos),
{
    let c = it.next();
    proof {
        if pos < text.len() {
            assert(text.skip(pos).drop_first() == text.skip(pos + 1));
        }
    }
    c
}

/// The characters of `text`, in order.
pub fn chars_of(text: &str) -> (chars: Vec<char>)
    ensures
        chars@ == text@,
{
    let mut chars: Vec<char> = Vec::new();
    let mut it = text.chars();
    loop
        invariant
            chars@.len() <= text@.len(),
            it.obeys_prophetic_iter_laws(),
            it.remaining() == text@.skip(chars@.len() as int),
            chars@ == text@.take(chars@.len() as int),
        decreases text@.len() - chars@.len(),
    {
        match next_char(&mut it, Ghost(text@), Ghost(chars@.len() as int)) {
            Some(c) => {
                assert(text@.take(chars@.len() as int + 1) == text@.take(
                    chars@.len() as int,
                ).push(c));
                chars.push(c);
            },
            None => {
                assert(text@.take(chars@.len() as int) == text@);
                return chars;
            },
        }
    }
}

/// Tells whether `line` closes an object.
pub fn line_closes_object(line: &str) -> (b: bool)
    ensures
        b == closes_object(line@),
{
    let mut it = line.chars();
    let ghost mut seen: int = 0;
    loop
        invariant
            0 <= seen <= line@.len(),
            it.obeys_prophetic_iter_laws(),
            it.remaining() == line@.skip(seen),
            forall|k: int| 0 <= k < seen ==> line@[k] != '}',
        decreases line@.len() - seen,
    {
        match next_char(&mut it, Ghost(line@), Ghost(seen)) {
            Some(c) => {
                if c == '}' {
                    assert(line@[seen] == '}');
                    return true;
                }
                proof {
                    seen = seen + 1;
                }
            },
            None => {
                return false;
            },
        }
    }
}

/// Tells whether `"top":` stands at `start` in `chars`.
fn marker_at(chars: &Vec<char>, start: usize) -> (b: bool)
    requires
        start + 6 <= chars@.len(),
    ensures
        b == top_marker_at(chars@, start as int),
{
    let n = chars.len();
    assert(start + 6 <= n);
    chars[start] == '"' && chars[start + 1] == 't' && chars[start + 2] == 'o' && chars[start + 3]
        == 'p' && chars[start + 4] == '"' && chars[start + 5] == ':'
}

/// Tells whether `line` opens the `top` object.
pub fn line_opens_top(line: &str) -> (b: bool)
    ensures
        b == opens_top(line@),
{
    let chars = chars_of(line);
    let n = chars.len();
    if n < 7 {
        return false;
    }
    let mut start: usize = 0;
    while start <= n - 7
        invariant
            n == chars@.len(),
            chars@ == line@,
            n >= 7,
            0 <= start <= n - 6,
            forall|s: int, brace: int| 0 <= s < start ==> !opens_top_at(line@, s, brace),
        decreases n - start,
    {
        if marker_at(&chars, start) {
            let mut brace: usize = start + 6;
            while brace < n && is_space_char(chars[brace])
                invariant
                    n == chars@.len(),
                    chars@ == line@,
                    start + 6 <= brace <= n,
                    forall|k: int| start + 6 <= k < brace ==> is_space(#[trigger] line@[k]),
                decreases n - brace,
            {
                brace += 1;
            }
            if brace < n && chars[brace] == '{' {
                assert(opens_top_at(line@, start as int, brace as int));
                return true;
            }
            assert forall|other: int| !opens_top_at(line@, start as int, other) by {
                if opens_top_at(line@, start as int, other) {
                    if other < brace {
                        assert(is_space(line@[other]));
                    } else if other > brace {
                        assert(is_space(line@[brace as int]));
                    }
                }
            }
        }
        start += 1;
    }
    false
}

/// Whether `c` holds a whitespace character.
fn holds_space(c: Option<char>) -> (b: bool)
    ensures
        b == (c matches Some(x) && is_space(x)),
{
    match c {
        Some(x) => is_space_char(x),
        None => false,
    }
}

/// Whether `c` holds a hexadecimal digit.
fn holds_hex(c: Option<char>) -> (b: bool)
    ensures
        b == (c matches Some(x) && is_hex_digit(x)),
{
    match c {
        Some(x) => is_hex_char(x),
        None => false,
    }
}

/// Whether `c` holds the character `want`.
fn holds(c: Option<char>, want: char) -> (b: bool)
    ensures
        b == (c == Some(want)),
{
    match c {
        Some(x) => x == want,
        None => false,
    }
}

/// What stands at index `at` of `line`, if anything.
pub open spec fn char_at(line: Seq<char>, at: int) -> Option<char> {
    if 0 <= at < line.len() {
        Some(line[at])
    } else {
        None
    }
}

/// The opening quote of a record stands at the first character that is no
/// whitespace.
proof fn lemma_open_found(text: Seq<char>, open: int, o: int, cl: int, co: int)
    requires
        record_head(text, o, cl, co),
        0 <= open <= text.len(),
        forall|k: int| 0 <= k < open ==> is_space(#[trigger] text[k]),
        open < text.len() ==> !is_space(text[open]),
    ensures
        o == open,
{
    if o < open {
        assert(is_space(text[o]));
    }
}

/// The closing quote of a record stands at the first character after `0x`
/// that is no hexadecimal digit.
proof fn lemma_close_found(text: Seq<char>, open: int, close: int, cl: int, co: int)
    requires
        record_head(text, open, cl, co),
        open + 3 <= close <= text.len(),
        forall|k: int| open + 3 <= k < close ==> is_hex_digit(#[trigger] text[k]),
        close < text.len() ==> !is_hex_digit(text[close]),
    ensures
        cl == close,
{
    if cl < close {
        assert(is_hex_digit(text[cl]));
    }
}

/// The colon of a record stands at the first character after the closing
/// quote that is no whitespace.
proof fn lemma_colon_found(text: Seq<char>, open: int, close: int, colon: int, co: int)
    requires
        record_head(text, open, close, co),
        close < colon <= text.len(),
        forall|k: int| close < k < colon ==> is_space(#[trigger] text[k]),
        colon < text.len() ==> !is_space(text[colon]),
    ensures
        co == colon,
{
    if co < colon {
        assert(is_space(text[co]));
    }
}

/// Reads the key of a record: the hexadecimal digits between `"0x` and the
/// closing quote. Gives `None` for a line that is no record. Reads no further
/// than the colon.
pub fn read_record_key(line: &str) -> (key: Option<Vec<char>>)
    ensures
        key is Some <==> is_record(line@),
        key matches Some(k) ==> k@ == record_key(line@),
{
    let ghost text = line@;
    let mut it = line.chars();
    let ghost mut at: int = 0;
    assert(text.skip(0) == text);
    let mut c = next_char(&mut it, Ghost(text), Ghost(0));
    while holds_space(c)
        invariant
            text == line@,
            0 <= at <= text.len(),
            c == char_at(text, at),
            it.obeys_prophetic_iter_laws(),
            it.remaining() == text.skip(if at < text.len() { at + 1 } else { at }),
            forall|k: int| 0 <= k < at ==> is_space(#[trigger] text[k]),
        decreases text.len() - at,
    {
        c = next_char(&mut it, Ghost(text), Ghost(at + 1));
        proof {
            at = at + 1;
        }
    }
    let ghost open = at;
    if !holds(c, '"') {
        assert forall|o: int, cl: int, co: int| !record_head(text, o, cl, co) by {
            if record_head(text, o, cl, co) {
                lemma_open_found(text, open, o, cl, co);
            }
        }
        return None;
    }
    c = next_char(&mut it, Ghost(text), Ghost(open + 1));
    if !holds(c, '0') {
        assert forall|o: int, cl: int, co: int| !record_head(text, o, cl, co) by {
            if record_head(text, o, cl, co) {
                lemma_open_found(text, open, o, cl, co);
            }
        }
        return None;
    }
    c = next_char(&mut it, Ghost(text), Ghost(open + 2));
    if !holds(c, 'x') {
        assert forall|o: int, cl: int, co: int| !record_head(text, o, cl, co) by {
            if record_head(text, o, cl, co) {
                lemma_open_found(text, open, o, cl, co);
            }
        }
        return None;
    }
    c = next_char(&mut it, Ghost(text), Ghost(open + 3));
    proof {
        at = open + 3;
    }
    let mut key: Vec<char> = Vec::new();
    while holds_hex(c)
        invariant
            text == line@,
            0 <= open,
            open + 3 <= at <= text.len(),
            c == char_at(text, at),
            it.obeys_prophetic_iter_laws(),
            it.remaining() == text.skip(if at < text.len() { at + 1 } else { at }),
            key@ == text.subrange(open + 3, at),
            forall|k: int| open + 3 <= k < at ==> is_hex_digit(#[trigger] text[k]),
        decreases text.len() - at,
    {
        proof {
            assert(text.subrange(open + 3, at + 1) == text.subrange(open + 3, at).push(text[at]));
        }
        key.push(c.unwrap());
        c = next_char(&mut it, Ghost(text), Ghost(at + 1));
        proof {
            at = at + 1;
        }
    }
    let ghost close = at;
    if !holds(c, '"') {
        assert forall|o: int, cl: int, co: int| !record_head(text, o, cl, co) by {
            if record_head(text, o, cl, co) {
                lemma_open_found(text, open, o, cl, co);
                lemma_close_found(text, open, close, cl, co);
            }
        }
        return None;
    }
    c = next_char(&mut it, Ghost(text), Ghost(close + 1));
    proof {
        at = close + 1;
    }
    while holds_space(c)
        invariant
            text == line@,
            close + 1 <= at <= text.len(),
            c == char_at(text, at),
            it.obeys_prophetic_iter_laws(),
            it.remaining() == text.skip(if at < text.len() { at + 1 } else { at }),
            forall|k: int| close < k < at ==> is_space(#[trigger] text[k]),
        decreases text.len() - at,
    {
        c = next_char(&mut it, Ghost(text), Ghost(at + 1));
        proof {
            at = at + 1;
        }
    }
    if !holds(c, ':') {
        assert forall|o: int, cl: int, co: int| !record_head(text, o, cl, co) by {
            if record_head(text, o, cl, co) {
                lemma_open_found(text, open, o, cl, co);
                lemma_close_found(text, open, close, cl, co);
                lemma_colon_found(text, open, close, at, co);
            }
        }
        return None;
    }
    proof {
        lemma_record_key(text, open, close, at);
    }
    Some(key)
}

} // verus!
