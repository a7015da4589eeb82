//! Parsers for values given on the command line.

use crate::hex_text::{is_hex_char, is_hex_digit};
use crate::line::next_char;
use vstd::prelude::*;
use vstd::std_specs::iter::IteratorSpec;
use vstd::string::*;

verus! {

/// Whether `text` begins with `0x`.
pub open spec fn has_0x(text: Seq<char>) -> bool {
    text.len() >= 2 && text[0] == '0' && text[1] == 'x'
}

/// `text` without a leading `0x`, if it has one.
pub open spec fn without_0x(text: Seq<char>) -> Seq<char> {
    if has_0x(text) {
        text.skip(2)
    } else {
        text
    }
}

/// Whether `text` holds hexadecimal digits only.
pub open spec fn all_hex(text: Seq<char>) -> bool {
    forall|k: int| 0 <= k < text.len() ==> is_hex_digit(#[trigger] text[k])
}

/// Whether the character at `position` is the first of `text` that is no
/// hexadecimal digit.
pub open spec fn first_illegal(text: Seq<char>, position: int) -> bool {
    &&& 0 <= position < text.len()
    &&& !is_hex_digit(text[position])
    &&& forall|k: int| 0 <= k < position ==> is_hex_digit(#[trigger] text[k])
}

/// The decimal digit for a number below ten.
pub open spec fn decimal_digit(n: nat) -> char {
    ((n + 0x30) as u8) as char
}

/// The decimal text of `n`, without leading zeros.
pub open spec fn decimal(n: nat) -> Seq<char>
    decreases n,
{
    if n < 10 {
        seq![decimal_digit(n)]
    } else {
        decimal(n / 10).push(decimal_digit(n % 10))
    }
}

/// What [`hash`] says of an illegal character at `position`.
pub open spec fn illegal_message(position: nat) -> Seq<char> {
    "Expected block hash, found illegal hex character at position: "@ + decimal(position)
}

/// The text of one decimal digit.
fn digit_text(n: usize) -> (text: &'static str)
    requires
        n < 10,
    ensures
        text@ == seq![decimal_digit(n as nat)],
{
    proof {
        reveal_strlit("0");
        reveal_strlit("1");
        reveal_strlit("2");
        reveal_strlit("3");
        reveal_strlit("4");
        reveal_strlit("5");
        reveal_strlit("6");
        reveal_strlit("7");
        reveal_strlit("8");
        reveal_strlit("9");
    }
    let text = if n == 0 {
        "0"
    } else if n == 1 {
        "1"
    } else if n == 2 {
        "2"
    } else if n == 3 {
        "3"
    } else if n == 4 {
        "4"
    } else if n == 5 {
        "5"
    } else if n == 6 {
        "6"
    } else if n == 7 {
        "7"
    } else if n == 8 {
        "8"
    } else {
        "9"
    };
    assert(text@ =~= seq![decimal_digit(n as nat)]);
    text
}

/// Writes `n` in decimal digits.
pub fn decimal_text(n: usize) -> (text: String)
    ensures
        text@ == decimal(n as nat),
    decreases n,
{
    if n < 10 {
        String::from_str(digit_text(n))
    } else {
        let mut text = decimal_text(n / 10);
        text.append(digit_text(n % 10));
        assert(text@ =~= decimal((n / 10) as nat).push(decimal_digit((n % 10) as nat)));
        text
    }
}

/// Reads a hash given as hexadecimal text, with or without a leading `0x`:
/// gives the text without the `0x` where every other character is a
/// hexadecimal digit, and else a message with the position of the first
/// character that is none, counted in characters of the text as given.
pub fn hash(block_hash: &str) -> (r: Result<String, String>)
    ensures
        r is Ok <==> all_hex(without_0x(block_hash@)),
        r matches Ok(text) ==> text@ == without_0x(block_hash@),
        r matches Err(message) ==> exists|position: int|
            #![trigger first_illegal(without_0x(block_hash@), position)]
            first_illegal(without_0x(block_hash@), position) && message@ == illegal_message(
                (block_hash@.len() - without_0x(block_hash@).len() + position) as nat,
            ),
{
    let len = block_hash.unicode_len();
    let prefixed = len >= 2 && block_hash.get_char(0) == '0' && block_hash.get_char(1) == 'x';
    let offset: usize = if prefixed {
        2
    } else {
        0
    };
    let body = block_hash.substring_char(offset, len);
    assert(body@ =~= without_0x(block_hash@));
    let mut it = body.chars();
    let mut position: usize = 0;
    assert(body@.skip(0) =~= body@);
    loop
        invariant
            body@ == without_0x(block_hash@),
            len == block_hash@.len(),
            body@.len() + offset == len,
            0 <= position <= body@.len(),
            it.obeys_prophetic_iter_laws(),
            it.remaining() == body@.skip(position as int),
            forall|k: int| 0 <= k < position ==> is_hex_digit(#[trigger] body@[k]),
        decreases body@.len() - position,
    {
        match next_char(&mut it, Ghost(body@), Ghost(position as int)) {
            Some(c) => {
                if !is_hex_char(c) {
                    assert(first_illegal(body@, position as int));
                    let mut message = String::from_str(
                        "Expected block hash, found illegal hex character at position: ",
                    );
                    message.append(decimal_text(offset + position).as_str());
                    return Err(message);
                }
                position += 1;
            },
            None => {
                return Ok(body.to_owned());
            },
        }
    }
}

} // verus!
