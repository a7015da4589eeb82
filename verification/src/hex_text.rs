//! Hexadecimal text: what it means, and the calls into the `hex` crate that
//! produce and read it.

use vstd::prelude::*;

verus! {

/// The lowercase hexadecimal digit that stands for `n`, for `n` below 16.
pub open spec fn lower_digit(n: int) -> char {
    if n < 10 {
        ((n + 0x30) as u8) as char
    } else {
        ((n + 0x57) as u8) as char
    }
}

/// Whether `c` is one of `0-9`, `a-f` or `A-F`.
pub open spec fn is_hex_digit(c: char) -> bool {
    let n = c as u32;
    (0x30 <= n <= 0x39) || (0x61 <= n <= 0x66) || (0x41 <= n <= 0x46)
}

/// The number that the hexadecimal digit `c` stands for.
pub open spec fn digit_value(c: char) -> int {
    let n = c as u32 as int;
    if 0x30 <= n <= 0x39 {
        n - 0x30
    } else if 0x61 <= n <= 0x66 {
        n - 0x57
    } else {
        n - 0x37
    }
}

/// The lowercase hexadecimal text of `bytes`: two digits for each byte, the
/// high half first.
pub open spec fn hex_lower(bytes: Seq<u8>) -> Seq<char> {
    Seq::new(
        2 * bytes.len(),
        |i: int|
            if i % 2 == 0 {
                lower_digit(bytes[i / 2] as int / 16)
            } else {
                lower_digit(bytes[i / 2] as int % 16)
            },
    )
}

/// Whether `text` is hexadecimal text that stands for whole bytes: an even
/// number of hexadecimal digits, of either case.
pub open spec fn is_hex_text(text: Seq<char>) -> bool {
    &&& text.len() % 2 == 0
    &&& forall|i: int| 0 <= i < text.len() ==> is_hex_digit(#[trigger] text[i])
}

/// The bytes that hexadecimal text stands for.
pub open spec fn hex_bytes(text: Seq<char>) -> Seq<u8> {
    Seq::new(
        text.len() / 2,
        |i: int| (16 * digit_value(text[2 * i]) + digit_value(text[2 * i + 1])) as u8,
    )
}

/// The error of `hex::decode`, carried through and never looked into.
#[verifier::external_type_specification]
#[verifier::external_body]
pub struct ExFromHexError(hex::FromHexError);

/// Calls `hex::encode`. Trusted: the result is the lowercase hexadecimal text
/// of `data`, two digits for each byte with the high half first.
#[verifier::external_body]
pub(crate) fn encode(data: &[u8]) -> (text: String)
    ensures
        text@ == hex_lower(data@),
{
    hex::encode(data)
}

/// Calls `hex::decode`. Trusted: it succeeds exactly on an even number of
/// hexadecimal digits of either case, and then gives one byte for each pair
/// of digits, the first digit of a pair being the high half. The call reads
/// the bytes of the text; that the claim speaks of characters is the same,
/// since a hexadecimal digit is one byte and no byte of a longer character
/// is one.
#[verifier::external_body]
pub(crate) fn decode(text: &str) -> (r: Result<Vec<u8>, hex::FromHexError>)
    ensures
        r is Ok <==> is_hex_text(text@),
        r matches Ok(bytes) ==> bytes@ == hex_bytes(text@),
{
    hex::decode(text)
}

/// Tells whether `c` is a hexadecimal digit.
pub fn is_hex_char(c: char) -> (b: bool)
    ensures
        b == is_hex_digit(c),
{
    let n: u32 = c as u32;
    (0x30 <= n && n <= 0x39) || (0x61 <= n && n <= 0x66) || (0x41 <= n && n <= 0x46)
}

/// The lowercase hexadecimal digit for a number below 16.
pub fn lower_digit_of(n: u8) -> (c: char)
    requires
        n < 16,
    ensures
        c == lower_digit(n as int),
{
    if n < 10 {
        (n + 0x30) as char
    } else {
        (n + 0x57) as char
    }
}

/// A lowercase digit is a hexadecimal digit, and stands for the number it was
/// made from.
pub proof fn lemma_lower_digit(n: int)
    requires
        0 <= n < 16,
    ensures
        is_hex_digit(lower_digit(n)),
        digit_value(lower_digit(n)) == n,
{
}

/// Lowercase hexadecimal text is hexadecimal text, and reading it gives the
/// bytes back.
pub proof fn lemma_hex_round_trip(bytes: Seq<u8>)
    ensures
        is_hex_text(hex_lower(bytes)),
        hex_bytes(hex_lower(bytes)) == bytes,
{
    let text = hex_lower(bytes);
    assert forall|i: int| 0 <= i < text.len() implies is_hex_digit(#[trigger] text[i]) by {
        lemma_lower_digit(bytes[i / 2] as int / 16);
        lemma_lower_digit(bytes[i / 2] as int % 16);
    }
    assert forall|i: int| 0 <= i < bytes.len() implies hex_bytes(text)[i] == bytes[i] by {
        lemma_lower_digit(bytes[i] as int / 16);
        lemma_lower_digit(bytes[i] as int % 16);
        assert(text[2 * i] == lower_digit(bytes[i] as int / 16));
        assert(text[2 * i + 1] == lower_digit(bytes[i] as int % 16));
    }
    assert(hex_bytes(text) =~= bytes);
}

/// The text of one byte string begins the text of another exactly when the
/// first byte string begins the second.
pub proof fn lemma_hex_prefix(head: Seq<u8>, whole: Seq<u8>)
    ensures
        hex_lower(head).is_prefix_of(hex_lower(whole)) <==> head.is_prefix_of(whole),
{
    let a = hex_lower(head);
    let b = hex_lower(whole);
    if head.is_prefix_of(whole) {
        assert forall|i: int| 0 <= i < a.len() implies a[i] == b.subrange(0, a.len() as int)[i] by {
            assert(head[i / 2] == whole.subrange(0, head.len() as int)[i / 2]);
        }
        assert(a =~= b.subrange(0, a.len() as int));
    }
    if a.is_prefix_of(b) {
        assert forall|j: int| 0 <= j < head.len() implies head[j] == whole.subrange(
            0,
            head.len() as int,
        )[j] by {
            assert(a[2 * j] == b.subrange(0, a.len() as int)[2 * j]);
            assert(a[2 * j + 1] == b.subrange(0, a.len() as int)[2 * j + 1]);
            lemma_lower_digit(head[j] as int / 16);
            lemma_lower_digit(head[j] as int % 16);
            lemma_lower_digit(whole[j] as int / 16);
            lemma_lower_digit(whole[j] as int % 16);
        }
        assert(head =~= whole.subrange(0, head.len() as int));
    }
}

} // verus!
