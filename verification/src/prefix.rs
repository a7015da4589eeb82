//! Key prefixes: how the prefixes given on the command line, as hexadecimal
//! literals and as pallet names, become the binary prefixes that select
//! storage keys.

use crate::hex_text::{decode, encode, hex_bytes, hex_lower, is_hex_text, lower_digit_of};
use crate::hex_text::lemma_hex_prefix;
use crate::views::{byte_strings, texts};
use vstd::prelude::*;
use vstd::string::*;
use vstd::utf8::encode_utf8;

verus! {

/// The 128-bit XX hash of `data` as `sp_crypto_hashing::twox_128` computes
/// it, in the order of its bytes.
pub uninterp spec fn twox_128_digest(data: Seq<u8>) -> Seq<u8>;

/// Calls `sp_crypto_hashing::twox_128`. Trusted: the sixteen bytes that come
/// back depend on `data` alone.
#[verifier::external_body]
pub(crate) fn twox_128(data: &[u8]) -> (digest: [u8; 16])
    ensures
        digest@ == twox_128_digest(data@),
{
    sp_crypto_hashing::twox_128(data)
}

/// Why a set of prefixes could not be made from what was configured.
#[derive(Debug, Clone, PartialEq, Eq)]
pub enum ConfigError {
    /// A literal prefix is not an even number of hexadecimal digits. Holds
    /// the first such literal.
    InvalidPrefix { text: String },
    /// No prefix was configured, and the run was not told to apply to every
    /// key.
    NoPrefixes,
}

/// The message of `InvalidPrefix`, before the literal itself.
pub open spec fn invalid_prefix_message() -> Seq<char> {
    "Failed to parse prefix key, should be in hex format (without leading 0x): "@
}

/// The message of `NoPrefixes`.
pub open spec fn no_prefixes_message() -> Seq<char> {
    "Add at least one --pallet arg, or pass --all flag"@
}

impl ConfigError {
    /// What the error says to the operator.
    pub open spec fn message_text(self) -> Seq<char> {
        match self {
            ConfigError::InvalidPrefix { text } => invalid_prefix_message() + text@,
            ConfigError::NoPrefixes => no_prefixes_message(),
        }
    }

    /// The diagnostic for the operator.
    pub fn message(&self) -> (text: String)
        ensures
            text@ == self.message_text(),
    {
        match self {
            ConfigError::InvalidPrefix { text } => {
                let mut message = String::from_str(
                    "Failed to parse prefix key, should be in hex format (without leading 0x): ",
                );
                message.append(text.as_str());
                message
            },
            ConfigError::NoPrefixes => String::from_str(
                "Add at least one --pallet arg, or pass --all flag",
            ),
        }
    }
}

/// The prefixes that the literals stand for, one for each literal.
pub open spec fn literal_prefixes(literals: Seq<Seq<char>>) -> Seq<Seq<u8>> {
    Seq::new(literals.len(), |i: int| hex_bytes(literals[i]))
}

/// The prefixes of pallets: the hash of each name's bytes.
pub open spec fn name_prefixes(names: Seq<Seq<char>>) -> Seq<Seq<u8>> {
    Seq::new(names.len(), |i: int| twox_128_digest(encode_utf8(names[i])))
}

/// Whether `index` is the first literal that is not hexadecimal text.
pub open spec fn first_invalid(literals: Seq<Seq<char>>, index: int) -> bool {
    &&& 0 <= index < literals.len()
    &&& !is_hex_text(literals[index])
    &&& forall|k: int| 0 <= k < index ==> is_hex_text(#[trigger] literals[k])
}

/// Whether `error` reports the first literal of `literals` that is not
/// hexadecimal text, and holds that literal.
pub open spec fn reports_first_invalid(error: ConfigError, literals: Seq<Seq<char>>) -> bool {
    exists|index: int|
        first_invalid(literals, index) && (error matches ConfigError::InvalidPrefix { text }
            && text@ == #[trigger] literals[index])
}

/// Whether every literal is hexadecimal text.
pub open spec fn all_valid(literals: Seq<Seq<char>>) -> bool {
    forall|k: int| 0 <= k < literals.len() ==> is_hex_text(#[trigger] literals[k])
}

/// Whether some prefix of `prefixes` begins `key`.
pub open spec fn covers(prefixes: Seq<Seq<u8>>, key: Seq<u8>) -> bool {
    exists|i: int| 0 <= i < prefixes.len() && (#[trigger] prefixes[i]).is_prefix_of(key)
}

/// Whether the lowercase hexadecimal text of some prefix of `prefixes` begins
/// `key_text`.
pub open spec fn covers_text(prefixes: Seq<Seq<u8>>, key_text: Seq<char>) -> bool {
    exists|i: int|
        0 <= i < prefixes.len() && hex_lower(#[trigger] prefixes[i]).is_prefix_of(key_text)
}

/// An ordered collection of binary key prefixes.
#[derive(Debug, Clone, PartialEq, Eq)]
pub struct PrefixSet {
    pub prefixes: Vec<Vec<u8>>,
}

impl View for PrefixSet {
    type V = Seq<Seq<u8>>;

    open spec fn view(&self) -> Seq<Seq<u8>> {
        byte_strings(self.prefixes@)
    }
}

/// Tells whether `head` begins `whole`.
pub fn starts_with(whole: &[u8], head: &[u8]) -> (b: bool)
    ensures
        b == head@.is_prefix_of(whole@),
{
    let n = head.len();
    if whole.len() < n {
        return false;
    }
    let mut i: usize = 0;
    while i < n
        invariant
            n == head@.len(),
            n <= whole@.len(),
            0 <= i <= n,
            forall|k: int| 0 <= k < i ==> head@[k] == whole@[k],
        decreases n - i,
    {
        if head[i] != whole[i] {
            assert(whole@.subrange(0, n as int)[i as int] == whole@[i as int]);
            return false;
        }
        i += 1;
    }
    assert(head@ =~= whole@.subrange(0, n as int));
    true
}

/// Tells whether the lowercase hexadecimal text of `head` begins `text`.
pub fn text_starts_with(text: &[char], head: &[u8]) -> (b: bool)
    ensures
        b == hex_lower(head@).is_prefix_of(text@),
{
    let n = head.len();
    let len = text.len();
    if len / 2 < n {
        return false;
    }
    let ghost digits = hex_lower(head@);
    let mut i: usize = 0;
    while i < n
        invariant
            n == head@.len(),
            len == text@.len(),
            2 * n <= len,
            digits == hex_lower(head@),
            0 <= i <= n,
            forall|k: int| 0 <= k < 2 * i ==> digits[k] == text@[k],
        decreases n - i,
    {
        let byte = head[i];
        let high = lower_digit_of(byte / 16);
        let low = lower_digit_of(byte % 16);
        assert(digits[2 * i] == high);
        assert(digits[2 * i + 1] == low);
        if text[2 * i] != high {
            assert(text@.subrange(0, 2 * n)[2 * i] == text@[2 * i]);
            return false;
        }
        if text[2 * i + 1] != low {
            assert(text@.subrange(0, 2 * n)[2 * i + 1] == text@[2 * i + 1]);
            return false;
        }
        i += 1;
    }
    assert(digits =~= text@.subrange(0, 2 * n));
    true
}

impl PrefixSet {
    /// Makes the prefixes of a configuration: those of the literals first,
    /// in their order, then those of the pallet names, in theirs. Fails on
    /// the first literal that is not hexadecimal text.
    pub fn resolve(literals: &Vec<String>, names: &Vec<String>) -> (r: Result<
        PrefixSet,
        ConfigError,
    >)
        ensures
            r is Ok <==> all_valid(texts(literals@)),
            r matches Ok(set) ==> set@ == literal_prefixes(texts(literals@)) + name_prefixes(
                texts(names@),
            ),
            r matches Err(e) ==> reports_first_invalid(e, texts(literals@)),
    {
        let ghost lits = texts(literals@);
        let ghost pallets = texts(names@);
        let mut prefixes: Vec<Vec<u8>> = Vec::new();
        let mut i: usize = 0;
        while i < literals.len()
            invariant
                lits == texts(literals@),
                0 <= i <= literals.len(),
                byte_strings(prefixes@) == literal_prefixes(lits.take(i as int)),
                forall|k: int| 0 <= k < i ==> is_hex_text(#[trigger] lits[k]),
            decreases literals.len() - i,
        {
            let literal = &literals[i];
            assert(literal@ == lits[i as int]);
            match decode(literal.as_str()) {
                Ok(bytes) => {
                    proof {
                        assert(byte_strings(prefixes@).push(bytes@) =~= literal_prefixes(
                            lits.take(i + 1),
                        ));
                    }
                    prefixes.push(bytes);
                    assert(byte_strings(prefixes@) =~= literal_prefixes(lits.take(i + 1)));
                },
                Err(_) => {
                    assert(first_invalid(lits, i as int));
                    return Err(ConfigError::InvalidPrefix { text: literal.clone() });
                },
            }
            i += 1;
        }
        assert(lits.take(i as int) == lits);
        let mut j: usize = 0;
        while j < names.len()
            invariant
                pallets == texts(names@),
                0 <= j <= names.len(),
                byte_strings(prefixes@) == literal_prefixes(lits) + name_prefixes(
                    pallets.take(j as int),
                ),
            decreases names.len() - j,
        {
            let name = &names[j];
            assert(name@ == pallets[j as int]);
            let digest = twox_128(name.as_str().as_bytes());
            let bytes = array_to_vec(&digest);
            assert(bytes@ == twox_128_digest(encode_utf8(pallets[j as int])));
            let ghost before = byte_strings(prefixes@);
            prefixes.push(bytes);
            assert(byte_strings(prefixes@) =~= before.push(bytes@));
            assert(before.push(bytes@) =~= literal_prefixes(lits) + name_prefixes(
                pallets.take(j + 1),
            ));
            j += 1;
        }
        assert(pallets.take(j as int) == pallets);
        Ok(PrefixSet { prefixes })
    }

    /// Tells whether there is no prefix.
    pub fn is_empty(&self) -> (b: bool)
        ensures
            b == (self@.len() == 0),
    {
        self.prefixes.len() == 0
    }

    /// Tells whether some prefix begins `key`.
    pub fn covers(&self, key: &[u8]) -> (b: bool)
        ensures
            b == covers(self@, key@),
    {
        let mut i: usize = 0;
        while i < self.prefixes.len()
            invariant
                0 <= i <= self.prefixes.len(),
                forall|k: int| 0 <= k < i ==> !(#[trigger] self@[k]).is_prefix_of(key@),
            decreases self.prefixes.len() - i,
        {
            assert(self@[i as int] == self.prefixes[i as int]@);
            if starts_with(key, self.prefixes[i].as_slice()) {
                return true;
            }
            i += 1;
        }
        false
    }

    /// Tells whether the lowercase hexadecimal text of some prefix begins
    /// `key_text`.
    pub fn covers_text(&self, key_text: &[char]) -> (b: bool)
        ensures
            b == covers_text(self@, key_text@),
    {
        let mut i: usize = 0;
        while i < self.prefixes.len()
            invariant
                0 <= i <= self.prefixes.len(),
                forall|k: int|
                    0 <= k < i ==> !hex_lower(#[trigger] self@[k]).is_prefix_of(key_text@),
            decreases self.prefixes.len() - i,
        {
            assert(self@[i as int] == self.prefixes[i as int]@);
            if text_starts_with(key_text, self.prefixes[i].as_slice()) {
                return true;
            }
            i += 1;
        }
        false
    }

    /// The lowercase hexadecimal text of each prefix, in order.
    pub fn hex_texts(&self) -> (out: Vec<String>)
        ensures
            texts(out@) == Seq::new(self@.len(), |i: int| hex_lower(self@[i])),
    {
        let mut out: Vec<String> = Vec::new();
        let mut i: usize = 0;
        while i < self.prefixes.len()
            invariant
                0 <= i <= self.prefixes.len(),
                texts(out@) == Seq::new(i as nat, |k: int| hex_lower(self@[k])),
            decreases self.prefixes.len() - i,
        {
            assert(self@[i as int] == self.prefixes[i as int]@);
            let text = encode(self.prefixes[i].as_slice());
            let ghost before = texts(out@);
            out.push(text);
            assert(texts(out@) =~= before.push(text@));
            assert(before.push(text@) =~= Seq::new((i + 1) as nat, |k: int| hex_lower(self@[k])));
            i += 1;
        }
        out
    }
}

/// The sixteen bytes of a digest as a vector.
fn array_to_vec(digest: &[u8; 16]) -> (bytes: Vec<u8>)
    ensures
        bytes@ == digest@,
{
    let mut bytes: Vec<u8> = Vec::new();
    let mut i: usize = 0;
    while i < 16
        invariant
            0 <= i <= 16,
            bytes@ == digest@.take(i as int),
        decreases 16 - i,
    {
        bytes.push(digest[i]);
        assert(bytes@ =~= digest@.take(i + 1));
        i += 1;
    }
    assert(digest@.take(16) =~= digest@);
    bytes
}

/// A key is covered by text exactly when it is covered by bytes: the
/// hexadecimal text of a key begins with that of a prefix when, and only
/// when, the key begins with the prefix.
pub proof fn lemma_covers_text_of_key(prefixes: Seq<Seq<u8>>, key: Seq<u8>)
    ensures
        covers_text(prefixes, hex_lower(key)) <==> covers(prefixes, key),
{
    if covers_text(prefixes, hex_lower(key)) {
        let i = choose|i: int|
            0 <= i < prefixes.len() && hex_lower(#[trigger] prefixes[i]).is_prefix_of(
                hex_lower(key),
            );
        lemma_hex_prefix(prefixes[i], key);
    }
    if covers(prefixes, key) {
        let i = choose|i: int|
            0 <= i < prefixes.len() && (#[trigger] prefixes[i]).is_prefix_of(key);
        lemma_hex_prefix(prefixes[i], key);
    }
}

} // verus!
