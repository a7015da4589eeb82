//! Writing storage entries as a hex snapshot: one record for each entry that
//! is kept, in the order of the entries.

use crate::hex_text::{encode, hex_lower, is_hex_digit, lemma_hex_round_trip};
use crate::line::{is_record, lemma_record_key, record_head, record_key};
use crate::merge_into_raw::filter::{selects, Selection};
use crate::prefix::{all_valid, covers, lemma_covers_text_of_key, reports_first_invalid};
use crate::prefix::{literal_prefixes, name_prefixes, ConfigError, PrefixSet};
use crate::views::texts;
use vstd::prelude::*;
use vstd::string::*;

verus! {

/// Configurations for [`to_hex_snap`].
#[derive(Debug, Clone)]
pub struct ToHexSnapCommand {
    /// The pallets whose entries are kept. With no pallet and no prefix every
    /// entry is kept.
    pub pallet: Vec<String>,
    /// The key prefixes whose entries are kept, as hexadecimal text without a
    /// leading `0x`.
    pub prefix: Vec<String>,
    /// The path of the snapshot to read.
    pub snapshot_path: String,
    /// The path of the hex snapshot to write.
    pub output_path: String,
}

/// A storage entry: a key and its value.
pub type Entry = (Vec<u8>, Vec<u8>);

/// The keys and values of `entries`, in order.
pub open spec fn pairs(entries: Seq<Entry>) -> Seq<(Seq<u8>, Seq<u8>)> {
    Seq::new(entries.len(), |i: int| (entries[i].0@, entries[i].1@))
}

/// The record of an entry: `"0x<key>": "0x<value>",` with key and value in
/// lowercase hexadecimal text.
pub open spec fn record_text(key: Seq<u8>, value: Seq<u8>) -> Seq<char> {
    seq!['"', '0', 'x'] + hex_lower(key) + seq!['"', ':', ' ', '"', '0', 'x'] + hex_lower(value)
        + seq!['"', ',']
}

/// Whether an entry with `key` is kept: there is no prefix, or some prefix
/// begins the key.
pub open spec fn keeps(prefixes: Seq<Seq<u8>>, key: Seq<u8>) -> bool {
    prefixes.len() == 0 || covers(prefixes, key)
}

/// The records of `entries`, in order.
pub open spec fn records(entries: Seq<(Seq<u8>, Seq<u8>)>) -> Seq<Seq<char>> {
    entries.map_values(|entry: (Seq<u8>, Seq<u8>)| record_text(entry.0, entry.1))
}

/// [`keeps`] as a predicate on entries.
pub open spec fn keeping(prefixes: Seq<Seq<u8>>) -> spec_fn((Seq<u8>, Seq<u8>)) -> bool {
    |entry: (Seq<u8>, Seq<u8>)| keeps(prefixes, entry.0)
}

/// The lines of the hex snapshot of `entries` for `prefixes`: the records of
/// the entries that are kept, in the order of the entries.
pub open spec fn exported(entries: Seq<(Seq<u8>, Seq<u8>)>, prefixes: Seq<Seq<u8>>) -> Seq<
    Seq<char>,
> {
    records(entries.filter(keeping(prefixes)))
}

/// One more entry at the end adds its record to the records.
pub proof fn lemma_records_push(entries: Seq<(Seq<u8>, Seq<u8>)>, entry: (Seq<u8>, Seq<u8>))
    ensures
        records(entries.push(entry)) == records(entries).push(record_text(entry.0, entry.1)),
{
    assert(records(entries.push(entry)) =~= records(entries).push(
        record_text(entry.0, entry.1),
    ));
}

/// Writes the record of an entry.
pub fn record_line(key: &[u8], value: &[u8]) -> (line: String)
    ensures
        line@ == record_text(key@, value@),
{
    proof {
        reveal_strlit("\"0x");
        reveal_strlit("\": \"0x");
        reveal_strlit("\",");
    }
    let mut line = String::from_str("\"0x");
    assert(line@ =~= seq!['"', '0', 'x']);
    line.append(encode(key).as_str());
    line.append("\": \"0x");
    assert(line@ =~= seq!['"', '0', 'x'] + hex_lower(key@) + seq!['"', ':', ' ', '"', '0', 'x']);
    line.append(encode(value).as_str());
    line.append("\",");
    assert(line@ =~= record_text(key@, value@));
    line
}

/// Tells whether an entry with `key` is kept.
pub fn keeps_key(prefixes: &PrefixSet, key: &[u8]) -> (kept: bool)
    ensures
        kept == keeps(prefixes@, key@),
{
    prefixes.is_empty() || prefixes.covers(key)
}

/// Writes the lines of the hex snapshot of `entries` for `prefixes`.
pub fn export_lines(prefixes: &PrefixSet, entries: &Vec<Entry>) -> (lines: Vec<String>)
    ensures
        texts(lines@) == exported(pairs(entries@), prefixes@),
{
    let ghost all = pairs(entries@);
    let ghost keep = keeping(prefixes@);
    let mut lines: Vec<String> = Vec::new();
    let mut i: usize = 0;
    proof {
        reveal(Seq::filter);
        assert(all.take(0) =~= Seq::<(Seq<u8>, Seq<u8>)>::empty());
        assert(texts(lines@) =~= records(all.take(0).filter(keep)));
    }
    while i < entries.len()
        invariant
            all == pairs(entries@),
            keep == keeping(prefixes@),
            0 <= i <= entries.len(),
            texts(lines@) == records(all.take(i as int).filter(keep)),
        decreases entries.len() - i,
    {
        let entry = &entries[i];
        proof {
            let pair = (entry.0@, entry.1@);
            assert(all.take(i + 1) =~= all.take(i as int).push(pair));
            all.take(i as int).lemma_filter_push(pair, keep);
            lemma_records_push(all.take(i as int).filter(keep), pair);
        }
        if keeps_key(prefixes, entry.0.as_slice()) {
            let line = record_line(entry.0.as_slice(), entry.1.as_slice());
            let ghost before = texts(lines@);
            lines.push(line);
            assert(texts(lines@) =~= before.push(line@));
        }
        i += 1;
    }
    assert(all.take(i as int) =~= all);
    lines
}

impl ToHexSnapCommand {
    /// The prefixes of the command: those of its literals, then those of its
    /// pallets.
    pub open spec fn prefixes(&self) -> Seq<Seq<u8>> {
        literal_prefixes(texts(self.prefix@)) + name_prefixes(texts(self.pallet@))
    }

    /// Makes the prefixes of the command. Fails on the first literal prefix
    /// that is not hexadecimal text.
    pub fn prefix_set(&self) -> (r: Result<PrefixSet, ConfigError>)
        ensures
            r is Ok <==> all_valid(texts(self.prefix@)),
            r matches Ok(set) ==> set@ == self.prefixes(),
            r matches Err(e) ==> reports_first_invalid(e, texts(self.prefix@)),
    {
        PrefixSet::resolve(&self.prefix, &self.pallet)
    }
}

/// Writes the lines of the hex snapshot of `entries` as `command` says: the
/// records of the entries whose key begins with a prefix of the command, or of
/// all entries where the command has no prefix. Fails on a literal prefix that
/// is not hexadecimal text.
pub fn to_hex_snap(command: &ToHexSnapCommand, entries: &Vec<Entry>) -> (r: Result<
    Vec<String>,
    ConfigError,
>)
    ensures
        r is Ok <==> all_valid(texts(command.prefix@)),
        r matches Ok(lines) ==> texts(lines@) == exported(pairs(entries@), command.prefixes()),
        r matches Err(e) ==> reports_first_invalid(e, texts(command.prefix@)),
{
    match command.prefix_set() {
        Err(e) => Err(e),
        Ok(prefixes) => Ok(export_lines(&prefixes, entries)),
    }
}

/// Where a walk over the storage stands. The storage hands out, for a key,
/// the next key after it in the order of keys; the walk asks for the key
/// after the last one it was given, and ends when there is none.
#[derive(Debug, Clone)]
pub struct StorageCursor {
    /// The key to ask the successor of: the last key handed out, or the
    /// empty key before the first.
    pub after: Vec<u8>,
}

impl StorageCursor {
    /// The cursor before the first key.
    pub fn start() -> (cursor: StorageCursor)
        ensures
            cursor.after@.len() == 0,
    {
        StorageCursor { after: Vec::new() }
    }

    /// Takes what the storage gave for the key after the cursor: moves the
    /// cursor to the entry's key and hands the entry on, or ends the walk and
    /// stays where it is.
    pub fn advance(&mut self, found: Option<Entry>) -> (entry: Option<Entry>)
        ensures
            entry == found,
            found matches Some(e) ==> final(self).after@ == e.0@,
            found is None ==> final(self).after@ == old(self).after@,
    {
        match found {
            Some(e) => {
                self.after = e.0.clone();
                Some(e)
            },
            None => None,
        }
    }

    /// As [`StorageCursor::advance`], but moves the cursor past the entry's
    /// key: to that key with a zero byte after it, which no key lies between.
    pub fn advance_past(&mut self, found: Option<Entry>) -> (entry: Option<Entry>)
        ensures
            entry == found,
            found matches Some(e) ==> final(self).after@ == e.0@.push(0),
            found is None ==> final(self).after@ == old(self).after@,
    {
        match found {
            Some(e) => {
                let mut after = e.0.clone();
                after.push(0);
                self.after = after;
                Some(e)
            },
            None => None,
        }
    }
}

/// Where the parts of a record stand: the opening quote and `0x` first, then
/// the key text, then the quote and the colon.
proof fn lemma_record_text_shape(key: Seq<u8>, value: Seq<u8>)
    ensures
        ({
            let line = record_text(key, value);
            let close = 3 + 2 * key.len() as int;
            &&& line.len() == close + 8 + 2 * value.len()
            &&& line[0] == '"'
            &&& line[1] == '0'
            &&& line[2] == 'x'
            &&& line.subrange(3, close) == hex_lower(key)
            &&& line[close] == '"'
            &&& line[close + 1] == ':'
        }),
{
    let head = seq!['"', '0', 'x'];
    let middle = seq!['"', ':', ' ', '"', '0', 'x'];
    let tail = seq!['"', ','];
    let first = head + hex_lower(key);
    let second = first + middle;
    let third = second + hex_lower(value);
    let line = third + tail;
    let close = 3 + 2 * key.len() as int;
    assert(line == record_text(key, value));
    assert(first.len() == close);
    assert(second[close] == middle[0]);
    assert(second[close + 1] == middle[1]);
    assert(third[close] == second[close]);
    assert(third[close + 1] == second[close + 1]);
    assert(line[close] == third[close]);
    assert(line[close + 1] == third[close + 1]);
    assert(line[0] == head[0]);
    assert(line[1] == head[1]);
    assert(line[2] == head[2]);
    assert(line.subrange(3, close) =~= hex_lower(key));
}

/// The record of an entry is a record in the sense of the line grammar, and
/// its key text is the lowercase hexadecimal text of the entry's key.
pub proof fn lemma_record_text_is_record(key: Seq<u8>, value: Seq<u8>)
    ensures
        is_record(record_text(key, value)),
        record_key(record_text(key, value)) == hex_lower(key),
{
    let line = record_text(key, value);
    let digits = hex_lower(key);
    let close = 3 + 2 * key.len() as int;
    lemma_record_text_shape(key, value);
    lemma_hex_round_trip(key);
    assert forall|k: int| 3 <= k < close implies is_hex_digit(#[trigger] line[k]) by {
        assert(line[k] == line.subrange(3, close)[k - 3]);
        assert(is_hex_digit(digits[k - 3]));
    }
    assert(record_head(line, 0, close, close + 1));
    lemma_record_key(line, 0, close, close + 1);
}

/// A merge that does not apply to every key selects the record of an entry
/// exactly when one of its prefixes begins the entry's key: what the merge
/// reads in text is what the export decided on bytes.
pub proof fn lemma_merge_selects_record(prefixes: Seq<Seq<u8>>, key: Seq<u8>, value: Seq<u8>)
    ensures
        selects(Selection { all: false, prefixes }, record_text(key, value)) <==> covers(
            prefixes,
            key,
        ),
{
    lemma_record_text_is_record(key, value);
    lemma_covers_text_of_key(prefixes, key);
}

} // verus!
