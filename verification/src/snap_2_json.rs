//! Writing the storage entries of the pooled staking pallet as records.

use crate::hex_text::{decode, hex_bytes, is_hex_text};
use crate::prefix::starts_with;
use crate::to_hex_snap::{lemma_records_push, pairs, record_line, records, Entry};
use crate::views::texts;
use vstd::prelude::*;

verus! {

/// Configurations for [`run_snap_2_json`].
#[derive(Debug, Clone)]
pub struct Snap2JsonCommand {
    /// Not read: the entries of one pallet are written, whatever is named.
    pub pallet: Vec<String>,
    /// Not read.
    pub prefix: Vec<String>,
    /// The path of the snapshot to read.
    pub snapshot_path: String,
    /// The path of the file to write.
    pub output_path: String,
}

/// The key prefix of the pooled staking pallet, as hexadecimal text.
pub open spec fn pooled_staking_text() -> Seq<char> {
    "359e684ff9b0738b7dc97123fd114c24"@
}

/// The key prefix of the pooled staking pallet.
pub open spec fn pooled_staking() -> Seq<u8> {
    hex_bytes(pooled_staking_text())
}

/// The key prefix of the pooled staking pallet.
pub fn pooled_staking_prefix() -> (prefix: Vec<u8>)
    ensures
        prefix@ == pooled_staking(),
{
    proof {
        reveal_strlit("359e684ff9b0738b7dc97123fd114c24");
        assert(is_hex_text(pooled_staking_text()));
    }
    match decode("359e684ff9b0738b7dc97123fd114c24") {
        Ok(prefix) => prefix,
        // Not reached: the literal is hexadecimal text.
        Err(_) => Vec::new(),
    }
}

/// Whether an entry belongs to the pooled staking pallet: its key begins with
/// the pallet's prefix.
pub open spec fn of_pooled_staking() -> spec_fn((Seq<u8>, Seq<u8>)) -> bool {
    |entry: (Seq<u8>, Seq<u8>)| pooled_staking().is_prefix_of(entry.0)
}

/// Writes the records of the entries of `entries` whose key begins with the
/// prefix of the pooled staking pallet, in the order of the entries. The
/// command is not read.
pub fn run_snap_2_json(_command: &Snap2JsonCommand, entries: &Vec<Entry>) -> (lines: Vec<String>)
    ensures
        texts(lines@) == records(pairs(entries@).filter(of_pooled_staking())),
{
    let prefix = pooled_staking_prefix();
    let ghost all = pairs(entries@);
    let ghost keep = of_pooled_staking();
    let mut lines: Vec<String> = Vec::new();
    let mut i: usize = 0;
    proof {
        reveal(Seq::filter);
        assert(all.take(0) =~= Seq::<(Seq<u8>, Seq<u8>)>::empty());
        assert(texts(lines@) =~= records(all.take(0).filter(keep)));
    }
    while i < entries.len()
        invariant
            all == pairs(entries@),
            keep == of_pooled_staking(),
            prefix@ == pooled_staking(),
            0 <= i <= entries.len(),
            texts(lines@) == records(all.take(i as int).filter(keep)),
        decreases entries.len() - i,
    {
        let entry = &entries[i];
        proof {
            let pair = (entry.0@, entry.1@);
            assert(all.take(i + 1) =~= all.take(i as int).push(pair));
            all.take(i as int).lemma_filter_push(pair, keep);
            lemma_records_push(all.take(i as int).filter(keep), pair);
        }
        if starts_with(entry.0.as_slice(), prefix.as_slice()) {
            let line = record_line(entry.0.as_slice(), entry.1.as_slice());
            let ghost before = texts(lines@);
            lines.push(line);
            assert(texts(lines@) =~= before.push(line@));
        }
        i += 1;
    }
    assert(all.take(i as int) =~= all);
    lines
}

} // verus!
