//! Merging a hex snapshot into a raw chain specification.
//!
//! The chain specification is walked once, line by line. Up to and including
//! the line that opens the `top` object every line is copied. Right after
//! that line the selected records of the snapshot are inserted. From there to
//! the first line that closes an object, the selected lines are deleted and
//! the others copied. From the closing line on every line is copied again.
//!
//! [`document::merged`] says what comes out for whole documents.
//! [`machine::step`] decides on one line at a time, for a caller that streams
//! the documents, and [`document::run`] is what such a caller gets;
//! [`document::lemma_run_is_merged`] shows that the two agree.

use crate::merge_into_raw::document::{comma_dangles, inserted_count, lemma_run_is_merged};
use crate::merge_into_raw::document::{merged, removed_count, run, skipped_count};
use crate::merge_into_raw::filter::{chosen, lemma_chosen_push, lemma_chosen_rejected_len};
use crate::merge_into_raw::filter::{rejected, KeyFilter, Selection};
use crate::merge_into_raw::machine::{LineAction, MergeEngine, MergeReport};
use crate::prefix::{all_valid, literal_prefixes, name_prefixes, reports_first_invalid};
use crate::prefix::{ConfigError, PrefixSet};
use crate::views::texts;
use vstd::prelude::*;

pub mod document;
pub mod filter;
pub mod machine;

verus! {

/// The size under which the tool that consumes a chain specification
/// rewrites it: 2 GiB.
pub const SIZE_THRESHOLD: u64 = 2147483648;

/// Configurations for [`merge_into_raw`].
#[derive(Debug, Clone)]
pub struct MergeIntoRawCommand {
    /// The pallets whose keys are replaced.
    pub pallet: Vec<String>,
    /// The key prefixes whose keys are replaced, as hexadecimal text without
    /// a leading `0x`.
    pub prefix: Vec<String>,
    /// The path of the chain specification to read, in raw format.
    pub chain_spec_path: String,
    /// The path of the snapshot to read, in hex format.
    pub hex_snapshot_path: String,
    /// Where the result goes; the chain specification is replaced if absent.
    pub output_path: Option<String>,
    /// Remove every key of the chain specification and insert every record
    /// of the snapshot.
    pub all: bool,
}

/// Tells whether a result of `size` bytes is so small that the tool that
/// consumes it will rewrite it, so that padding is advised.
pub fn padding_advised(size: u64) -> (advised: bool)
    ensures
        advised == (size < SIZE_THRESHOLD),
{
    size < SIZE_THRESHOLD
}

/// What a merge of whole documents gives.
#[derive(Debug, Clone)]
pub struct MergeOutcome {
    /// The lines of the merged document.
    pub lines: Vec<String>,
    /// The counts of the merge.
    pub report: MergeReport,
    /// Whether the `top` object was closed with none of its own lines left
    /// in it, so that the line before the closing one may end in a comma
    /// that has to be removed by hand.
    pub dangling_comma: bool,
}

/// Merges the lines of a snapshot into the lines of a chain specification.
pub fn merge_lines(filter: KeyFilter, chain_spec: &Vec<String>, snapshot: &Vec<String>) -> (out:
    MergeOutcome)
    ensures
        texts(out.lines@) == merged(texts(chain_spec@), texts(snapshot@), filter@),
        out.report.removed == removed_count(texts(chain_spec@), filter@),
        out.report.inserted == inserted_count(texts(chain_spec@), texts(snapshot@), filter@),
        out.report.skipped == skipped_count(texts(chain_spec@), texts(snapshot@), filter@),
        out.dangling_comma == comma_dangles(texts(chain_spec@), filter@),
{
    let ghost doc = texts(chain_spec@);
    let ghost snap = texts(snapshot@);
    let ghost selection = filter@;
    let mut engine = MergeEngine::new(filter);
    let mut lines: Vec<String> = Vec::new();
    let mut dangling = false;
    let mut n: usize = 0;
    assert(doc.take(0) =~= Seq::<Seq<char>>::empty());
    assert(texts(lines@) =~= Seq::<Seq<char>>::empty());
    while n < chain_spec.len()
        invariant
            doc == texts(chain_spec@),
            snap == texts(snapshot@),
            engine.filter@ == selection,
            0 <= n <= chain_spec.len(),
            engine.state == run(doc.take(n as int), snap, selection).state,
            texts(lines@) == run(doc.take(n as int), snap, selection).lines,
            engine.report.removed == run(doc.take(n as int), snap, selection).removed,
            engine.report.inserted == run(doc.take(n as int), snap, selection).inserted,
            engine.report.skipped == run(doc.take(n as int), snap, selection).skipped,
            dangling == run(doc.take(n as int), snap, selection).dangling_comma,
            engine.report.removed <= n,
            engine.report.inserted <= snapshot.len(),
            engine.report.skipped <= snapshot.len(),
            !engine.state.inserted ==> engine.report.inserted == 0 && engine.report.skipped == 0,
        decreases chain_spec.len() - n,
    {
        let line = &chain_spec[n];
        proof {
            assert(doc.take(n + 1).drop_last() =~= doc.take(n as int));
            assert(doc.take(n + 1).last() == line@);
        }
        let decision = engine.feed(line.as_str());
        if decision.dangling_comma {
            dangling = true;
        }
        match decision.action {
            LineAction::Delete => {},
            LineAction::Copy => {
                let ghost before = texts(lines@);
                lines.push(line.clone());
                assert(texts(lines@) =~= before.push(line@));
            },
            LineAction::CopyThenInsert => {
                let ghost before = texts(lines@);
                lines.push(line.clone());
                assert(texts(lines@) =~= before.push(line@));
                let ghost base = texts(lines@);
                let ghost removed = engine.report.removed;
                let mut m: usize = 0;
                proof {
                    reveal(Seq::filter);
                    assert(snap.take(0) =~= Seq::<Seq<char>>::empty());
                    assert(chosen(snap.take(0), selection) =~= Seq::<Seq<char>>::empty());
                    assert(rejected(snap.take(0), selection) =~= Seq::<Seq<char>>::empty());
                    assert(texts(lines@) =~= base + chosen(snap.take(0), selection));
                }
                while m < snapshot.len()
                    invariant
                        snap == texts(snapshot@),
                        engine.filter@ == selection,
                        engine.state == decision.next,
                        0 <= m <= snapshot.len(),
                        texts(lines@) == base + chosen(snap.take(m as int), selection),
                        engine.report.removed == removed,
                        engine.report.inserted == chosen(snap.take(m as int), selection).len(),
                        engine.report.skipped == rejected(snap.take(m as int), selection).len(),
                    decreases snapshot.len() - m,
                {
                    let record = &snapshot[m];
                    proof {
                        assert(snap.take(m + 1) =~= snap.take(m as int).push(record@));
                        lemma_chosen_push(snap.take(m as int), record@, selection);
                        lemma_chosen_rejected_len(snap.take(m as int), selection);
                    }
                    if engine.offer(record.as_str()) {
                        let ghost so_far = texts(lines@);
                        lines.push(record.clone());
                        assert(texts(lines@) =~= so_far.push(record@));
                        assert(texts(lines@) =~= base + chosen(snap.take(m + 1), selection));
                    }
                    m += 1;
                }
                proof {
                    assert(snap.take(m as int) =~= snap);
                    lemma_chosen_rejected_len(snap, selection);
                }
            },
        }
        n += 1;
    }
    proof {
        assert(doc.take(n as int) =~= doc);
        lemma_run_is_merged(doc, snap, selection);
    }
    MergeOutcome { lines, report: engine.report, dangling_comma: dangling }
}

impl MergeIntoRawCommand {
    /// Which keys the command replaces: the prefixes of its literals, then
    /// those of its pallets.
    pub open spec fn selection(&self) -> Selection {
        Selection {
            all: self.all,
            prefixes: literal_prefixes(texts(self.prefix@)) + name_prefixes(texts(self.pallet@)),
        }
    }

    /// Whether the command says which keys to replace: every literal prefix
    /// is hexadecimal text, and there is a prefix or a pallet unless the
    /// command applies to every key.
    pub open spec fn is_valid(&self) -> bool {
        &&& all_valid(texts(self.prefix@))
        &&& self.all || self.prefix@.len() + self.pallet@.len() > 0
    }

    /// Makes the filter of the command. Fails on the first literal prefix
    /// that is not hexadecimal text; if there is none, fails where nothing is
    /// selected and the command does not apply to every key.
    pub fn key_filter(&self) -> (r: Result<KeyFilter, ConfigError>)
        ensures
            r is Ok <==> self.is_valid(),
            r matches Ok(filter) ==> filter@ == self.selection() && filter.wf(),
            r matches Err(e) ==> if all_valid(texts(self.prefix@)) {
                e is NoPrefixes
            } else {
                reports_first_invalid(e, texts(self.prefix@))
            },
    {
        match PrefixSet::resolve(&self.prefix, &self.pallet) {
            Err(e) => Err(e),
            Ok(prefixes) => {
                if prefixes.is_empty() && !self.all {
                    Err(ConfigError::NoPrefixes)
                } else {
                    Ok(KeyFilter { all: self.all, prefixes })
                }
            },
        }
    }

    /// The path that the merged document is written to: the output path, or
    /// that of the chain specification where none is given.
    pub fn destination(&self) -> (path: String)
        ensures
            path@ == (match self.output_path {
                Some(p) => p@,
                None => self.chain_spec_path@,
            }),
    {
        match &self.output_path {
            Some(p) => p.clone(),
            None => self.chain_spec_path.clone(),
        }
    }
}

/// Merges the lines of a snapshot into the lines of a chain specification as
/// `command` says. Fails, before it reads a line, on a command that does not
/// say which keys to replace.
pub fn merge_into_raw(
    command: &MergeIntoRawCommand,
    chain_spec: &Vec<String>,
    snapshot: &Vec<String>,
) -> (r: Result<MergeOutcome, ConfigError>)
    ensures
        r is Ok <==> command.is_valid(),
        r matches Ok(out) ==> {
            &&& texts(out.lines@) == merged(
                texts(chain_spec@),
                texts(snapshot@),
                command.selection(),
            )
            &&& out.report.removed == removed_count(texts(chain_spec@), command.selection())
            &&& out.report.inserted == inserted_count(
                texts(chain_spec@),
                texts(snapshot@),
                command.selection(),
            )
            &&& out.report.skipped == skipped_count(
                texts(chain_spec@),
                texts(snapshot@),
                command.selection(),
            )
            &&& out.dangling_comma == comma_dangles(texts(chain_spec@), command.selection())
        },
        r matches Err(e) ==> if all_valid(texts(command.prefix@)) {
            e is NoPrefixes
        } else {
            reports_first_invalid(e, texts(command.prefix@))
        },
{
    match command.key_filter() {
        Err(e) => Err(e),
        Ok(filter) => Ok(merge_lines(filter, chain_spec, snapshot)),
    }
}

} // verus!
