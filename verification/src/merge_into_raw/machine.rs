//! The walk over the chain specification, one line at a time: where it
//! stands, what becomes of a line, and the counts of what was decided.

use crate::line::{closes_object, line_closes_object, line_opens_top, opens_top};
use crate::merge_into_raw::filter::{selects, KeyFilter, Selection};
use vstd::prelude::*;

verus! {

/// Where the walk over the chain specification stands.
#[derive(Debug, Clone, Copy, PartialEq, Eq, Structural)]
pub struct MergeState {
    /// Whether the last line read lies inside the `top` object.
    pub inside_top: bool,
    /// Whether the snapshot has been inserted.
    pub inserted: bool,
    /// Whether no line has been copied since the snapshot was inserted.
    pub comma_pending: bool,
}

/// What becomes of a line of the chain specification.
#[derive(Debug, Clone, Copy, PartialEq, Eq, Structural)]
pub enum LineAction {
    /// The line is left out.
    Delete,
    /// The line is copied.
    Copy,
    /// The line is copied, and the snapshot is inserted after it.
    CopyThenInsert,
}

/// The decision on one line.
#[derive(Debug, Clone, Copy, PartialEq, Eq, Structural)]
pub struct Step {
    /// The state after the line.
    pub next: MergeState,
    /// What becomes of the line.
    pub action: LineAction,
    /// Whether the line closes the `top` object while nothing has been copied
    /// since the snapshot was inserted: the line before may then end in a
    /// comma that the format does not allow.
    pub dangling_comma: bool,
}

/// The state before the first line.
pub open spec fn start_state() -> MergeState {
    MergeState { inside_top: false, inserted: false, comma_pending: false }
}

/// The decision on `line` in `state`.
pub open spec fn next_step(state: MergeState, line: Seq<char>, selection: Selection) -> Step {
    let closing = state.inside_top && closes_object(line);
    let inside = state.inside_top && !closing;
    let dangling = closing && state.comma_pending;
    if inside && selects(selection, line) {
        Step { next: state, action: LineAction::Delete, dangling_comma: false }
    } else if !state.inserted && opens_top(line) {
        Step {
            next: MergeState { inside_top: true, inserted: true, comma_pending: true },
            action: LineAction::CopyThenInsert,
            dangling_comma: dangling,
        }
    } else {
        Step {
            next: MergeState { inside_top: inside, inserted: state.inserted, comma_pending: false },
            action: LineAction::Copy,
            dangling_comma: dangling,
        }
    }
}

impl MergeState {
    /// Whether a walk can be in this state: it is inside the `top` object
    /// only once the snapshot has been inserted, and a comma is pending only
    /// inside the object.
    pub open spec fn wf(self) -> bool {
        &&& self.inside_top ==> self.inserted
        &&& self.comma_pending ==> self.inside_top
    }

    /// The state before the first line.
    pub fn start() -> (state: MergeState)
        ensures
            state == start_state(),
            state.wf(),
    {
        MergeState { inside_top: false, inserted: false, comma_pending: false }
    }
}

/// Decides on `line` in `state`.
pub fn step(state: MergeState, line: &str, filter: &KeyFilter) -> (decision: Step)
    ensures
        decision == next_step(state, line@, filter@),
        state.wf() ==> decision.next.wf(),
{
    let closing = state.inside_top && line_closes_object(line);
    let inside = state.inside_top && !closing;
    let dangling = closing && state.comma_pending;
    if inside && filter.selects(line) {
        Step { next: state, action: LineAction::Delete, dangling_comma: false }
    } else if !state.inserted && line_opens_top(line) {
        Step {
            next: MergeState { inside_top: true, inserted: true, comma_pending: true },
            action: LineAction::CopyThenInsert,
            dangling_comma: dangling,
        }
    } else {
        Step {
            next: MergeState { inside_top: inside, inserted: state.inserted, comma_pending: false },
            action: LineAction::Copy,
            dangling_comma: dangling,
        }
    }
}

/// The counts of a merge.
#[derive(Debug, Clone, Copy, PartialEq, Eq, Structural)]
pub struct MergeReport {
    /// How many lines of the chain specification were deleted.
    pub removed: u64,
    /// How many records of the snapshot were inserted.
    pub inserted: u64,
    /// How many records of the snapshot were passed over.
    pub skipped: u64,
}

impl MergeReport {
    /// The report after a line of the chain specification met with `action`.
    pub open spec fn after_line(self, action: LineAction) -> MergeReport {
        if action == LineAction::Delete {
            MergeReport { removed: (self.removed + 1) as u64, ..self }
        } else {
            self
        }
    }

    /// The report after a record of the snapshot was inserted or passed over.
    pub open spec fn after_record(self, insert: bool) -> MergeReport {
        if insert {
            MergeReport { inserted: (self.inserted + 1) as u64, ..self }
        } else {
            MergeReport { skipped: (self.skipped + 1) as u64, ..self }
        }
    }

    /// The report of a merge that has read nothing.
    pub fn new() -> (report: MergeReport)
        ensures
            report.removed == 0,
            report.inserted == 0,
            report.skipped == 0,
    {
        MergeReport { removed: 0, inserted: 0, skipped: 0 }
    }
}

/// A merge in progress: the filter, where the walk stands, and the counts so
/// far.
#[derive(Debug, Clone)]
pub struct MergeEngine {
    /// Which keys are replaced.
    pub filter: KeyFilter,
    /// Where the walk over the chain specification stands.
    pub state: MergeState,
    /// The counts so far.
    pub report: MergeReport,
}

impl MergeEngine {
    /// A merge that has read nothing.
    pub fn new(filter: KeyFilter) -> (engine: MergeEngine)
        ensures
            engine.filter == filter,
            engine.state == start_state(),
            engine.state.wf(),
            engine.report.removed == 0,
            engine.report.inserted == 0,
            engine.report.skipped == 0,
    {
        MergeEngine { filter, state: MergeState::start(), report: MergeReport::new() }
    }

    /// Takes the next line of the chain specification and says what becomes
    /// of it. A deleted line is counted.
    pub fn feed(&mut self, line: &str) -> (decision: Step)
        requires
            old(self).report.removed < u64::MAX,
        ensures
            decision == next_step(old(self).state, line@, old(self).filter@),
            final(self).filter == old(self).filter,
            final(self).state == decision.next,
            old(self).state.wf() ==> final(self).state.wf(),
            final(self).report == old(self).report.after_line(decision.action),
    {
        let decision = step(self.state, line, &self.filter);
        self.state = decision.next;
        match decision.action {
            LineAction::Delete => {
                self.report.removed = self.report.removed + 1;
            },
            _ => {},
        }
        decision
    }

    /// Takes the next record of the snapshot and says whether it is
    /// inserted. The record is counted as inserted or as passed over.
    pub fn offer(&mut self, record: &str) -> (insert: bool)
        requires
            old(self).report.inserted < u64::MAX,
            old(self).report.skipped < u64::MAX,
        ensures
            insert == selects(old(self).filter@, record@),
            final(self).filter == old(self).filter,
            final(self).state == old(self).state,
            final(self).report == old(self).report.after_record(insert),
    {
        let insert = self.filter.selects(record);
        if insert {
            self.report.inserted = self.report.inserted + 1;
        } else {
            self.report.skipped = self.report.skipped + 1;
        }
        insert
    }
}

} // verus!
