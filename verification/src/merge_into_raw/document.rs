//! What a merge makes of whole documents, and the proof that a walk line by
//! line makes the same.

use crate::line::{closes_object, is_record, opens_top, record_key};
use crate::merge_into_raw::filter::{chosen, lemma_chosen_push, lemma_chosen_rejected_len};
use crate::merge_into_raw::filter::{rejected, rejecting, selecting, selects, Selection};
use crate::merge_into_raw::machine::{next_step, start_state, LineAction, MergeState};
use crate::prefix::covers_text;
use vstd::prelude::*;

verus! {

/// Whether line `t` of `doc` is the first that opens the `top` object.
pub open spec fn is_top_line(doc: Seq<Seq<char>>, t: int) -> bool {
    &&& 0 <= t < doc.len()
    &&& opens_top(doc[t])
    &&& forall|k: int| 0 <= k < t ==> !opens_top(#[trigger] doc[k])
}

/// Whether some line of `doc` opens the `top` object.
pub open spec fn has_top(doc: Seq<Seq<char>>) -> bool {
    exists|t: int| 0 <= t < doc.len() && opens_top(#[trigger] doc[t])
}

/// Whether the lines of the `top` object opened by line `t` end before line
/// `c`: `c` is the first line after `t` that closes an object, or the length
/// of `doc` where no line does.
pub open spec fn is_body_end(doc: Seq<Seq<char>>, t: int, c: int) -> bool {
    &&& t < c <= doc.len()
    &&& c < doc.len() ==> closes_object(doc[c])
    &&& forall|k: int| t < k < c ==> !closes_object(#[trigger] doc[k])
}

/// The first line of `doc` that opens the `top` object, where there is one.
pub open spec fn top_line(doc: Seq<Seq<char>>) -> int {
    choose|t: int| is_top_line(doc, t)
}

/// The end of the lines of the `top` object that line `t` opens.
pub open spec fn body_end(doc: Seq<Seq<char>>, t: int) -> int {
    choose|c: int| is_body_end(doc, t, c)
}

/// The lines of the `top` object of `doc`: those between the line that opens
/// it and the first line after that which closes an object. Empty where no
/// line opens the object.
pub open spec fn top_body(doc: Seq<Seq<char>>) -> Seq<Seq<char>> {
    if has_top(doc) {
        doc.subrange(top_line(doc) + 1, body_end(doc, top_line(doc)))
    } else {
        Seq::empty()
    }
}

/// The merged document for a `top` object opened by line `t` whose lines end
/// before line `c`.
pub open spec fn spliced(
    doc: Seq<Seq<char>>,
    snapshot: Seq<Seq<char>>,
    selection: Selection,
    t: int,
    c: int,
) -> Seq<Seq<char>> {
    doc.take(t + 1) + chosen(snapshot, selection) + rejected(doc.subrange(t + 1, c), selection)
        + doc.skip(c)
}

/// The merged document: `doc` itself where no line opens the `top` object;
/// else the lines up to the opening one, the selected records of the
/// snapshot, the lines of the object that are not selected, and the lines
/// from the closing one on.
pub open spec fn merged(doc: Seq<Seq<char>>, snapshot: Seq<Seq<char>>, selection: Selection) -> Seq<
    Seq<char>,
> {
    if has_top(doc) {
        spliced(doc, snapshot, selection, top_line(doc), body_end(doc, top_line(doc)))
    } else {
        doc
    }
}

/// How many lines a merge deletes: the selected lines of the `top` object.
pub open spec fn removed_count(doc: Seq<Seq<char>>, selection: Selection) -> nat {
    chosen(top_body(doc), selection).len()
}

/// How many records a merge inserts: the selected ones, where a line opens
/// the `top` object, and none where no line does, for the snapshot is then
/// never read.
pub open spec fn inserted_count(
    doc: Seq<Seq<char>>,
    snapshot: Seq<Seq<char>>,
    selection: Selection,
) -> nat {
    if has_top(doc) {
        chosen(snapshot, selection).len()
    } else {
        0
    }
}

/// How many records a merge passes over: those not selected, where a line
/// opens the `top` object.
pub open spec fn skipped_count(
    doc: Seq<Seq<char>>,
    snapshot: Seq<Seq<char>>,
    selection: Selection,
) -> nat {
    if has_top(doc) {
        rejected(snapshot, selection).len()
    } else {
        0
    }
}

/// Whether a merge finds the `top` object closed with none of its own lines
/// left in it.
pub open spec fn comma_dangles(doc: Seq<Seq<char>>, selection: Selection) -> bool {
    &&& has_top(doc)
    &&& body_end(doc, top_line(doc)) < doc.len()
    &&& rejected(top_body(doc), selection).len() == 0
}

/// What a merge that streams its documents has done.
pub struct Run {
    /// Where the walk stands.
    pub state: MergeState,
    /// The lines written.
    pub lines: Seq<Seq<char>>,
    /// How many lines were deleted.
    pub removed: nat,
    /// How many records were inserted.
    pub inserted: nat,
    /// How many records were passed over.
    pub skipped: nat,
    /// Whether a step has reported a dangling comma.
    pub dangling_comma: bool,
}

/// What a streaming merge has done after the lines of `doc`: each line meets
/// with the decision of [`next_step`], and the records of the snapshot are
/// offered once, when a line is copied with the snapshot after it.
pub open spec fn run(doc: Seq<Seq<char>>, snapshot: Seq<Seq<char>>, selection: Selection) -> Run
    decreases doc.len(),
{
    if doc.len() == 0 {
        Run {
            state: start_state(),
            lines: Seq::empty(),
            removed: 0,
            inserted: 0,
            skipped: 0,
            dangling_comma: false,
        }
    } else {
        let before = run(doc.drop_last(), snapshot, selection);
        let decision = next_step(before.state, doc.last(), selection);
        let dangling = before.dangling_comma || decision.dangling_comma;
        match decision.action {
            LineAction::Delete => Run {
                state: decision.next,
                removed: before.removed + 1,
                dangling_comma: dangling,
                ..before
            },
            LineAction::Copy => Run {
                state: decision.next,
                lines: before.lines.push(doc.last()),
                dangling_comma: dangling,
                ..before
            },
            LineAction::CopyThenInsert => Run {
                state: decision.next,
                lines: before.lines.push(doc.last()) + chosen(snapshot, selection),
                inserted: before.inserted + chosen(snapshot, selection).len(),
                skipped: before.skipped + rejected(snapshot, selection).len(),
                dangling_comma: dangling,
                ..before
            },
        }
    }
}

/// Only one line is the first to open the `top` object.
pub proof fn lemma_top_line_unique(doc: Seq<Seq<char>>, t: int, other: int)
    requires
        is_top_line(doc, t),
        is_top_line(doc, other),
    ensures
        t == other,
{
    if t < other {
        assert(!opens_top(doc[t]));
    }
    if other < t {
        assert(!opens_top(doc[other]));
    }
}

/// The lines of the `top` object end in one place only.
pub proof fn lemma_body_end_unique(doc: Seq<Seq<char>>, t: int, c: int, other: int)
    requires
        is_body_end(doc, t, c),
        is_body_end(doc, t, other),
    ensures
        c == other,
{
    if c < other {
        assert(!closes_object(doc[c]));
    }
    if other < c {
        assert(!closes_object(doc[other]));
    }
}

/// The first line that opens the `top` object is [`top_line`].
pub proof fn lemma_top_line(doc: Seq<Seq<char>>, t: int)
    requires
        is_top_line(doc, t),
    ensures
        has_top(doc),
        top_line(doc) == t,
{
    lemma_top_line_unique(doc, t, top_line(doc));
}

/// The end of the lines of the `top` object is [`body_end`].
pub proof fn lemma_body_end(doc: Seq<Seq<char>>, t: int, c: int)
    requires
        is_body_end(doc, t, c),
    ensures
        body_end(doc, t) == c,
{
    lemma_body_end_unique(doc, t, c, body_end(doc, t));
}

/// Among the first `bound` lines, where one opens the `top` object, one is
/// the first to do so.
proof fn first_top(doc: Seq<Seq<char>>, bound: int) -> (t: int)
    requires
        0 <= bound <= doc.len(),
        exists|k: int| 0 <= k < bound && opens_top(#[trigger] doc[k]),
    ensures
        is_top_line(doc, t),
        t < bound,
    decreases bound,
{
    if exists|k: int| 0 <= k < bound - 1 && opens_top(#[trigger] doc[k]) {
        first_top(doc, bound - 1)
    } else {
        bound - 1
    }
}

/// From `from` on, the lines of the `top` object end somewhere.
proof fn find_body_end(doc: Seq<Seq<char>>, t: int, from: int) -> (c: int)
    requires
        0 <= t < from <= doc.len(),
        forall|k: int| t < k < from ==> !closes_object(#[trigger] doc[k]),
    ensures
        is_body_end(doc, t, c),
    decreases doc.len() - from,
{
    if from < doc.len() && !closes_object(doc[from]) {
        find_body_end(doc, t, from + 1)
    } else {
        from
    }
}

/// Where a line opens the `top` object, [`top_line`] is the first such line
/// and [`body_end`] is the end of the object's lines.
pub proof fn lemma_top_exists(doc: Seq<Seq<char>>)
    requires
        has_top(doc),
    ensures
        is_top_line(doc, top_line(doc)),
        is_body_end(doc, top_line(doc), body_end(doc, top_line(doc))),
{
    let t = first_top(doc, doc.len() as int);
    lemma_top_line(doc, t);
    let c = find_body_end(doc, t, t + 1);
    lemma_body_end(doc, t, c);
}

/// What a streaming merge has done after a document whose `top` object is
/// opened by line `t` and whose lines end before line `c`.
pub open spec fn run_of_top(
    doc: Seq<Seq<char>>,
    snapshot: Seq<Seq<char>>,
    selection: Selection,
    t: int,
    c: int,
) -> Run {
    let body = doc.subrange(t + 1, c);
    Run {
        state: MergeState {
            inside_top: c == doc.len(),
            inserted: true,
            comma_pending: c == doc.len() && rejected(body, selection).len() == 0,
        },
        lines: spliced(doc, snapshot, selection, t, c),
        removed: chosen(body, selection).len(),
        inserted: chosen(snapshot, selection).len(),
        skipped: rejected(snapshot, selection).len(),
        dangling_comma: c < doc.len() && rejected(body, selection).len() == 0,
    }
}

/// What a streaming merge has done after a document in which no line opens
/// the `top` object.
pub open spec fn run_without_top(doc: Seq<Seq<char>>) -> Run {
    Run {
        state: start_state(),
        lines: doc,
        removed: 0,
        inserted: 0,
        skipped: 0,
        dangling_comma: false,
    }
}

/// A streaming merge does what the shape of the document says.
proof fn lemma_run_shape(doc: Seq<Seq<char>>, snapshot: Seq<Seq<char>>, selection: Selection)
    ensures
        !has_top(doc) ==> run(doc, snapshot, selection) == run_without_top(doc),
        forall|t: int, c: int|
            is_top_line(doc, t) && is_body_end(doc, t, c) ==> run(doc, snapshot, selection)
                == run_of_top(doc, snapshot, selection, t, c),
    decreases doc.len(),
{
    if doc.len() == 0 {
        assert(run(doc, snapshot, selection).lines =~= doc);
    } else {
        let prev = doc.drop_last();
        let line = doc.last();
        let len = doc.len() as int;
        lemma_run_shape(prev, snapshot, selection);
        let before = run(prev, snapshot, selection);
        let now = run(doc, snapshot, selection);
        if !has_top(doc) {
            assert(!has_top(prev)) by {
                if has_top(prev) {
                    let k = choose|k: int| 0 <= k < prev.len() && opens_top(#[trigger] prev[k]);
                    assert(opens_top(doc[k]));
                }
            }
            assert(!opens_top(doc[len - 1]));
            assert(now.lines =~= doc);
        }
        assert forall|t: int, c: int| is_top_line(doc, t) && is_body_end(doc, t, c) implies now
            == run_of_top(doc, snapshot, selection, t, c) by {
            let goal = run_of_top(doc, snapshot, selection, t, c);
            let body = doc.subrange(t + 1, c);
            if t == len - 1 {
                assert(!has_top(prev)) by {
                    if has_top(prev) {
                        let k = choose|k: int| 0 <= k < prev.len() && opens_top(#[trigger] prev[k]);
                        assert(opens_top(doc[k]));
                    }
                }
                assert(c == len);
                assert(body =~= Seq::<Seq<char>>::empty());
                reveal(Seq::filter);
                assert(rejected(body, selection) =~= Seq::<Seq<char>>::empty());
                assert(chosen(body, selection) =~= Seq::<Seq<char>>::empty());
                assert(now.lines =~= goal.lines);
            } else {
                assert(is_top_line(prev, t)) by {
                    assert(prev[t] == doc[t]);
                    assert forall|k: int| 0 <= k < t implies !opens_top(#[trigger] prev[k]) by {
                        assert(prev[k] == doc[k]);
                    }
                }
                let c_prev = if c < len - 1 {
                    c
                } else {
                    len - 1
                };
                assert(is_body_end(prev, t, c_prev)) by {
                    assert forall|k: int| t < k < c_prev implies !closes_object(
                        #[trigger] prev[k],
                    ) by {
                        assert(prev[k] == doc[k]);
                    }
                    if c_prev < prev.len() {
                        assert(prev[c_prev] == doc[c_prev]);
                    }
                }
                assert(before == run_of_top(prev, snapshot, selection, t, c_prev));
                let body_prev = prev.subrange(t + 1, c_prev);
                if c < len - 1 {
                    assert(body_prev =~= body);
                    assert(doc.skip(c) =~= prev.skip(c).push(line));
                    assert(doc.take(t + 1) =~= prev.take(t + 1));
                    assert(now.lines =~= goal.lines);
                } else if c == len - 1 {
                    assert(body_prev =~= body);
                    assert(closes_object(line));
                    assert(doc.skip(c) =~= seq![line]);
                    assert(prev.skip(c_prev) =~= Seq::<Seq<char>>::empty());
                    assert(doc.take(t + 1) =~= prev.take(t + 1));
                    assert(now.lines =~= goal.lines);
                } else {
                    assert(c == len);
                    assert(!closes_object(line)) by {
                        assert(doc[len - 1] == line);
                    }
                    assert(body =~= body_prev.push(line));
                    lemma_chosen_push(body_prev, line, selection);
                    assert(doc.skip(c) =~= Seq::<Seq<char>>::empty());
                    assert(prev.skip(c_prev) =~= Seq::<Seq<char>>::empty());
                    assert(doc.take(t + 1) =~= prev.take(t + 1));
                    assert(now.lines =~= goal.lines);
                }
            }
        }
    }
}

/// A caller that streams its documents through [`next_step`] writes the
/// merged document, and its counts are those of the merge.
pub proof fn lemma_run_is_merged(
    doc: Seq<Seq<char>>,
    snapshot: Seq<Seq<char>>,
    selection: Selection,
)
    ensures
        run(doc, snapshot, selection).lines == merged(doc, snapshot, selection),
        run(doc, snapshot, selection).removed == removed_count(doc, selection),
        run(doc, snapshot, selection).inserted == inserted_count(doc, snapshot, selection),
        run(doc, snapshot, selection).skipped == skipped_count(doc, snapshot, selection),
        run(doc, snapshot, selection).dangling_comma == comma_dangles(doc, selection),
{
    lemma_run_shape(doc, snapshot, selection);
    if has_top(doc) {
        lemma_top_exists(doc);
    } else {
        reveal(Seq::filter);
    }
}

/// Inside the `top` object a line is deleted exactly when the merge applies
/// to every key or the line is a record whose key text begins with the text of
/// a prefix; the other lines of the object stand in the merged document, after
/// the inserted records, unchanged and in their order.
pub proof fn lemma_prefix_filter(
    doc: Seq<Seq<char>>,
    snapshot: Seq<Seq<char>>,
    selection: Selection,
)
    requires
        has_top(doc),
    ensures
        ({
            let body = top_body(doc);
            let kept = rejected(body, selection);
            let from = top_line(doc) + 1 + chosen(snapshot, selection).len();
            &&& merged(doc, snapshot, selection).subrange(from, from + kept.len()) == kept
            &&& forall|i: int|
                0 <= i < body.len() ==> (kept.contains(#[trigger] body[i]) <==> !selects(
                    selection,
                    body[i],
                ))
            &&& forall|i: int|
                0 <= i < body.len() ==> (selects(selection, #[trigger] body[i]) <==> selection.all
                    || (is_record(body[i]) && covers_text(
                    selection.prefixes,
                    record_key(body[i]),
                )))
        }),
{
    lemma_top_exists(doc);
    let body = top_body(doc);
    let kept = rejected(body, selection);
    let from = top_line(doc) + 1 + chosen(snapshot, selection).len();
    assert(merged(doc, snapshot, selection).subrange(from, from + kept.len()) =~= kept);
    assert forall|i: int| 0 <= i < body.len() implies (kept.contains(#[trigger] body[i])
        <==> !selects(selection, body[i])) by {
        if kept.contains(body[i]) {
            let j = choose|j: int| 0 <= j < kept.len() && kept[j] == body[i];
            body.lemma_filter_pred(rejecting(selection), j);
        }
        if !selects(selection, body[i]) {
            body.lemma_filter_contains(rejecting(selection), i);
        }
    }
}

/// Where a line opens the `top` object, the records inserted after it are the
/// selected records of the snapshot, in their order: a record is inserted
/// exactly when the filter that deletes lines selects it, and every record is
/// either inserted or passed over.
pub proof fn lemma_insertion(doc: Seq<Seq<char>>, snapshot: Seq<Seq<char>>, selection: Selection)
    requires
        has_top(doc),
    ensures
        ({
            let inserted = chosen(snapshot, selection);
            let from = top_line(doc) + 1;
            &&& merged(doc, snapshot, selection).subrange(from, from + inserted.len())
                == inserted
            &&& forall|j: int|
                0 <= j < snapshot.len() ==> (inserted.contains(#[trigger] snapshot[j])
                    <==> selects(selection, snapshot[j]))
            &&& inserted_count(doc, snapshot, selection) + skipped_count(
                doc,
                snapshot,
                selection,
            ) == snapshot.len()
        }),
{
    lemma_top_exists(doc);
    let inserted = chosen(snapshot, selection);
    let from = top_line(doc) + 1;
    assert(merged(doc, snapshot, selection).subrange(from, from + inserted.len()) =~= inserted);
    assert forall|j: int| 0 <= j < snapshot.len() implies (inserted.contains(
        #[trigger] snapshot[j],
    ) <==> selects(selection, snapshot[j])) by {
        if inserted.contains(snapshot[j]) {
            let k = choose|k: int| 0 <= k < inserted.len() && inserted[k] == snapshot[j];
            snapshot.lemma_filter_pred(selecting(selection), k);
        }
        if selects(selection, snapshot[j]) {
            snapshot.lemma_filter_contains(selecting(selection), j);
        }
    }
    lemma_chosen_rejected_len(snapshot, selection);
}

/// The lines deleted are the selected lines of the `top` object and no
/// others: the merged document begins with the lines up to the one that opens
/// the object and ends with the lines from the closing one on, as they were,
/// and it has as many lines as the document, less the deleted, plus the
/// inserted. A document in which no line opens the object comes out as it is.
pub proof fn lemma_conservation(
    doc: Seq<Seq<char>>,
    snapshot: Seq<Seq<char>>,
    selection: Selection,
)
    ensures
        removed_count(doc, selection) + rejected(top_body(doc), selection).len() == top_body(
            doc,
        ).len(),
        merged(doc, snapshot, selection).len() == doc.len() - removed_count(doc, selection)
            + inserted_count(doc, snapshot, selection),
        has_top(doc) ==> ({
            let t = top_line(doc);
            let c = body_end(doc, t);
            let out = merged(doc, snapshot, selection);
            &&& out.take(t + 1) == doc.take(t + 1)
            &&& out.skip(out.len() - (doc.len() - c)) == doc.skip(c)
        }),
        !has_top(doc) ==> merged(doc, snapshot, selection) == doc && removed_count(doc, selection)
            == 0,
{
    lemma_chosen_rejected_len(top_body(doc), selection);
    if has_top(doc) {
        lemma_top_exists(doc);
        let t = top_line(doc);
        let c = body_end(doc, t);
        let out = merged(doc, snapshot, selection);
        assert(out.take(t + 1) =~= doc.take(t + 1));
        assert(out.skip(out.len() - (doc.len() - c)) =~= doc.skip(c));
    } else {
        reveal(Seq::filter);
    }
}

} // verus!
