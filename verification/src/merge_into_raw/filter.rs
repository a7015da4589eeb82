//! Which lines a merge selects: the lines that it deletes inside the `top`
//! object, and the records of the snapshot that it inserts.

use crate::line::{is_record, read_record_key, record_key};
use crate::prefix::{covers_text, PrefixSet};
use vstd::prelude::*;

verus! {

/// Which keys a merge replaces: what contracts say of a [`KeyFilter`].
pub struct Selection {
    /// Whether every line is selected.
    pub all: bool,
    /// The prefixes whose keys are selected.
    pub prefixes: Seq<Seq<u8>>,
}

/// Whether a merge with `selection` deletes `line` inside the `top` object,
/// and inserts it from the snapshot: it applies to every line, or `line` is a
/// record whose key text begins with the lowercase hexadecimal text of one
/// of the prefixes.
pub open spec fn selects(selection: Selection, line: Seq<char>) -> bool {
    selection.all || (is_record(line) && covers_text(selection.prefixes, record_key(line)))
}

/// [`selects`] as a predicate on lines.
pub open spec fn selecting(selection: Selection) -> spec_fn(Seq<char>) -> bool {
    |line: Seq<char>| selects(selection, line)
}

/// The negation of [`selects`] as a predicate on lines.
pub open spec fn rejecting(selection: Selection) -> spec_fn(Seq<char>) -> bool {
    |line: Seq<char>| !selects(selection, line)
}

/// The selected lines of `lines`, in order.
pub open spec fn chosen(lines: Seq<Seq<char>>, selection: Selection) -> Seq<Seq<char>> {
    lines.filter(selecting(selection))
}

/// The lines of `lines` that are not selected, in order.
pub open spec fn rejected(lines: Seq<Seq<char>>, selection: Selection) -> Seq<Seq<char>> {
    lines.filter(rejecting(selection))
}

/// Which keys a merge replaces.
#[derive(Debug, Clone)]
pub struct KeyFilter {
    /// Whether every line is selected.
    pub all: bool,
    /// The prefixes whose keys are selected.
    pub prefixes: PrefixSet,
}

impl View for KeyFilter {
    type V = Selection;

    open spec fn view(&self) -> Selection {
        Selection { all: self.all, prefixes: self.prefixes@ }
    }
}

impl KeyFilter {
    /// Whether the filter says which keys to replace: it applies to every
    /// key, or it has a prefix.
    pub open spec fn wf(&self) -> bool {
        self.all || self.prefixes@.len() > 0
    }

    /// Tells whether the filter selects `line`.
    pub fn selects(&self, line: &str) -> (b: bool)
        ensures
            b == selects(self@, line@),
    {
        if self.all {
            return true;
        }
        match read_record_key(line) {
            None => false,
            Some(key) => self.prefixes.covers_text(key.as_slice()),
        }
    }
}

/// Every line is either selected or not.
pub proof fn lemma_chosen_rejected_len(lines: Seq<Seq<char>>, selection: Selection)
    ensures
        chosen(lines, selection).len() + rejected(lines, selection).len() == lines.len(),
    decreases lines.len(),
{
    reveal(Seq::filter);
    if lines.len() > 0 {
        lemma_chosen_rejected_len(lines.drop_last(), selection);
    }
}

/// One more line at the end of `lines` joins the selected lines or the
/// others.
pub proof fn lemma_chosen_push(lines: Seq<Seq<char>>, line: Seq<char>, selection: Selection)
    ensures
        selects(selection, line) ==> chosen(lines.push(line), selection) == chosen(
            lines,
            selection,
        ).push(line) && rejected(lines.push(line), selection) == rejected(lines, selection),
        !selects(selection, line) ==> chosen(lines.push(line), selection) == chosen(
            lines,
            selection,
        ) && rejected(lines.push(line), selection) == rejected(lines, selection).push(line),
{
    lines.lemma_filter_push(line, selecting(selection));
    lines.lemma_filter_push(line, rejecting(selection));
}

} // verus!
