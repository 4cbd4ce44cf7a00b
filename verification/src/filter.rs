//! The boolean filter-tree combinator: AND/OR over expression-text leaves
//! and nested sub-trees, built on the evaluator. An empty AND is vacuously
//! true; an empty OR is false; an unparseable leaf includes the record.

use vstd::prelude::*;
use crate::eval::{eval_filter, spec_eval_filter, ThisContext};
use crate::note::NoteContext;

verus! {

/// Boolean combinator node: and/or over filter entries.
#[derive(Debug)]
pub enum FilterNode {
    And(Vec<FilterEntry>),
    Or(Vec<FilterEntry>),
}

/// A single entry in a filter list — either an expression string or a
/// nested combinator.
#[derive(Debug)]
pub enum FilterEntry {
    Expr(String),
    Nested(FilterNode),
}

/// Whether a record matches a filter tree: an AND node matches when every
/// entry matches (an empty AND matches everything); an OR node when some
/// entry matches (an empty OR matches nothing).
pub open spec fn matches_m(f: FilterNode, n: NoteContext, t: ThisContext) -> bool
    decreases f, 0int,
{
    match f {
        FilterNode::And(es) => forall|i: int| 0 <= i < es@.len() ==> entry_matches_m(#[trigger] es@[i], n, t),
        FilterNode::Or(es) => exists|i: int| 0 <= i < es@.len() && entry_matches_m(#[trigger] es@[i], n, t),
    }
}

/// Whether a record matches one filter entry: an expression leaf is lexed,
/// parsed and evaluated (fail-open on parse failure); a nested node
/// recurses.
pub open spec fn entry_matches_m(e: FilterEntry, n: NoteContext, t: ThisContext) -> bool
    decreases e, 1int,
{
    match e {
        FilterEntry::Expr(s) => spec_eval_filter(s@, n, t),
        FilterEntry::Nested(f) => matches_m(f, n, t),
    }
}

/// Decide whether a note matches a filter tree.
pub fn matches_filter(filter: &FilterNode, ctx: &NoteContext, this_ctx: &ThisContext) -> (r: bool)
    ensures
        r == matches_m(*filter, *ctx, *this_ctx),
    decreases filter, 0int,
{
    match filter {
        FilterNode::And(entries) => {
            let mut i: usize = 0;
            while i < entries.len()
                invariant
                    i <= entries@.len(),
                    *filter is And && filter->And_0 == *entries,
                    forall|j: int| 0 <= j < i ==> entry_matches_m(#[trigger] entries@[j], *ctx, *this_ctx),
                decreases entries@.len() - i,
            {
                proof {
                    assert(filter->And_0@[i as int] == entries@[i as int]);
                }
                if !matches_entry(&entries[i], ctx, this_ctx) {
                    return false;
                }
                i += 1;
            }
            true
        },
        FilterNode::Or(entries) => {
            let mut i: usize = 0;
            while i < entries.len()
                invariant
                    i <= entries@.len(),
                    *filter is Or && filter->Or_0 == *entries,
                    forall|j: int| 0 <= j < i ==> !entry_matches_m(#[trigger] entries@[j], *ctx, *this_ctx),
                decreases entries@.len() - i,
            {
                proof {
                    assert(filter->Or_0@[i as int] == entries@[i as int]);
                }
                if matches_entry(&entries[i], ctx, this_ctx) {
                    return true;
                }
                i += 1;
            }
            false
        },
    }
}

/// Decide whether a note matches one filter entry.
pub fn matches_entry(entry: &FilterEntry, ctx: &NoteContext, this_ctx: &ThisContext) -> (r: bool)
    ensures
        r == entry_matches_m(*entry, *ctx, *this_ctx),
    decreases entry, 1int,
{
    match entry {
        FilterEntry::Expr(s) => eval_filter(s.as_str(), ctx, this_ctx),
        FilterEntry::Nested(filter) => matches_filter(filter, ctx, this_ctx),
    }
}

// ─── Laws ───────────────────────────────────────────────────

/// An AND node over no entries matches every record; an OR node over no
/// entries matches none.
pub proof fn lemma_empty_combinators(f: FilterNode, n: NoteContext, t: ThisContext)
    ensures
        f matches FilterNode::And(es) && es@.len() == 0 ==> matches_m(f, n, t),
        f matches FilterNode::Or(es) && es@.len() == 0 ==> !matches_m(f, n, t),
{
}

/// An AND node over a single entry matches exactly when that entry does —
/// for an expression leaf, exactly the truthiness of evaluating it alone.
pub proof fn lemma_singleton_and(f: FilterNode, n: NoteContext, t: ThisContext)
    requires
        f matches FilterNode::And(es) && es@.len() == 1,
    ensures
        matches_m(f, n, t) == entry_matches_m(f->And_0@[0], n, t),
{
    let es = f->And_0;
    if entry_matches_m(es@[0], n, t) {
        assert(forall|i: int| 0 <= i < es@.len() ==> entry_matches_m(#[trigger] es@[i], n, t));
    }
}

} // verus!
