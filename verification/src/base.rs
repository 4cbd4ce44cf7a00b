//! The view-specification structures — a top-level filter, named views with
//! their filters, column order and sort keys — and their decoding from an
//! already-parsed structured tree.

use vstd::prelude::*;
use crate::filter::{FilterEntry, FilterNode};
use crate::props::{lemma_list_items_decreases, lemma_mapping_value_decreases, lookup_entry, lookup_m, PropVal, str_items_m};
use crate::text::{eq_ignore_ascii_case_m, str_eq_ignore_ascii_case};
use crate::value::strs_view;

verus! {

/// Top-level view-specification structure.
#[derive(Debug)]
pub struct BaseSpec {
    pub filters: Option<FilterNode>,
    pub views: Vec<ViewSpec>,
}

/// A single view within the specification (table, cards, list).
#[derive(Debug)]
pub struct ViewSpec {
    pub view_type: String,
    pub name: String,
    pub filters: Option<FilterNode>,
    pub order: Vec<String>,
    pub sort: Vec<SortSpec>,
}

/// Sort specification for a view.
#[derive(Debug)]
pub struct SortSpec {
    pub property: String,
    pub direction: SortDirection,
}

#[derive(Debug, Clone, Copy, PartialEq, Eq, Structural)]
pub enum SortDirection {
    Asc,
    Desc,
}

// ─── Models ─────────────────────────────────────────────────

/// Mathematical model of a filter tree.
pub enum FilterNodeM {
    And(Seq<FilterEntryM>),
    Or(Seq<FilterEntryM>),
}

pub enum FilterEntryM {
    ExprText(Seq<char>),
    Nested(Box<FilterNodeM>),
}

pub struct SortM {
    pub property: Seq<char>,
    pub direction: SortDirection,
}

pub struct ViewM {
    pub view_type: Seq<char>,
    pub name: Seq<char>,
    pub filters: Option<FilterNodeM>,
    pub order: Seq<Seq<char>>,
    pub sort: Seq<SortM>,
}

pub struct BaseM {
    pub filters: Option<FilterNodeM>,
    pub views: Seq<ViewM>,
}

pub open spec fn filter_node_view(f: FilterNode) -> FilterNodeM
    decreases f, 1int,
{
    match f {
        FilterNode::And(es) => FilterNodeM::And(fentries_view(es@, 0)),
        FilterNode::Or(es) => FilterNodeM::Or(fentries_view(es@, 0)),
    }
}

pub open spec fn fentries_view(v: Seq<FilterEntry>, i: int) -> Seq<FilterEntryM>
    decreases v, v.len() - i,
{
    if i < 0 || i >= v.len() {
        Seq::empty()
    } else {
        seq![filter_entry_view(v[i])] + fentries_view(v, i + 1)
    }
}

pub open spec fn filter_entry_view(e: FilterEntry) -> FilterEntryM
    decreases e, 1int,
{
    match e {
        FilterEntry::Expr(s) => FilterEntryM::ExprText(s@),
        FilterEntry::Nested(f) => FilterEntryM::Nested(Box::new(filter_node_view(f))),
    }
}

pub open spec fn sort_view(s: SortSpec) -> SortM {
    SortM { property: s.property@, direction: s.direction }
}

pub open spec fn sorts_view(v: Seq<SortSpec>) -> Seq<SortM> {
    v.map_values(|s: SortSpec| sort_view(s))
}

pub open spec fn view_view(v: ViewSpec) -> ViewM {
    ViewM {
        view_type: v.view_type@,
        name: v.name@,
        filters: match v.filters {
            Some(f) => Some(filter_node_view(f)),
            None => None,
        },
        order: strs_view(v.order@),
        sort: sorts_view(v.sort@),
    }
}

pub open spec fn views_view(v: Seq<ViewSpec>) -> Seq<ViewM> {
    v.map_values(|x: ViewSpec| view_view(x))
}

pub open spec fn base_view(b: BaseSpec) -> BaseM {
    BaseM {
        filters: match b.filters {
            Some(f) => Some(filter_node_view(f)),
            None => None,
        },
        views: views_view(b.views@),
    }
}

// ─── The decoding relation ──────────────────────────────────

/// The sequence items of a value, when it is a sequence.
pub open spec fn as_list(ov: Option<PropVal>) -> Option<Seq<PropVal>> {
    match ov {
        Some(v) => match v {
            PropVal::List(items) => Some(items@),
            _ => None,
        },
        None => None,
    }
}

/// The text of a value, when it is a string.
pub open spec fn as_text(ov: Option<PropVal>) -> Option<Seq<char>> {
    match ov {
        Some(v) => match v {
            PropVal::Str(s) => Some(s@),
            _ => None,
        },
        None => None,
    }
}

/// How a filter node decodes: a mapping whose `and` (else `or`) key holds a
/// sequence becomes that combinator over the decoded entries; anything else
/// is absent.
pub open spec fn sp_filter_node(v: PropVal) -> Option<FilterNodeM>
    decreases v, 3int,
    via sp_filter_node_dec
{
    match v {
        PropVal::Mapping { entries, .. } => {
            let al = as_list(lookup_m(entries@, "and"@));
            let ol = as_list(lookup_m(entries@, "or"@));
            if al is Some {
                Some(FilterNodeM::And(sp_fentries(al->Some_0, 0)))
            } else if ol is Some {
                Some(FilterNodeM::Or(sp_fentries(ol->Some_0, 0)))
            } else {
                None
            }
        },
        _ => None,
    }
}

#[via_fn]
proof fn sp_filter_node_dec(v: PropVal) {
    match v {
        PropVal::Mapping { entries, .. } => {
            let al = as_list(lookup_m(entries@, "and"@));
            let ol = as_list(lookup_m(entries@, "or"@));
            if al is Some {
                lemma_mapping_value_decreases(v, "and"@);
                lemma_list_items_decreases(lookup_m(entries@, "and"@)->Some_0);
            } else if ol is Some {
                lemma_mapping_value_decreases(v, "or"@);
                lemma_list_items_decreases(lookup_m(entries@, "or"@)->Some_0);
            }
        },
        _ => {},
    }
}

/// The decoded entries of a filter list, in order; items that decode to
/// nothing are dropped.
pub open spec fn sp_fentries(v: Seq<PropVal>, i: int) -> Seq<FilterEntryM>
    decreases v, v.len() - i,
{
    if i < 0 || i >= v.len() {
        Seq::empty()
    } else {
        match sp_filter_entry(v[i]) {
            Some(e) => seq![e] + sp_fentries(v, i + 1),
            None => sp_fentries(v, i + 1),
        }
    }
}

/// How one filter entry decodes: a mapping with a combinator key becomes a
/// nested node; a string becomes an expression leaf; anything else is
/// absent.
pub open spec fn sp_filter_entry(e: PropVal) -> Option<FilterEntryM>
    decreases e, 4int,
{
    match e {
        PropVal::Mapping { .. } => match sp_filter_node(e) {
            Some(f) => Some(FilterEntryM::Nested(Box::new(f))),
            None => None,
        },
        PropVal::Str(s) => Some(FilterEntryM::ExprText(s@)),
        _ => None,
    }
}

/// How a sort entry decodes: the `property` key (else `column`) must hold a
/// string; the direction is descending exactly when `direction` holds a
/// string equal to `desc` up to ASCII case.
pub open spec fn sp_sort(v: PropVal) -> Option<SortM> {
    match v {
        PropVal::Mapping { entries, .. } => {
            let pv = lookup_m(entries@, "property"@);
            let found = if pv is Some {
                pv
            } else {
                lookup_m(entries@, "column"@)
            };
            match as_text(found) {
                Some(prop) => {
                    let dir = match as_text(lookup_m(entries@, "direction"@)) {
                        Some(d) => if eq_ignore_ascii_case_m(d, "desc"@) {
                            SortDirection::Desc
                        } else {
                            SortDirection::Asc
                        },
                        None => SortDirection::Asc,
                    };
                    Some(SortM { property: prop, direction: dir })
                },
                None => None,
            }
        },
        _ => None,
    }
}

/// The decoded sort entries of a sequence, in order, dropping failures.
pub open spec fn sp_sorts(v: Seq<PropVal>, i: int) -> Seq<SortM>
    decreases v.len() - i,
{
    if i < 0 || i >= v.len() {
        Seq::empty()
    } else {
        match sp_sort(v[i]) {
            Some(s) => seq![s] + sp_sorts(v, i + 1),
            None => sp_sorts(v, i + 1),
        }
    }
}

/// How a view decodes: `type` must hold a string; `name` defaults to
/// `Unnamed`; `filters` decodes as a filter node; `order` keeps the string
/// items of its sequence; `sort` keeps the decodable entries of its
/// sequence.
pub open spec fn sp_view(v: PropVal) -> Option<ViewM>
    decreases v, 5int,
    via sp_view_dec
{
    match v {
        PropVal::Mapping { entries, .. } => {
            match as_text(lookup_m(entries@, "type"@)) {
                Some(ty) => {
                    let name = match as_text(lookup_m(entries@, "name"@)) {
                        Some(nm) => nm,
                        None => "Unnamed"@,
                    };
                    let filters = match lookup_m(entries@, "filters"@) {
                        Some(fv) => sp_filter_node(fv),
                        None => None,
                    };
                    let order = match as_list(lookup_m(entries@, "order"@)) {
                        Some(items) => str_items_m(items),
                        None => Seq::empty(),
                    };
                    let sort = match as_list(lookup_m(entries@, "sort"@)) {
                        Some(items) => sp_sorts(items, 0),
                        None => Seq::empty(),
                    };
                    Some(ViewM { view_type: ty, name, filters, order, sort })
                },
                None => None,
            }
        },
        _ => None,
    }
}

#[via_fn]
proof fn sp_view_dec(v: PropVal) {
    match v {
        PropVal::Mapping { entries, .. } => {
            if lookup_m(entries@, "filters"@) is Some {
                lemma_mapping_value_decreases(v, "filters"@);
            }
        },
        _ => {},
    }
}

/// The decoded views of a sequence, in order, dropping failures.
pub open spec fn sp_views(v: Seq<PropVal>, i: int) -> Seq<ViewM>
    decreases v, v.len() - i,
{
    if i < 0 || i >= v.len() {
        Seq::empty()
    } else {
        match sp_view(v[i]) {
            Some(w) => seq![w] + sp_views(v, i + 1),
            None => sp_views(v, i + 1),
        }
    }
}

/// How a whole specification decodes from a structured tree: an optional
/// top-level filter under `filters`, and the decodable views under `views`.
pub open spec fn sp_base(v: PropVal) -> BaseM
    decreases v, 6int,
    via sp_base_dec
{
    match v {
        PropVal::Mapping { entries, .. } => BaseM {
            filters: match lookup_m(entries@, "filters"@) {
                Some(fv) => sp_filter_node(fv),
                None => None,
            },
            views: match as_list(lookup_m(entries@, "views"@)) {
                Some(items) => sp_views(items, 0),
                None => Seq::empty(),
            },
        },
        _ => BaseM { filters: None, views: Seq::empty() },
    }
}

#[via_fn]
proof fn sp_base_dec(v: PropVal) {
    match v {
        PropVal::Mapping { entries, .. } => {
            if lookup_m(entries@, "filters"@) is Some {
                lemma_mapping_value_decreases(v, "filters"@);
            }
            if as_list(lookup_m(entries@, "views"@)) is Some {
                lemma_mapping_value_decreases(v, "views"@);
                lemma_list_items_decreases(lookup_m(entries@, "views"@)->Some_0);
            }
        },
        _ => {},
    }
}

// ─── Executable decoding ────────────────────────────────────

/// Decode a filter node from a structured tree value.
pub fn parse_filter_node(val: &PropVal) -> (r: Option<FilterNode>)
    ensures
        match r {
            Some(f) => sp_filter_node(*val) == Some(filter_node_view(f)),
            None => sp_filter_node(*val) is None,
        },
    decreases val, 3int,
{
    let entries = match val {
        PropVal::Mapping { entries, .. } => entries,
        _ => {
            return None;
        },
    };
    match lookup_entry(entries, "and") {
        Some(av) => {
            match av {
                PropVal::List(items) => {
                    proof {
                        lemma_mapping_value_decreases(*val, "and"@);
                        lemma_list_items_decreases(lookup_m(entries@, "and"@)->Some_0);
                    }
                    let out = parse_filter_entries(val, items);
                    return Some(FilterNode::And(out));
                },
                _ => {},
            }
        },
        None => {},
    }
    match lookup_entry(entries, "or") {
        Some(ov) => {
            match ov {
                PropVal::List(items) => {
                    proof {
                        lemma_mapping_value_decreases(*val, "or"@);
                        lemma_list_items_decreases(lookup_m(entries@, "or"@)->Some_0);
                    }
                    let out = parse_filter_entries(val, items);
                    return Some(FilterNode::Or(out));
                },
                _ => {},
            }
        },
        None => {},
    }
    None
}

/// Decode every entry of a filter list, dropping failures.
fn parse_filter_entries(owner: &PropVal, items: &Vec<PropVal>) -> (r: Vec<FilterEntry>)
    requires
        decreases_to!(*owner => items@),
    ensures
        fentries_view(r@, 0) == sp_fentries(items@, 0),
    decreases owner, 2int,
{
    let mut out: Vec<FilterEntry> = Vec::new();
    let mut i: usize = 0;
    proof {
        assert(fentries_view(out@, 0) =~= Seq::<FilterEntryM>::empty());
        lemma_sp_fentries_cat(items@, 0);
    }
    while i < items.len()
        invariant
            i <= items@.len(),
            decreases_to!(*owner => items@),
            sp_fentries(items@, 0) == fentries_view(out@, 0) + sp_fentries(items@, i as int),
        decreases items@.len() - i,
    {
        proof {
            assert(decreases_to!(items@ => items@[i as int]));
        }
        let ghost before = out@;
        match parse_filter_entry(&items[i]) {
            Some(e) => {
                proof {
                    lemma_fentries_view_push(before, e);
                }
                out.push(e);
            },
            None => {},
        }
        proof {
            lemma_sp_fentries_cat(items@, 0);
        }
        i += 1;
    }
    proof {
        assert(sp_fentries(items@, items@.len() as int) =~= Seq::<FilterEntryM>::empty());
        assert(fentries_view(out@, 0) + Seq::<FilterEntryM>::empty() =~= fentries_view(out@, 0));
    }
    out
}

proof fn lemma_fentries_view_shape(v: Seq<FilterEntry>, i: int)
    requires
        0 <= i <= v.len(),
    ensures
        fentries_view(v, i).len() == v.len() - i,
        forall|k: int| 0 <= k < v.len() - i ==> fentries_view(v, i)[k] == filter_entry_view(v[i + k]),
    decreases v.len() - i,
{
    if i < v.len() {
        lemma_fentries_view_shape(v, i + 1);
    }
}

proof fn lemma_fentries_view_push(v: Seq<FilterEntry>, e: FilterEntry)
    ensures
        fentries_view(v.push(e), 0) == fentries_view(v, 0).push(filter_entry_view(e)),
{
    lemma_fentries_view_shape(v, 0);
    lemma_fentries_view_shape(v.push(e), 0);
    assert(fentries_view(v.push(e), 0) =~= fentries_view(v, 0).push(filter_entry_view(e)));
}

proof fn lemma_sp_fentries_cat(v: Seq<PropVal>, i: int)
    requires
        0 <= i <= v.len(),
    ensures
        forall|j: int| i <= j <= v.len() ==> sp_fentries(v, i) == sp_fentries_between(v, i, j) + #[trigger] sp_fentries(v, j),
    decreases v.len() - i,
{
    assert forall|j: int| i <= j <= v.len() implies sp_fentries(v, i) == sp_fentries_between(v, i, j) + sp_fentries(v, j) by {
        lemma_sp_fentries_cat_one(v, i, j);
    }
}

spec fn sp_fentries_between(v: Seq<PropVal>, i: int, j: int) -> Seq<FilterEntryM>
    decreases j - i,
{
    if i < 0 || i >= j || j > v.len() {
        Seq::empty()
    } else {
        match sp_filter_entry(v[i]) {
            Some(e) => seq![e] + sp_fentries_between(v, i + 1, j),
            None => sp_fentries_between(v, i + 1, j),
        }
    }
}

proof fn lemma_sp_fentries_cat_one(v: Seq<PropVal>, i: int, j: int)
    requires
        0 <= i <= j <= v.len(),
    ensures
        sp_fentries(v, i) == sp_fentries_between(v, i, j) + sp_fentries(v, j),
    decreases j - i,
{
    if i < j {
        lemma_sp_fentries_cat_one(v, i + 1, j);
        match sp_filter_entry(v[i]) {
            Some(e) => {
                assert(sp_fentries(v, i) =~= seq![e] + (sp_fentries_between(v, i + 1, j) + sp_fentries(v, j)));
                assert(sp_fentries_between(v, i, j) + sp_fentries(v, j) =~= seq![e] + (sp_fentries_between(v, i + 1, j) + sp_fentries(v, j)));
            },
            None => {},
        }
    } else {
        assert(sp_fentries_between(v, i, j) + sp_fentries(v, j) =~= sp_fentries(v, j));
    }
}

/// Decode one filter entry from a structured tree value.
pub fn parse_filter_entry(val: &PropVal) -> (r: Option<FilterEntry>)
    ensures
        match r {
            Some(e) => sp_filter_entry(*val) == Some(filter_entry_view(e)),
            None => sp_filter_entry(*val) is None,
        },
    decreases val, 4int,
{
    match val {
        PropVal::Mapping { .. } => {
            match parse_filter_node(val) {
                Some(f) => Some(FilterEntry::Nested(f)),
                None => None,
            }
        },
        PropVal::Str(s) => Some(FilterEntry::Expr(s.as_str().to_owned())),
        _ => None,
    }
}

spec fn sp_sorts_between(v: Seq<PropVal>, i: int, j: int) -> Seq<SortM>
    decreases j - i,
{
    if i < 0 || i >= j || j > v.len() {
        Seq::empty()
    } else {
        match sp_sort(v[i]) {
            Some(s) => seq![s] + sp_sorts_between(v, i + 1, j),
            None => sp_sorts_between(v, i + 1, j),
        }
    }
}

proof fn lemma_sp_sorts_cat_one(v: Seq<PropVal>, i: int, j: int)
    requires
        0 <= i <= j <= v.len(),
    ensures
        sp_sorts(v, i) == sp_sorts_between(v, i, j) + sp_sorts(v, j),
    decreases j - i,
{
    if i < j {
        lemma_sp_sorts_cat_one(v, i + 1, j);
        match sp_sort(v[i]) {
            Some(s) => {
                assert(sp_sorts(v, i) =~= seq![s] + (sp_sorts_between(v, i + 1, j) + sp_sorts(v, j)));
                assert(sp_sorts_between(v, i, j) + sp_sorts(v, j) =~= seq![s] + (sp_sorts_between(v, i + 1, j) + sp_sorts(v, j)));
            },
            None => {},
        }
    } else {
        assert(sp_sorts_between(v, i, j) + sp_sorts(v, j) =~= sp_sorts(v, j));
    }
}

spec fn sp_views_between(v: Seq<PropVal>, i: int, j: int) -> Seq<ViewM>
    decreases v, j - i,
{
    if i < 0 || i >= j || j > v.len() {
        Seq::empty()
    } else {
        match sp_view(v[i]) {
            Some(w) => seq![w] + sp_views_between(v, i + 1, j),
            None => sp_views_between(v, i + 1, j),
        }
    }
}

proof fn lemma_sp_views_cat_one(v: Seq<PropVal>, i: int, j: int)
    requires
        0 <= i <= j <= v.len(),
    ensures
        sp_views(v, i) == sp_views_between(v, i, j) + sp_views(v, j),
    decreases j - i,
{
    if i < j {
        lemma_sp_views_cat_one(v, i + 1, j);
        match sp_view(v[i]) {
            Some(w) => {
                assert(sp_views(v, i) =~= seq![w] + (sp_views_between(v, i + 1, j) + sp_views(v, j)));
                assert(sp_views_between(v, i, j) + sp_views(v, j) =~= seq![w] + (sp_views_between(v, i + 1, j) + sp_views(v, j)));
            },
            None => {},
        }
    } else {
        assert(sp_views_between(v, i, j) + sp_views(v, j) =~= sp_views(v, j));
    }
}

/// Decode a sort entry from a structured tree value.
pub fn parse_sort(val: &PropVal) -> (r: Option<SortSpec>)
    ensures
        match r {
            Some(s) => sp_sort(*val) == Some(sort_view(s)),
            None => sp_sort(*val) is None,
        },
{
    let entries = match val {
        PropVal::Mapping { entries, .. } => entries,
        _ => {
            return None;
        },
    };
    let found = match lookup_entry(entries, "property") {
        Some(v) => Some(v),
        None => lookup_entry(entries, "column"),
    };
    let prop = match found {
        Some(PropVal::Str(s)) => s.as_str().to_owned(),
        _ => {
            return None;
        },
    };
    let direction = match lookup_entry(entries, "direction") {
        Some(PropVal::Str(d)) => {
            if str_eq_ignore_ascii_case(d.as_str(), "desc") {
                SortDirection::Desc
            } else {
                SortDirection::Asc
            }
        },
        _ => SortDirection::Asc,
    };
    Some(SortSpec { property: prop, direction })
}

/// Decode a view from a structured tree value.
pub fn parse_view(val: &PropVal) -> (r: Option<ViewSpec>)
    ensures
        match r {
            Some(w) => sp_view(*val) == Some(view_view(w)),
            None => sp_view(*val) is None,
        },
    decreases val, 5int,
{
    let entries = match val {
        PropVal::Mapping { entries, .. } => entries,
        _ => {
            return None;
        },
    };
    let view_type = match lookup_entry(entries, "type") {
        Some(PropVal::Str(s)) => s.as_str().to_owned(),
        _ => {
            return None;
        },
    };
    let name = match lookup_entry(entries, "name") {
        Some(PropVal::Str(s)) => s.as_str().to_owned(),
        _ => ("Unnamed").to_owned(),
    };
    let filters = match lookup_entry(entries, "filters") {
        Some(fv) => {
            proof {
                lemma_mapping_value_decreases(*val, "filters"@);
            }
            parse_filter_node(fv)
        },
        None => None,
    };
    let order = match lookup_entry(entries, "order") {
        Some(ov) => {
            match crate::props::prop_to_val(ov) {
                crate::value::Val::List(items) => items,
                _ => Vec::new(),
            }
        },
        None => Vec::new(),
    };
    proof {
        match lookup_m(entries@, "order"@) {
            Some(ov) => {
                match ov {
                    PropVal::List(_) => {},
                    _ => {
                        assert(strs_view(order@) =~= Seq::<Seq<char>>::empty());
                    },
                }
            },
            None => {
                assert(strs_view(order@) =~= Seq::<Seq<char>>::empty());
            },
        }
    }
    let mut sort: Vec<SortSpec> = Vec::new();
    match lookup_entry(entries, "sort") {
        Some(PropVal::List(items)) => {
            let mut i: usize = 0;
            proof {
                lemma_sp_sorts_cat_one(items@, 0, 0);
                assert(sorts_view(sort@) =~= Seq::<SortM>::empty());
                assert(sp_sorts_between(items@, 0, 0) =~= Seq::<SortM>::empty());
                assert(sp_sorts(items@, 0) =~= Seq::<SortM>::empty() + sp_sorts(items@, 0));
            }
            while i < items.len()
                invariant
                    i <= items@.len(),
                    sp_sorts(items@, 0) == sorts_view(sort@) + sp_sorts(items@, i as int),
                decreases items@.len() - i,
            {
                let ghost before = sort@;
                match parse_sort(&items[i]) {
                    Some(sv) => {
                        sort.push(sv);
                        proof {
                            assert(sorts_view(sort@) =~= sorts_view(before).push(sort_view(sv)));
                            assert(sorts_view(before).push(sort_view(sv)) + sp_sorts(items@, i + 1) =~= sorts_view(before) + (seq![sort_view(sv)] + sp_sorts(items@, i + 1)));
                        }
                    },
                    None => {},
                }
                i += 1;
            }
            proof {
                assert(sp_sorts(items@, items@.len() as int) =~= Seq::<SortM>::empty());
                assert(sorts_view(sort@) + Seq::<SortM>::empty() =~= sorts_view(sort@));
            }
        },
        _ => {
            proof {
                assert(sorts_view(sort@) =~= Seq::<SortM>::empty());
            }
        },
    }
    Some(ViewSpec { view_type, name, filters, order, sort })
}

impl BaseSpec {
    /// Decode a whole view specification from a structured tree.
    pub fn from_tree(val: &PropVal) -> (r: BaseSpec)
        ensures
            base_view(r) == sp_base(*val),
        decreases val, 6int,
    {
        let entries = match val {
            PropVal::Mapping { entries, .. } => entries,
            _ => {
                proof {
                    assert(views_view(Seq::<ViewSpec>::empty()) =~= Seq::<ViewM>::empty());
                }
                return BaseSpec { filters: None, views: Vec::new() };
            },
        };
        let filters = match lookup_entry(entries, "filters") {
            Some(fv) => {
                proof {
                    lemma_mapping_value_decreases(*val, "filters"@);
                }
                parse_filter_node(fv)
            },
            None => None,
        };
        let mut views: Vec<ViewSpec> = Vec::new();
        match lookup_entry(entries, "views") {
            Some(PropVal::List(items)) => {
                proof {
                    lemma_mapping_value_decreases(*val, "views"@);
                    lemma_list_items_decreases(lookup_m(entries@, "views"@)->Some_0);
                }
                let mut i: usize = 0;
                proof {
                    assert(views_view(views@) =~= Seq::<ViewM>::empty());
                    assert(sp_views(items@, 0) =~= Seq::<ViewM>::empty() + sp_views(items@, 0));
                }
                while i < items.len()
                    invariant
                        i <= items@.len(),
                        decreases_to!(*val => items@),
                        sp_views(items@, 0) == views_view(views@) + sp_views(items@, i as int),
                    decreases items@.len() - i,
                {
                    proof {
                        assert(decreases_to!(items@ => items@[i as int]));
                    }
                    let ghost before = views@;
                    match parse_view(&items[i]) {
                        Some(w) => {
                            views.push(w);
                            proof {
                                assert(views_view(views@) =~= views_view(before).push(view_view(w)));
                                assert(views_view(before).push(view_view(w)) + sp_views(items@, i + 1) =~= views_view(before) + (seq![view_view(w)] + sp_views(items@, i + 1)));
                            }
                        },
                        None => {},
                    }
                    i += 1;
                }
                proof {
                    assert(sp_views(items@, items@.len() as int) =~= Seq::<ViewM>::empty());
                    assert(views_view(views@) + Seq::<ViewM>::empty() =~= views_view(views@));
                }
            },
            _ => {
                proof {
                    assert(views_view(views@) =~= Seq::<ViewM>::empty());
                }
            },
        }
        BaseSpec { filters, views }
    }
}

} // verus!
