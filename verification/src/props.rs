//! The structured property values attached to records: a recursive tree of
//! scalars, sequences and mappings, with lookup, descent by key, and the
//! conversion to runtime values.

use vstd::prelude::*;
use vstd::string::StringExecFns;
use crate::text::str_eq;
use crate::value::{strs_view, Val, ValM};

verus! {

/// A structured property value, as decoded from a document's frontmatter.
/// A mapping carries its entries together with the textual rendering it had
/// at decode time (trimmed), which is what a mapping displays as; `Num`
/// holds the decimal rendering of a number; `Other` holds the rendering of
/// any further shape.
#[derive(Debug)]
pub enum PropVal {
    Str(String),
    Bool(bool),
    Num(String),
    List(Vec<PropVal>),
    Mapping { entries: Vec<MapEntry>, text: String },
    Other(String),
    Null,
}

/// One key-value pair of a mapping, in document order.
#[derive(Debug)]
pub struct MapEntry {
    pub key: String,
    pub val: PropVal,
}

/// First value stored under `key`, scanning entries in order.
pub open spec fn lookup_m(entries: Seq<MapEntry>, key: Seq<char>) -> Option<PropVal>
    decreases entries.len(),
{
    if entries.len() == 0 {
        None
    } else if entries[0].key@ == key {
        Some(entries[0].val)
    } else {
        lookup_m(entries.drop_first(), key)
    }
}

/// A value found by `lookup_m` is one of the entries' values.
pub proof fn lemma_lookup_is_element(entries: Seq<MapEntry>, key: Seq<char>)
    requires
        lookup_m(entries, key) is Some,
    ensures
        exists|j: int| 0 <= j < entries.len() && entries[j].val == lookup_m(entries, key)->Some_0,
    decreases entries.len(),
{
    if entries.len() > 0 && entries[0].key@ != key {
        lemma_lookup_is_element(entries.drop_first(), key);
        let j0 = choose|j: int| 0 <= j < entries.drop_first().len()
            && entries.drop_first()[j].val == lookup_m(entries.drop_first(), key)->Some_0;
        assert(entries[j0 + 1].val == lookup_m(entries, key)->Some_0);
    }
}

/// A value stored in a mapping sits below the mapping in the well-founded
/// order on values.
pub proof fn lemma_mapping_value_decreases(v: PropVal, key: Seq<char>)
    requires
        v is Mapping,
        lookup_m(v->Mapping_entries@, key) is Some,
    ensures
        decreases_to!(v => lookup_m(v->Mapping_entries@, key)->Some_0),
{
    let entries = v->Mapping_entries;
    lemma_lookup_is_element(entries@, key);
    let j = choose|j: int| 0 <= j < entries@.len()
        && entries@[j].val == lookup_m(entries@, key)->Some_0;
    assert(decreases_to!(v => entries));
    assert(decreases_to!(entries => entries@));
    assert(decreases_to!(entries@ => entries@[j]));
    assert(decreases_to!(entries@[j] => entries@[j].val));
}

/// The items of a sequence value sit below it in the well-founded order.
pub proof fn lemma_list_items_decreases(w: PropVal)
    requires
        w is List,
    ensures
        decreases_to!(w => w->List_0@),
{
    assert(decreases_to!(w => w->List_0));
    assert(decreases_to!(w->List_0 => w->List_0@));
}

/// Descend through nested mappings, one key per step; absence at any step
/// yields `None`.
pub open spec fn descend_m(v: PropVal, parts: Seq<Seq<char>>) -> Option<PropVal>
    decreases parts.len(),
{
    if parts.len() == 0 {
        Some(v)
    } else {
        match v {
            PropVal::Mapping { entries, .. } => match lookup_m(entries@, parts[0]) {
                Some(w) => descend_m(w, parts.drop_first()),
                None => None,
            },
            _ => None,
        }
    }
}

/// The string elements of a sequence, in order; non-string elements are
/// dropped.
pub open spec fn str_items_m(items: Seq<PropVal>) -> Seq<Seq<char>>
    decreases items.len(),
{
    if items.len() == 0 {
        Seq::empty()
    } else {
        str_items_m(items.take(items.len() - 1)) + (match items[items.len() - 1] {
            PropVal::Str(s) => seq![s@],
            _ => Seq::empty(),
        })
    }
}

/// The runtime value a property evaluates to: strings, booleans and null
/// pass through; a number displays as its rendering; a sequence becomes the
/// list of its string elements; a mapping or any other shape displays as
/// its stored rendering.
pub open spec fn prop_to_val_m(v: PropVal) -> ValM {
    match v {
        PropVal::Str(s) => ValM::Str(s@),
        PropVal::Bool(b) => ValM::Bool(b),
        PropVal::Num(s) => ValM::Str(s@),
        PropVal::List(items) => ValM::List(str_items_m(items@)),
        PropVal::Mapping { entries: _, text } => ValM::Str(text@),
        PropVal::Other(s) => ValM::Str(s@),
        PropVal::Null => ValM::Null,
    }
}

/// Look a key up in a list of entries.
pub fn lookup_entry<'a>(entries: &'a Vec<MapEntry>, key: &str) -> (r: Option<&'a PropVal>)
    ensures
        match r {
            Some(v) => lookup_m(entries@, key@) == Some(*v),
            None => lookup_m(entries@, key@) is None,
        },
{
    proof {
        assert(entries@.skip(0) =~= entries@);
    }
    let mut i: usize = 0;
    while i < entries.len()
        invariant
            i <= entries@.len(),
            lookup_m(entries@, key@) == lookup_m(entries@.skip(i as int), key@),
        decreases entries@.len() - i,
    {
        proof {
            assert(entries@.skip(i as int)[0] == entries@[i as int]);
            assert(entries@.skip(i as int).drop_first() =~= entries@.skip(i + 1));
        }
        if str_eq(entries[i].key.as_str(), key) {
            return Some(&entries[i].val);
        }
        i += 1;
    }
    None
}

/// Descend through nested mappings from `parts[from..]`.
pub fn descend<'a>(v: &'a PropVal, parts: &Vec<String>, from: usize) -> (r: Option<&'a PropVal>)
    requires
        from <= parts@.len(),
    ensures
        match r {
            Some(w) => descend_m(*v, strs_view(parts@).skip(from as int)) == Some(*w),
            None => descend_m(*v, strs_view(parts@).skip(from as int)) is None,
        },
{
    let ghost all = strs_view(parts@).skip(from as int);
    let mut cur: &PropVal = v;
    let mut i: usize = from;
    while i < parts.len()
        invariant
            from <= i <= parts@.len(),
            all == strs_view(parts@).skip(from as int),
            descend_m(*v, all) == descend_m(*cur, strs_view(parts@).skip(i as int)),
        decreases parts@.len() - i,
    {
        proof {
            assert(strs_view(parts@).skip(i as int)[0] == parts@[i as int]@);
            assert(strs_view(parts@).skip(i as int).drop_first() =~= strs_view(parts@).skip(i + 1));
        }
        match cur {
            PropVal::Mapping { entries, .. } => {
                match lookup_entry(entries, parts[i].as_str()) {
                    Some(w) => {
                        cur = w;
                        i += 1;
                    },
                    None => {
                        return None;
                    },
                }
            },
            _ => {
                return None;
            },
        }
    }
    proof {
        assert(strs_view(parts@).skip(parts@.len() as int) =~= Seq::<Seq<char>>::empty());
    }
    Some(cur)
}

/// Convert a structured property value to a runtime value.
pub fn prop_to_val(v: &PropVal) -> (r: Val)
    ensures
        r@ == prop_to_val_m(*v),
{
    match v {
        PropVal::Str(s) => Val::Str(s.as_str().to_owned()),
        PropVal::Bool(b) => Val::Bool(*b),
        PropVal::Num(s) => Val::Str(s.as_str().to_owned()),
        PropVal::List(items) => {
            let mut out: Vec<String> = Vec::new();
            let mut i: usize = 0;
            while i < items.len()
                invariant
                    i <= items@.len(),
                    strs_view(out@) == str_items_m(items@.take(i as int)),
                decreases items@.len() - i,
            {
                let ghost before = out@;
                match &items[i] {
                    PropVal::Str(s) => {
                        out.push(s.as_str().to_owned());
                        proof {
                            assert(strs_view(out@) =~= strs_view(before).push(items@[i as int]->Str_0@));
                        }
                    },
                    _ => {},
                }
                proof {
                    assert(items@.take(i + 1).take(i as int) =~= items@.take(i as int));
                    assert(items@.take(i + 1)[i as int] == items@[i as int]);
                    match items@[i as int] {
                        PropVal::Str(s) => {
                            assert(strs_view(out@) =~= str_items_m(items@.take(i as int)) + seq![s@]);
                        },
                        _ => {},
                    }
                }
                i += 1;
            }
            proof {
                assert(items@.take(items@.len() as int) =~= items@);
            }
            Val::List(out)
        },
        PropVal::Mapping { entries: _, text } => Val::Str(text.as_str().to_owned()),
        PropVal::Other(s) => Val::Str(s.as_str().to_owned()),
        PropVal::Null => Val::Null,
    }
}

} // verus!
