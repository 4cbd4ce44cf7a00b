//! Runtime values produced by expression evaluation, together with their
//! mathematical model and the string/boolean coercions the evaluator uses.

use vstd::prelude::*;
use vstd::string::StringExecFns;

verus! {

/// Mathematical model of a runtime value: a character sequence, a boolean,
/// a list of character sequences, or null.
pub enum ValM {
    Str(Seq<char>),
    Bool(bool),
    List(Seq<Seq<char>>),
    Null,
}

/// Runtime value produced by expression evaluation.
#[derive(Debug, Clone)]
pub enum Val {
    Str(String),
    Bool(bool),
    List(Vec<String>),
    Null,
}

/// Views of a sequence of strings, element by element.
pub open spec fn strs_view(v: Seq<String>) -> Seq<Seq<char>> {
    v.map_values(|s: String| s@)
}

impl View for Val {
    type V = ValM;

    open spec fn view(&self) -> ValM {
        match self {
            Val::Str(s) => ValM::Str(s@),
            Val::Bool(b) => ValM::Bool(*b),
            Val::List(l) => ValM::List(strs_view(l@)),
            Val::Null => ValM::Null,
        }
    }
}

/// The `as_str` coercion: booleans display as `true`/`false`; lists and
/// null display as the empty string.
pub open spec fn as_str_m(v: ValM) -> Seq<char> {
    match v {
        ValM::Str(s) => s,
        ValM::Bool(b) => if b { "true"@ } else { "false"@ },
        ValM::List(_) => Seq::empty(),
        ValM::Null => Seq::empty(),
    }
}

/// Truthiness: booleans pass through; strings and lists are truthy iff
/// non-empty; null is always false.
pub open spec fn as_bool_m(v: ValM) -> bool {
    match v {
        ValM::Str(s) => s.len() > 0,
        ValM::Bool(b) => b,
        ValM::List(l) => l.len() > 0,
        ValM::Null => false,
    }
}

/// Elements joined by a comma-space separator, in order.
pub open spec fn join_comma(l: Seq<Seq<char>>) -> Seq<char>
    decreases l.len(),
{
    if l.len() == 0 {
        Seq::empty()
    } else if l.len() == 1 {
        l[0]
    } else {
        join_comma(l.take(l.len() - 1)) + ", "@ + l[l.len() - 1]
    }
}

/// The `to_string` coercion: booleans render as `true`/`false`; a list
/// renders as its elements joined by comma-space; null renders empty.
pub open spec fn to_string_m(v: ValM) -> Seq<char> {
    match v {
        ValM::Str(s) => s,
        ValM::Bool(b) => if b { "true"@ } else { "false"@ },
        ValM::List(l) => join_comma(l),
        ValM::Null => Seq::empty(),
    }
}

impl Val {
    /// Borrowed string form of a value.
    pub fn as_str(&self) -> (r: &str)
        ensures
            r@ == as_str_m(self@),
    {
        proof {
            reveal_strlit("");
        }
        match self {
            Val::Str(s) => s.as_str(),
            Val::Bool(b) => if *b { "true" } else { "false" },
            Val::Null => "",
            Val::List(_) => "",
        }
    }

    /// Truthiness of a value.
    pub fn as_bool(&self) -> (r: bool)
        ensures
            r == as_bool_m(self@),
    {
        match self {
            Val::Bool(b) => *b,
            Val::Str(s) => !s.as_str().is_empty(),
            Val::List(l) => l.len() > 0,
            Val::Null => false,
        }
    }

    /// Owned string form of a value; lists join their elements with a
    /// comma-space separator.
    pub fn to_string_val(&self) -> (r: String)
        ensures
            r@ == to_string_m(self@),
    {
        match self {
            Val::Str(s) => s.as_str().to_owned(),
            Val::Bool(b) => if *b { ("true").to_owned() } else { ("false").to_owned() },
            Val::Null => String::new(),
            Val::List(l) => join_strings(l),
        }
    }
}

/// A deep copy of a value, with the same model.
pub fn clone_val(v: &Val) -> (r: Val)
    ensures
        r@ == v@,
{
    match v {
        Val::Str(s) => Val::Str(s.as_str().to_owned()),
        Val::Bool(b) => Val::Bool(*b),
        Val::Null => Val::Null,
        Val::List(l) => {
            let mut out: Vec<String> = Vec::new();
            let mut i: usize = 0;
            while i < l.len()
                invariant
                    i <= l@.len(),
                    strs_view(out@) == strs_view(l@.take(i as int)),
                decreases l@.len() - i,
            {
                let ghost before = out@;
                out.push(l[i].as_str().to_owned());
                proof {
                    assert(strs_view(out@) =~= strs_view(before).push(l@[i as int]@));
                    assert(strs_view(l@.take(i + 1)) =~= strs_view(l@.take(i as int)).push(l@[i as int]@));
                }
                i += 1;
            }
            proof {
                assert(l@.take(l@.len() as int) =~= l@);
            }
            Val::List(out)
        },
    }
}

/// Strings joined by a comma-space separator, in order.
pub fn join_strings(l: &Vec<String>) -> (r: String)
    ensures
        r@ == join_comma(l@.map_values(|s: String| s@)),
{
    let ghost m = l@.map_values(|s: String| s@);
    let mut out = String::new();
    let mut i: usize = 0;
    while i < l.len()
        invariant
            i <= l.len(),
            m == l@.map_values(|s: String| s@),
            out@ == join_comma(m.take(i as int)),
        decreases l.len() - i,
    {
        if i > 0 {
            out.append(", ");
        }
        out.append(l[i].as_str());
        proof {
            assert(m.take(i + 1).len() == i + 1);
            if i > 0 {
                assert(m.take(i + 1).take(i as int) =~= m.take(i as int));
                assert(m.take(i + 1)[i as int] == m[i as int]);
            } else {
                assert(m.take(1)[0] == m[0]);
            }
        }
        i += 1;
    }
    proof {
        assert(m.take(l.len() as int) =~= m);
    }
    out
}

} // verus!
