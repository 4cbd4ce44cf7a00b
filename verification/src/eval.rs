//! The evaluator: an expression, a record and a self context yield a typed
//! value. Evaluation is total — unresolvable properties, methods and
//! functions yield null, and an unparseable filter expression includes the
//! record (fail-open).

use vstd::prelude::*;
use vstd::string::{StrSliceExecFns, StringExecFns};
use crate::lexer::{spec_tokenize, tokenize};
use crate::note::{has_link_m, has_tag_m, NoteContext};
use crate::num::{parse_usize_m, parse_usize_str};
use crate::parser::{BinOperator, Expr, ExprM, expr_view, exprs_view, FuncKind, lemma_exprs_view, MethodKind, Parser, sp_expr};
use crate::props::{descend, descend_m, lookup_m, MapEntry, prop_to_val, prop_to_val_m, PropVal};
use crate::text::{has_substring_m, is_prefix_m, is_suffix_m, push_char, str_contains, str_eq, str_starts_with, str_ends_with};
use crate::value::{as_bool_m, clone_val, strs_view, to_string_m, Val, ValM};

verus! {

/// Context for `this.*` references — the artifact defining the running
/// query.
#[derive(Debug)]
pub struct ThisContext {
    pub name: String,
    pub folder: String,
    pub rel_path: String,
    pub properties: Vec<MapEntry>,
}

/// Views of a sequence of values, element by element.
pub open spec fn vals_view(v: Seq<Val>) -> Seq<ValM> {
    v.map_values(|x: Val| x@)
}

// ─── Property resolution ────────────────────────────────────

/// Segments joined by dots, restoring a dotted key stored verbatim.
pub open spec fn join_dots_m(parts: Seq<Seq<char>>) -> Seq<char>
    decreases parts.len(),
{
    if parts.len() == 0 {
        Seq::empty()
    } else if parts.len() == 1 {
        parts[0]
    } else {
        join_dots_m(parts.take(parts.len() - 1)) + seq!['.'] + parts[parts.len() - 1]
    }
}

/// `this.*` resolution: bare `this` is the self name; `this.file` fields
/// come from the self path, defaulting to the self name; a single remaining
/// segment is a self property lookup.
pub open spec fn resolve_this_m(rest: Seq<Seq<char>>, t: ThisContext) -> ValM {
    if rest.len() == 0 {
        ValM::Str(t.name@)
    } else if rest[0] == "file"@ {
        if rest.len() >= 2 && rest[1] == "fullname"@ {
            ValM::Str(t.rel_path@)
        } else if rest.len() >= 2 && rest[1] == "folder"@ {
            ValM::Str(t.folder@)
        } else {
            ValM::Str(t.name@)
        }
    } else if rest.len() == 1 {
        match lookup_m(t.properties@, rest[0]) {
            Some(v) => prop_to_val_m(v),
            None => ValM::Null,
        }
    } else {
        ValM::Null
    }
}

/// `file.*` resolution: built-in record fields keyed by the second segment.
pub open spec fn resolve_file_m(rest: Seq<Seq<char>>, n: NoteContext) -> ValM {
    if rest.len() == 0 {
        ValM::Str(n.rel_path@)
    } else if rest[0] == "name"@ {
        ValM::Str(n.name@)
    } else if rest[0] == "path"@ || rest[0] == "fullname"@ {
        ValM::Str(n.rel_path@)
    } else if rest[0] == "ext"@ {
        ValM::Str(n.ext@)
    } else if rest[0] == "folder"@ {
        ValM::Str(n.folder@)
    } else if rest[0] == "tags"@ {
        ValM::List(strs_view(n.tags@))
    } else if rest[0] == "links"@ {
        ValM::List(strs_view(n.links@))
    } else {
        ValM::Null
    }
}

/// Frontmatter resolution: the trailing segments joined by dots are tried
/// first as one verbatim key; failing that, the first trailing segment is
/// looked up and the structured value descended segment by segment.
pub open spec fn resolve_fm_m(rest: Seq<Seq<char>>, n: NoteContext) -> ValM {
    if rest.len() == 0 {
        ValM::Null
    } else {
        match lookup_m(n.properties@, join_dots_m(rest)) {
            Some(v) => prop_to_val_m(v),
            None => match lookup_m(n.properties@, rest[0]) {
                Some(v) => match descend_m(v, rest.drop_first()) {
                    Some(w) => prop_to_val_m(w),
                    None => ValM::Null,
                },
                None => ValM::Null,
            },
        }
    }
}

/// Property-chain resolution, in order: `this`, `file`, explicit
/// frontmatter access through `property` or `note`, then a direct property
/// lookup by the head segment.
pub open spec fn resolve_prop_m(chain: Seq<Seq<char>>, n: NoteContext, t: ThisContext) -> ValM {
    if chain.len() == 0 {
        ValM::Null
    } else if chain[0] == "this"@ {
        resolve_this_m(chain.drop_first(), t)
    } else if chain[0] == "file"@ {
        resolve_file_m(chain.drop_first(), n)
    } else if (chain[0] == "property"@ || chain[0] == "note"@) && chain.len() >= 2 {
        resolve_fm_m(chain.drop_first(), n)
    } else {
        match lookup_m(n.properties@, chain[0]) {
            Some(v) => prop_to_val_m(v),
            None => ValM::Null,
        }
    }
}

// ─── Method and function semantics ──────────────────────────

/// What a built-in method call evaluates to, given the evaluated receiver
/// and arguments.
pub open spec fn ev_method(m: MethodKind, recv: ValM, argv: Seq<ValM>) -> ValM {
    match m {
        MethodKind::ToString => ValM::Str(to_string_m(recv)),
        MethodKind::StartsWith => {
            let p = if argv.len() > 0 {
                to_string_m(argv[0])
            } else {
                Seq::empty()
            };
            ValM::Bool(is_prefix_m(p, to_string_m(recv)))
        },
        MethodKind::EndsWith => {
            let p = if argv.len() > 0 {
                to_string_m(argv[0])
            } else {
                Seq::empty()
            };
            ValM::Bool(is_suffix_m(p, to_string_m(recv)))
        },
        MethodKind::Contains => {
            let target = if argv.len() > 0 {
                to_string_m(argv[0])
            } else {
                Seq::empty()
            };
            match recv {
                ValM::List(l) => ValM::Bool(exists|k: int| 0 <= k < l.len() && #[trigger] l[k] == target),
                ValM::Str(s) => ValM::Bool(has_substring_m(s, target)),
                _ => ValM::Bool(false),
            }
        },
        MethodKind::Slice => {
            let s = to_string_m(recv);
            let start0: int = if argv.len() > 0 {
                match parse_usize_m(to_string_m(argv[0])) {
                    Some(v) => v,
                    None => 0,
                }
            } else {
                0
            };
            let end0: int = if argv.len() > 1 {
                match parse_usize_m(to_string_m(argv[1])) {
                    Some(v) => v,
                    None => s.len() as int,
                }
            } else {
                s.len() as int
            };
            let start = if start0 > s.len() {
                s.len() as int
            } else {
                start0
            };
            let end = if end0 > s.len() {
                s.len() as int
            } else {
                end0
            };
            if start <= end {
                ValM::Str(s.subrange(start, end))
            } else {
                ValM::Str(Seq::empty())
            }
        },
    }
}

/// Some element of `l` contains `target` as a substring.
pub open spec fn any_elem_has_substring(l: Seq<Seq<char>>, target: Seq<char>) -> bool {
    exists|k: int| 0 <= k < l.len() && has_substring_m(#[trigger] l[k], target)
}

/// What a function call evaluates to, given the evaluated receiver (when
/// present) and arguments. `contains` without a receiver matches list
/// elements by substring; with a receiver, by exact equality. `hasTag` and
/// `hasLink` consult the record regardless of any syntactic receiver.
pub open spec fn ev_func(f: FuncKind, has_recv: bool, recv: ValM, argv: Seq<ValM>, n: NoteContext) -> ValM {
    match f {
        FuncKind::Contains => {
            if !has_recv {
                let coll = if argv.len() > 0 {
                    argv[0]
                } else {
                    ValM::Null
                };
                let target = if argv.len() > 1 {
                    to_string_m(argv[1])
                } else {
                    Seq::empty()
                };
                match coll {
                    ValM::List(l) => ValM::Bool(any_elem_has_substring(l, target)),
                    ValM::Str(s) => ValM::Bool(has_substring_m(s, target)),
                    _ => ValM::Bool(false),
                }
            } else {
                let target = if argv.len() > 0 {
                    to_string_m(argv[0])
                } else {
                    Seq::empty()
                };
                match recv {
                    ValM::List(l) => ValM::Bool(exists|k: int| 0 <= k < l.len() && #[trigger] l[k] == target),
                    ValM::Str(s) => ValM::Bool(has_substring_m(s, target)),
                    _ => ValM::Bool(false),
                }
            }
        },
        FuncKind::HasTag => ValM::Bool(
            exists|k: int| 0 <= k < argv.len() && has_tag_m(strs_view(n.tags@), to_string_m(#[trigger] argv[k]))
        ),
        FuncKind::HasLink => {
            let target = if argv.len() > 0 {
                to_string_m(argv[0])
            } else {
                Seq::empty()
            };
            ValM::Bool(has_link_m(strs_view(n.links@), target))
        },
        FuncKind::Unknown => ValM::Null,
    }
}

// ─── Expression evaluation ──────────────────────────────────

/// What an expression evaluates to against a record and a self context.
/// Comparison compares stringified forms; negation negates truthiness.
pub open spec fn ev_expr(e: ExprM, n: NoteContext, t: ThisContext) -> ValM
    decreases e, 0int,
{
    match e {
        ExprM::Literal(v) => v,
        ExprM::Property(chain) => resolve_prop_m(chain, n, t),
        ExprM::Not(inner) => ValM::Bool(!as_bool_m(ev_expr(*inner, n, t))),
        ExprM::BinOp { op, left, right } => {
            let l = to_string_m(ev_expr(*left, n, t));
            let r = to_string_m(ev_expr(*right, n, t));
            ValM::Bool(match op {
                BinOperator::Eq => l == r,
                BinOperator::Neq => l != r,
            })
        },
        ExprM::MethodCall { receiver, method, args } => ev_method(method, ev_expr(*receiver, n, t), ev_args(args, n, t)),
        ExprM::FuncCall { name, receiver, args } => {
            let argv = ev_args(args, n, t);
            match receiver {
                Some(r) => ev_func(name, true, ev_expr(*r, n, t), argv, n),
                None => ev_func(name, false, ValM::Null, argv, n),
            }
        },
    }
}

pub open spec fn ev_args_from(args: Seq<ExprM>, i: int, n: NoteContext, t: ThisContext) -> Seq<ValM>
    decreases args, args.len() - i,
{
    if i < 0 || i >= args.len() {
        Seq::empty()
    } else {
        seq![ev_expr(args[i], n, t)] + ev_args_from(args, i + 1, n, t)
    }
}

/// The evaluated argument list, in order.
pub open spec fn ev_args(args: Seq<ExprM>, n: NoteContext, t: ThisContext) -> Seq<ValM>
    decreases args, args.len() + 1,
{
    ev_args_from(args, 0, n, t)
}

pub proof fn lemma_ev_args_from(args: Seq<ExprM>, i: int, n: NoteContext, t: ThisContext)
    requires
        0 <= i <= args.len(),
    ensures
        ev_args_from(args, i, n, t).len() == args.len() - i,
        forall|k: int| 0 <= k < args.len() - i ==> ev_args_from(args, i, n, t)[k] == ev_expr(args[i + k], n, t),
    decreases args.len() - i,
{
    if i < args.len() {
        lemma_ev_args_from(args, i + 1, n, t);
    }
}

/// Shape of `ev_args`: element-wise evaluation in order.
pub proof fn lemma_ev_args(args: Seq<ExprM>, n: NoteContext, t: ThisContext)
    ensures
        ev_args(args, n, t).len() == args.len(),
        forall|k: int| 0 <= k < args.len() ==> ev_args(args, n, t)[k] == ev_expr(args[k], n, t),
{
    lemma_ev_args_from(args, 0, n, t);
}

// ─── Executable resolution ──────────────────────────────────

/// Segments `chain[from..]` joined by dots.
fn join_dots(chain: &Vec<String>, from: usize) -> (r: String)
    requires
        from <= chain@.len(),
    ensures
        r@ == join_dots_m(strs_view(chain@).skip(from as int)),
{
    let ghost m = strs_view(chain@).skip(from as int);
    let mut out = String::new();
    let mut i: usize = from;
    while i < chain.len()
        invariant
            from <= i <= chain@.len(),
            m == strs_view(chain@).skip(from as int),
            out@ == join_dots_m(m.take(i - from)),
        decreases chain@.len() - i,
    {
        if i > from {
            push_char(&mut out, '.');
        }
        out.append(chain[i].as_str());
        proof {
            let k = i - from;
            assert(m.take(k + 1).len() == k + 1);
            assert(m.take(k + 1)[k] == m[k]);
            assert(m[k] == chain@[i as int]@);
            if k > 0 {
                assert(m.take(k + 1).take(k) =~= m.take(k));
            }
        }
        i += 1;
    }
    proof {
        assert(m.take(chain@.len() - from) =~= m);
    }
    out
}

/// Resolve `this.*` from segment `from` of the chain.
fn resolve_this(chain: &Vec<String>, from: usize, this_ctx: &ThisContext) -> (r: Val)
    requires
        from <= chain@.len(),
    ensures
        r@ == resolve_this_m(strs_view(chain@).skip(from as int), *this_ctx),
{
    let ghost rest = strs_view(chain@).skip(from as int);
    let len = chain.len() - from;
    if len == 0 {
        return Val::Str(this_ctx.name.as_str().to_owned());
    }
    proof {
        assert(rest[0] == chain@[from as int]@);
    }
    if str_eq(chain[from].as_str(), "file") {
        proof {
            if rest.len() >= 2 {
                assert(rest[1] == chain@[from + 1]@);
            }
        }
        if chain.len() - from >= 2 && str_eq(chain[from + 1].as_str(), "fullname") {
            return Val::Str(this_ctx.rel_path.as_str().to_owned());
        }
        if chain.len() - from >= 2 && str_eq(chain[from + 1].as_str(), "folder") {
            return Val::Str(this_ctx.folder.as_str().to_owned());
        }
        return Val::Str(this_ctx.name.as_str().to_owned());
    }
    if len == 1 {
        match crate::props::lookup_entry(&this_ctx.properties, chain[from].as_str()) {
            Some(v) => {
                return prop_to_val(v);
            },
            None => {
                return Val::Null;
            },
        }
    }
    Val::Null
}

/// Resolve `file.*` from segment `from` of the chain.
fn resolve_file_prop(chain: &Vec<String>, from: usize, note: &NoteContext) -> (r: Val)
    requires
        from <= chain@.len(),
    ensures
        r@ == resolve_file_m(strs_view(chain@).skip(from as int), *note),
{
    let ghost rest = strs_view(chain@).skip(from as int);
    if chain.len() - from == 0 {
        return Val::Str(note.rel_path.as_str().to_owned());
    }
    proof {
        assert(rest[0] == chain@[from as int]@);
    }
    let seg = chain[from].as_str();
    if str_eq(seg, "name") {
        Val::Str(note.name.as_str().to_owned())
    } else if str_eq(seg, "path") || str_eq(seg, "fullname") {
        Val::Str(note.rel_path.as_str().to_owned())
    } else if str_eq(seg, "ext") {
        Val::Str(note.ext.as_str().to_owned())
    } else if str_eq(seg, "folder") {
        Val::Str(note.folder.as_str().to_owned())
    } else if str_eq(seg, "tags") {
        let mut out: Vec<String> = Vec::new();
        let mut i: usize = 0;
        while i < note.tags.len()
            invariant
                i <= note.tags@.len(),
                strs_view(out@) == strs_view(note.tags@.take(i as int)),
            decreases note.tags@.len() - i,
        {
            let ghost before = out@;
            out.push(note.tags[i].as_str().to_owned());
            proof {
                assert(strs_view(out@) =~= strs_view(before).push(note.tags@[i as int]@));
                assert(strs_view(note.tags@.take(i + 1)) =~= strs_view(note.tags@.take(i as int)).push(note.tags@[i as int]@));
            }
            i += 1;
        }
        proof {
            assert(note.tags@.take(note.tags@.len() as int) =~= note.tags@);
        }
        Val::List(out)
    } else if str_eq(seg, "links") {
        let mut out: Vec<String> = Vec::new();
        let mut i: usize = 0;
        while i < note.links.len()
            invariant
                i <= note.links@.len(),
                strs_view(out@) == strs_view(note.links@.take(i as int)),
            decreases note.links@.len() - i,
        {
            let ghost before = out@;
            out.push(note.links[i].as_str().to_owned());
            proof {
                assert(strs_view(out@) =~= strs_view(before).push(note.links@[i as int]@));
                assert(strs_view(note.links@.take(i + 1)) =~= strs_view(note.links@.take(i as int)).push(note.links@[i as int]@));
            }
            i += 1;
        }
        proof {
            assert(note.links@.take(note.links@.len() as int) =~= note.links@);
        }
        Val::List(out)
    } else {
        Val::Null
    }
}

/// Resolve frontmatter access from segment `from` of the chain.
fn resolve_frontmatter(chain: &Vec<String>, from: usize, note: &NoteContext) -> (r: Val)
    requires
        from <= chain@.len(),
    ensures
        r@ == resolve_fm_m(strs_view(chain@).skip(from as int), *note),
{
    let ghost rest = strs_view(chain@).skip(from as int);
    if chain.len() - from == 0 {
        return Val::Null;
    }
    let key = join_dots(chain, from);
    match note.get_property(key.as_str()) {
        Some(v) => prop_to_val(v),
        None => {
            proof {
                assert(rest[0] == chain@[from as int]@);
            }
            match note.get_property(chain[from].as_str()) {
                Some(v) => {
                    proof {
                        assert(rest.drop_first() =~= strs_view(chain@).skip(from + 1));
                    }
                    match descend(v, chain, from + 1) {
                        Some(w) => prop_to_val(w),
                        None => Val::Null,
                    }
                },
                None => Val::Null,
            }
        },
    }
}

/// Resolve a property chain against the record and the self context.
fn resolve_property(chain: &Vec<String>, note: &NoteContext, this_ctx: &ThisContext) -> (r: Val)
    ensures
        r@ == resolve_prop_m(strs_view(chain@), *note, *this_ctx),
{
    let ghost cv = strs_view(chain@);
    if chain.len() == 0 {
        return Val::Null;
    }
    proof {
        assert(cv[0] == chain@[0]@);
        assert(cv.drop_first() =~= cv.skip(1));
    }
    let head = chain[0].as_str();
    if str_eq(head, "this") {
        return resolve_this(chain, 1, this_ctx);
    }
    if str_eq(head, "file") {
        return resolve_file_prop(chain, 1, note);
    }
    if (str_eq(head, "property") || str_eq(head, "note")) && chain.len() >= 2 {
        return resolve_frontmatter(chain, 1, note);
    }
    match note.get_property(head) {
        Some(v) => prop_to_val(v),
        None => Val::Null,
    }
}

// ─── Executable evaluation ──────────────────────────────────

/// Evaluate a built-in method on an evaluated receiver and arguments.
fn eval_method(method: MethodKind, recv: &Val, argv: &Vec<Val>) -> (r: Val)
    ensures
        r@ == ev_method(method, recv@, vals_view(argv@)),
{
    let ghost am = vals_view(argv@);
    match method {
        MethodKind::ToString => Val::Str(recv.to_string_val()),
        MethodKind::StartsWith => {
            let s = recv.to_string_val();
            let p = if argv.len() > 0 {
                argv[0].to_string_val()
            } else {
                String::new()
            };
            Val::Bool(str_starts_with(s.as_str(), p.as_str()))
        },
        MethodKind::EndsWith => {
            let s = recv.to_string_val();
            let p = if argv.len() > 0 {
                argv[0].to_string_val()
            } else {
                String::new()
            };
            Val::Bool(str_ends_with(s.as_str(), p.as_str()))
        },
        MethodKind::Contains => {
            let target = if argv.len() > 0 {
                argv[0].to_string_val()
            } else {
                String::new()
            };
            match recv {
                Val::List(list) => {
                    let ghost lm = strs_view(list@);
                    let mut i: usize = 0;
                    while i < list.len()
                        invariant
                            i <= list@.len(),
                            lm == strs_view(list@),
                            recv@ == ValM::List(lm),
                            am == vals_view(argv@),
                            method == MethodKind::Contains,
                            target@ == (if am.len() > 0 { to_string_m(am[0]) } else { Seq::<char>::empty() }),
                            forall|k: int| 0 <= k < i ==> #[trigger] lm[k] != target@,
                        decreases list@.len() - i,
                    {
                        if str_eq(list[i].as_str(), target.as_str()) {
                            proof {
                                assert(lm[i as int] == list@[i as int]@);
                                assert(recv@->List_0 == lm);
                                assert(recv@->List_0[i as int] == target@);
                            }
                            return Val::Bool(true);
                        }
                        i += 1;
                    }
                    Val::Bool(false)
                },
                Val::Str(s) => Val::Bool(str_contains(s.as_str(), target.as_str())),
                _ => Val::Bool(false),
            }
        },
        MethodKind::Slice => {
            let s = recv.to_string_val();
            let slen = s.as_str().unicode_len();
            let start0: usize = if argv.len() > 0 {
                let a = argv[0].to_string_val();
                match parse_usize_str(a.as_str()) {
                    Some(v) => v,
                    None => 0,
                }
            } else {
                0
            };
            let end0: usize = if argv.len() > 1 {
                let a = argv[1].to_string_val();
                match parse_usize_str(a.as_str()) {
                    Some(v) => v,
                    None => slen,
                }
            } else {
                slen
            };
            let start = if start0 > slen {
                slen
            } else {
                start0
            };
            let end = if end0 > slen {
                slen
            } else {
                end0
            };
            if start <= end {
                Val::Str(s.as_str().substring_char(start, end).to_owned())
            } else {
                proof {
                    reveal_strlit("");
                }
                Val::Str(String::new())
            }
        },
    }
}

/// Evaluate a function on an evaluated receiver (when present), evaluated
/// arguments, and the record.
fn eval_func(name: FuncKind, has_recv: bool, recv: &Val, argv: &Vec<Val>, note: &NoteContext) -> (r: Val)
    ensures
        r@ == ev_func(name, has_recv, recv@, vals_view(argv@), *note),
{
    let ghost am = vals_view(argv@);
    match name {
        FuncKind::Contains => {
            if !has_recv {
                let target = if argv.len() > 1 {
                    argv[1].to_string_val()
                } else {
                    String::new()
                };
                if argv.len() == 0 {
                    return Val::Bool(false);
                }
                match &argv[0] {
                    Val::List(list) => {
                        let ghost lm = strs_view(list@);
                        proof {
                            assert(am[0] == argv@[0]@);
                        }
                        let mut i: usize = 0;
                        while i < list.len()
                            invariant
                                i <= list@.len(),
                                lm == strs_view(list@),
                                am.len() > 0 && am[0] == ValM::List(lm),
                                am == vals_view(argv@),
                                name == FuncKind::Contains,
                                !has_recv,
                                target@ == (if am.len() > 1 { to_string_m(am[1]) } else { Seq::<char>::empty() }),
                                forall|k: int| 0 <= k < i ==> !has_substring_m(#[trigger] lm[k], target@),
                            decreases list@.len() - i,
                        {
                            if str_contains(list[i].as_str(), target.as_str()) {
                                proof {
                                    assert(lm[i as int] == list@[i as int]@);
                                    assert(any_elem_has_substring(lm, target@));
                                }
                                return Val::Bool(true);
                            }
                            i += 1;
                        }
                        proof {
                            assert(!any_elem_has_substring(lm, target@));
                        }
                        Val::Bool(false)
                    },
                    Val::Str(s) => Val::Bool(str_contains(s.as_str(), target.as_str())),
                    _ => Val::Bool(false),
                }
            } else {
                let target = if argv.len() > 0 {
                    argv[0].to_string_val()
                } else {
                    String::new()
                };
                match recv {
                    Val::List(list) => {
                        let ghost lm = strs_view(list@);
                        let mut i: usize = 0;
                        while i < list.len()
                            invariant
                                i <= list@.len(),
                                lm == strs_view(list@),
                                recv@ == ValM::List(lm),
                                am == vals_view(argv@),
                                name == FuncKind::Contains,
                                has_recv,
                                target@ == (if am.len() > 0 { to_string_m(am[0]) } else { Seq::<char>::empty() }),
                                forall|k: int| 0 <= k < i ==> #[trigger] lm[k] != target@,
                            decreases list@.len() - i,
                        {
                            if str_eq(list[i].as_str(), target.as_str()) {
                                proof {
                                    assert(lm[i as int] == list@[i as int]@);
                                    assert(recv@->List_0 == lm);
                                    assert(recv@->List_0[i as int] == target@);
                                }
                                return Val::Bool(true);
                            }
                            i += 1;
                        }
                        Val::Bool(false)
                    },
                    Val::Str(s) => Val::Bool(str_contains(s.as_str(), target.as_str())),
                    _ => Val::Bool(false),
                }
            }
        },
        FuncKind::HasTag => {
            let mut i: usize = 0;
            while i < argv.len()
                invariant
                    i <= argv@.len(),
                    am == vals_view(argv@),
                    name == FuncKind::HasTag,
                    forall|k: int| 0 <= k < i ==> !has_tag_m(strs_view(note.tags@), to_string_m(#[trigger] am[k])),
                decreases argv@.len() - i,
            {
                let tg = argv[i].to_string_val();
                if note.has_tag(tg.as_str()) {
                    proof {
                        assert(am[i as int] == argv@[i as int]@);
                        assert(has_tag_m(strs_view(note.tags@), to_string_m(am[i as int])));
                    }
                    return Val::Bool(true);
                }
                i += 1;
            }
            Val::Bool(false)
        },
        FuncKind::HasLink => {
            let target = if argv.len() > 0 {
                argv[0].to_string_val()
            } else {
                String::new()
            };
            Val::Bool(note.has_link(target.as_str()))
        },
        FuncKind::Unknown => Val::Null,
    }
}

/// Evaluate the arguments of a call, in order.
fn eval_args(args: &Vec<Expr>, note: &NoteContext, this_ctx: &ThisContext) -> (r: Vec<Val>)
    ensures
        vals_view(r@) == ev_args(exprs_view(args@), *note, *this_ctx),
    decreases args,
{
    let ghost em = exprs_view(args@);
    proof {
        lemma_exprs_view(args@);
        lemma_ev_args(em, *note, *this_ctx);
    }
    let mut out: Vec<Val> = Vec::new();
    let mut i: usize = 0;
    while i < args.len()
        invariant
            i <= args@.len(),
            em == exprs_view(args@),
            em.len() == args@.len(),
            forall|k: int| 0 <= k < args@.len() ==> em[k] == expr_view(args@[k]),
            ev_args(em, *note, *this_ctx).len() == em.len(),
            forall|k: int| 0 <= k < em.len() ==> ev_args(em, *note, *this_ctx)[k] == ev_expr(em[k], *note, *this_ctx),
            vals_view(out@).len() == i,
            forall|k: int| 0 <= k < i ==> vals_view(out@)[k] == ev_args(em, *note, *this_ctx)[k],
        decreases args@.len() - i,
    {
        let ghost before = out@;
        let v = eval_expr(&args[i], note, this_ctx);
        out.push(v);
        proof {
            assert(vals_view(out@) =~= vals_view(before).push(v@));
        }
        i += 1;
    }
    proof {
        assert(vals_view(out@) =~= ev_args(em, *note, *this_ctx));
    }
    out
}

/// Evaluate an expression against a record and a self context. Total:
/// never fails; unresolvable names yield null.
pub fn eval_expr(expr: &Expr, note: &NoteContext, this_ctx: &ThisContext) -> (r: Val)
    ensures
        r@ == ev_expr(expr_view(*expr), *note, *this_ctx),
    decreases expr,
{
    match expr {
        Expr::Literal(v) => clone_val(v),
        Expr::Property(chain) => resolve_property(chain, note, this_ctx),
        Expr::Not(inner) => {
            let b = eval_expr(&**inner, note, this_ctx).as_bool();
            Val::Bool(!b)
        },
        Expr::BinOp { op, left, right } => {
            let l = eval_expr(&**left, note, this_ctx).to_string_val();
            let r2 = eval_expr(&**right, note, this_ctx).to_string_val();
            let eqv = str_eq(l.as_str(), r2.as_str());
            match op {
                BinOperator::Eq => Val::Bool(eqv),
                BinOperator::Neq => Val::Bool(!eqv),
            }
        },
        Expr::MethodCall { receiver, method, args } => {
            let recv = eval_expr(&**receiver, note, this_ctx);
            let argv = eval_args(args, note, this_ctx);
            eval_method(*method, &recv, &argv)
        },
        Expr::FuncCall { name, receiver, args } => {
            let argv = eval_args(args, note, this_ctx);
            match receiver {
                Some(rx) => {
                    let rv = eval_expr(&**rx, note, this_ctx);
                    eval_func(*name, true, &rv, &argv, note)
                },
                None => {
                    let nul = Val::Null;
                    eval_func(*name, false, &nul, &argv, note)
                },
            }
        },
    }
}

// ─── The filter entry point ─────────────────────────────────

/// What a filter expression string decides: parse failure includes the
/// record (fail-open); otherwise the truthiness of the evaluated
/// expression.
pub open spec fn spec_eval_filter(s: Seq<char>, n: NoteContext, t: ThisContext) -> bool {
    let ts = spec_tokenize(s, 0);
    match sp_expr(ts, 0).0 {
        Some(e) => as_bool_m(ev_expr(e, n, t)),
        None => true,
    }
}

/// Evaluate a filter expression string against a note. An expression that
/// does not parse includes the note.
pub fn eval_filter(expr_str: &str, note: &NoteContext, this_ctx: &ThisContext) -> (r: bool)
    ensures
        r == spec_eval_filter(expr_str@, *note, *this_ctx),
{
    let tokens = tokenize(expr_str);
    let mut parser = Parser::new(tokens);
    match parser.parse_expr() {
        Some(expr) => eval_expr(&expr, note, this_ctx).as_bool(),
        None => true,
    }
}

/// What a single expression string evaluates to: null when it does not
/// parse, else the evaluated value.
pub open spec fn spec_evaluate_expression(s: Seq<char>, n: NoteContext, t: ThisContext) -> ValM {
    let ts = spec_tokenize(s, 0);
    match sp_expr(ts, 0).0 {
        Some(e) => ev_expr(e, n, t),
        None => ValM::Null,
    }
}

/// Evaluate a single expression string against a record and a self
/// context, for filtering or value display alike.
pub fn evaluate_expression(text: &str, note: &NoteContext, this_ctx: &ThisContext) -> (r: Val)
    ensures
        r@ == spec_evaluate_expression(text@, *note, *this_ctx),
{
    let tokens = tokenize(text);
    let mut parser = Parser::new(tokens);
    match parser.parse_expr() {
        Some(expr) => eval_expr(&expr, note, this_ctx),
        None => Val::Null,
    }
}

// ─── Laws ───────────────────────────────────────────────────

/// Double negation is involutive: negating an expression twice leaves its
/// truthiness unchanged, on every record and self context.
pub proof fn lemma_double_negation(e: ExprM, n: NoteContext, t: ThisContext)
    ensures
        as_bool_m(ev_expr(ExprM::Not(Box::new(ExprM::Not(Box::new(e)))), n, t)) == as_bool_m(ev_expr(e, n, t)),
{
    let inner = ExprM::Not(Box::new(e));
    assert(ev_expr(inner, n, t) == ValM::Bool(!as_bool_m(ev_expr(e, n, t))));
    assert(ev_expr(ExprM::Not(Box::new(inner)), n, t) == ValM::Bool(!as_bool_m(ev_expr(inner, n, t))));
}

/// An expression string that does not parse includes the record: the
/// filter decision is true, never an abort.
pub proof fn lemma_unparseable_included(s: Seq<char>, n: NoteContext, t: ThisContext)
    requires
        sp_expr(spec_tokenize(s, 0), 0).0 is None,
    ensures
        spec_eval_filter(s, n, t),
{
}

proof fn lemma_str_items_all_str(items: Seq<PropVal>)
    requires
        forall|k: int| 0 <= k < items.len() ==> items[k] is Str,
    ensures
        crate::props::str_items_m(items).len() == items.len(),
        forall|k: int| 0 <= k < items.len() ==> crate::props::str_items_m(items)[k] == items[k]->Str_0@,
    decreases items.len(),
{
    if items.len() > 0 {
        let pre = items.take(items.len() - 1);
        lemma_str_items_all_str(pre);
    }
}

/// A property stored as an ordered sequence of strings, accessed as
/// `property.<key>`, evaluates to a list value whose elements equal the
/// stored sequence, in original order.
pub proof fn lemma_sequence_property_order(key: Seq<char>, n: NoteContext, t: ThisContext)
    requires
        lookup_m(n.properties@, key) is Some,
        lookup_m(n.properties@, key)->Some_0 is List,
        forall|k: int| 0 <= k < lookup_m(n.properties@, key)->Some_0->List_0@.len()
            ==> lookup_m(n.properties@, key)->Some_0->List_0@[k] is Str,
    ensures
        ({
            let items = lookup_m(n.properties@, key)->Some_0->List_0@;
            let r = ev_expr(ExprM::Property(seq!["property"@, key]), n, t);
            &&& r is List
            &&& r->List_0.len() == items.len()
            &&& forall|k: int| 0 <= k < items.len() ==> r->List_0[k] == items[k]->Str_0@
        }),
{
    reveal_strlit("property");
    reveal_strlit("this");
    reveal_strlit("file");
    let chain = seq!["property"@, key];
    assert(chain[0] == "property"@ && chain[1] == key && chain.len() == 2);
    assert("property"@.len() == 8 && "this"@.len() == 4 && "file"@.len() == 4);
    assert(chain[0] != "this"@ && chain[0] != "file"@);
    let rest = chain.drop_first();
    assert(rest =~= seq![key]);
    assert(rest[0] == key && rest.len() == 1);
    assert(join_dots_m(rest) == key);
    let items = lookup_m(n.properties@, key)->Some_0->List_0@;
    lemma_str_items_all_str(items);
    assert(ev_expr(ExprM::Property(chain), n, t) == resolve_prop_m(chain, n, t));
    assert(resolve_prop_m(chain, n, t) == resolve_fm_m(rest, n));
}

} // verus!
