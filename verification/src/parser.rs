//! The recursive-descent parser: tokens to an abstract syntax tree. Parsing
//! never aborts abnormally; unparseable input yields absence. The grammar
//! admits at most one comparison per expression, prefix negation, property
//! chains, and method or function calls in dotted position, with call names
//! resolved once here into a closed operation set.

use vstd::prelude::*;
use vstd::pervasive::unreached;
use vstd::string::StrSliceExecFns;
use crate::lexer::{clamp_pos, Token, token_view, TokenM, tokens_view};
use crate::num::{i64_str, int_to_string};
use crate::text::str_eq;
use crate::value::{strs_view, Val, ValM};

verus! {

/// The built-in methods, dispatched on the receiver value.
#[derive(Debug, Clone, Copy, PartialEq, Eq, Structural)]
pub enum MethodKind {
    ToString,
    StartsWith,
    EndsWith,
    Contains,
    Slice,
}

/// The known free functions; any other call name resolves to `Unknown`.
#[derive(Debug, Clone, Copy, PartialEq, Eq, Structural)]
pub enum FuncKind {
    Contains,
    HasTag,
    HasLink,
    Unknown,
}

/// A binary comparison operator.
#[derive(Debug, Clone, Copy, PartialEq, Eq, Structural)]
pub enum BinOperator {
    Eq,
    Neq,
}

/// An expression of the filter language.
#[derive(Debug)]
pub enum Expr {
    /// String or number literal.
    Literal(Val),
    /// Property chain: `file.name`, `property.tags`, `this.file.name`.
    Property(Vec<String>),
    /// Built-in method call: `expr.method(args...)`.
    MethodCall { receiver: Box<Expr>, method: MethodKind, args: Vec<Expr> },
    /// Function call: `contains(a, b)`, `file.hasTag("t1", "t2")`.
    FuncCall { name: FuncKind, receiver: Option<Box<Expr>>, args: Vec<Expr> },
    /// Binary comparison: `a != b`, `a == b`.
    BinOp { op: BinOperator, left: Box<Expr>, right: Box<Expr> },
    /// Prefix negation: `!expr`.
    Not(Box<Expr>),
}

/// Mathematical model of an expression.
pub enum ExprM {
    Literal(ValM),
    Property(Seq<Seq<char>>),
    MethodCall { receiver: Box<ExprM>, method: MethodKind, args: Seq<ExprM> },
    FuncCall { name: FuncKind, receiver: Option<Box<ExprM>>, args: Seq<ExprM> },
    BinOp { op: BinOperator, left: Box<ExprM>, right: Box<ExprM> },
    Not(Box<ExprM>),
}

pub open spec fn expr_view(e: Expr) -> ExprM
    decreases e, 0int,
{
    match e {
        Expr::Literal(v) => ExprM::Literal(v@),
        Expr::Property(chain) => ExprM::Property(strs_view(chain@)),
        Expr::MethodCall { receiver, method, args } => ExprM::MethodCall {
            receiver: Box::new(expr_view(*receiver)),
            method,
            args: exprs_view(args@),
        },
        Expr::FuncCall { name, receiver, args } => ExprM::FuncCall {
            name,
            receiver: match receiver {
                Some(r) => Some(Box::new(expr_view(*r))),
                None => None,
            },
            args: exprs_view(args@),
        },
        Expr::BinOp { op, left, right } => ExprM::BinOp {
            op,
            left: Box::new(expr_view(*left)),
            right: Box::new(expr_view(*right)),
        },
        Expr::Not(inner) => ExprM::Not(Box::new(expr_view(*inner))),
    }
}

pub open spec fn exprs_view_from(v: Seq<Expr>, i: int) -> Seq<ExprM>
    decreases v, v.len() - i,
{
    if i < 0 || i >= v.len() {
        Seq::empty()
    } else {
        seq![expr_view(v[i])] + exprs_view_from(v, i + 1)
    }
}

pub open spec fn exprs_view(v: Seq<Expr>) -> Seq<ExprM>
    decreases v, v.len() + 1,
{
    exprs_view_from(v, 0)
}

pub proof fn lemma_exprs_view_from(v: Seq<Expr>, i: int)
    requires
        0 <= i <= v.len(),
    ensures
        exprs_view_from(v, i).len() == v.len() - i,
        forall|k: int| 0 <= k < v.len() - i ==> exprs_view_from(v, i)[k] == expr_view(v[i + k]),
    decreases v.len() - i,
{
    if i < v.len() {
        lemma_exprs_view_from(v, i + 1);
    }
}

/// Shape of `exprs_view`: element-wise views in order.
pub proof fn lemma_exprs_view(v: Seq<Expr>)
    ensures
        exprs_view(v).len() == v.len(),
        forall|k: int| 0 <= k < v.len() ==> exprs_view(v)[k] == expr_view(v[k]),
{
    lemma_exprs_view_from(v, 0);
}

proof fn lemma_exprs_view_push(v: Seq<Expr>, e: Expr)
    ensures
        exprs_view(v.push(e)) == exprs_view(v).push(expr_view(e)),
{
    lemma_exprs_view(v);
    lemma_exprs_view(v.push(e));
    assert(exprs_view(v.push(e)) =~= exprs_view(v).push(expr_view(e)));
}

/// The fixed built-in method set.
pub open spec fn is_builtin_m(name: Seq<char>) -> bool {
    name == "toString"@ || name == "startsWith"@ || name == "endsWith"@
    || name == "contains"@ || name == "slice"@
}

pub open spec fn method_kind_m(name: Seq<char>) -> MethodKind {
    if name == "toString"@ {
        MethodKind::ToString
    } else if name == "startsWith"@ {
        MethodKind::StartsWith
    } else if name == "endsWith"@ {
        MethodKind::EndsWith
    } else if name == "contains"@ {
        MethodKind::Contains
    } else {
        MethodKind::Slice
    }
}

pub open spec fn func_kind_m(name: Seq<char>) -> FuncKind {
    if name == "contains"@ {
        FuncKind::Contains
    } else if name == "hasTag"@ {
        FuncKind::HasTag
    } else if name == "hasLink"@ {
        FuncKind::HasLink
    } else {
        FuncKind::Unknown
    }
}

/// A call in dotted position: a built-in name becomes a method call on the
/// receiver, any other name a function call with the receiver attached.
pub open spec fn call_of(part: Seq<char>, recv: ExprM, args: Seq<ExprM>) -> ExprM {
    if is_builtin_m(part) {
        ExprM::MethodCall { receiver: Box::new(recv), method: method_kind_m(part), args }
    } else {
        ExprM::FuncCall { name: func_kind_m(part), receiver: Some(Box::new(recv)), args }
    }
}

// ─── The parsing relation ───────────────────────────────────
//
// Each function takes the token sequence and a position and returns the
// parsed result together with the position after it; a failed parse may
// still have consumed tokens, as the executable parser does. Positions fed
// to recursive calls are clamped into range only so that the recursion is
// well founded; at reachable positions every clamp is the identity.

/// `expr := unary (('!='|'==') unary)?`
pub open spec fn sp_expr(ts: Seq<TokenM>, i: int) -> (Option<ExprM>, int)
    decreases ts.len() - i, 4int,
{
    if !(0 <= i <= ts.len()) {
        (None, i)
    } else {
        let (l, j0) = sp_unary(ts, i);
        let j = clamp_pos(j0, i, ts.len() as int);
        match l {
            None => (None, j0),
            Some(left) => {
                if j < ts.len() && (ts[j] is Neq) {
                    let (r, k) = sp_unary(ts, j + 1);
                    match r {
                        None => (None, k),
                        Some(right) => (
                            Some(ExprM::BinOp { op: BinOperator::Neq, left: Box::new(left), right: Box::new(right) }),
                            k,
                        ),
                    }
                } else if j < ts.len() && (ts[j] is Eq) {
                    let (r, k) = sp_unary(ts, j + 1);
                    match r {
                        None => (None, k),
                        Some(right) => (
                            Some(ExprM::BinOp { op: BinOperator::Eq, left: Box::new(left), right: Box::new(right) }),
                            k,
                        ),
                    }
                } else {
                    (Some(left), j0)
                }
            },
        }
    }
}

/// `unary := '!' primary | primary`
pub open spec fn sp_unary(ts: Seq<TokenM>, i: int) -> (Option<ExprM>, int)
    decreases ts.len() - i, 3int,
{
    if !(0 <= i <= ts.len()) {
        (None, i)
    } else if i < ts.len() && (ts[i] is Not) {
        let (p, j) = sp_primary(ts, i + 1);
        match p {
            None => (None, j),
            Some(inner) => (Some(ExprM::Not(Box::new(inner))), j),
        }
    } else {
        sp_primary(ts, i)
    }
}

/// A primary expression: a literal, a standalone call, or a property chain
/// possibly turning into a call, each followed by any chained calls.
pub open spec fn sp_primary(ts: Seq<TokenM>, i: int) -> (Option<ExprM>, int)
    decreases ts.len() - i, 2int,
{
    if !(0 <= i < ts.len()) {
        (None, i)
    } else {
        match ts[i] {
            TokenM::StrLit(s) => {
                let (e, p) = sp_chain(ts, i + 1, ExprM::Literal(ValM::Str(s)));
                (Some(e), p)
            },
            TokenM::Int(n) => {
                let (e, p) = sp_chain(ts, i + 1, ExprM::Literal(ValM::Str(i64_str(n as int))));
                (Some(e), p)
            },
            TokenM::Ident(name) => {
                if i + 1 < ts.len() && (ts[i + 1] is LParen) {
                    let (args, k0) = sp_args(ts, i + 2);
                    let k = clamp_pos(k0, i + 2, ts.len() as int);
                    let k2 = if k < ts.len() && (ts[k] is RParen) {
                        k + 1
                    } else {
                        k
                    };
                    let (e, p) = sp_chain(ts, k2, ExprM::FuncCall { name: func_kind_m(name), receiver: None, args });
                    (Some(e), p)
                } else {
                    let (e, p) = sp_dots(ts, i + 1, seq![name]);
                    (Some(e), p)
                }
            },
            _ => (None, i),
        }
    }
}

/// The dot-collection step of a property chain: consume `.identifier`
/// segments greedily; the moment a consumed segment is followed by `(`, it
/// becomes a call name and the chain so far its receiver. A stray dot ends
/// collection silently, with the dot consumed.
pub open spec fn sp_dots(ts: Seq<TokenM>, j: int, chain: Seq<Seq<char>>) -> (ExprM, int)
    decreases ts.len() - j, 1int,
{
    if !(0 <= j <= ts.len()) {
        (ExprM::Property(chain), j)
    } else if j < ts.len() && (ts[j] is Dot) {
        if j + 1 < ts.len() && (ts[j + 1] is Ident) {
            let part = ts[j + 1]->Ident_0;
            if j + 2 < ts.len() && (ts[j + 2] is LParen) {
                let (args, k0) = sp_args(ts, j + 3);
                let k = clamp_pos(k0, j + 3, ts.len() as int);
                let k2 = if k < ts.len() && (ts[k] is RParen) {
                    k + 1
                } else {
                    k
                };
                sp_chain(ts, k2, call_of(part, ExprM::Property(chain), args))
            } else {
                sp_dots(ts, j + 2, chain.push(part))
            }
        } else {
            sp_chain(ts, j + 1, ExprM::Property(chain))
        }
    } else {
        sp_chain(ts, j, ExprM::Property(chain))
    }
}

/// Chained calls after a base expression: `.name(args)` applies; a dot not
/// followed by `identifier(` is consumed and dropped.
pub open spec fn sp_chain(ts: Seq<TokenM>, i: int, base: ExprM) -> (ExprM, int)
    decreases ts.len() - i, 0int,
{
    if !(0 <= i <= ts.len()) {
        (base, i)
    } else if i < ts.len() && (ts[i] is Dot) {
        if i + 1 < ts.len() && (ts[i + 1] is Ident) {
            let part = ts[i + 1]->Ident_0;
            if i + 2 < ts.len() && (ts[i + 2] is LParen) {
                let (args, k0) = sp_args(ts, i + 3);
                let k = clamp_pos(k0, i + 3, ts.len() as int);
                let k2 = if k < ts.len() && (ts[k] is RParen) {
                    k + 1
                } else {
                    k
                };
                sp_chain(ts, k2, call_of(part, base, args))
            } else {
                sp_chain(ts, i + 2, base)
            }
        } else {
            sp_chain(ts, i + 1, base)
        }
    } else {
        (base, i)
    }
}

/// A comma-separated argument list, up to (not including) the closing
/// parenthesis; arguments that fail to parse are dropped.
pub open spec fn sp_args(ts: Seq<TokenM>, i: int) -> (Seq<ExprM>, int)
    decreases ts.len() - i, 6int,
{
    if !(0 <= i <= ts.len()) {
        (Seq::empty(), i)
    } else if i < ts.len() && (ts[i] is RParen) {
        (Seq::empty(), i)
    } else {
        let (a0, j0) = sp_expr(ts, i);
        let j = clamp_pos(j0, i, ts.len() as int);
        let acc = match a0 {
            Some(a) => seq![a],
            None => Seq::empty(),
        };
        sp_args_rest(ts, j, acc)
    }
}

pub open spec fn sp_args_rest(ts: Seq<TokenM>, i: int, acc: Seq<ExprM>) -> (Seq<ExprM>, int)
    decreases ts.len() - i, 5int,
{
    if !(0 <= i <= ts.len()) {
        (acc, i)
    } else if i < ts.len() && (ts[i] is Comma) {
        let (a, j0) = sp_expr(ts, i + 1);
        let j = clamp_pos(j0, i + 1, ts.len() as int);
        let acc2 = match a {
            Some(x) => acc.push(x),
            None => acc,
        };
        sp_args_rest(ts, j, acc2)
    } else {
        (acc, i)
    }
}

// ─── Executable name resolution ─────────────────────────────

fn method_kind_of(name: &str) -> (r: Option<MethodKind>)
    ensures
        match r {
            Some(mk) => is_builtin_m(name@) && mk == method_kind_m(name@),
            None => !is_builtin_m(name@),
        },
{
    if str_eq(name, "toString") {
        Some(MethodKind::ToString)
    } else if str_eq(name, "startsWith") {
        Some(MethodKind::StartsWith)
    } else if str_eq(name, "endsWith") {
        Some(MethodKind::EndsWith)
    } else if str_eq(name, "contains") {
        Some(MethodKind::Contains)
    } else if str_eq(name, "slice") {
        Some(MethodKind::Slice)
    } else {
        None
    }
}

fn func_kind_of(name: &str) -> (r: FuncKind)
    ensures
        r == func_kind_m(name@),
{
    if str_eq(name, "contains") {
        FuncKind::Contains
    } else if str_eq(name, "hasTag") {
        FuncKind::HasTag
    } else if str_eq(name, "hasLink") {
        FuncKind::HasLink
    } else {
        FuncKind::Unknown
    }
}

/// Whether a call name in dotted position is a built-in method.
pub fn is_builtin_method(name: &str) -> (r: bool)
    ensures
        r == is_builtin_m(name@),
{
    method_kind_of(name).is_some()
}

/// Build the expression for a call in dotted position.
fn build_call(part: &str, recv: Expr, args: Vec<Expr>) -> (r: Expr)
    ensures
        expr_view(r) == call_of(part@, expr_view(recv), exprs_view(args@)),
{
    match method_kind_of(part) {
        Some(mk) => Expr::MethodCall { receiver: Box::new(recv), method: mk, args },
        None => Expr::FuncCall { name: func_kind_of(part), receiver: Some(Box::new(recv)), args },
    }
}

// ─── The parser ─────────────────────────────────────────────

/// Token-kind snapshot of the current position, free of payloads.
#[derive(Debug, Clone, Copy, PartialEq, Eq, Structural)]
pub enum PeekKind {
    End,
    IdentK,
    StrK,
    IntK,
    DotK,
    LParenK,
    RParenK,
    CommaK,
    NotK,
    EqK,
    NeqK,
}

pub open spec fn pk_of(ts: Seq<TokenM>, i: int) -> PeekKind {
    if i < 0 || i >= ts.len() {
        PeekKind::End
    } else {
        match ts[i] {
            TokenM::Ident(_) => PeekKind::IdentK,
            TokenM::StrLit(_) => PeekKind::StrK,
            TokenM::Int(_) => PeekKind::IntK,
            TokenM::Dot => PeekKind::DotK,
            TokenM::LParen => PeekKind::LParenK,
            TokenM::RParen => PeekKind::RParenK,
            TokenM::Comma => PeekKind::CommaK,
            TokenM::Not => PeekKind::NotK,
            TokenM::Eq => PeekKind::EqK,
            TokenM::Neq => PeekKind::NeqK,
        }
    }
}

/// Token equality, by kind and payload.
fn token_eq(a: &Token, b: &Token) -> (r: bool)
    ensures
        r == (token_view(*a) == token_view(*b)),
{
    match (a, b) {
        (Token::Ident(x), Token::Ident(y)) => str_eq(x.as_str(), y.as_str()),
        (Token::Str(x), Token::Str(y)) => str_eq(x.as_str(), y.as_str()),
        (Token::Int(x), Token::Int(y)) => x == y,
        (Token::Dot, Token::Dot) => true,
        (Token::LParen, Token::LParen) => true,
        (Token::RParen, Token::RParen) => true,
        (Token::Comma, Token::Comma) => true,
        (Token::Not, Token::Not) => true,
        (Token::Eq, Token::Eq) => true,
        (Token::Neq, Token::Neq) => true,
        _ => false,
    }
}

pub struct Parser {
    pub tokens: Vec<Token>,
    pub pos: usize,
}

impl Parser {
    /// The token stream under parse, as its model.
    pub open spec fn toks(&self) -> Seq<TokenM> {
        tokens_view(self.tokens@)
    }

    /// The position has not run past the end of the stream.
    pub open spec fn wf(&self) -> bool {
        self.pos <= self.tokens@.len()
    }

    pub fn new(tokens: Vec<Token>) -> (r: Parser)
        ensures
            r.tokens == tokens,
            r.pos == 0,
    {
        Parser { tokens, pos: 0 }
    }

    /// The token at the current position, if any.
    pub fn peek(&self) -> (r: Option<&Token>)
        ensures
            match r {
                Some(t) => self.pos < self.tokens@.len() && *t == self.tokens@[self.pos as int],
                None => self.pos >= self.tokens@.len(),
            },
    {
        if self.pos < self.tokens.len() {
            Some(&self.tokens[self.pos])
        } else {
            None
        }
    }

    /// Kind of the token at the current position.
    fn peek_kind(&self) -> (r: PeekKind)
        ensures
            r == pk_of(self.toks(), self.pos as int),
            self.toks().len() == self.tokens@.len(),
    {
        if self.pos >= self.tokens.len() {
            return PeekKind::End;
        }
        proof {
            assert(self.toks()[self.pos as int] == token_view(self.tokens@[self.pos as int]));
        }
        match &self.tokens[self.pos] {
            Token::Ident(_) => PeekKind::IdentK,
            Token::Str(_) => PeekKind::StrK,
            Token::Int(_) => PeekKind::IntK,
            Token::Dot => PeekKind::DotK,
            Token::LParen => PeekKind::LParenK,
            Token::RParen => PeekKind::RParenK,
            Token::Comma => PeekKind::CommaK,
            Token::Not => PeekKind::NotK,
            Token::Eq => PeekKind::EqK,
            Token::Neq => PeekKind::NeqK,
        }
    }

    /// Consume the current token, handing back an owned copy.
    pub fn advance(&mut self) -> (r: Option<Token>)
        requires
            old(self).pos < old(self).tokens@.len(),
        ensures
            final(self).tokens == old(self).tokens,
            final(self).pos == old(self).pos + 1,
            r matches Some(t) && token_view(t) == old(self).toks()[old(self).pos as int],
    {
        let r = match &self.tokens[self.pos] {
            Token::Ident(s) => Token::Ident(s.as_str().to_owned()),
            Token::Str(s) => Token::Str(s.as_str().to_owned()),
            Token::Int(n) => Token::Int(*n),
            Token::Dot => Token::Dot,
            Token::LParen => Token::LParen,
            Token::RParen => Token::RParen,
            Token::Comma => Token::Comma,
            Token::Not => Token::Not,
            Token::Eq => Token::Eq,
            Token::Neq => Token::Neq,
        };
        let n = self.tokens.len();
        self.pos = self.pos + 1;
        Some(r)
    }

    /// Consume the current token when it equals the expected one.
    pub fn expect(&mut self, expected: &Token) -> (r: bool)
        requires
            old(self).wf(),
        ensures
            final(self).tokens == old(self).tokens,
            final(self).wf(),
            if old(self).pos < old(self).tokens@.len()
                && token_view(old(self).tokens@[old(self).pos as int]) == token_view(*expected) {
                r && final(self).pos == old(self).pos + 1
            } else {
                !r && final(self).pos == old(self).pos
            },
    {
        if self.pos >= self.tokens.len() {
            return false;
        }
        let same = token_eq(&self.tokens[self.pos], expected);
        if same {
            self.bump();
            true
        } else {
            false
        }
    }

    /// Consume an identifier token, handing back its text.
    fn take_ident(&mut self) -> (r: String)
        requires
            old(self).pos < old(self).tokens@.len(),
            old(self).toks()[old(self).pos as int] is Ident,
        ensures
            final(self).tokens == old(self).tokens,
            final(self).pos == old(self).pos + 1,
            old(self).toks()[old(self).pos as int] == TokenM::Ident(r@),
    {
        let r = match &self.tokens[self.pos] {
            Token::Ident(s) => s.as_str().to_owned(),
            _ => unreached(),
        };
        self.bump();
        r
    }

    /// Consume the current token if it is a closing parenthesis.
    fn expect_rparen(&mut self) -> (r: bool)
        requires
            old(self).wf(),
        ensures
            final(self).tokens == old(self).tokens,
            final(self).wf(),
            if pk_of(old(self).toks(), old(self).pos as int) == PeekKind::RParenK {
                r && final(self).pos == old(self).pos + 1
            } else {
                !r && final(self).pos == old(self).pos
            },
    {
        if self.peek_kind() == PeekKind::RParenK {
            self.bump();
            true
        } else {
            false
        }
    }

    /// Step past the current token.
    fn bump(&mut self)
        requires
            old(self).pos < old(self).tokens@.len(),
        ensures
            final(self).tokens == old(self).tokens,
            final(self).pos == old(self).pos + 1,
    {
        // binding the length in executable code bounds the position, so the
        // increment cannot overflow
        let n = self.tokens.len();
        proof {
            assert(self.pos < n);
        }
        self.pos = self.pos + 1;
    }

    /// Parse a full expression.
    #[verifier::rlimit(100)]
    pub fn parse_expr(&mut self) -> (r: Option<Expr>)
        requires
            old(self).wf(),
        ensures
            final(self).tokens == old(self).tokens,
            final(self).wf(),
            old(self).pos <= final(self).pos,
            final(self).pos as int == sp_expr(old(self).toks(), old(self).pos as int).1,
            match (r, sp_expr(old(self).toks(), old(self).pos as int).0) {
                (Some(e), Some(em)) => expr_view(e) == em,
                (None, None) => true,
                _ => false,
            },
        decreases self.tokens@.len() - self.pos, 4int,
    {
        let ghost ts = self.toks();
        let ghost i = self.pos as int;
        let left_opt = self.parse_unary();
        let left = match left_opt {
            None => {
                return None;
            },
            Some(l) => l,
        };
        let ghost j = self.pos as int;
        proof {
            assert(clamp_pos(j, i, ts.len() as int) == j);
        }
        let k = self.peek_kind();
        if k == PeekKind::NeqK {
            self.bump();
            let right_opt = self.parse_unary();
            match right_opt {
                None => None,
                Some(right) => Some(Expr::BinOp { op: BinOperator::Neq, left: Box::new(left), right: Box::new(right) }),
            }
        } else if k == PeekKind::EqK {
            self.bump();
            let right_opt = self.parse_unary();
            match right_opt {
                None => None,
                Some(right) => Some(Expr::BinOp { op: BinOperator::Eq, left: Box::new(left), right: Box::new(right) }),
            }
        } else {
            Some(left)
        }
    }

    /// Parse a unary expression: an optional `!` before a primary.
    pub fn parse_unary(&mut self) -> (r: Option<Expr>)
        requires
            old(self).wf(),
        ensures
            final(self).tokens == old(self).tokens,
            final(self).wf(),
            old(self).pos <= final(self).pos,
            final(self).pos as int == sp_unary(old(self).toks(), old(self).pos as int).1,
            match (r, sp_unary(old(self).toks(), old(self).pos as int).0) {
                (Some(e), Some(em)) => expr_view(e) == em,
                (None, None) => true,
                _ => false,
            },
        decreases self.tokens@.len() - self.pos, 3int,
    {
        if self.peek_kind() == PeekKind::NotK {
            self.bump();
            let inner_opt = self.parse_primary();
            match inner_opt {
                None => None,
                Some(inner) => Some(Expr::Not(Box::new(inner))),
            }
        } else {
            self.parse_primary()
        }
    }

    /// Parse a primary expression.
    #[verifier::rlimit(100)]
    pub fn parse_primary(&mut self) -> (r: Option<Expr>)
        requires
            old(self).wf(),
        ensures
            final(self).tokens == old(self).tokens,
            final(self).wf(),
            old(self).pos <= final(self).pos,
            final(self).pos as int == sp_primary(old(self).toks(), old(self).pos as int).1,
            match (r, sp_primary(old(self).toks(), old(self).pos as int).0) {
                (Some(e), Some(em)) => expr_view(e) == em,
                (None, None) => true,
                _ => false,
            },
        decreases self.tokens@.len() - self.pos, 2int,
    {
        let ghost ts = self.toks();
        let ghost i = self.pos as int;
        let k = self.peek_kind();
        if k == PeekKind::StrK {
            let t = self.advance();
            let lit = match t {
                Some(Token::Str(s)) => s,
                _ => unreached(),
            };
            let e = self.parse_chain(Expr::Literal(Val::Str(lit)));
            Some(e)
        } else if k == PeekKind::IntK {
            let t = self.advance();
            let n = match t {
                Some(Token::Int(x)) => x,
                _ => unreached(),
            };
            let text = int_to_string(n);
            let e = self.parse_chain(Expr::Literal(Val::Str(text)));
            Some(e)
        } else if k == PeekKind::IdentK {
            let name = self.take_ident();
            if self.peek_kind() == PeekKind::LParenK {
                self.bump();
                let args = self.parse_arg_list();
                proof {
                    assert(clamp_pos(self.pos as int, i + 2, ts.len() as int) == self.pos as int);
                }
                self.expect_rparen();
                let e0 = Expr::FuncCall { name: func_kind_of(name.as_str()), receiver: None, args };
                let e = self.parse_chain(e0);
                Some(e)
            } else {
                let mut chain: Vec<String> = Vec::new();
                chain.push(name);
                let ghost dstart = self.pos as int;
                proof {
                    assert(strs_view(chain@) =~= seq![ts[i]->Ident_0]);
                }
                loop
                    invariant_except_break
                        sp_dots(ts, dstart, seq![ts[i]->Ident_0]) == sp_dots(ts, self.pos as int, strs_view(chain@)),
                    invariant
                        self.wf(),
                        self.tokens == old(self).tokens,
                        ts == self.toks(),
                        i == old(self).pos as int,
                        dstart == i + 1,
                        0 <= i < ts.len(),
                        ts[i] is Ident,
                        !(i + 1 < ts.len() && (ts[i + 1] is LParen)),
                        i + 1 <= self.pos as int <= ts.len(),
                        chain@.len() > 0,
                    ensures
                        self.wf(),
                        self.tokens == old(self).tokens,
                        i + 1 <= self.pos as int <= ts.len(),
                        sp_dots(ts, dstart, seq![ts[i]->Ident_0]) == sp_chain(ts, self.pos as int, ExprM::Property(strs_view(chain@))),
                    decreases self.tokens@.len() - self.pos,
                {
                    let ghost p0 = self.pos as int;
                    let ghost chain0 = chain@;
                    if self.peek_kind() != PeekKind::DotK {
                        proof {
                            assert(sp_dots(ts, p0, strs_view(chain@)) == sp_chain(ts, p0, ExprM::Property(strs_view(chain@))));
                        }
                        break;
                    }
                    self.bump();
                    if self.peek_kind() == PeekKind::IdentK {
                        let part = self.take_ident();
                        proof {
                            assert(ts[p0 + 1]->Ident_0 == part@);
                        }
                        if self.peek_kind() == PeekKind::LParenK {
                            self.bump();
                            let args = self.parse_arg_list();
                            proof {
                                assert(clamp_pos(self.pos as int, p0 + 3, ts.len() as int) == self.pos as int);
                            }
                            self.expect_rparen();
                            let ghost k2 = self.pos as int;
                            let e0 = build_call(part.as_str(), Expr::Property(chain), args);
                            let e = self.parse_chain(e0);
                            proof {
                                assert(sp_dots(ts, p0, strs_view(chain0)) == sp_chain(ts, k2, call_of(part@, ExprM::Property(strs_view(chain0)), sp_args(ts, p0 + 3).0)));
                                assert(sp_primary(ts, i) == (Some(sp_dots(ts, dstart, seq![ts[i]->Ident_0]).0), sp_dots(ts, dstart, seq![ts[i]->Ident_0]).1));
                            }
                            return Some(e);
                        } else {
                            chain.push(part);
                            proof {
                                assert(strs_view(chain@) =~= strs_view(chain0).push(part@));
                                assert(sp_dots(ts, p0, strs_view(chain0)) == sp_dots(ts, p0 + 2, strs_view(chain@)));
                            }
                        }
                    } else {
                        proof {
                            assert(sp_dots(ts, p0, strs_view(chain@)) == sp_chain(ts, p0 + 1, ExprM::Property(strs_view(chain@))));
                        }
                        break;
                    }
                }
                let e = self.parse_chain(Expr::Property(chain));
                proof {
                    assert(sp_primary(ts, i) == (Some(sp_dots(ts, dstart, seq![ts[i]->Ident_0]).0), sp_dots(ts, dstart, seq![ts[i]->Ident_0]).1));
                }
                Some(e)
            }
        } else {
            None
        }
    }

    /// Parse chained method calls after a base expression.
    #[verifier::rlimit(100)]
    pub fn parse_chain(&mut self, base: Expr) -> (r: Expr)
        requires
            old(self).wf(),
        ensures
            final(self).tokens == old(self).tokens,
            final(self).wf(),
            old(self).pos <= final(self).pos,
            final(self).pos as int == sp_chain(old(self).toks(), old(self).pos as int, expr_view(base)).1,
            expr_view(r) == sp_chain(old(self).toks(), old(self).pos as int, expr_view(base)).0,
        decreases self.tokens@.len() - self.pos, 0int,
    {
        let ghost ts = self.toks();
        let ghost i = self.pos as int;
        let mut cur = base;
        loop
            invariant
                self.wf(),
                self.tokens == old(self).tokens,
                ts == self.toks(),
                i == old(self).pos as int,
                i <= self.pos as int <= ts.len(),
                sp_chain(ts, i, expr_view(base)) == sp_chain(ts, self.pos as int, expr_view(cur)),
            ensures
                self.wf(),
                self.tokens == old(self).tokens,
                i <= self.pos as int <= ts.len(),
                sp_chain(ts, i, expr_view(base)) == (expr_view(cur), self.pos as int),
            decreases self.tokens@.len() - self.pos,
        {
            let ghost p0 = self.pos as int;
            let ghost cur0 = expr_view(cur);
            if self.peek_kind() != PeekKind::DotK {
                proof {
                    assert(sp_chain(ts, p0, cur0) == (cur0, p0));
                }
                break;
            }
            self.bump();
            if self.peek_kind() == PeekKind::IdentK {
                let part = self.take_ident();
                proof {
                    assert(ts[p0 + 1]->Ident_0 == part@);
                }
                if self.peek_kind() == PeekKind::LParenK {
                    self.bump();
                    let args = self.parse_arg_list();
                    proof {
                        assert(clamp_pos(self.pos as int, p0 + 3, ts.len() as int) == self.pos as int);
                    }
                    self.expect_rparen();
                    let ghost k2 = self.pos as int;
                    cur = build_call(part.as_str(), cur, args);
                    proof {
                        assert(sp_chain(ts, p0, cur0) == sp_chain(ts, k2, call_of(part@, cur0, sp_args(ts, p0 + 3).0)));
                    }
                } else {
                    proof {
                        assert(sp_chain(ts, p0, cur0) == sp_chain(ts, p0 + 2, cur0));
                    }
                }
            } else {
                proof {
                    assert(sp_chain(ts, p0, cur0) == sp_chain(ts, p0 + 1, cur0));
                }
            }
        }
        cur
    }

    /// Parse a comma-separated argument list.
    #[verifier::rlimit(100)]
    pub fn parse_arg_list(&mut self) -> (r: Vec<Expr>)
        requires
            old(self).wf(),
        ensures
            final(self).tokens == old(self).tokens,
            final(self).wf(),
            old(self).pos <= final(self).pos,
            final(self).pos as int == sp_args(old(self).toks(), old(self).pos as int).1,
            exprs_view(r@) == sp_args(old(self).toks(), old(self).pos as int).0,
        decreases self.tokens@.len() - self.pos, 6int,
    {
        let ghost ts = self.toks();
        let ghost i = self.pos as int;
        let mut args: Vec<Expr> = Vec::new();
        if self.peek_kind() == PeekKind::RParenK {
            proof {
                assert(exprs_view(args@) =~= Seq::<ExprM>::empty());
            }
            return args;
        }
        let first = self.parse_expr();
        proof {
            assert(clamp_pos(self.pos as int, i, ts.len() as int) == self.pos as int);
        }
        match first {
            Some(a) => {
                let ghost before = args@;
                args.push(a);
                proof {
                    lemma_exprs_view_push(before, a);
                    assert(exprs_view(before) =~= Seq::<ExprM>::empty());
                }
            },
            None => {
                proof {
                    assert(exprs_view(args@) =~= Seq::<ExprM>::empty());
                }
            },
        }
        loop
            invariant
                self.wf(),
                self.tokens == old(self).tokens,
                ts == self.toks(),
                i == old(self).pos as int,
                i <= self.pos as int <= ts.len(),
                sp_args(ts, i) == sp_args_rest(ts, self.pos as int, exprs_view(args@)),
            ensures
                self.wf(),
                self.tokens == old(self).tokens,
                i <= self.pos as int <= ts.len(),
                sp_args(ts, i) == (exprs_view(args@), self.pos as int),
            decreases self.tokens@.len() - self.pos,
        {
            let ghost p0 = self.pos as int;
            let ghost acc0 = exprs_view(args@);
            if self.peek_kind() != PeekKind::CommaK {
                proof {
                    assert(sp_args_rest(ts, p0, acc0) == (acc0, p0));
                }
                break;
            }
            self.bump();
            let a = self.parse_expr();
            proof {
                assert(clamp_pos(self.pos as int, p0 + 1, ts.len() as int) == self.pos as int);
            }
            match a {
                Some(x) => {
                    let ghost before = args@;
                    args.push(x);
                    proof {
                        lemma_exprs_view_push(before, x);
                        assert(sp_args_rest(ts, p0, acc0) == sp_args_rest(ts, self.pos as int, exprs_view(args@)));
                    }
                },
                None => {
                    proof {
                        assert(sp_args_rest(ts, p0, acc0) == sp_args_rest(ts, self.pos as int, exprs_view(args@)));
                    }
                },
            }
        }
        args
    }
}

} // verus!
