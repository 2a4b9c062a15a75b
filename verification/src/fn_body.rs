//! A function body as the body-measuring rules read it: a tree of
//! expressions, each marked with where its syntax came from, and the
//! facts about each construct that the rules decide on (whether a `match`
//! is the author's or a lowering, whether a `break` carries a label,
//! whether a call goes back into the function being measured).
use vstd::prelude::*;

verus! {

/// A byte range of the source.
#[derive(Debug, Clone, Copy, PartialEq, Eq, Structural)]
pub struct Span {
    pub lo: usize,
    pub hi: usize,
}

/// Where a piece of syntax came from.
#[derive(Debug, Clone, Copy, PartialEq, Eq, Structural)]
pub enum Origin {
    /// Written by the author.
    Written,
    /// Produced by a compiler desugaring (`for`, `while`, `?`, `.await`,
    /// `async`), not by a macro.
    Desugared,
    /// Produced by a macro expansion.
    Macro,
}

/// What a `loop` expression was written as.
#[derive(Debug, Clone, Copy, PartialEq, Eq, Structural)]
pub enum LoopSource {
    Loop,
    While,
    ForLoop,
}

/// What a `match` expression was written as.
#[derive(Debug, Clone, Copy, PartialEq, Eq, Structural)]
pub enum MatchSource {
    /// `match x { .. }`.
    Normal,
    /// `x.match { .. }`.
    Postfix,
    /// The `match` a `for` loop, `?`, `.await` or a format macro lowers to.
    Lowered,
}

/// Whether a closure is one the author wrote or the coroutine an
/// `async` block or body becomes.
#[derive(Debug, Clone, Copy, PartialEq, Eq, Structural)]
pub enum ClosureKind {
    Closure,
    Coroutine,
}

/// A short-circuiting boolean operator.
#[derive(Debug, Clone, Copy, PartialEq, Eq, Structural)]
pub enum LogicalOp {
    And,
    Or,
}

/// One node of a body.
pub struct Expr {
    pub span: Span,
    pub origin: Origin,
    pub kind: ExprKind,
}

pub enum ExprKind {
    /// `if cond { then } else { els }`.
    If(Box<Expr>, Box<Expr>, Option<Box<Expr>>),
    /// A `match` on its scrutinee; each arm is an [`ExprKind::Arm`] node.
    Match(Box<Expr>, Vec<Expr>, MatchSource),
    /// A match arm: its guard, if any, and its body.
    Arm(Option<Box<Expr>>, Box<Expr>),
    /// A loop around its block.
    Loop(Box<Expr>, LoopSource),
    /// A closure around its body.
    Closure(ClosureKind, Box<Expr>),
    /// A block: its statements, its tail expression, and whether it
    /// carries a label.
    Block(Vec<Expr>, Option<Box<Expr>>, bool),
    /// A `let` statement: its initialiser and its `else` block.
    Let(Option<Box<Expr>>, Option<Box<Expr>>),
    /// The wrapper an `async fn` body lowers into.
    DropTemps(Box<Expr>),
    /// `lhs && rhs` or `lhs || rhs`.
    Logical(LogicalOp, Box<Expr>, Box<Expr>),
    /// `break`, whether it carries a label, and its value.
    Break(bool, Option<Box<Expr>>),
    /// `continue`, and whether it carries a label.
    Continue(bool),
    /// A call or method call, whether it calls the function being
    /// measured, and its callee, receiver and arguments in source order.
    Call(bool, Vec<Expr>),
    /// Any other expression, with its subexpressions in source order.
    Other(Vec<Expr>),
}

/// The function a body belongs to, as the body-measuring rules see it.
pub struct FnInfo {
    pub name: String,
    /// A closure is measured as part of the function containing it.
    pub is_closure: bool,
    /// The function itself was produced by a macro expansion.
    pub from_expansion: bool,
    /// The function is test code: inside a `#[cfg(test)]` module, a
    /// `#[test]` function, or in a test or benchmark target.
    pub in_test_code: bool,
}

/// Whether a function is measured at all: not a closure, not produced
/// by a macro, and not test code when test code is left alone.
pub open spec fn is_measured(f: FnInfo, test_code_exception: bool) -> bool {
    !f.is_closure && !f.from_expansion && !(test_code_exception && f.in_test_code)
}

pub fn measured(f: &FnInfo, test_code_exception: bool) -> (r: bool)
    ensures
        r == is_measured(*f, test_code_exception),
{
    !f.is_closure && !f.from_expansion && !(test_code_exception && f.in_test_code)
}

/// A loop the author wrote: not one a macro produced, and not the bare
/// `loop` that `.await` lowers to.
pub open spec fn loop_authored(origin: Origin, src: LoopSource) -> bool {
    match src {
        LoopSource::Loop => origin == Origin::Written,
        _ => origin != Origin::Macro,
    }
}

/// A closure the author wrote, not an `async` body.
pub open spec fn closure_authored(origin: Origin, kind: ClosureKind) -> bool {
    origin == Origin::Written && kind == ClosureKind::Closure
}

pub open spec fn max_nat(a: nat, b: nat) -> nat {
    if a >= b {
        a
    } else {
        b
    }
}

/// How many nodes deep `e` reaches, itself included.
pub open spec fn height(e: Expr) -> nat
    decreases e,
{
    1 + match e.kind {
        ExprKind::If(c, t, els) => max_nat(
            max_nat(height(*c), height(*t)),
            match els {
                Some(x) => height(*x),
                None => 0,
            },
        ),
        ExprKind::Match(s, arms, _) => max_nat(height(*s), seq_height(arms@)),
        ExprKind::Arm(g, b) => max_nat(
            match g {
                Some(x) => height(*x),
                None => 0,
            },
            height(*b),
        ),
        ExprKind::Loop(b, _) => height(*b),
        ExprKind::Closure(_, b) => height(*b),
        ExprKind::Block(stmts, tail, _) => max_nat(
            seq_height(stmts@),
            match tail {
                Some(x) => height(*x),
                None => 0,
            },
        ),
        ExprKind::Let(init, els) => max_nat(
            match init {
                Some(x) => height(*x),
                None => 0,
            },
            match els {
                Some(x) => height(*x),
                None => 0,
            },
        ),
        ExprKind::DropTemps(x) => height(*x),
        ExprKind::Logical(_, l, r) => max_nat(height(*l), height(*r)),
        ExprKind::Break(_, v) => match v {
            Some(x) => height(*x),
            None => 0,
        },
        ExprKind::Continue(_) => 0,
        ExprKind::Call(_, args) => seq_height(args@),
        ExprKind::Other(children) => seq_height(children@),
    }
}

pub open spec fn seq_height(s: Seq<Expr>) -> nat
    decreases s,
{
    if s.len() == 0 {
        0
    } else {
        max_nat(seq_height(s.drop_last()), height(s.last()))
    }
}

/// No element of a sequence reaches deeper than the sequence.
pub proof fn lemma_seq_height(s: Seq<Expr>, i: int)
    requires
        0 <= i < s.len(),
    ensures
        height(s[i]) <= seq_height(s),
    decreases s.len(),
{
    if i < s.len() - 1 {
        assert(s.drop_last()[i] == s[i]);
        lemma_seq_height(s.drop_last(), i);
    }
}

/// Every node of `e` was produced by a macro expansion.
pub open spec fn macro_only(e: Expr) -> bool
    decreases e,
{
    e.origin == Origin::Macro && match e.kind {
        ExprKind::If(c, t, els) => macro_only(*c) && macro_only(*t) && (match els {
            Some(x) => macro_only(*x),
            None => true,
        }),
        ExprKind::Match(s, arms, _) => macro_only(*s) && seq_macro_only(arms@),
        ExprKind::Arm(g, b) => (match g {
            Some(x) => macro_only(*x),
            None => true,
        }) && macro_only(*b),
        ExprKind::Loop(b, _) => macro_only(*b),
        ExprKind::Closure(_, b) => macro_only(*b),
        ExprKind::Block(stmts, tail, _) => seq_macro_only(stmts@) && (match tail {
            Some(x) => macro_only(*x),
            None => true,
        }),
        ExprKind::Let(init, els) => (match init {
            Some(x) => macro_only(*x),
            None => true,
        }) && (match els {
            Some(x) => macro_only(*x),
            None => true,
        }),
        ExprKind::DropTemps(x) => macro_only(*x),
        ExprKind::Logical(_, l, r) => macro_only(*l) && macro_only(*r),
        ExprKind::Break(_, v) => match v {
            Some(x) => macro_only(*x),
            None => true,
        },
        ExprKind::Continue(_) => true,
        ExprKind::Call(_, args) => seq_macro_only(args@),
        ExprKind::Other(children) => seq_macro_only(children@),
    }
}

pub open spec fn seq_macro_only(s: Seq<Expr>) -> bool
    decreases s,
{
    s.len() == 0 || (seq_macro_only(s.drop_last()) && macro_only(s.last()))
}

} // verus!
