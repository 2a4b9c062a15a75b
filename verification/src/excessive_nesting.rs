//! The `excessive_nesting` rule: how deeply the constructs of a function
//! body nest, flagged past `max_depth`.
//!
//! A construct nests when a reader indents for what is inside it: an
//! `if` (its `else if` arms at the same level, each `else` body inside),
//! a `match` and the arms inside it, a `for` / `while` / `loop`, a
//! closure, a `let ... else` body, and a free-standing block. The block
//! that is a construct's own body does not nest again: `if x { y }` is
//! one level, not two. A construct a macro produced adds no level,
//! though the author's constructs among a macro's arguments still count;
//! desugarings add nothing beyond the construct the author wrote.
use vstd::prelude::*;
use crate::diagnostic::{Diagnostic, DiagnosticModel, Part, PartModel};
use crate::fn_body::{
    closure_authored, is_measured, lemma_seq_height, loop_authored, macro_only, measured, height,
    seq_height, seq_macro_only, ClosureKind, Expr, ExprKind, FnInfo, LoopSource, MatchSource, Origin,
    Span,
};
use crate::text::{decimal, push_decimal, push_str, string_of};

verus! {

/// A point of a body: how many constructs enclose it, and the span of
/// the construct at that depth.
pub struct Level {
    pub depth: nat,
    pub span: Span,
}

pub open spec fn at(depth: nat, span: Span) -> Option<Level> {
    Some(Level { depth, span })
}

/// The deeper of two points, the first one when they tie.
pub open spec fn first_max(a: Option<Level>, b: Option<Level>) -> Option<Level> {
    match a {
        None => b,
        Some(x) => match b {
            None => a,
            Some(y) => if y.depth > x.depth {
                b
            } else {
                a
            },
        },
    }
}

/// The position an expression is walked in.
#[derive(Debug, Clone, Copy, PartialEq, Eq, Structural)]
pub enum NestMode {
    Expr,
    /// The body of a construct (the `then` of an `if`, an arm's body, a
    /// closure's body), where a plain block is the construct's own.
    Body,
    /// The block of a loop or of a `let ... else`, walked without a level
    /// of its own.
    Block,
    /// The `if` in the `else` position of another `if`.
    ElseIf,
    /// An arm of a `match`, whose body is in body position.
    Arm,
}

/// The deepest point of `e`, walked in position `m` with `d` constructs
/// around it; the first such point in source order when several tie.
pub open spec fn deepest(e: Expr, m: NestMode, d: nat) -> Option<Level>
    decreases e,
{
    match e.kind {
        ExprKind::Block(stmts, tail, labelled) => if (m == NestMode::Body && !labelled) || m
            == NestMode::Block || e.origin != Origin::Written {
            first_max(
                seq_deepest(stmts@, NestMode::Expr, d),
                match tail {
                    Some(x) => deepest(*x, NestMode::Expr, d),
                    None => None,
                },
            )
        } else {
            first_max(
                first_max(at(d + 1, e.span), seq_deepest(stmts@, NestMode::Expr, d + 1)),
                match tail {
                    Some(x) => deepest(*x, NestMode::Expr, d + 1),
                    None => None,
                },
            )
        },
        ExprKind::If(c, t, els) => if e.origin == Origin::Macro {
            first_max(
                first_max(deepest(*c, NestMode::Expr, d), deepest(*t, NestMode::Expr, d)),
                match els {
                    Some(x) => deepest(*x, NestMode::Expr, d),
                    None => None,
                },
            )
        } else if e.origin == Origin::Desugared {
            first_max(
                first_max(deepest(*c, NestMode::Expr, d), deepest(*t, NestMode::Body, d)),
                match els {
                    Some(x) => deepest(*x, NestMode::Body, d),
                    None => None,
                },
            )
        } else {
            let inner = if m == NestMode::ElseIf {
                d
            } else {
                d + 1
            };
            first_max(
                first_max(
                    first_max(
                        deepest(*c, NestMode::Expr, d),
                        if m == NestMode::ElseIf {
                            None
                        } else {
                            at(d + 1, e.span)
                        },
                    ),
                    deepest(*t, NestMode::Body, inner),
                ),
                match els {
                    Some(x) => if (x.kind is If) && x.origin != Origin::Macro {
                        deepest(*x, NestMode::ElseIf, inner)
                    } else {
                        deepest(*x, NestMode::Body, inner)
                    },
                    None => None,
                },
            )
        },
        ExprKind::Match(s, arms, src) => if e.origin == Origin::Macro {
            first_max(deepest(*s, NestMode::Expr, d), seq_deepest(arms@, NestMode::Expr, d))
        } else if src != MatchSource::Lowered {
            first_max(
                first_max(deepest(*s, NestMode::Expr, d), at(d + 1, e.span)),
                seq_deepest(arms@, NestMode::Arm, d + 1),
            )
        } else {
            first_max(deepest(*s, NestMode::Expr, d), seq_deepest(arms@, NestMode::Arm, d))
        },
        ExprKind::Arm(g, b) => first_max(
            match g {
                Some(x) => deepest(*x, NestMode::Expr, d),
                None => None,
            },
            deepest(
                *b,
                if m == NestMode::Arm {
                    NestMode::Body
                } else {
                    NestMode::Expr
                },
                d,
            ),
        ),
        ExprKind::Loop(b, src) => if loop_authored(e.origin, src) {
            first_max(at(d + 1, e.span), deepest(*b, NestMode::Block, d + 1))
        } else {
            deepest(*b, NestMode::Block, d)
        },
        ExprKind::Closure(k, b) => if e.origin == Origin::Macro {
            deepest(*b, NestMode::Expr, d)
        } else if closure_authored(e.origin, k) {
            first_max(at(d + 1, e.span), deepest(*b, NestMode::Body, d + 1))
        } else {
            deepest(*b, NestMode::Body, d)
        },
        ExprKind::Let(init, els) => first_max(
            match init {
                Some(x) => deepest(*x, NestMode::Expr, d),
                None => None,
            },
            match els {
                Some(x) => if e.origin == Origin::Macro {
                    deepest(*x, NestMode::Block, d)
                } else {
                    first_max(at(d + 1, x.span), deepest(*x, NestMode::Block, d + 1))
                },
                None => None,
            },
        ),
        ExprKind::DropTemps(x) => if e.origin == Origin::Macro {
            deepest(*x, NestMode::Expr, d)
        } else {
            deepest(*x, NestMode::Body, d)
        },
        ExprKind::Logical(_, l, r) => first_max(
            deepest(*l, NestMode::Expr, d),
            deepest(*r, NestMode::Expr, d),
        ),
        ExprKind::Break(_, v) => match v {
            Some(x) => deepest(*x, NestMode::Expr, d),
            None => None,
        },
        ExprKind::Continue(_) => None,
        ExprKind::Call(_, args) => seq_deepest(args@, NestMode::Expr, d),
        ExprKind::Other(children) => seq_deepest(children@, NestMode::Expr, d),
    }
}

/// The deepest point among `s`, each walked in position `m` with `d`
/// constructs around it.
pub open spec fn seq_deepest(s: Seq<Expr>, m: NestMode, d: nat) -> Option<Level>
    decreases s,
{
    if s.len() == 0 {
        None
    } else {
        first_max(seq_deepest(s.drop_last(), m, d), deepest(s.last(), m, d))
    }
}

/// The deepest point of a function body, or `None` when nothing in it
/// nests.
pub open spec fn body_deepest(body: Expr) -> Option<Level> {
    deepest(body, NestMode::Body, 0)
}

pub open spec fn shift(o: Option<Level>, k: nat) -> Option<Level> {
    match o {
        Some(l) => Some(Level { depth: l.depth + k, span: l.span }),
        None => None,
    }
}

proof fn lemma_first_max_shift(a: Option<Level>, b: Option<Level>, k: nat)
    ensures
        first_max(shift(a, k), shift(b, k)) == shift(first_max(a, b), k),
{
}

/// A body is measured from zero: set inside `k` more constructs, every
/// point of it sits `k` levels deeper, and the deepest point is the same
/// construct.
pub proof fn lemma_depth_counts_from_the_body(e: Expr, m: NestMode, d: nat, k: nat)
    ensures
        deepest(e, m, d + k) == shift(deepest(e, m, d), k),
    decreases e,
{
    match e.kind {
        ExprKind::Block(stmts, tail, _) => {
            lemma_seq_depth_counts_from_the_body(stmts@, NestMode::Expr, d, k);
            lemma_seq_depth_counts_from_the_body(stmts@, NestMode::Expr, d + 1, k);
            lemma_first_max_shift(at(d + 1, e.span), seq_deepest(stmts@, NestMode::Expr, d + 1), k);
            if let Some(x) = tail {
                lemma_depth_counts_from_the_body(*x, NestMode::Expr, d, k);
                lemma_depth_counts_from_the_body(*x, NestMode::Expr, d + 1, k);
                lemma_first_max_shift(seq_deepest(stmts@, NestMode::Expr, d), deepest(*x, NestMode::Expr, d), k);
                lemma_first_max_shift(
                    first_max(at(d + 1, e.span), seq_deepest(stmts@, NestMode::Expr, d + 1)),
                    deepest(*x, NestMode::Expr, d + 1),
                    k,
                );
            }
            lemma_first_max_shift(seq_deepest(stmts@, NestMode::Expr, d), None, k);
            lemma_first_max_shift(first_max(at(d + 1, e.span), seq_deepest(stmts@, NestMode::Expr, d + 1)), None, k);
        },
        ExprKind::If(c, t, els) => {
            lemma_if_depth_counts_from_the_body(e, m, d, k);
        },
        ExprKind::Match(s, arms, _) => {
            lemma_depth_counts_from_the_body(*s, NestMode::Expr, d, k);
            lemma_seq_depth_counts_from_the_body(arms@, NestMode::Expr, d, k);
            lemma_seq_depth_counts_from_the_body(arms@, NestMode::Arm, d, k);
            lemma_seq_depth_counts_from_the_body(arms@, NestMode::Arm, d + 1, k);
            lemma_first_max_shift(deepest(*s, NestMode::Expr, d), seq_deepest(arms@, NestMode::Expr, d), k);
            lemma_first_max_shift(deepest(*s, NestMode::Expr, d), seq_deepest(arms@, NestMode::Arm, d), k);
            lemma_first_max_shift(deepest(*s, NestMode::Expr, d), at(d + 1, e.span), k);
            lemma_first_max_shift(
                first_max(deepest(*s, NestMode::Expr, d), at(d + 1, e.span)),
                seq_deepest(arms@, NestMode::Arm, d + 1),
                k,
            );
        },
        ExprKind::Arm(g, b) => {
            lemma_depth_counts_from_the_body(*b, NestMode::Body, d, k);
            lemma_depth_counts_from_the_body(*b, NestMode::Expr, d, k);
            if let Some(x) = g {
                lemma_depth_counts_from_the_body(*x, NestMode::Expr, d, k);
                lemma_first_max_shift(deepest(*x, NestMode::Expr, d), deepest(*b, NestMode::Body, d), k);
                lemma_first_max_shift(deepest(*x, NestMode::Expr, d), deepest(*b, NestMode::Expr, d), k);
            }
            lemma_first_max_shift(None, deepest(*b, NestMode::Body, d), k);
            lemma_first_max_shift(None, deepest(*b, NestMode::Expr, d), k);
        },
        ExprKind::Loop(b, _) => {
            lemma_depth_counts_from_the_body(*b, NestMode::Block, d, k);
            lemma_depth_counts_from_the_body(*b, NestMode::Block, d + 1, k);
            lemma_first_max_shift(at(d + 1, e.span), deepest(*b, NestMode::Block, d + 1), k);
        },
        ExprKind::Closure(_, b) => {
            lemma_depth_counts_from_the_body(*b, NestMode::Expr, d, k);
            lemma_depth_counts_from_the_body(*b, NestMode::Body, d, k);
            lemma_depth_counts_from_the_body(*b, NestMode::Body, d + 1, k);
            lemma_first_max_shift(at(d + 1, e.span), deepest(*b, NestMode::Body, d + 1), k);
        },
        ExprKind::Let(init, els) => {
            let a = match init {
                Some(x) => deepest(*x, NestMode::Expr, d),
                None => None,
            };
            if let Some(x) = init {
                lemma_depth_counts_from_the_body(*x, NestMode::Expr, d, k);
            }
            if let Some(x) = els {
                lemma_depth_counts_from_the_body(*x, NestMode::Block, d, k);
                lemma_depth_counts_from_the_body(*x, NestMode::Block, d + 1, k);
                lemma_first_max_shift(at(d + 1, x.span), deepest(*x, NestMode::Block, d + 1), k);
                lemma_first_max_shift(a, deepest(*x, NestMode::Block, d), k);
                lemma_first_max_shift(a, first_max(at(d + 1, x.span), deepest(*x, NestMode::Block, d + 1)), k);
            }
            lemma_first_max_shift(a, None, k);
        },
        ExprKind::DropTemps(x) => {
            lemma_depth_counts_from_the_body(*x, NestMode::Expr, d, k);
            lemma_depth_counts_from_the_body(*x, NestMode::Body, d, k);
        },
        ExprKind::Logical(_, l, r) => {
            lemma_depth_counts_from_the_body(*l, NestMode::Expr, d, k);
            lemma_depth_counts_from_the_body(*r, NestMode::Expr, d, k);
            lemma_first_max_shift(deepest(*l, NestMode::Expr, d), deepest(*r, NestMode::Expr, d), k);
        },
        ExprKind::Break(_, v) => {
            if let Some(x) = v {
                lemma_depth_counts_from_the_body(*x, NestMode::Expr, d, k);
            }
        },
        ExprKind::Continue(_) => {},
        ExprKind::Call(_, args) => {
            lemma_seq_depth_counts_from_the_body(args@, NestMode::Expr, d, k);
        },
        ExprKind::Other(children) => {
            lemma_seq_depth_counts_from_the_body(children@, NestMode::Expr, d, k);
        },
    }
}

proof fn lemma_if_depth_counts_from_the_body(e: Expr, m: NestMode, d: nat, k: nat)
    requires
        e.kind is If,
    ensures
        deepest(e, m, d + k) == shift(deepest(e, m, d), k),
    decreases e, 0nat,
{
    if let ExprKind::If(c, t, els) = e.kind {
        let inner = if m == NestMode::ElseIf {
            d
        } else {
            d + 1
        };
        let own = if m == NestMode::ElseIf {
            None
        } else {
            at(d + 1, e.span)
        };
        lemma_depth_counts_from_the_body(*c, NestMode::Expr, d, k);
        lemma_depth_counts_from_the_body(*t, NestMode::Expr, d, k);
        lemma_depth_counts_from_the_body(*t, NestMode::Body, d, k);
        lemma_depth_counts_from_the_body(*t, NestMode::Body, inner, k);
        let rc = deepest(*c, NestMode::Expr, d);
        lemma_first_max_shift(rc, deepest(*t, NestMode::Expr, d), k);
        lemma_first_max_shift(rc, deepest(*t, NestMode::Body, d), k);
        lemma_first_max_shift(rc, own, k);
        lemma_first_max_shift(first_max(rc, own), deepest(*t, NestMode::Body, inner), k);
        let head_macro = first_max(rc, deepest(*t, NestMode::Expr, d));
        let head_desugared = first_max(rc, deepest(*t, NestMode::Body, d));
        let head = first_max(first_max(rc, own), deepest(*t, NestMode::Body, inner));
        match els {
            Some(x) => {
                lemma_depth_counts_from_the_body(*x, NestMode::Expr, d, k);
                lemma_depth_counts_from_the_body(*x, NestMode::Body, d, k);
                lemma_depth_counts_from_the_body(*x, NestMode::Body, inner, k);
                lemma_depth_counts_from_the_body(*x, NestMode::ElseIf, inner, k);
                lemma_first_max_shift(head_macro, deepest(*x, NestMode::Expr, d), k);
                lemma_first_max_shift(head_desugared, deepest(*x, NestMode::Body, d), k);
                lemma_first_max_shift(head, deepest(*x, NestMode::Body, inner), k);
                lemma_first_max_shift(head, deepest(*x, NestMode::ElseIf, inner), k);
            },
            None => {
                lemma_first_max_shift(head_macro, None, k);
                lemma_first_max_shift(head_desugared, None, k);
                lemma_first_max_shift(head, None, k);
            },
        }
    }
}

pub proof fn lemma_seq_depth_counts_from_the_body(s: Seq<Expr>, m: NestMode, d: nat, k: nat)
    ensures
        seq_deepest(s, m, d + k) == shift(seq_deepest(s, m, d), k),
    decreases s,
{
    if s.len() > 0 {
        lemma_seq_depth_counts_from_the_body(s.drop_last(), m, d, k);
        lemma_depth_counts_from_the_body(s.last(), m, d, k);
        lemma_first_max_shift(seq_deepest(s.drop_last(), m, d), deepest(s.last(), m, d), k);
    }
}

/// A construct a macro produced adds no level: a body position holding
/// only macro output has no point that nests.
pub proof fn lemma_macro_output_adds_no_level(e: Expr, m: NestMode, d: nat)
    requires
        macro_only(e),
    ensures
        deepest(e, m, d) is None,
    decreases e,
{
    match e.kind {
        ExprKind::Block(stmts, tail, _) => {
            lemma_seq_macro_output_adds_no_level(stmts@, d);
            if let Some(x) = tail {
                lemma_macro_output_adds_no_level(*x, NestMode::Expr, d);
            }
        },
        ExprKind::If(c, t, els) => {
            lemma_macro_output_adds_no_level(*c, NestMode::Expr, d);
            lemma_macro_output_adds_no_level(*t, NestMode::Expr, d);
            if let Some(x) = els {
                lemma_macro_output_adds_no_level(*x, NestMode::Expr, d);
            }
        },
        ExprKind::Match(s, arms, _) => {
            lemma_macro_output_adds_no_level(*s, NestMode::Expr, d);
            lemma_seq_macro_output_adds_no_level(arms@, d);
        },
        ExprKind::Arm(g, b) => {
            if let Some(x) = g {
                lemma_macro_output_adds_no_level(*x, NestMode::Expr, d);
            }
            lemma_macro_output_adds_no_level(*b, NestMode::Body, d);
            lemma_macro_output_adds_no_level(*b, NestMode::Expr, d);
        },
        ExprKind::Loop(b, _) => {
            lemma_macro_output_adds_no_level(*b, NestMode::Block, d);
        },
        ExprKind::Closure(_, b) => {
            lemma_macro_output_adds_no_level(*b, NestMode::Expr, d);
        },
        ExprKind::Let(init, els) => {
            if let Some(x) = init {
                lemma_macro_output_adds_no_level(*x, NestMode::Expr, d);
            }
            if let Some(x) = els {
                lemma_macro_output_adds_no_level(*x, NestMode::Block, d);
            }
        },
        ExprKind::DropTemps(x) => {
            lemma_macro_output_adds_no_level(*x, NestMode::Expr, d);
        },
        ExprKind::Logical(_, l, r) => {
            lemma_macro_output_adds_no_level(*l, NestMode::Expr, d);
            lemma_macro_output_adds_no_level(*r, NestMode::Expr, d);
        },
        ExprKind::Break(_, v) => {
            if let Some(x) = v {
                lemma_macro_output_adds_no_level(*x, NestMode::Expr, d);
            }
        },
        ExprKind::Continue(_) => {},
        ExprKind::Call(_, args) => {
            lemma_seq_macro_output_adds_no_level(args@, d);
        },
        ExprKind::Other(children) => {
            lemma_seq_macro_output_adds_no_level(children@, d);
        },
    }
}

pub proof fn lemma_seq_macro_output_adds_no_level(s: Seq<Expr>, d: nat)
    requires
        seq_macro_only(s),
    ensures
        seq_deepest(s, NestMode::Expr, d) is None,
    decreases s,
{
    if s.len() > 0 {
        lemma_seq_macro_output_adds_no_level(s.drop_last(), d);
        lemma_macro_output_adds_no_level(s.last(), NestMode::Expr, d);
    }
}

/// The deepest point of a body as the walk computes it.
#[derive(Debug, Clone, Copy, PartialEq, Eq, Structural)]
pub struct Deepest {
    pub depth: usize,
    pub span: Span,
}

impl View for Deepest {
    type V = Level;

    open spec fn view(&self) -> Level {
        Level { depth: self.depth as nat, span: self.span }
    }
}

pub open spec fn level_of(o: Option<Deepest>) -> Option<Level> {
    match o {
        Some(p) => Some(p@),
        None => None,
    }
}

fn deeper(a: Option<Deepest>, b: Option<Deepest>) -> (r: Option<Deepest>)
    ensures
        level_of(r) == first_max(level_of(a), level_of(b)),
{
    match a {
        None => b,
        Some(x) => match b {
            None => a,
            Some(y) => if y.depth > x.depth {
                b
            } else {
                a
            },
        },
    }
}

fn level_at(depth: usize, span: Span) -> (r: Option<Deepest>)
    ensures
        level_of(r) == at(depth as nat, span),
{
    Some(Deepest { depth, span })
}

/// The deepest point among `v`, each walked in position `m` with `d`
/// constructs around it.
fn deepest_seq(v: &Vec<Expr>, m: NestMode, d: usize) -> (r: Option<Deepest>)
    requires
        d + seq_height(v@) <= usize::MAX,
    ensures
        level_of(r) == seq_deepest(v@, m, d as nat),
    decreases seq_height(v@), 2nat,
{
    let mut acc: Option<Deepest> = None;
    let mut k: usize = 0;
    assert(v@.take(0) =~= Seq::<Expr>::empty());
    while k < v.len()
        invariant
            k <= v@.len(),
            d + seq_height(v@) <= usize::MAX,
            level_of(acc) == seq_deepest(v@.take(k as int), m, d as nat),
        decreases v@.len() - k,
    {
        proof {
            assert(v@.take(k + 1).drop_last() =~= v@.take(k as int));
            assert(v@.take(k + 1).last() == v@[k as int]);
            lemma_seq_height(v@, k as int);
        }
        let one = deepest_in(&v[k], m, d);
        acc = deeper(acc, one);
        k = k + 1;
    }
    assert(v@.take(v@.len() as int) =~= v@);
    acc
}

/// The deepest point of an `if`.
fn deepest_if(e: &Expr, m: NestMode, d: usize) -> (r: Option<Deepest>)
    requires
        e.kind is If,
        d + height(*e) <= usize::MAX,
    ensures
        level_of(r) == deepest(*e, m, d as nat),
    decreases height(*e), 0nat,
{
    match &e.kind {
        ExprKind::If(c, t, els) => {
            if e.origin == Origin::Macro {
                let rc = deepest_in(c, NestMode::Expr, d);
                let rt = deepest_in(t, NestMode::Expr, d);
                let head = deeper(rc, rt);
                let re = match els {
                    Some(x) => deepest_in(x, NestMode::Expr, d),
                    None => None,
                };
                deeper(head, re)
            } else if e.origin == Origin::Desugared {
                let rc = deepest_in(c, NestMode::Expr, d);
                let rt = deepest_in(t, NestMode::Body, d);
                let head = deeper(rc, rt);
                let re = match els {
                    Some(x) => deepest_in(x, NestMode::Body, d),
                    None => None,
                };
                deeper(head, re)
            } else {
                let else_if = m == NestMode::ElseIf;
                let inner = if else_if {
                    d
                } else {
                    d + 1
                };
                let own = if else_if {
                    None
                } else {
                    level_at(d + 1, e.span)
                };
                let rc = deepest_in(c, NestMode::Expr, d);
                let rt = deepest_in(t, NestMode::Body, inner);
                let head = deeper(deeper(rc, own), rt);
                let re = match els {
                    Some(x) => {
                        if matches!(x.kind, ExprKind::If(..)) && x.origin != Origin::Macro {
                            deepest_in(x, NestMode::ElseIf, inner)
                        } else {
                            deepest_in(x, NestMode::Body, inner)
                        }
                    },
                    None => None,
                };
                deeper(head, re)
            }
        },
        _ => None,
    }
}

/// The deepest point of a `match`.
fn deepest_match(e: &Expr, m: NestMode, d: usize) -> (r: Option<Deepest>)
    requires
        e.kind is Match,
        d + height(*e) <= usize::MAX,
    ensures
        level_of(r) == deepest(*e, m, d as nat),
    decreases height(*e), 0nat,
{
    match &e.kind {
        ExprKind::Match(s, arms, src) => {
            let rs = deepest_in(s, NestMode::Expr, d);
            if e.origin == Origin::Macro {
                let ra = deepest_seq(arms, NestMode::Expr, d);
                deeper(rs, ra)
            } else if *src != MatchSource::Lowered {
                let head = deeper(rs, level_at(d + 1, e.span));
                let ra = deepest_seq(arms, NestMode::Arm, d + 1);
                deeper(head, ra)
            } else {
                let ra = deepest_seq(arms, NestMode::Arm, d);
                deeper(rs, ra)
            }
        },
        _ => None,
    }
}

/// The deepest point of `e`, walked in position `m` with `d` constructs
/// around it.
fn deepest_in(e: &Expr, m: NestMode, d: usize) -> (r: Option<Deepest>)
    requires
        d + height(*e) <= usize::MAX,
    ensures
        level_of(r) == deepest(*e, m, d as nat),
    decreases height(*e), 1nat,
{
    match &e.kind {
        ExprKind::Block(stmts, tail, labelled) => {
            if (m == NestMode::Body && !*labelled) || m == NestMode::Block || e.origin
                != Origin::Written {
                let rs = deepest_seq(stmts, NestMode::Expr, d);
                let rt = match tail {
                    Some(x) => deepest_in(x, NestMode::Expr, d),
                    None => None,
                };
                deeper(rs, rt)
            } else {
                let rs = deepest_seq(stmts, NestMode::Expr, d + 1);
                let head = deeper(level_at(d + 1, e.span), rs);
                let rt = match tail {
                    Some(x) => deepest_in(x, NestMode::Expr, d + 1),
                    None => None,
                };
                deeper(head, rt)
            }
        },
        ExprKind::If(..) => deepest_if(e, m, d),
        ExprKind::Match(..) => deepest_match(e, m, d),
        ExprKind::Arm(g, b) => {
            let rg = match g {
                Some(x) => deepest_in(x, NestMode::Expr, d),
                None => None,
            };
            let body_mode = if m == NestMode::Arm {
                NestMode::Body
            } else {
                NestMode::Expr
            };
            let rb = deepest_in(b, body_mode, d);
            deeper(rg, rb)
        },
        ExprKind::Loop(b, src) => {
            let authored = match src {
                LoopSource::Loop => e.origin == Origin::Written,
                _ => e.origin != Origin::Macro,
            };
            if authored {
                let rb = deepest_in(b, NestMode::Block, d + 1);
                deeper(level_at(d + 1, e.span), rb)
            } else {
                deepest_in(b, NestMode::Block, d)
            }
        },
        ExprKind::Closure(k, b) => {
            if e.origin == Origin::Macro {
                deepest_in(b, NestMode::Expr, d)
            } else if e.origin == Origin::Written && *k == ClosureKind::Closure {
                let rb = deepest_in(b, NestMode::Body, d + 1);
                deeper(level_at(d + 1, e.span), rb)
            } else {
                deepest_in(b, NestMode::Body, d)
            }
        },
        ExprKind::Let(init, els) => {
            let ri = match init {
                Some(x) => deepest_in(x, NestMode::Expr, d),
                None => None,
            };
            let re = match els {
                Some(x) => {
                    if e.origin == Origin::Macro {
                        deepest_in(x, NestMode::Block, d)
                    } else {
                        let rx = deepest_in(x, NestMode::Block, d + 1);
                        deeper(level_at(d + 1, x.span), rx)
                    }
                },
                None => None,
            };
            deeper(ri, re)
        },
        ExprKind::DropTemps(x) => {
            if e.origin == Origin::Macro {
                deepest_in(x, NestMode::Expr, d)
            } else {
                deepest_in(x, NestMode::Body, d)
            }
        },
        ExprKind::Logical(_, l, r) => {
            let rl = deepest_in(l, NestMode::Expr, d);
            let rr = deepest_in(r, NestMode::Expr, d);
            deeper(rl, rr)
        },
        ExprKind::Break(_, v) => match v {
            Some(x) => deepest_in(x, NestMode::Expr, d),
            None => None,
        },
        ExprKind::Continue(_) => None,
        ExprKind::Call(_, args) => deepest_seq(args, NestMode::Expr, d),
        ExprKind::Other(children) => deepest_seq(children, NestMode::Expr, d),
    }
}

/// The deepest point of a function body, or `None` when nothing in it
/// nests.
pub fn deepest_nesting(body: &Expr) -> (r: Option<Deepest>)
    requires
        height(*body) <= usize::MAX,
    ensures
        level_of(r) == body_deepest(*body),
{
    deepest_in(body, NestMode::Body, 0)
}

/// The rule's settings.
pub struct Config {
    /// The deepest a construct may sit without the function being
    /// flagged.
    pub max_depth: usize,
    /// Whether test code is left alone.
    pub test_code_exception: bool,
}

impl Default for Config {
    /// The depth SonarSource's rule on deeply nested control flow ships
    /// with, and test code held to it like any other code.
    fn default() -> (c: Self)
        ensures
            c.max_depth == 3,
            !c.test_code_exception,
    {
        Config { max_depth: 3, test_code_exception: false }
    }
}

pub struct ExcessiveNesting {
    config: Config,
}

/// A finding: the diagnostic, and the span of the construct at the
/// deepest point, which its note points at.
pub struct NestingReport {
    pub diagnostic: Diagnostic,
    pub deepest: Span,
}

pub open spec fn levels_word(depth: nat) -> Seq<char> {
    if depth == 1 {
        "level"@
    } else {
        "levels"@
    }
}

/// The finding for a function `name` nesting `depth` levels deep, above
/// `max`.
pub open spec fn report_spec(name: Seq<char>, depth: nat, max: nat) -> DiagnosticModel {
    DiagnosticModel {
        message: "function `"@ + name + "` nests "@ + decimal(depth) + " "@ + levels_word(depth)
            + " deep, above the limit of "@ + decimal(max),
        parts: seq![
            PartModel::Note("this is "@ + decimal(depth) + " "@ + levels_word(depth) + " deep"@),
            PartModel::Help(
                "return early with a guard clause or `let ... else`, or move the inner levels into their own function"@,
            ),
        ],
    }
}

/// Builds the finding for a function `name` nesting `depth` levels deep.
pub fn report(name: &str, depth: usize, max: usize) -> (d: Diagnostic)
    ensures
        d@ == report_spec(name@, depth as nat, max as nat),
{
    let noun = if depth == 1 {
        "level"
    } else {
        "levels"
    };
    let mut message: Vec<char> = Vec::new();
    push_str(&mut message, "function `");
    push_str(&mut message, name);
    push_str(&mut message, "` nests ");
    push_decimal(&mut message, depth);
    push_str(&mut message, " ");
    push_str(&mut message, noun);
    push_str(&mut message, " deep, above the limit of ");
    push_decimal(&mut message, max);
    let mut note: Vec<char> = Vec::new();
    push_str(&mut note, "this is ");
    push_decimal(&mut note, depth);
    push_str(&mut note, " ");
    push_str(&mut note, noun);
    push_str(&mut note, " deep");
    let d = Diagnostic {
        message: string_of(message.as_slice()),
        parts: vec![
            Part::Note(string_of(note.as_slice())),
            Part::Help(
                "return early with a guard clause or `let ... else`, or move the inner levels into their own function".to_owned(),
            ),
        ],
    };
    assert(d@.parts =~= report_spec(name@, depth as nat, max as nat).parts);
    d
}

impl ExcessiveNesting {
    pub closed spec fn max_depth(&self) -> nat {
        self.config.max_depth as nat
    }

    pub closed spec fn test_code_exception(&self) -> bool {
        self.config.test_code_exception
    }

    pub fn new(config: Config) -> (r: Self)
        ensures
            r.max_depth() == config.max_depth,
            r.test_code_exception() == config.test_code_exception,
    {
        ExcessiveNesting { config }
    }

    /// Judges one function: a measured function whose deepest point is
    /// past the limit is reported, with a note at that point.
    pub fn check_fn(&self, function: &FnInfo, body: &Expr) -> (r: Option<NestingReport>)
        requires
            is_measured(*function, self.test_code_exception()) ==> height(*body) <= usize::MAX,
        ensures
            match r {
                None => !is_measured(*function, self.test_code_exception()) || match body_deepest(
                    *body,
                ) {
                    None => true,
                    Some(l) => l.depth <= self.max_depth(),
                },
                Some(rep) => is_measured(*function, self.test_code_exception()) && match body_deepest(
                    *body,
                ) {
                    None => false,
                    Some(l) => l.depth > self.max_depth() && rep.deepest == l.span && rep.diagnostic@
                        == report_spec(function.name@, l.depth, self.max_depth()),
                },
            },
    {
        if !measured(function, self.config.test_code_exception) {
            return None;
        }
        let deepest = match deepest_nesting(body) {
            Some(p) => p,
            None => {
                return None;
            },
        };
        if deepest.depth <= self.config.max_depth {
            return None;
        }
        let diagnostic = report(function.name.as_str(), deepest.depth, self.config.max_depth);
        Some(NestingReport { diagnostic, deepest: deepest.span })
    }
}

} // verus!
