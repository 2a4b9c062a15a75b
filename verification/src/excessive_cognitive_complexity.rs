//! The `excessive_cognitive_complexity` rule: SonarSource's Cognitive
//! Complexity of each function body, flagged above `max_complexity`.
//!
//! Every increment is one of three kinds:
//! - structural: `+1`, plus one for each level of nesting the construct
//!   sits at: `if`, `match`, `for`, `while`, `loop`;
//! - hybrid: `+1`, for a construct that continues a structure the reader
//!   is already inside: `else if`, `else`, `let ... else`, a match-arm
//!   guard;
//! - fundamental: `+1`, for each run of like boolean operators, each
//!   labelled `break` / `continue`, each recursive call.
//!
//! Nesting deepens inside the body of a structural construct and inside
//! a closure; a closure itself costs nothing. Syntax produced by a macro
//! contributes nothing, though what the author wrote among its arguments
//! still counts; compiler desugarings add nothing beyond the construct
//! the author wrote.
use vstd::prelude::*;
use crate::diagnostic::{Diagnostic, DiagnosticModel, Part, PartModel};
use crate::fn_body::{
    is_measured, lemma_seq_height, measured, height, seq_height, ClosureKind, Expr, ExprKind,
    FnInfo, LogicalOp, LoopSource, MatchSource, Origin, macro_only, seq_macro_only, loop_authored,
    closure_authored,
};
use crate::text::{decimal, push_decimal, push_str, string_of};

verus! {

/// A score: the whole of it, and the part that nesting penalties
/// contribute.
pub struct Cost {
    pub total: nat,
    pub from_nesting: nat,
}

pub open spec fn zero() -> Cost {
    Cost { total: 0, from_nesting: 0 }
}

/// A hybrid or fundamental increment.
pub open spec fn flat() -> Cost {
    Cost { total: 1, from_nesting: 0 }
}

/// A structural increment at nesting `n`.
pub open spec fn structural(n: nat) -> Cost {
    Cost { total: 1 + n, from_nesting: n }
}

pub open spec fn plus(a: Cost, b: Cost) -> Cost {
    Cost { total: a.total + b.total, from_nesting: a.from_nesting + b.from_nesting }
}

pub open spec fn when(c: bool, k: Cost) -> Cost {
    if c {
        k
    } else {
        zero()
    }
}

/// The position an expression is scored in.
#[derive(Debug, Clone, Copy, PartialEq, Eq, Structural)]
pub enum ScoreMode {
    Expr,
    /// The `if` in the `else` position of another `if`.
    ElseIf,
    /// An operand of the given boolean operator, where a like operator
    /// continues the same run.
    Operand(LogicalOp),
    /// A match arm of an authored `match`, whose guard is an increment.
    Arm,
}

/// The cognitive complexity that `e`, scored in position `m` at nesting
/// `n`, adds.
pub open spec fn cost(e: Expr, m: ScoreMode, n: nat) -> Cost
    decreases e,
{
    let written = e.origin != Origin::Macro;
    match e.kind {
        ExprKind::If(c, t, els) => if e.origin == Origin::Written {
            plus(
                plus(
                    plus(
                        if m == ScoreMode::ElseIf {
                            flat()
                        } else {
                            structural(n)
                        },
                        cost(*c, ScoreMode::Expr, n),
                    ),
                    cost(*t, ScoreMode::Expr, n + 1),
                ),
                match els {
                    None => zero(),
                    Some(x) => if (x.kind is If) && x.origin != Origin::Macro {
                        cost(*x, ScoreMode::ElseIf, n)
                    } else {
                        plus(flat(), cost(*x, ScoreMode::Expr, n + 1))
                    },
                },
            )
        } else {
            plus(
                plus(cost(*c, ScoreMode::Expr, n), cost(*t, ScoreMode::Expr, n)),
                match els {
                    None => zero(),
                    Some(x) => cost(*x, ScoreMode::Expr, n),
                },
            )
        },
        ExprKind::Match(s, arms, src) => if written && src != MatchSource::Lowered {
            plus(
                plus(structural(n), cost(*s, ScoreMode::Expr, n)),
                seq_cost(arms@, ScoreMode::Arm, n + 1),
            )
        } else {
            plus(cost(*s, ScoreMode::Expr, n), seq_cost(arms@, ScoreMode::Expr, n))
        },
        ExprKind::Arm(g, b) => plus(
            match g {
                Some(x) => plus(when(m == ScoreMode::Arm, flat()), cost(*x, ScoreMode::Expr, n)),
                None => zero(),
            },
            cost(*b, ScoreMode::Expr, n),
        ),
        ExprKind::Loop(b, src) => if loop_authored(e.origin, src) {
            plus(structural(n), cost(*b, ScoreMode::Expr, n + 1))
        } else {
            cost(*b, ScoreMode::Expr, n)
        },
        ExprKind::Closure(k, b) => if closure_authored(e.origin, k) {
            cost(*b, ScoreMode::Expr, n + 1)
        } else {
            cost(*b, ScoreMode::Expr, n)
        },
        ExprKind::Block(stmts, tail, _) => plus(
            seq_cost(stmts@, ScoreMode::Expr, n),
            match tail {
                Some(x) => cost(*x, ScoreMode::Expr, n),
                None => zero(),
            },
        ),
        ExprKind::Let(init, els) => plus(
            match init {
                Some(x) => cost(*x, ScoreMode::Expr, n),
                None => zero(),
            },
            match els {
                Some(x) => plus(when(written, flat()), cost(*x, ScoreMode::Expr, n)),
                None => zero(),
            },
        ),
        ExprKind::DropTemps(x) => cost(*x, ScoreMode::Expr, n),
        ExprKind::Logical(op, l, r) => if written {
            plus(
                plus(
                    when(m != ScoreMode::Operand(op), flat()),
                    cost(*l, ScoreMode::Operand(op), n),
                ),
                cost(*r, ScoreMode::Operand(op), n),
            )
        } else {
            plus(cost(*l, ScoreMode::Expr, n), cost(*r, ScoreMode::Expr, n))
        },
        ExprKind::Break(labelled, v) => plus(
            when(written && labelled, flat()),
            match v {
                Some(x) => cost(*x, ScoreMode::Expr, n),
                None => zero(),
            },
        ),
        ExprKind::Continue(labelled) => when(written && labelled, flat()),
        ExprKind::Call(recursive, args) => plus(
            when(written && recursive, flat()),
            seq_cost(args@, ScoreMode::Expr, n),
        ),
        ExprKind::Other(children) => seq_cost(children@, ScoreMode::Expr, n),
    }
}

/// The sum of the costs of `s`, each in position `m` at nesting `n`.
pub open spec fn seq_cost(s: Seq<Expr>, m: ScoreMode, n: nat) -> Cost
    decreases s,
{
    if s.len() == 0 {
        zero()
    } else {
        plus(seq_cost(s.drop_last(), m, n), cost(s.last(), m, n))
    }
}

/// The score of a function body.
pub open spec fn body_cost(body: Expr) -> Cost {
    cost(body, ScoreMode::Expr, 0)
}

/// Nesting penalties are part of the score: they never exceed it.
pub proof fn lemma_nesting_within_total(e: Expr, m: ScoreMode, n: nat)
    ensures
        cost(e, m, n).from_nesting <= cost(e, m, n).total,
    decreases e,
{
    match e.kind {
        ExprKind::If(c, t, els) => {
            lemma_nesting_within_total(*c, ScoreMode::Expr, n);
            lemma_nesting_within_total(*t, ScoreMode::Expr, n + 1);
            lemma_nesting_within_total(*t, ScoreMode::Expr, n);
            if let Some(x) = els {
                lemma_nesting_within_total(*x, ScoreMode::ElseIf, n);
                lemma_nesting_within_total(*x, ScoreMode::Expr, n + 1);
                lemma_nesting_within_total(*x, ScoreMode::Expr, n);
            }
        },
        ExprKind::Match(s, arms, _) => {
            lemma_nesting_within_total(*s, ScoreMode::Expr, n);
            lemma_seq_nesting_within_total(arms@, ScoreMode::Arm, n + 1);
            lemma_seq_nesting_within_total(arms@, ScoreMode::Expr, n);
        },
        ExprKind::Arm(g, b) => {
            if let Some(x) = g {
                lemma_nesting_within_total(*x, ScoreMode::Expr, n);
            }
            lemma_nesting_within_total(*b, ScoreMode::Expr, n);
        },
        ExprKind::Loop(b, _) => {
            lemma_nesting_within_total(*b, ScoreMode::Expr, n + 1);
            lemma_nesting_within_total(*b, ScoreMode::Expr, n);
        },
        ExprKind::Closure(_, b) => {
            lemma_nesting_within_total(*b, ScoreMode::Expr, n + 1);
            lemma_nesting_within_total(*b, ScoreMode::Expr, n);
        },
        ExprKind::Block(stmts, tail, _) => {
            lemma_seq_nesting_within_total(stmts@, ScoreMode::Expr, n);
            if let Some(x) = tail {
                lemma_nesting_within_total(*x, ScoreMode::Expr, n);
            }
        },
        ExprKind::Let(init, els) => {
            if let Some(x) = init {
                lemma_nesting_within_total(*x, ScoreMode::Expr, n);
            }
            if let Some(x) = els {
                lemma_nesting_within_total(*x, ScoreMode::Expr, n);
            }
        },
        ExprKind::DropTemps(x) => {
            lemma_nesting_within_total(*x, ScoreMode::Expr, n);
        },
        ExprKind::Logical(op, l, r) => {
            lemma_nesting_within_total(*l, ScoreMode::Operand(op), n);
            lemma_nesting_within_total(*r, ScoreMode::Operand(op), n);
            lemma_nesting_within_total(*l, ScoreMode::Expr, n);
            lemma_nesting_within_total(*r, ScoreMode::Expr, n);
        },
        ExprKind::Break(_, v) => {
            if let Some(x) = v {
                lemma_nesting_within_total(*x, ScoreMode::Expr, n);
            }
        },
        ExprKind::Continue(_) => {},
        ExprKind::Call(_, args) => {
            lemma_seq_nesting_within_total(args@, ScoreMode::Expr, n);
        },
        ExprKind::Other(children) => {
            lemma_seq_nesting_within_total(children@, ScoreMode::Expr, n);
        },
    }
}

pub proof fn lemma_seq_nesting_within_total(s: Seq<Expr>, m: ScoreMode, n: nat)
    ensures
        seq_cost(s, m, n).from_nesting <= seq_cost(s, m, n).total,
    decreases s,
{
    if s.len() > 0 {
        lemma_seq_nesting_within_total(s.drop_last(), m, n);
        lemma_nesting_within_total(s.last(), m, n);
    }
}

/// Where code sits changes its score only through nesting penalties:
/// moved to a shallower nesting (into a function of its own, say), a
/// piece of code keeps every increment that is not a nesting penalty,
/// and its nesting penalties, and so its score, do not grow.
#[verifier::rlimit(60)]
pub proof fn lemma_shallower_code_scores_no_more(e: Expr, m: ScoreMode, n1: nat, n2: nat)
    requires
        n1 <= n2,
    ensures
        cost(e, m, n1).total - cost(e, m, n1).from_nesting == cost(e, m, n2).total - cost(
            e,
            m,
            n2,
        ).from_nesting,
        cost(e, m, n1).from_nesting <= cost(e, m, n2).from_nesting,
        cost(e, m, n1).total <= cost(e, m, n2).total,
    decreases e,
{
    lemma_nesting_within_total(e, m, n1);
    lemma_nesting_within_total(e, m, n2);
    match e.kind {
        ExprKind::If(c, t, els) => {
            lemma_shallower_code_scores_no_more(*c, ScoreMode::Expr, n1, n2);
            lemma_shallower_code_scores_no_more(*t, ScoreMode::Expr, n1 + 1, n2 + 1);
            lemma_shallower_code_scores_no_more(*t, ScoreMode::Expr, n1, n2);
            if let Some(x) = els {
                lemma_shallower_code_scores_no_more(*x, ScoreMode::ElseIf, n1, n2);
                lemma_shallower_code_scores_no_more(*x, ScoreMode::Expr, n1 + 1, n2 + 1);
                lemma_shallower_code_scores_no_more(*x, ScoreMode::Expr, n1, n2);
            }
        },
        ExprKind::Match(s, arms, _) => {
            lemma_shallower_code_scores_no_more(*s, ScoreMode::Expr, n1, n2);
            lemma_seq_shallower_scores_no_more(arms@, ScoreMode::Arm, n1 + 1, n2 + 1);
            lemma_seq_shallower_scores_no_more(arms@, ScoreMode::Expr, n1, n2);
        },
        ExprKind::Arm(g, b) => {
            if let Some(x) = g {
                lemma_shallower_code_scores_no_more(*x, ScoreMode::Expr, n1, n2);
            }
            lemma_shallower_code_scores_no_more(*b, ScoreMode::Expr, n1, n2);
        },
        ExprKind::Loop(b, _) => {
            lemma_shallower_code_scores_no_more(*b, ScoreMode::Expr, n1 + 1, n2 + 1);
            lemma_shallower_code_scores_no_more(*b, ScoreMode::Expr, n1, n2);
        },
        ExprKind::Closure(_, b) => {
            lemma_shallower_code_scores_no_more(*b, ScoreMode::Expr, n1 + 1, n2 + 1);
            lemma_shallower_code_scores_no_more(*b, ScoreMode::Expr, n1, n2);
        },
        ExprKind::Block(stmts, tail, _) => {
            lemma_seq_shallower_scores_no_more(stmts@, ScoreMode::Expr, n1, n2);
            if let Some(x) = tail {
                lemma_shallower_code_scores_no_more(*x, ScoreMode::Expr, n1, n2);
            }
        },
        ExprKind::Let(init, els) => {
            if let Some(x) = init {
                lemma_shallower_code_scores_no_more(*x, ScoreMode::Expr, n1, n2);
            }
            if let Some(x) = els {
                lemma_shallower_code_scores_no_more(*x, ScoreMode::Expr, n1, n2);
            }
        },
        ExprKind::DropTemps(x) => {
            lemma_shallower_code_scores_no_more(*x, ScoreMode::Expr, n1, n2);
        },
        ExprKind::Logical(op, l, r) => {
            lemma_shallower_code_scores_no_more(*l, ScoreMode::Operand(op), n1, n2);
            lemma_shallower_code_scores_no_more(*r, ScoreMode::Operand(op), n1, n2);
            lemma_shallower_code_scores_no_more(*l, ScoreMode::Expr, n1, n2);
            lemma_shallower_code_scores_no_more(*r, ScoreMode::Expr, n1, n2);
        },
        ExprKind::Break(_, v) => {
            if let Some(x) = v {
                lemma_shallower_code_scores_no_more(*x, ScoreMode::Expr, n1, n2);
            }
        },
        ExprKind::Continue(_) => {},
        ExprKind::Call(_, args) => {
            lemma_seq_shallower_scores_no_more(args@, ScoreMode::Expr, n1, n2);
        },
        ExprKind::Other(children) => {
            lemma_seq_shallower_scores_no_more(children@, ScoreMode::Expr, n1, n2);
        },
    }
}

pub proof fn lemma_seq_shallower_scores_no_more(s: Seq<Expr>, m: ScoreMode, n1: nat, n2: nat)
    requires
        n1 <= n2,
    ensures
        seq_cost(s, m, n1).total - seq_cost(s, m, n1).from_nesting == seq_cost(s, m, n2).total
            - seq_cost(s, m, n2).from_nesting,
        seq_cost(s, m, n1).from_nesting <= seq_cost(s, m, n2).from_nesting,
        seq_cost(s, m, n1).total <= seq_cost(s, m, n2).total,
    decreases s,
{
    lemma_seq_nesting_within_total(s, m, n1);
    lemma_seq_nesting_within_total(s, m, n2);
    if s.len() > 0 {
        lemma_seq_shallower_scores_no_more(s.drop_last(), m, n1, n2);
        lemma_shallower_code_scores_no_more(s.last(), m, n1, n2);
    }
}

/// Code that a macro expansion produced contributes nothing: a body
/// position holding only macro output scores zero, however deep.
pub proof fn lemma_macro_output_scores_zero(e: Expr, m: ScoreMode, n: nat)
    requires
        macro_only(e),
        m != ScoreMode::Arm,
    ensures
        cost(e, m, n) == zero(),
    decreases e,
{
    match e.kind {
        ExprKind::If(c, t, els) => {
            lemma_macro_output_scores_zero(*c, ScoreMode::Expr, n);
            lemma_macro_output_scores_zero(*t, ScoreMode::Expr, n);
            if let Some(x) = els {
                lemma_macro_output_scores_zero(*x, ScoreMode::Expr, n);
            }
        },
        ExprKind::Match(s, arms, _) => {
            lemma_macro_output_scores_zero(*s, ScoreMode::Expr, n);
            lemma_seq_macro_output_scores_zero(arms@, n);
        },
        ExprKind::Arm(g, b) => {
            if let Some(x) = g {
                lemma_macro_output_scores_zero(*x, ScoreMode::Expr, n);
            }
            lemma_macro_output_scores_zero(*b, ScoreMode::Expr, n);
        },
        ExprKind::Loop(b, _) => {
            lemma_macro_output_scores_zero(*b, ScoreMode::Expr, n);
        },
        ExprKind::Closure(_, b) => {
            lemma_macro_output_scores_zero(*b, ScoreMode::Expr, n);
        },
        ExprKind::Block(stmts, tail, _) => {
            lemma_seq_macro_output_scores_zero(stmts@, n);
            if let Some(x) = tail {
                lemma_macro_output_scores_zero(*x, ScoreMode::Expr, n);
            }
        },
        ExprKind::Let(init, els) => {
            if let Some(x) = init {
                lemma_macro_output_scores_zero(*x, ScoreMode::Expr, n);
            }
            if let Some(x) = els {
                lemma_macro_output_scores_zero(*x, ScoreMode::Expr, n);
            }
        },
        ExprKind::DropTemps(x) => {
            lemma_macro_output_scores_zero(*x, ScoreMode::Expr, n);
        },
        ExprKind::Logical(_, l, r) => {
            lemma_macro_output_scores_zero(*l, ScoreMode::Expr, n);
            lemma_macro_output_scores_zero(*r, ScoreMode::Expr, n);
        },
        ExprKind::Break(_, v) => {
            if let Some(x) = v {
                lemma_macro_output_scores_zero(*x, ScoreMode::Expr, n);
            }
        },
        ExprKind::Continue(_) => {},
        ExprKind::Call(_, args) => {
            lemma_seq_macro_output_scores_zero(args@, n);
        },
        ExprKind::Other(children) => {
            lemma_seq_macro_output_scores_zero(children@, n);
        },
    }
}

pub proof fn lemma_seq_macro_output_scores_zero(s: Seq<Expr>, n: nat)
    requires
        seq_macro_only(s),
    ensures
        seq_cost(s, ScoreMode::Expr, n) == zero(),
    decreases s,
{
    if s.len() > 0 {
        lemma_seq_macro_output_scores_zero(s.drop_last(), n);
        lemma_macro_output_scores_zero(s.last(), ScoreMode::Expr, n);
    }
}

/// A score as the walk computes it.
#[derive(Debug, Clone, Copy, PartialEq, Eq, Structural)]
pub struct Score {
    /// The whole cognitive complexity.
    pub total: usize,
    /// The part of `total` contributed by nesting penalties alone.
    pub from_nesting: usize,
}

impl View for Score {
    type V = Cost;

    open spec fn view(&self) -> Cost {
        Cost { total: self.total as nat, from_nesting: self.from_nesting as nat }
    }
}

fn zero_score() -> (r: Score)
    ensures
        r@ == zero(),
{
    Score { total: 0, from_nesting: 0 }
}

fn flat_score() -> (r: Score)
    ensures
        r@ == flat(),
{
    Score { total: 1, from_nesting: 0 }
}

fn structural_score(n: usize) -> (r: Score)
    requires
        n < usize::MAX,
    ensures
        r@ == structural(n as nat),
{
    Score { total: n + 1, from_nesting: n }
}

fn combine(a: Score, b: Score) -> (r: Score)
    requires
        a@.total + b@.total <= usize::MAX,
        a@.from_nesting + b@.from_nesting <= usize::MAX,
    ensures
        r@ == plus(a@, b@),
{
    Score { total: a.total + b.total, from_nesting: a.from_nesting + b.from_nesting }
}

/// A prefix of a sequence costs no more than the whole.
proof fn lemma_seq_cost_prefix(s: Seq<Expr>, m: ScoreMode, n: nat, k: int)
    requires
        0 <= k <= s.len(),
    ensures
        seq_cost(s.take(k), m, n).total <= seq_cost(s, m, n).total,
        seq_cost(s.take(k), m, n).from_nesting <= seq_cost(s, m, n).from_nesting,
    decreases s.len(),
{
    if k == s.len() {
        assert(s.take(k) =~= s);
    } else {
        assert(s.drop_last().take(k) =~= s.take(k));
        lemma_seq_cost_prefix(s.drop_last(), m, n, k);
    }
}

/// The scores of `v`'s expressions, each in position `m` at nesting `n`,
/// summed.
fn score_seq(v: &Vec<Expr>, m: ScoreMode, n: usize) -> (r: Score)
    requires
        n + seq_height(v@) <= usize::MAX,
        seq_cost(v@, m, n as nat).total <= usize::MAX,
    ensures
        r@ == seq_cost(v@, m, n as nat),
    decreases seq_height(v@), 2nat,
{
    proof {
        lemma_seq_nesting_within_total(v@, m, n as nat);
    }
    let mut acc = zero_score();
    let mut k: usize = 0;
    assert(v@.take(0) =~= Seq::<Expr>::empty());
    while k < v.len()
        invariant
            k <= v@.len(),
            n + seq_height(v@) <= usize::MAX,
            seq_cost(v@, m, n as nat).total <= usize::MAX,
            seq_cost(v@, m, n as nat).from_nesting <= seq_cost(v@, m, n as nat).total,
            acc@ == seq_cost(v@.take(k as int), m, n as nat),
        decreases v@.len() - k,
    {
        proof {
            assert(v@.take(k + 1).drop_last() =~= v@.take(k as int));
            assert(v@.take(k + 1).last() == v@[k as int]);
            lemma_seq_cost_prefix(v@, m, n as nat, k + 1);
            lemma_seq_height(v@, k as int);
        }
        let one = score_in(&v[k], m, n);
        acc = combine(acc, one);
        k = k + 1;
    }
    assert(v@.take(v@.len() as int) =~= v@);
    acc
}

/// The score an `if` adds.
fn score_if(e: &Expr, m: ScoreMode, n: usize) -> (r: Score)
    requires
        e.kind is If,
        n + height(*e) <= usize::MAX,
        cost(*e, m, n as nat).total <= usize::MAX,
    ensures
        r@ == cost(*e, m, n as nat),
    decreases height(*e), 0nat,
{
    proof {
        lemma_nesting_within_total(*e, m, n as nat);
    }
    match &e.kind {
        ExprKind::If(c, t, els) => {
            if e.origin == Origin::Written {
                let own = if m == ScoreMode::ElseIf {
                    flat_score()
                } else {
                    structural_score(n)
                };
                let sc = score_in(c, ScoreMode::Expr, n);
                let a = combine(own, sc);
                let st = score_in(t, ScoreMode::Expr, n + 1);
                let b = combine(a, st);
                let se = match els {
                    None => zero_score(),
                    Some(x) => {
                        if matches!(x.kind, ExprKind::If(..)) && x.origin != Origin::Macro {
                            score_in(x, ScoreMode::ElseIf, n)
                        } else {
                            let sx = score_in(x, ScoreMode::Expr, n + 1);
                            combine(flat_score(), sx)
                        }
                    },
                };
                combine(b, se)
            } else {
                let sc = score_in(c, ScoreMode::Expr, n);
                let st = score_in(t, ScoreMode::Expr, n);
                let a = combine(sc, st);
                let se = match els {
                    None => zero_score(),
                    Some(x) => score_in(x, ScoreMode::Expr, n),
                };
                combine(a, se)
            }
        },
        _ => zero_score(),
    }
}

/// The score a `match` adds.
fn score_match(e: &Expr, m: ScoreMode, n: usize) -> (r: Score)
    requires
        e.kind is Match,
        n + height(*e) <= usize::MAX,
        cost(*e, m, n as nat).total <= usize::MAX,
    ensures
        r@ == cost(*e, m, n as nat),
    decreases height(*e), 0nat,
{
    proof {
        lemma_nesting_within_total(*e, m, n as nat);
    }
    let written = e.origin != Origin::Macro;
    match &e.kind {
        ExprKind::Match(s, arms, src) => {
            if written && *src != MatchSource::Lowered {
                let own = structural_score(n);
                let ss = score_in(s, ScoreMode::Expr, n);
                let a = combine(own, ss);
                let sa = score_seq(arms, ScoreMode::Arm, n + 1);
                combine(a, sa)
            } else {
                let ss = score_in(s, ScoreMode::Expr, n);
                let sa = score_seq(arms, ScoreMode::Expr, n);
                combine(ss, sa)
            }
        },
        _ => zero_score(),
    }
}

/// The score `e` adds in position `m` at nesting `n`.
fn score_in(e: &Expr, m: ScoreMode, n: usize) -> (r: Score)
    requires
        n + height(*e) <= usize::MAX,
        cost(*e, m, n as nat).total <= usize::MAX,
    ensures
        r@ == cost(*e, m, n as nat),
    decreases height(*e), 1nat,
{
    proof {
        lemma_nesting_within_total(*e, m, n as nat);
    }
    let written = e.origin != Origin::Macro;
    match &e.kind {
        ExprKind::If(..) => score_if(e, m, n),
        ExprKind::Match(..) => score_match(e, m, n),
        ExprKind::Arm(g, b) => {
            let sg = match g {
                Some(x) => {
                    let own = if m == ScoreMode::Arm {
                        flat_score()
                    } else {
                        zero_score()
                    };
                    let sx = score_in(x, ScoreMode::Expr, n);
                    combine(own, sx)
                },
                None => zero_score(),
            };
            let sb = score_in(b, ScoreMode::Expr, n);
            combine(sg, sb)
        },
        ExprKind::Loop(b, src) => {
            let authored = match src {
                LoopSource::Loop => e.origin == Origin::Written,
                _ => e.origin != Origin::Macro,
            };
            if authored {
                let own = structural_score(n);
                let sb = score_in(b, ScoreMode::Expr, n + 1);
                combine(own, sb)
            } else {
                score_in(b, ScoreMode::Expr, n)
            }
        },
        ExprKind::Closure(k, b) => {
            if e.origin == Origin::Written && *k == ClosureKind::Closure {
                score_in(b, ScoreMode::Expr, n + 1)
            } else {
                score_in(b, ScoreMode::Expr, n)
            }
        },
        ExprKind::Block(stmts, tail, _) => {
            let ss = score_seq(stmts, ScoreMode::Expr, n);
            let st = match tail {
                Some(x) => score_in(x, ScoreMode::Expr, n),
                None => zero_score(),
            };
            combine(ss, st)
        },
        ExprKind::Let(init, els) => {
            let si = match init {
                Some(x) => score_in(x, ScoreMode::Expr, n),
                None => zero_score(),
            };
            let se = match els {
                Some(x) => {
                    let own = if written {
                        flat_score()
                    } else {
                        zero_score()
                    };
                    let sx = score_in(x, ScoreMode::Expr, n);
                    combine(own, sx)
                },
                None => zero_score(),
            };
            combine(si, se)
        },
        ExprKind::DropTemps(x) => score_in(x, ScoreMode::Expr, n),
        ExprKind::Logical(op, l, r) => {
            if written {
                let own = if m != ScoreMode::Operand(*op) {
                    flat_score()
                } else {
                    zero_score()
                };
                let sl = score_in(l, ScoreMode::Operand(*op), n);
                let a = combine(own, sl);
                let sr = score_in(r, ScoreMode::Operand(*op), n);
                combine(a, sr)
            } else {
                let sl = score_in(l, ScoreMode::Expr, n);
                let sr = score_in(r, ScoreMode::Expr, n);
                combine(sl, sr)
            }
        },
        ExprKind::Break(labelled, v) => {
            let own = if written && *labelled {
                flat_score()
            } else {
                zero_score()
            };
            let sv = match v {
                Some(x) => score_in(x, ScoreMode::Expr, n),
                None => zero_score(),
            };
            combine(own, sv)
        },
        ExprKind::Continue(labelled) => {
            if written && *labelled {
                flat_score()
            } else {
                zero_score()
            }
        },
        ExprKind::Call(recursive, args) => {
            let own = if written && *recursive {
                flat_score()
            } else {
                zero_score()
            };
            let sa = score_seq(args, ScoreMode::Expr, n);
            combine(own, sa)
        },
        ExprKind::Other(children) => score_seq(children, ScoreMode::Expr, n),
    }
}

/// The cognitive complexity of a function body.
pub fn score_body(body: &Expr) -> (r: Score)
    requires
        height(*body) <= usize::MAX,
        body_cost(*body).total <= usize::MAX,
    ensures
        r@ == body_cost(*body),
{
    score_in(body, ScoreMode::Expr, 0)
}

/// The rule's settings.
pub struct Config {
    /// The highest cognitive complexity a function may have without
    /// being flagged.
    pub max_complexity: usize,
    /// Whether test code is left alone.
    pub test_code_exception: bool,
}

impl Default for Config {
    /// The threshold SonarSource ships for every language its metric
    /// covers, and test code held to it like any other code.
    fn default() -> (c: Self)
        ensures
            c.max_complexity == 15,
            !c.test_code_exception,
    {
        Config { max_complexity: 15, test_code_exception: false }
    }
}

pub struct ExcessiveCognitiveComplexity {
    config: Config,
}

/// The finding for a function `name` whose body scores `score`, above
/// `max`: the headline, a note on the share of nesting when there is
/// any, and the advice.
pub open spec fn report_spec(name: Seq<char>, score: Cost, max: nat) -> DiagnosticModel {
    DiagnosticModel {
        message: "function `"@ + name + "` has a cognitive complexity of "@ + decimal(score.total)
            + ", above the limit of "@ + decimal(max),
        parts: (if score.from_nesting > 0 {
            seq![
                PartModel::Note(
                    "nesting accounts for "@ + decimal(score.from_nesting) + " of the "@ + decimal(
                        score.total,
                    ),
                ),
            ]
        } else {
            Seq::empty()
        }) + seq![
            PartModel::Help(
                "split the function into smaller ones, each doing one thing, and flatten nested branches with early returns"@,
            ),
        ],
    }
}

/// Builds the finding for a function `name` whose body scores `score`.
pub fn report(name: &str, score: Score, max: usize) -> (d: Diagnostic)
    ensures
        d@ == report_spec(name@, score@, max as nat),
{
    let mut message: Vec<char> = Vec::new();
    push_str(&mut message, "function `");
    push_str(&mut message, name);
    push_str(&mut message, "` has a cognitive complexity of ");
    push_decimal(&mut message, score.total);
    push_str(&mut message, ", above the limit of ");
    push_decimal(&mut message, max);
    let mut parts: Vec<Part> = Vec::new();
    if score.from_nesting > 0 {
        let mut note: Vec<char> = Vec::new();
        push_str(&mut note, "nesting accounts for ");
        push_decimal(&mut note, score.from_nesting);
        push_str(&mut note, " of the ");
        push_decimal(&mut note, score.total);
        parts.push(Part::Note(string_of(note.as_slice())));
    }
    parts.push(
        Part::Help(
            "split the function into smaller ones, each doing one thing, and flatten nested branches with early returns".to_owned(),
        ),
    );
    let d = Diagnostic { message: string_of(message.as_slice()), parts };
    assert(d@.parts =~= report_spec(name@, score@, max as nat).parts);
    d
}

impl ExcessiveCognitiveComplexity {
    pub closed spec fn max_complexity(&self) -> nat {
        self.config.max_complexity as nat
    }

    pub closed spec fn test_code_exception(&self) -> bool {
        self.config.test_code_exception
    }

    pub fn new(config: Config) -> (r: Self)
        ensures
            r.max_complexity() == config.max_complexity,
            r.test_code_exception() == config.test_code_exception,
    {
        ExcessiveCognitiveComplexity { config }
    }

    /// Judges one function: a measured function whose body scores above
    /// the limit is reported.
    pub fn check_fn(&self, function: &FnInfo, body: &Expr) -> (r: Option<Diagnostic>)
        requires
            is_measured(*function, self.test_code_exception()) ==> height(*body) <= usize::MAX
                && body_cost(*body).total <= usize::MAX,
        ensures
            match r {
                None => !is_measured(*function, self.test_code_exception()) || body_cost(*body).total
                    <= self.max_complexity(),
                Some(d) => is_measured(*function, self.test_code_exception()) && body_cost(
                    *body,
                ).total > self.max_complexity() && d@ == report_spec(
                    function.name@,
                    body_cost(*body),
                    self.max_complexity(),
                ),
            },
    {
        if !measured(function, self.config.test_code_exception) {
            return None;
        }
        let score = score_body(body);
        if score.total <= self.config.max_complexity {
            return None;
        }
        Some(report(function.name.as_str(), score, self.config.max_complexity))
    }
}

} // verus!
