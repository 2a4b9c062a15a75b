use perfectionist::diagnostic::Part;
use perfectionist::excessive_cognitive_complexity::{
    report as complexity_report, score_body, Config as ComplexityConfig, ExcessiveCognitiveComplexity,
};
use perfectionist::excessive_nesting::{deepest_nesting, Config as NestingConfig, ExcessiveNesting};
use perfectionist::fn_body::{
    ClosureKind, Expr, ExprKind, FnInfo, LogicalOp, LoopSource, MatchSource, Origin, Span,
};

fn span(lo: usize) -> Span {
    Span { lo, hi: lo + 1 }
}

fn node(lo: usize, origin: Origin, kind: ExprKind) -> Expr {
    Expr { span: span(lo), origin, kind }
}

fn leaf(lo: usize) -> Expr {
    node(lo, Origin::Written, ExprKind::Other(vec![]))
}

fn block(lo: usize, stmts: Vec<Expr>, tail: Option<Expr>) -> Expr {
    node(lo, Origin::Written, ExprKind::Block(stmts, tail.map(Box::new), false))
}

fn if_expr(lo: usize, cond: Expr, then: Expr, els: Option<Expr>) -> Expr {
    node(lo, Origin::Written, ExprKind::If(Box::new(cond), Box::new(then), els.map(Box::new)))
}

fn arm(lo: usize, guard: Option<Expr>, body: Expr) -> Expr {
    node(lo, Origin::Written, ExprKind::Arm(guard.map(Box::new), Box::new(body)))
}

fn match_expr(lo: usize, scrutinee: Expr, arms: Vec<Expr>) -> Expr {
    node(lo, Origin::Written, ExprKind::Match(Box::new(scrutinee), arms, MatchSource::Normal))
}

fn call(lo: usize, recursive: bool) -> Expr {
    node(lo, Origin::Written, ExprKind::Call(recursive, vec![leaf(lo + 1)]))
}

fn logical(lo: usize, op: LogicalOp, l: Expr, r: Expr) -> Expr {
    node(lo, Origin::Written, ExprKind::Logical(op, Box::new(l), Box::new(r)))
}

fn body_of(tail: Expr) -> Expr {
    block(0, vec![], Some(tail))
}

/// `for <pat> in <iter> <body>` as the compiler lowers it: a lowered
/// `match` on the iterator around a `loop` around a lowered `match` on
/// `next()`, whose `Some` arm holds the author's block.
fn for_loop(lo: usize, body: Expr) -> Expr {
    let next = node(
        lo + 2,
        Origin::Desugared,
        ExprKind::Match(
            Box::new(call(lo + 3, false)),
            vec![
                arm(lo + 4, None, node(lo + 5, Origin::Desugared, ExprKind::Break(false, None))),
                arm(lo + 6, None, body),
            ],
            MatchSource::Lowered,
        ),
    );
    let looped = node(
        lo,
        Origin::Desugared,
        ExprKind::Loop(
            Box::new(node(lo + 1, Origin::Desugared, ExprKind::Block(vec![next], None, false))),
            LoopSource::ForLoop,
        ),
    );
    node(
        lo + 7,
        Origin::Desugared,
        ExprKind::Match(
            Box::new(call(lo + 8, false)),
            vec![arm(lo + 9, None, looped)],
            MatchSource::Lowered,
        ),
    )
}

fn function(name: &str) -> FnInfo {
    FnInfo { name: name.to_owned(), is_closure: false, from_expansion: false, in_test_code: false }
}

/// The example the nesting rule's documentation avoids: `for`, `if let`,
/// `match`, `if`, four levels.
fn four_levels() -> Expr {
    let inner_if = if_expr(500, leaf(501), block(502, vec![call(503, false)], None), None);
    let file_arm = arm(400, None, block(401, vec![], Some(inner_if)));
    let dir_arm = arm(410, None, call(411, false));
    let the_match = match_expr(300, call(301, false), vec![file_arm, dir_arm]);
    let if_let = if_expr(200, leaf(201), block(202, vec![], Some(the_match)), None);
    let for_body = block(100, vec![], Some(if_let));
    body_of(for_loop(10, for_body))
}

/// The example the complexity rule's documentation avoids.
fn describe() -> Expr {
    let visible_and_current = logical(
        600,
        LogicalOp::And,
        leaf(601),
        node(602, Origin::Written, ExprKind::Other(vec![leaf(603)])),
    );
    let deprecated = if_expr(610, leaf(611), block(612, vec![call(613, false)], None), None);
    let inner_if = if_expr(
        620,
        visible_and_current,
        block(621, vec![call(622, false)], None),
        Some(deprecated),
    );
    let listed = block(
        700,
        vec![
            node(
                701,
                Origin::Written,
                ExprKind::Let(Some(Box::new(call(702, false))), None),
            ),
            for_loop(710, block(730, vec![inner_if], None)),
        ],
        Some(leaf(740)),
    );
    let arms = vec![arm(800, None, listed), arm(810, None, call(811, false))];
    body_of(match_expr(900, leaf(901), arms))
}

#[test]
fn a_construct_body_block_is_not_a_level_of_its_own() {
    let body = body_of(if_expr(5, leaf(6), block(7, vec![call(8, false)], None), None));
    let d = deepest_nesting(&body).unwrap();
    assert_eq!(d.depth, 1);
    assert_eq!(d.span, span(5));
}

#[test]
fn else_if_stays_at_the_level_of_its_if() {
    let chained = if_expr(
        5,
        leaf(6),
        block(7, vec![], None),
        Some(if_expr(10, leaf(11), block(12, vec![], None), None)),
    );
    assert_eq!(deepest_nesting(&body_of(chained)).unwrap().depth, 1);
    let nested = if_expr(
        5,
        leaf(6),
        block(7, vec![], None),
        Some(block(9, vec![if_expr(10, leaf(11), block(12, vec![], None), None)], None)),
    );
    let d = deepest_nesting(&body_of(nested)).unwrap();
    assert_eq!(d.depth, 2);
    assert_eq!(d.span, span(10));
}

#[test]
fn flat_body_has_no_deepest_point() {
    let body = block(0, vec![call(1, false), call(3, true)], Some(leaf(5)));
    assert!(deepest_nesting(&body).is_none());
}

#[test]
fn four_levels_are_reported_past_the_default_limit() {
    let rule = ExcessiveNesting::new(NestingConfig::default());
    let report = rule.check_fn(&function("scan"), &four_levels()).unwrap();
    assert_eq!(report.diagnostic.message, "function `scan` nests 4 levels deep, above the limit of 3");
    assert_eq!(report.deepest, span(500));
    match &report.diagnostic.parts[0] {
        Part::Note(n) => assert_eq!(n, "this is 4 levels deep"),
        _ => panic!("expected a note"),
    }
    match &report.diagnostic.parts[1] {
        Part::Help(h) => assert_eq!(
            h,
            "return early with a guard clause or `let ... else`, or move the inner levels into their own function"
        ),
        _ => panic!("expected help"),
    }
    let lenient = ExcessiveNesting::new(NestingConfig { max_depth: 4, test_code_exception: false });
    assert!(lenient.check_fn(&function("scan"), &four_levels()).is_none());
}

#[test]
fn one_level_past_a_zero_limit_is_singular() {
    let rule = ExcessiveNesting::new(NestingConfig { max_depth: 0, test_code_exception: false });
    let body = body_of(if_expr(5, leaf(6), block(7, vec![], None), None));
    let report = rule.check_fn(&function("f"), &body).unwrap();
    assert_eq!(report.diagnostic.message, "function `f` nests 1 level deep, above the limit of 0");
}

#[test]
fn nesting_skips_closures_macro_functions_and_exempt_tests() {
    let strict = ExcessiveNesting::new(NestingConfig { max_depth: 0, test_code_exception: true });
    let body = four_levels();
    let mut closure = function("c");
    closure.is_closure = true;
    assert!(strict.check_fn(&closure, &body).is_none());
    let mut expanded = function("m");
    expanded.from_expansion = true;
    assert!(strict.check_fn(&expanded, &body).is_none());
    let mut test = function("t");
    test.in_test_code = true;
    assert!(strict.check_fn(&test, &body).is_none());
    let held = ExcessiveNesting::new(NestingConfig { max_depth: 0, test_code_exception: false });
    assert!(held.check_fn(&test, &body).is_some());
}

#[test]
fn let_else_closure_and_free_block_are_levels() {
    let let_else = node(
        5,
        Origin::Written,
        ExprKind::Let(Some(Box::new(leaf(6))), Some(Box::new(block(7, vec![], None)))),
    );
    let d = deepest_nesting(&block(0, vec![let_else], None)).unwrap();
    assert_eq!((d.depth, d.span), (1, span(7)));
    let closure = node(
        5,
        Origin::Written,
        ExprKind::Closure(ClosureKind::Closure, Box::new(block(6, vec![], None))),
    );
    assert_eq!(deepest_nesting(&body_of(closure)).unwrap().depth, 1);
    let coroutine = node(
        5,
        Origin::Desugared,
        ExprKind::Closure(ClosureKind::Coroutine, Box::new(block(6, vec![], None))),
    );
    assert!(deepest_nesting(&body_of(coroutine)).is_none());
    let free_block = block(5, vec![call(6, false)], None);
    assert_eq!(deepest_nesting(&block(0, vec![free_block], None)).unwrap().depth, 1);
    let labelled = node(5, Origin::Written, ExprKind::Block(vec![], None, true));
    assert_eq!(deepest_nesting(&labelled).unwrap().depth, 1);
}

#[test]
fn macro_constructs_add_no_level_but_their_arguments_do() {
    let generated = node(
        5,
        Origin::Macro,
        ExprKind::If(
            Box::new(leaf(6)),
            Box::new(node(7, Origin::Macro, ExprKind::Block(vec![], None, false))),
            None,
        ),
    );
    assert!(deepest_nesting(&body_of(generated)).is_none());
    let argument = if_expr(20, leaf(21), block(22, vec![], None), None);
    let with_argument = node(
        5,
        Origin::Macro,
        ExprKind::If(
            Box::new(leaf(6)),
            Box::new(node(7, Origin::Macro, ExprKind::Block(vec![argument], None, false))),
            None,
        ),
    );
    let d = deepest_nesting(&body_of(with_argument)).unwrap();
    assert_eq!((d.depth, d.span), (1, span(20)));
}

#[test]
fn depth_counts_from_the_body_wherever_the_code_sits() {
    let inner = if_expr(50, leaf(51), block(52, vec![], None), None);
    assert_eq!(deepest_nesting(&body_of(inner)).unwrap().depth, 1);
    let inner = if_expr(50, leaf(51), block(52, vec![], None), None);
    let wrapped = body_of(for_loop(10, block(30, vec![inner], None)));
    let d = deepest_nesting(&wrapped).unwrap();
    assert_eq!((d.depth, d.span), (2, span(50)));
}

#[test]
fn deepest_point_is_the_first_of_equals() {
    let first = if_expr(10, leaf(11), block(12, vec![], None), None);
    let second = if_expr(20, leaf(21), block(22, vec![], None), None);
    let d = deepest_nesting(&block(0, vec![first, second], None)).unwrap();
    assert_eq!(d.span, span(10));
}

#[test]
fn documented_example_scores_eight_with_three_from_nesting() {
    let score = score_body(&describe());
    assert_eq!(score.total, 8);
    assert_eq!(score.from_nesting, 3);
    let rule = ExcessiveCognitiveComplexity::new(ComplexityConfig::default());
    assert!(rule.check_fn(&function("describe"), &describe()).is_none());
    let strict = ExcessiveCognitiveComplexity::new(ComplexityConfig { max_complexity: 5, test_code_exception: false });
    let d = strict.check_fn(&function("describe"), &describe()).unwrap();
    assert_eq!(d.message, "function `describe` has a cognitive complexity of 8, above the limit of 5");
    match &d.parts[0] {
        Part::Note(n) => assert_eq!(n, "nesting accounts for 3 of the 8"),
        _ => panic!("expected a note"),
    }
    match &d.parts[1] {
        Part::Help(h) => assert_eq!(
            h,
            "split the function into smaller ones, each doing one thing, and flatten nested branches with early returns"
        ),
        _ => panic!("expected help"),
    }
}

#[test]
fn report_without_nesting_has_no_note() {
    let score = score_body(&body_of(if_expr(1, leaf(2), block(3, vec![], None), None)));
    let d = complexity_report("g", score, 0);
    assert_eq!(d.message, "function `g` has a cognitive complexity of 1, above the limit of 0");
    assert_eq!(d.parts.len(), 1);
}

#[test]
fn like_boolean_operators_form_one_run() {
    let same = logical(1, LogicalOp::And, logical(2, LogicalOp::And, leaf(3), leaf(4)), leaf(5));
    assert_eq!(score_body(&body_of(same)).total, 1);
    let mixed = logical(1, LogicalOp::Or, logical(2, LogicalOp::And, leaf(3), leaf(4)), leaf(5));
    assert_eq!(score_body(&body_of(mixed)).total, 2);
}

#[test]
fn else_guard_labels_and_recursion_are_flat_increments() {
    let if_else = if_expr(1, leaf(2), block(3, vec![], None), Some(block(4, vec![], None)));
    assert_eq!(score_body(&body_of(if_else)).total, 2);
    let guarded = match_expr(1, leaf(2), vec![arm(3, Some(leaf(4)), leaf(5)), arm(6, None, leaf(7))]);
    assert_eq!(score_body(&body_of(guarded)).total, 2);
    let jumps = block(
        0,
        vec![
            node(1, Origin::Written, ExprKind::Break(true, None)),
            node(2, Origin::Written, ExprKind::Break(false, None)),
            node(3, Origin::Written, ExprKind::Continue(true)),
            node(4, Origin::Written, ExprKind::Continue(false)),
            call(5, true),
            call(7, false),
        ],
        None,
    );
    let s = score_body(&jumps);
    assert_eq!((s.total, s.from_nesting), (3, 0));
}

#[test]
fn closures_deepen_nesting_without_a_cost_of_their_own() {
    let inner = if_expr(10, leaf(11), block(12, vec![], None), None);
    let closure = node(
        5,
        Origin::Written,
        ExprKind::Closure(ClosureKind::Closure, Box::new(body_of(inner))),
    );
    let s = score_body(&body_of(closure));
    assert_eq!((s.total, s.from_nesting), (2, 1));
}

#[test]
fn let_else_costs_one_without_deepening() {
    let inner = if_expr(10, leaf(11), block(12, vec![], None), None);
    let let_else = node(
        5,
        Origin::Written,
        ExprKind::Let(Some(Box::new(leaf(6))), Some(Box::new(block(7, vec![inner], None)))),
    );
    let s = score_body(&block(0, vec![let_else], None));
    assert_eq!((s.total, s.from_nesting), (2, 0));
}

#[test]
fn macro_output_scores_nothing_but_its_arguments_count() {
    let generated = node(
        5,
        Origin::Macro,
        ExprKind::If(
            Box::new(node(6, Origin::Macro, ExprKind::Other(vec![]))),
            Box::new(node(7, Origin::Macro, ExprKind::Block(vec![], None, false))),
            None,
        ),
    );
    let s = score_body(&node(0, Origin::Macro, ExprKind::Block(vec![generated], None, false)));
    assert_eq!((s.total, s.from_nesting), (0, 0));
    let argument = if_expr(20, leaf(21), block(22, vec![], None), None);
    let with_argument = node(
        5,
        Origin::Macro,
        ExprKind::Other(vec![argument]),
    );
    assert_eq!(score_body(&body_of(with_argument)).total, 1);
}

#[test]
fn shallower_code_keeps_all_but_its_nesting_penalty() {
    let inner = if_expr(50, leaf(51), block(52, vec![], Some(if_expr(53, leaf(54), block(55, vec![], None), None))), None);
    let alone = score_body(&body_of(inner));
    assert_eq!((alone.total, alone.from_nesting), (3, 1));
    let inner = if_expr(50, leaf(51), block(52, vec![], Some(if_expr(53, leaf(54), block(55, vec![], None), None))), None);
    let in_loop = score_body(&body_of(for_loop(10, block(30, vec![inner], None))));
    assert_eq!((in_loop.total, in_loop.from_nesting), (1 + 2 + 3, 3));
    assert_eq!(in_loop.total - in_loop.from_nesting, 1 + alone.total - alone.from_nesting);
}

#[test]
fn complexity_skips_closures_macro_functions_and_exempt_tests() {
    let strict = ExcessiveCognitiveComplexity::new(ComplexityConfig { max_complexity: 0, test_code_exception: true });
    let body = describe();
    let mut closure = function("c");
    closure.is_closure = true;
    assert!(strict.check_fn(&closure, &body).is_none());
    let mut expanded = function("m");
    expanded.from_expansion = true;
    assert!(strict.check_fn(&expanded, &body).is_none());
    let mut test = function("t");
    test.in_test_code = true;
    assert!(strict.check_fn(&test, &body).is_none());
    assert!(strict.check_fn(&function("f"), &body).is_some());
}
