//! Whether one run of adjacent `use` statements already matches the
//! configured grouping.
use vstd::prelude::*;
use crate::import_grouping::config::Style;

verus! {

/// One `use` statement of a run, as the grouping check sees it.
pub struct UseStmt {
    /// The statement's group rank: a smaller rank sorts earlier.
    pub rank: usize,
    /// The lines the statement starts and ends on.
    pub start_line: usize,
    pub end_line: usize,
    /// The statement's verbatim source text.
    pub text: String,
}

pub open spec fn gap_lines(before: UseStmt, after: UseStmt) -> int {
    if after.start_line >= before.end_line + 1 {
        after.start_line - (before.end_line + 1)
    } else {
        0
    }
}

/// Blank lines between two source-adjacent statements, never negative.
pub fn blanks_between(before: &UseStmt, after: &UseStmt) -> (r: usize)
    requires
        before.end_line < usize::MAX,
    ensures
        r == gap_lines(*before, *after),
{
    after.start_line.saturating_sub(before.end_line + 1)
}

/// Whether a statement of rank `ra` followed, `gap` blank lines later,
/// by one of rank `rb` is in place: under `single_block` no blank line
/// between them; under `multi_block` ranks non-decreasing, no blank line
/// within a rank, exactly `blank_line_count` across a step up.
pub open spec fn ranks_fit(style: Style, blank_line_count: usize, ra: usize, rb: usize, gap: int) -> bool {
    match style {
        Style::SingleBlock => gap == 0,
        Style::MultiBlock => if ra == rb {
            gap == 0
        } else if ra < rb {
            gap == blank_line_count
        } else {
            false
        },
    }
}

/// Whether the source-adjacent pair `a`, `b` is in place.
pub open spec fn pair_ok(style: Style, blank_line_count: usize, a: UseStmt, b: UseStmt) -> bool {
    ranks_fit(style, blank_line_count, a.rank, b.rank, gap_lines(a, b))
}

/// Whether `stmts` (in source order) already matches `style`.
pub fn is_compliant(style: Style, blank_line_count: usize, stmts: &[UseStmt]) -> (r: bool)
    requires
        forall|i: int| 0 <= i < stmts@.len() ==> (#[trigger] stmts@[i]).end_line < usize::MAX,
    ensures
        r == forall|i: int| 0 < i < stmts@.len() ==> pair_ok(style, blank_line_count, stmts@[i - 1], #[trigger] stmts@[i]),
{
    let mut i: usize = 1;
    while i < stmts.len()
        invariant
            1 <= i,
            forall|j: int| 0 <= j < stmts@.len() ==> (#[trigger] stmts@[j]).end_line < usize::MAX,
            forall|j: int| 0 < j < i && j < stmts@.len() ==> pair_ok(style, blank_line_count, stmts@[j - 1], #[trigger] stmts@[j]),
        decreases stmts@.len() - i,
    {
        let blanks = blanks_between(&stmts[i - 1], &stmts[i]);
        let (a, b) = (stmts[i - 1].rank, stmts[i].rank);
        let ok = match style {
            Style::SingleBlock => blanks == 0,
            Style::MultiBlock => if a == b {
                blanks == 0
            } else if a < b {
                blanks == blank_line_count
            } else {
                false
            },
        };
        if !ok {
            assert(!pair_ok(style, blank_line_count, stmts@[i - 1], stmts@[i as int]));
            return false;
        }
        i = i + 1;
    }
    true
}

} // verus!
