//! Re-rendering one run of `use` statements into its canonical shape:
//! stable-partitioned by rank, with one blank line across each step up
//! in rank and none within a rank.
use vstd::prelude::*;
use crate::import_grouping::check::UseStmt;
use crate::import_grouping::config::Style;
use crate::import_grouping::render::{layout_order, layout_text};

verus! {

/// The replacement text for the whole run. `pad` is the run's
/// indentation, put on every line after the first. Each statement's
/// text is kept verbatim; statements of one rank keep their order.
pub fn replacement(pad: &str, stmts: &[UseStmt]) -> (r: String)
    ensures
        exists|ord: Seq<usize>|
            layout_order(Style::MultiBlock, stmts@, ord) && r@ == layout_text(
                Style::MultiBlock,
                1,
                pad@,
                stmts@,
                ord,
                stmts@.len() as int,
            ),
{
    crate::import_grouping::render::replacement(Style::MultiBlock, 1, pad, stmts)
}

} // verus!
