//! Configuration of `import_grouping_mismatch`: the style, the group
//! order, how `#[cfg(...)]`-gated imports are slotted, and how `pub`
//! re-exports are grouped.
use vstd::prelude::*;
pub use crate::import_grouping::config::{group_rank_spec, CfgBlockHandling, Group, Style};

verus! {

/// How `pub` re-exports are grouped relative to the private imports.
#[derive(Debug, Clone, Copy, PartialEq, Eq, Structural)]
pub enum ReexportGrouping {
    /// No block of their own: a re-export is classified by its path,
    /// like a private import.
    ByPath,
    /// One leading block above all private imports.
    Grouped,
    /// Two leading blocks: submodule re-exports (`pub use child::Item;`)
    /// above alias re-exports (`pub use Item;`).
    Split,
}

impl Default for ReexportGrouping {
    fn default() -> (r: Self)
        ensures
            r == ReexportGrouping::Grouped,
    {
        ReexportGrouping::Grouped
    }
}

pub struct Config {
    /// The grouping style; it has no default.
    pub style: Style,
    /// The order the groups appear in, top to bottom.
    pub order: Vec<Group>,
    pub cfg_block_handling: CfgBlockHandling,
    pub reexports: ReexportGrouping,
}

/// The default group order: std, internal, third-party.
pub fn default_order() -> (r: Vec<Group>)
    ensures
        r@ == seq![Group::Std, Group::Internal, Group::Thirdparty],
{
    vec![Group::Std, Group::Internal, Group::Thirdparty]
}

/// How far the private-import ranks are shifted to make room for the
/// leading re-export blocks.
pub open spec fn offset_spec(reexports: ReexportGrouping) -> nat {
    match reexports {
        ReexportGrouping::ByPath => 0,
        ReexportGrouping::Grouped => 1,
        ReexportGrouping::Split => 2,
    }
}

/// Where `g` first occurs in `order`, given that it occurs at `w`.
pub proof fn lemma_least_position(order: Seq<Group>, g: Group, w: int)
    requires
        0 <= w < order.len() && order[w] == g,
    ensures
        exists|i: int| 0 <= i < order.len() && order[i] == g && forall|j: int| 0 <= j < i ==> order[j] != g,
    decreases w,
{
    if exists|j: int| 0 <= j < w && order[j] == g {
        let j = choose|j: int| 0 <= j < w && order[j] == g;
        lemma_least_position(order, g, j);
    }
}

impl Config {
    /// How far the private-import ranks are shifted down past the
    /// leading re-export region: none under `by_path`, one block under
    /// `grouped`, two under `split`.
    pub fn reexport_block_offset(&self) -> (r: usize)
        ensures
            r == offset_spec(self.reexports),
    {
        match self.reexports {
            ReexportGrouping::ByPath => 0,
            ReexportGrouping::Grouped => 1,
            ReexportGrouping::Split => 2,
        }
    }

    /// Whether re-exports get a leading region of their own rather than
    /// being classified by path.
    pub fn separates_reexports(&self) -> (r: bool)
        ensures
            r == !(self.reexports is ByPath),
    {
        !matches!(self.reexports, ReexportGrouping::ByPath)
    }

    /// Rank of `group` within the configured order: its position, or,
    /// for a group the order leaves out, the order's length.
    pub fn group_rank(&self, group: Group) -> (r: usize)
        ensures
            r == group_rank_spec(self.order@, group),
    {
        let mut i: usize = 0;
        while i < self.order.len()
            invariant
                i <= self.order@.len(),
                forall|j: int| 0 <= j < i ==> self.order@[j] != group,
            decreases self.order@.len() - i,
        {
            if self.order[i] == group {
                proof {
                    let c = choose|k: int|
                        0 <= k < self.order@.len() && self.order@[k] == group && forall|j: int|
                            0 <= j < k ==> self.order@[j] != group;
                    assert(0 <= i < self.order@.len() && self.order@[i as int] == group && forall|j: int|
                        0 <= j < i ==> self.order@[j] != group);
                    if c > i {
                        assert(self.order@[i as int] != group);
                    }
                }
                return i;
            }
            i = i + 1;
        }
        self.order.len()
    }

    /// Rank of the always-last cfg group: after every path group,
    /// including one the order leaves out.
    pub fn cfg_rank(&self) -> (r: usize)
        requires
            self.order@.len() < usize::MAX,
        ensures
            r == self.order@.len() + 1,
    {
        self.order.len() + 1
    }
}

} // verus!
