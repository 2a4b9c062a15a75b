//! Configuration of `import_grouping`: the style, the group order, the
//! per-group classification lists, how `#[cfg(...)]`-gated imports are
//! slotted, and the blank-line count between groups.
use vstd::prelude::*;
use crate::ordering::views;

verus! {

/// How `use` statements are partitioned into blocks.
#[derive(Debug, Clone, Copy, PartialEq, Eq, Structural)]
pub enum Style {
    /// One contiguous block, no blank lines between imports.
    SingleBlock,
    /// Ordered groups separated by exactly `blank_line_count` blank
    /// lines.
    MultiBlock,
}

/// One of the three groups a `use` statement is classified into.
#[derive(Debug, Clone, Copy, PartialEq, Eq, Structural)]
pub enum Group {
    /// `std`, `core`, `alloc` (configurable via `std_crates`).
    Std,
    /// `super`, `self`, `crate` (configurable via `internal_prefixes`).
    Internal,
    /// Every other crate.
    Thirdparty,
}

/// How a `#[cfg(...)]`-gated import is grouped.
#[derive(Debug, Clone, Copy, PartialEq, Eq, Structural)]
pub enum CfgBlockHandling {
    /// A fourth, always-last group for every cfg-gated import.
    Trailing,
    /// Slotted back into its natural group by its path.
    Merge,
}

impl Default for CfgBlockHandling {
    fn default() -> (c: Self)
        ensures
            c == CfgBlockHandling::Trailing,
    {
        CfgBlockHandling::Trailing
    }
}

pub struct Config {
    /// The grouping style; it has no default.
    pub style: Style,
    /// The order the groups appear in, top to bottom.
    pub order: Vec<Group>,
    /// Crate roots classified into the `std` group.
    pub std_crates: Vec<String>,
    /// Path prefixes classified into the `internal` group.
    pub internal_prefixes: Vec<String>,
    pub cfg_block_handling: CfgBlockHandling,
    /// Exact number of blank lines separating adjacent groups; ignored
    /// under `single_block`.
    pub blank_line_count: usize,
}

pub open spec fn std_group_names() -> Seq<Seq<char>> {
    seq!["std"@, "core"@, "alloc"@]
}

pub open spec fn internal_group_names() -> Seq<Seq<char>> {
    seq!["crate"@, "super"@, "self"@]
}

/// `std`, `internal`, `thirdparty`.
pub fn default_order() -> (r: Vec<Group>)
    ensures
        r@ == seq![Group::Std, Group::Internal, Group::Thirdparty],
{
    let r = vec![Group::Std, Group::Internal, Group::Thirdparty];
    assert(r@ =~= seq![Group::Std, Group::Internal, Group::Thirdparty]);
    r
}

fn strings3(a: &str, b: &str, c: &str) -> (r: Vec<String>)
    ensures
        views(r@) == seq![a@, b@, c@],
{
    let r = vec![a.to_owned(), b.to_owned(), c.to_owned()];
    assert(views(r@) =~= seq![a@, b@, c@]);
    r
}

/// `std`, `core`, `alloc`.
pub fn default_std_crates() -> (r: Vec<String>)
    ensures
        views(r@) == std_group_names(),
{
    strings3("std", "core", "alloc")
}

/// `crate`, `super`, `self`.
pub fn default_internal_prefixes() -> (r: Vec<String>)
    ensures
        views(r@) == internal_group_names(),
{
    strings3("crate", "super", "self")
}

/// One blank line between groups.
pub fn default_blank_line_count() -> (r: usize)
    ensures
        r == 1,
{
    1
}

/// The zero-based position of `group` in `order`, or the length of
/// `order` when it is absent.
pub open spec fn group_rank_spec(order: Seq<Group>, group: Group) -> nat {
    if exists|i: int| 0 <= i < order.len() && order[i] == group {
        (choose|i: int| 0 <= i < order.len() && order[i] == group && forall|j: int| 0 <= j < i ==> order[j] != group) as nat
    } else {
        order.len()
    }
}

impl Config {
    /// The configuration for `style` with every other field at its
    /// default.
    pub fn with_style(style: Style) -> (c: Self)
        ensures
            c.style == style,
            c.order@ == seq![Group::Std, Group::Internal, Group::Thirdparty],
            views(c.std_crates@) == std_group_names(),
            views(c.internal_prefixes@) == internal_group_names(),
            c.cfg_block_handling == CfgBlockHandling::Trailing,
            c.blank_line_count == 1,
    {
        Config {
            style,
            order: default_order(),
            std_crates: default_std_crates(),
            internal_prefixes: default_internal_prefixes(),
            cfg_block_handling: CfgBlockHandling::default(),
            blank_line_count: default_blank_line_count(),
        }
    }

    /// Rank of `group` within the configured order: its position, used
    /// to compare two statements' groups. A group absent from `order`
    /// (only possible with a partial list) sorts after every listed
    /// group but before the trailing cfg group.
    pub fn group_rank(&self, group: Group) -> (r: usize)
        ensures
            r == group_rank_spec(self.order@, group),
    {
        let mut i: usize = 0;
        while i < self.order.len()
            invariant
                i <= self.order@.len(),
                forall|j: int| 0 <= j < i ==> self.order@[j] != group,
            decreases self.order@.len() - i,
        {
            if self.order[i] == group {
                proof {
                    let c = choose|k: int| 0 <= k < self.order@.len() && self.order@[k] == group && forall|j: int| 0 <= j < k ==> self.order@[j] != group;
                    assert(0 <= i < self.order@.len() && self.order@[i as int] == group && forall|j: int| 0 <= j < i ==> self.order@[j] != group);
                    if c < i {
                    } else if c > i {
                        assert(self.order@[i as int] != group);
                    }
                }
                return i;
            }
            i = i + 1;
        }
        self.order.len()
    }

    /// Rank of the always-last cfg group under `trailing`: after every
    /// path-based group, including one absent from `order`.
    pub fn cfg_rank(&self) -> (r: usize)
        requires
            self.order@.len() < usize::MAX,
        ensures
            r == self.order@.len() + 1,
    {
        self.order.len() + 1
    }
}

} // verus!
