//! Classifying one `use` statement into a group rank, the number the
//! rest of the rule compares: a smaller rank sorts earlier. The path's
//! first segment decides the group; a `#[cfg(...)]`-gated import is
//! either slotted by that same path (`merge`) or hoisted into one
//! trailing group (`trailing`).
use vstd::prelude::*;
use crate::common::contains_string;
use crate::import_granularity::model::opt_view;
use crate::import_granularity::tree::{path_root, UseTree};
use crate::import_grouping::config::{group_rank_spec, CfgBlockHandling, Config, Group, Style};
use crate::ordering::views;
use crate::text::{chars_of, slice_eq};

verus! {

/// The first written segment of a path, passing over the segment that
/// stands for a leading `::`; `None` when there is none (a top-level
/// brace `use {a, b};`, or `use ::*;`).
pub open spec fn first_segment_spec(prefix: Seq<Seq<char>>) -> Option<Seq<char>>
    decreases prefix.len(),
{
    if prefix.len() == 0 {
        None
    } else if prefix[0] == path_root() {
        first_segment_spec(prefix.drop_first())
    } else {
        Some(prefix[0])
    }
}

/// The first written segment of `tree`'s path.
pub fn first_segment(tree: &UseTree) -> (r: Option<String>)
    ensures
        opt_view(r) == first_segment_spec(views(tree.prefix@)),
{
    let root = vec!['{', '{', 'r', 'o', 'o', 't', '}', '}'];
    assert(root@ =~= path_root());
    let ghost p = views(tree.prefix@);
    let mut i: usize = 0;
    assert(p.skip(0) =~= p);
    while i < tree.prefix.len()
        invariant
            i <= p.len(),
            p == views(tree.prefix@),
            root@ == path_root(),
            first_segment_spec(p.skip(i as int)) == first_segment_spec(p),
        decreases p.len() - i,
    {
        let seg = chars_of(tree.prefix[i].as_str());
        assert(p.skip(i as int)[0] == p[i as int]);
        if !slice_eq(seg.as_slice(), root.as_slice()) {
            return Some(tree.prefix[i].clone());
        }
        assert(p.skip(i as int).drop_first() =~= p.skip(i + 1));
        i = i + 1;
    }
    assert(p.skip(i as int).len() == 0);
    None
}

/// The group a path whose first segment is `first` falls into: the
/// configured std crates, then the internal prefixes, then everything
/// else, including a path with no first segment.
pub open spec fn path_group_spec(first: Option<Seq<char>>, config: Config) -> Group {
    match first {
        None => Group::Thirdparty,
        Some(f) => if views(config.std_crates@).contains(f) {
            Group::Std
        } else if views(config.internal_prefixes@).contains(f) {
            Group::Internal
        } else {
            Group::Thirdparty
        },
    }
}

/// The group `tree`'s path falls into.
pub fn path_group(tree: &UseTree, config: &Config) -> (g: Group)
    ensures
        g == path_group_spec(first_segment_spec(views(tree.prefix@)), *config),
{
    match first_segment(tree) {
        None => Group::Thirdparty,
        Some(f) => {
            if contains_string(&config.std_crates, &f) {
                Group::Std
            } else if contains_string(&config.internal_prefixes, &f) {
                Group::Internal
            } else {
                Group::Thirdparty
            }
        },
    }
}

/// The rank of a statement: under `single_block` every import shares
/// one block; under `multi_block` a cfg-gated import under `trailing`
/// takes the always-last cfg rank, and any other import the position of
/// its path's group in the configured order.
pub open spec fn rank_spec(group: Group, is_cfg_gated: bool, config: Config) -> nat {
    match config.style {
        Style::SingleBlock => 0,
        Style::MultiBlock => if is_cfg_gated && config.cfg_block_handling
            == CfgBlockHandling::Trailing {
            config.order@.len() + 1
        } else {
            group_rank_spec(config.order@, group)
        },
    }
}

/// The rank `tree` sorts by.
pub fn rank(tree: &UseTree, is_cfg_gated: bool, config: &Config) -> (r: usize)
    requires
        config.order@.len() < usize::MAX,
    ensures
        r == rank_spec(path_group_spec(first_segment_spec(views(tree.prefix@)), *config), is_cfg_gated, *config),
{
    match config.style {
        Style::SingleBlock => 0,
        Style::MultiBlock => {
            if is_cfg_gated && config.cfg_block_handling == CfgBlockHandling::Trailing {
                config.cfg_rank()
            } else {
                config.group_rank(path_group(tree, config))
            }
        },
    }
}

} // verus!
