//! Classifying one `use` statement into a group rank: a smaller rank
//! sorts earlier. A re-export may take a leading rank of its own; any
//! other import is ranked by style, by its path's first segment and by
//! its `#[cfg(...)]` gating, below the re-export region.
use vstd::prelude::*;
use crate::import_granularity::tree::{path_root, UseTree, UseTreeKind};
use crate::import_grouping::classify::{first_segment, first_segment_spec};
use crate::import_grouping_mismatch::config::{
    group_rank_spec, offset_spec, CfgBlockHandling, Config, Group, ReexportGrouping, Style,
};
use crate::ordering::views;
use crate::text::{chars_of, slice_eq};

verus! {

/// The first segments that mark a `std` path.
pub open spec fn std_roots() -> Seq<Seq<char>> {
    seq!["std"@, "core"@, "alloc"@, "proc_macro"@, "test"@]
}

/// The first segments that mark an internal path.
pub open spec fn internal_roots() -> Seq<Seq<char>> {
    seq!["crate"@, "super"@, "self"@]
}

/// The group a path whose first segment is `first` falls into: the
/// built-in std names, then the built-in internal names, then the
/// sibling modules `local_modules`, then everything else, including a
/// path with no first segment.
pub open spec fn path_group_spec(first: Option<Seq<char>>, local_modules: Seq<Seq<char>>) -> Group {
    match first {
        None => Group::Thirdparty,
        Some(f) => if std_roots().contains(f) {
            Group::Std
        } else if internal_roots().contains(f) || local_modules.contains(f) {
            Group::Internal
        } else {
            Group::Thirdparty
        },
    }
}

/// Whether `name` is one of `names`.
fn listed(names: &[&str], name: &String) -> (r: bool)
    ensures
        r == names@.map_values(|s: &str| s@).contains(name@),
{
    let ghost vs = names@.map_values(|s: &str| s@);
    let target = chars_of(name.as_str());
    let mut k: usize = 0;
    while k < names.len()
        invariant
            k <= names@.len(),
            vs == names@.map_values(|s: &str| s@),
            target@ == name@,
            forall|j: int| 0 <= j < k ==> vs[j] != name@,
        decreases names@.len() - k,
    {
        let candidate = chars_of(names[k]);
        if slice_eq(candidate.as_slice(), target.as_slice()) {
            assert(vs[k as int] == name@);
            return true;
        }
        k = k + 1;
    }
    assert forall|j: int| 0 <= j < vs.len() implies vs[j] != name@ by {}
    false
}

/// Whether `list` holds `name`.
fn holds(list: &[String], name: &String) -> (r: bool)
    ensures
        r == views(list@).contains(name@),
{
    let target = chars_of(name.as_str());
    let mut k: usize = 0;
    while k < list.len()
        invariant
            k <= list@.len(),
            target@ == name@,
            forall|j: int| 0 <= j < k ==> list@[j]@ != name@,
        decreases list@.len() - k,
    {
        let candidate = chars_of(list[k].as_str());
        if slice_eq(candidate.as_slice(), target.as_slice()) {
            assert(views(list@)[k as int] == name@);
            return true;
        }
        k = k + 1;
    }
    assert forall|j: int| 0 <= j < views(list@).len() implies views(list@)[j] != name@ by {
        assert(views(list@)[j] == list@[j]@);
    }
    false
}

/// The group `tree`'s path falls into, `local_modules` being the names
/// of the `mod` items declared beside the statement: a bare path into
/// one of them imports a first-party submodule.
pub fn path_group(tree: &UseTree, local_modules: &[String]) -> (g: Group)
    ensures
        g == path_group_spec(first_segment_spec(views(tree.prefix@)), views(local_modules@)),
{
    match first_segment(tree) {
        None => Group::Thirdparty,
        Some(first) => {
            let std_names = ["std", "core", "alloc", "proc_macro", "test"];
            let internal_names = ["crate", "super", "self"];
            proof {
                reveal_strlit("std");
                reveal_strlit("core");
                reveal_strlit("alloc");
                reveal_strlit("proc_macro");
                reveal_strlit("test");
                reveal_strlit("crate");
                reveal_strlit("super");
                reveal_strlit("self");
                assert(std_names@.map_values(|s: &str| s@) =~= std_roots());
                assert(internal_names@.map_values(|s: &str| s@) =~= internal_roots());
            }
            if listed(&std_names, &first) {
                Group::Std
            } else if listed(&internal_names, &first) || holds(local_modules, &first) {
                Group::Internal
            } else {
                Group::Thirdparty
            }
        },
    }
}

/// The written segments of a path that are not the leading `::`.
pub open spec fn named_segments(prefix: Seq<Seq<char>>) -> nat
    decreases prefix.len(),
{
    if prefix.len() == 0 {
        0
    } else {
        named_segments(prefix.drop_last()) + if prefix.last() == path_root() {
            0nat
        } else {
            1nat
        }
    }
}

/// An alias re-export (`pub use Item;`, `pub use Item as Alias;`) only
/// renames an item in scope: a plain path of one written segment. Any
/// path with a `::`, a glob or a brace re-exports out of a submodule.
pub open spec fn alias_spec(tree: UseTree) -> bool {
    tree.kind is Simple && named_segments(views(tree.prefix@)) == 1
}

/// Whether `tree` is an alias re-export rather than a submodule one.
pub fn is_alias_reexport(tree: &UseTree) -> (r: bool)
    ensures
        r == alias_spec(*tree),
{
    let simple = match tree.kind {
        UseTreeKind::Simple(_) => true,
        _ => false,
    };
    if !simple {
        return false;
    }
    let root = vec!['{', '{', 'r', 'o', 'o', 't', '}', '}'];
    assert(root@ =~= path_root());
    let ghost p = views(tree.prefix@);
    let mut count: usize = 0;
    let mut i: usize = 0;
    while i < tree.prefix.len()
        invariant
            i <= p.len(),
            p == views(tree.prefix@),
            root@ == path_root(),
            count == named_segments(p.take(i as int)),
            count <= i,
        decreases p.len() - i,
    {
        let seg = chars_of(tree.prefix[i].as_str());
        assert(p.take(i + 1).drop_last() =~= p.take(i as int));
        assert(p.take(i + 1).last() == p[i as int]);
        if !slice_eq(seg.as_slice(), root.as_slice()) {
            count = count + 1;
        }
        i = i + 1;
    }
    assert(p.take(i as int) =~= p);
    count == 1
}

/// A group's rank is at most the length of the order.
proof fn lemma_group_rank_bound(order: Seq<Group>, g: Group)
    ensures
        group_rank_spec(order, g) <= order.len(),
{
    if exists|i: int| 0 <= i < order.len() && order[i] == g {
        let w = choose|i: int| 0 <= i < order.len() && order[i] == g;
        crate::import_grouping_mismatch::config::lemma_least_position(order, g, w);
    }
}

/// The rank a statement sorts by.
///
/// - A re-export takes rank `0` under `grouped`; under `split`, rank `0`
///   as a submodule re-export and `1` as an alias one.
/// - Any other statement (and any re-export under `by_path`) takes its
///   style's rank, shifted down past the re-export region: under
///   `single_block` `0`, or `1` for a cfg-gated import under `trailing`;
///   under `multi_block` the cfg rank for such an import, else the
///   position of its path's group in the configured order.
pub open spec fn rank_spec(
    group: Group,
    alias: bool,
    is_reexport: bool,
    is_cfg_gated: bool,
    config: Config,
) -> nat {
    let cfg_trailing = is_cfg_gated && config.cfg_block_handling == CfgBlockHandling::Trailing;
    if is_reexport && config.reexports is Grouped {
        0
    } else if is_reexport && config.reexports is Split {
        if alias {
            1
        } else {
            0
        }
    } else {
        let base: nat = match config.style {
            Style::SingleBlock => if cfg_trailing {
                1
            } else {
                0
            },
            Style::MultiBlock => if cfg_trailing {
                config.order@.len() + 1
            } else {
                group_rank_spec(config.order@, group)
            },
        };
        base + offset_spec(config.reexports)
    }
}

/// The rank `tree` sorts by; `local_modules` names the `mod` items
/// declared beside the statement.
pub fn rank(tree: &UseTree, is_reexport: bool, is_cfg_gated: bool, config: &Config, local_modules: &[String]) -> (r: usize)
    requires
        config.order@.len() + 3 <= usize::MAX,
    ensures
        r == rank_spec(
            path_group_spec(first_segment_spec(views(tree.prefix@)), views(local_modules@)),
            alias_spec(*tree),
            is_reexport,
            is_cfg_gated,
            *config,
        ),
{
    if is_reexport {
        match config.reexports {
            ReexportGrouping::ByPath => {},
            ReexportGrouping::Grouped => {
                return 0;
            },
            ReexportGrouping::Split => {
                return if is_alias_reexport(tree) {
                    1
                } else {
                    0
                };
            },
        }
    }
    let cfg_trailing = is_cfg_gated && config.cfg_block_handling == CfgBlockHandling::Trailing;
    let base = match config.style {
        Style::SingleBlock => if cfg_trailing {
            1
        } else {
            0
        },
        Style::MultiBlock => if cfg_trailing {
            config.cfg_rank()
        } else {
            let r = config.group_rank(path_group(tree, local_modules));
            proof {
                lemma_group_rank_bound(config.order@, path_group_spec(first_segment_spec(views(tree.prefix@)), views(local_modules@)));
            }
            r
        },
    };
    base + config.reexport_block_offset()
}

/// Law: while re-exports are separated (`grouped` or `split`), every
/// re-export ranks before every private import, whatever the style, the
/// paths and the cfg gating — so a run mixing the two carries a blank
/// line between them, even under `single_block`.
pub proof fn lemma_reexports_rank_first(
    config: Config,
    group: Group,
    alias: bool,
    is_cfg_gated: bool,
    other_group: Group,
    other_alias: bool,
    other_cfg_gated: bool,
)
    requires
        !(config.reexports is ByPath),
    ensures
        rank_spec(group, alias, true, is_cfg_gated, config) < rank_spec(other_group, other_alias, false, other_cfg_gated, config),
{
}

/// Law: under `single_block`, every private import that is not hoisted
/// into the trailing cfg block shares one rank, so the check admits no
/// blank line between any two of them.
pub proof fn lemma_single_block_one_rank(
    config: Config,
    group: Group,
    alias: bool,
    is_cfg_gated: bool,
    other_group: Group,
    other_alias: bool,
    other_cfg_gated: bool,
)
    requires
        config.style is SingleBlock,
        !(is_cfg_gated && config.cfg_block_handling is Trailing),
        !(other_cfg_gated && config.cfg_block_handling is Trailing),
    ensures
        rank_spec(group, alias, false, is_cfg_gated, config) == rank_spec(other_group, other_alias, false, other_cfg_gated, config),
{
}

} // verus!
