//! Per-style compliance: given the flattened statements of one run of
//! mergeable `use` statements, is the run already in the configured
//! shape? A `false` answer is what makes the rule render a rewrite.
use vstd::prelude::*;
use crate::import_granularity::config::{SelfMerge, Style};
use crate::import_granularity::model::{
    bare_item_dual, common_module, has_bare_item_dual, has_self_dual, segs_eq, self_dual,
    stmt_crate_item, stmt_wf, LeafItem, StmtInfo, StmtView, TopKind,
};

verus! {

pub open spec fn stmt_views(s: Seq<&StmtInfo>) -> Seq<StmtView> {
    s.map_values(|x: &StmtInfo| x@)
}

/// `item` style: a plain path or a glob; a brace only around a single
/// `self`, which cannot be written without one.
pub open spec fn item_shaped(s: StmtView) -> bool {
    match s.top_kind {
        TopKind::Simple | TopKind::Glob => true,
        TopKind::Nested => s.leaves.len() == 1 && s.leaves[0].item is SelfMod,
    }
}

/// `module` style, one statement: a plain path or glob, or a brace whose
/// leaves all live in exactly the written prefix.
pub open spec fn module_shaped(s: StmtView) -> bool {
    match s.top_kind {
        TopKind::Simple | TopKind::Glob => true,
        TopKind::Nested => s.prefix.len() > 0 && common_module(s.leaves) == Some(s.prefix),
    }
}

/// `module` style, the whole run: every statement module-shaped, and no
/// module split across two statements (crate items aside).
pub open spec fn module_compliant_spec(ss: Seq<StmtView>) -> bool {
    &&& forall|i: int| 0 <= i < ss.len() ==> module_shaped(#[trigger] ss[i])
    &&& forall|i: int, j: int|
        0 <= i < j < ss.len() && !stmt_crate_item(#[trigger] ss[i]) && !stmt_crate_item(
            #[trigger] ss[j],
        ) ==> common_module(ss[i].leaves) != common_module(ss[j].leaves)
}

/// Whether the run holds the single-statement shape that `self_merge`
/// rules out.
pub open spec fn off_shape(self_merge: Option<SelfMerge>, ss: Seq<StmtView>) -> bool {
    match self_merge {
        Some(SelfMerge::Fold) => exists|i: int| 0 <= i < ss.len() && bare_item_dual(#[trigger] ss[i].leaves),
        Some(SelfMerge::Split) => exists|i: int| 0 <= i < ss.len() && self_dual(#[trigger] ss[i].leaves),
        None => false,
    }
}

/// `root` is imported somewhere in the run as a bare crate item.
pub open spec fn bare_root(ss: Seq<StmtView>, root: Seq<char>) -> bool {
    exists|k: int|
        0 <= k < ss.len() && stmt_crate_item(#[trigger] ss[k]) && ss[k].prefix.len() > 0
            && ss[k].prefix[0] == root
}

/// `crate` style: no statement in the shape `self_merge` rules out,
/// every statement collapsed and under a single root, and no root shared
/// by two statements unless it is also imported as a bare crate item.
pub open spec fn crate_compliant_spec(self_merge: Option<SelfMerge>, ss: Seq<StmtView>) -> bool {
    &&& !off_shape(self_merge, ss)
    &&& forall|i: int| 0 <= i < ss.len() ==> (#[trigger] ss[i]).collapsed
    &&& forall|i: int| 0 <= i < ss.len() ==> (#[trigger] ss[i]).prefix.len() > 0
    &&& forall|i: int, j: int|
        0 <= i < j < ss.len() && (#[trigger] ss[i]).prefix[0] == (#[trigger] ss[j]).prefix[0]
            ==> bare_root(ss, ss[i].prefix[0])
}

pub open spec fn compliant(style: Style, self_merge: Option<SelfMerge>, ss: Seq<StmtView>) -> bool {
    match style {
        Style::Item => forall|i: int| 0 <= i < ss.len() ==> item_shaped(#[trigger] ss[i]),
        Style::Module => module_compliant_spec(ss),
        Style::Crate => crate_compliant_spec(self_merge, ss),
    }
}

/// Whether a run of statements is already in the shape `style` asks
/// for. Under `module` style the statements must be as flattening makes
/// them (a plain path or glob carries one leaf).
pub fn is_compliant(style: Style, self_merge: Option<SelfMerge>, stmts: &[&StmtInfo]) -> (r: bool)
    requires
        style == Style::Module ==> forall|i: int| 0 <= i < stmts@.len() ==> stmt_wf(#[trigger] stmts@[i]@),
    ensures
        r == compliant(style, self_merge, stmt_views(stmts@)),
{
    match style {
        Style::Item => {
            let mut i: usize = 0;
            while i < stmts.len()
                invariant
                    style == Style::Item,
                    i <= stmts@.len(),
                    forall|k: int| 0 <= k < i ==> item_shaped(#[trigger] stmt_views(stmts@)[k]),
                decreases stmts@.len() - i,
            {
                if !is_item_shaped(stmts[i]) {
                    assert(stmt_views(stmts@)[i as int] == stmts@[i as int]@);
                    assert(!item_shaped(stmt_views(stmts@)[i as int]));
                    return false;
                }
                i = i + 1;
            }
            true
        },
        Style::Module => module_compliant(stmts),
        Style::Crate => crate_compliant(self_merge, stmts),
    }
}

/// `item` style for one statement.
pub fn is_item_shaped(stmt: &StmtInfo) -> (r: bool)
    ensures
        r == item_shaped(stmt@),
{
    match stmt.top_kind {
        TopKind::Simple | TopKind::Glob => true,
        TopKind::Nested => stmt.leaves.len() == 1 && match stmt.leaves[0].item {
            LeafItem::SelfMod => true,
            _ => false,
        },
    }
}

/// `module` style for one statement. A top-level brace (`use {a, b};`,
/// empty prefix) groups distinct crate roots that module style keeps on
/// separate lines, so it is never shaped.
pub fn is_module_shaped(stmt: &StmtInfo) -> (r: bool)
    ensures
        r == module_shaped(stmt@),
{
    match stmt.top_kind {
        TopKind::Simple | TopKind::Glob => true,
        TopKind::Nested => {
            if stmt.prefix.len() == 0 {
                return false;
            }
            match stmt.common_module() {
                Some(module) => segs_eq(module, stmt.prefix.as_slice()),
                None => false,
            }
        },
    }
}

/// `module` style for a run. Crate items all share the empty module but
/// are never merged, so they take no part in the duplicate check.
pub fn module_compliant(stmts: &[&StmtInfo]) -> (r: bool)
    requires
        forall|i: int| 0 <= i < stmts@.len() ==> stmt_wf(#[trigger] stmts@[i]@),
    ensures
        r == module_compliant_spec(stmt_views(stmts@)),
{
    let ghost ss = stmt_views(stmts@);
    let mut i: usize = 0;
    while i < stmts.len()
        invariant
            i <= stmts@.len(),
            ss == stmt_views(stmts@),
            forall|k: int| 0 <= k < i ==> module_shaped(#[trigger] ss[k]),
        decreases stmts@.len() - i,
    {
        if !is_module_shaped(stmts[i]) {
            assert(ss[i as int] == stmts@[i as int]@);
            assert(!module_shaped(ss[i as int]));
            return false;
        }
        i = i + 1;
    }
    let mut i: usize = 0;
    while i < stmts.len()
        invariant
            i <= stmts@.len(),
            ss == stmt_views(stmts@),
            forall|k: int| 0 <= k < ss.len() ==> module_shaped(#[trigger] ss[k]),
            forall|k: int| 0 <= k < ss.len() ==> stmt_wf(#[trigger] ss[k]),
            forall|a: int, b: int|
                0 <= a < b < i && !stmt_crate_item(#[trigger] ss[a]) && !stmt_crate_item(
                    #[trigger] ss[b],
                ) ==> common_module(ss[a].leaves) != common_module(ss[b].leaves),
        decreases stmts@.len() - i,
    {
        if !stmts[i].is_crate_item() {
            assert(module_shaped(ss[i as int]) && stmt_wf(ss[i as int]));
            let module = match stmts[i].common_module() {
                Some(m) => m,
                None => {
                    assert(ss[i as int].leaves.len() == 1);
                    assert(false);
                    return false;
                },
            };
            let mut j: usize = 0;
            while j < i
                invariant
                    i < stmts@.len(),
                    j <= i,
                    ss == stmt_views(stmts@),
                    common_module(ss[i as int].leaves) == Some(views_of(module)),
                    forall|k: int| 0 <= k < ss.len() ==> module_shaped(#[trigger] ss[k]),
                    forall|k: int| 0 <= k < ss.len() ==> stmt_wf(#[trigger] ss[k]),
                    forall|a: int|
                        0 <= a < j && !stmt_crate_item(#[trigger] ss[a]) ==> common_module(
                            ss[a].leaves,
                        ) != common_module(ss[i as int].leaves),
                decreases i - j,
            {
                if !stmts[j].is_crate_item() {
                    assert(module_shaped(ss[j as int]) && stmt_wf(ss[j as int]));
                    match stmts[j].common_module() {
                        Some(other) => {
                            if segs_eq(other, module) {
                                return false;
                            }
                        },
                        None => {
                            assert(ss[j as int].leaves.len() == 1);
                            assert(false);
                        },
                    }
                }
                j = j + 1;
            }
        }
        i = i + 1;
    }
    true
}

pub open spec fn views_of(m: &[String]) -> Seq<Seq<char>> {
    crate::ordering::views(m@)
}

/// Whether some statement of the run imports the crate item `root`.
fn is_bare_root(stmts: &[&StmtInfo], root: &String) -> (r: bool)
    ensures
        r == bare_root(stmt_views(stmts@), root@),
{
    let ghost ss = stmt_views(stmts@);
    let mut k: usize = 0;
    while k < stmts.len()
        invariant
            k <= stmts@.len(),
            ss == stmt_views(stmts@),
            forall|a: int|
                0 <= a < k ==> !(stmt_crate_item(#[trigger] ss[a]) && ss[a].prefix.len() > 0
                    && ss[a].prefix[0] == root@),
        decreases stmts@.len() - k,
    {
        if stmts[k].is_crate_item() && stmts[k].prefix.len() > 0 && stmts[k].prefix[0] == *root {
            assert(ss[k as int].prefix[0] == root@);
            return true;
        }
        k = k + 1;
    }
    false
}

/// `crate` style for a run.
///
/// With `self_merge` set, the project has picked one shape for a name
/// that is both an item and a module, so the opposite single-statement
/// form is not compliant. A root imported as a bare crate item
/// (`use foo;`) cannot be folded with deeper imports from the same root
/// without a `self` that would drop the item, so such a root may stay
/// split across statements.
pub fn crate_compliant(self_merge: Option<SelfMerge>, stmts: &[&StmtInfo]) -> (r: bool)
    ensures
        r == crate_compliant_spec(self_merge, stmt_views(stmts@)),
{
    let ghost ss = stmt_views(stmts@);
    let mut i: usize = 0;
    while i < stmts.len()
        invariant
            i <= stmts@.len(),
            ss == stmt_views(stmts@),
            forall|k: int|
                0 <= k < i ==> match self_merge {
                    Some(SelfMerge::Fold) => !bare_item_dual(#[trigger] ss[k].leaves),
                    Some(SelfMerge::Split) => !self_dual(ss[k].leaves),
                    None => true,
                },
        decreases stmts@.len() - i,
    {
        let off = match self_merge {
            Some(SelfMerge::Fold) => has_bare_item_dual(stmts[i].leaves.as_slice()),
            Some(SelfMerge::Split) => has_self_dual(stmts[i].leaves.as_slice()),
            None => false,
        };
        if off {
            assert(off_shape(self_merge, ss) == (exists|k: int| 0 <= k < ss.len() && match self_merge {
                Some(SelfMerge::Fold) => bare_item_dual(#[trigger] ss[k].leaves),
                Some(SelfMerge::Split) => self_dual(ss[k].leaves),
                None => false,
            }));
            assert(ss[i as int].leaves == crate::import_granularity::model::leaf_views(
                stmts@[i as int].leaves@,
            ));
            return false;
        }
        i = i + 1;
    }
    let mut i: usize = 0;
    while i < stmts.len()
        invariant
            i <= stmts@.len(),
            ss == stmt_views(stmts@),
            forall|k: int| 0 <= k < i ==> (#[trigger] ss[k]).collapsed,
        decreases stmts@.len() - i,
    {
        if !stmts[i].collapsed {
            assert(ss[i as int] == stmts@[i as int]@);
            assert(!ss[i as int].collapsed);
            return false;
        }
        i = i + 1;
    }
    let mut i: usize = 0;
    while i < stmts.len()
        invariant
            i <= stmts@.len(),
            ss == stmt_views(stmts@),
            forall|k: int| 0 <= k < i ==> (#[trigger] ss[k]).prefix.len() > 0,
            forall|a: int, b: int|
                0 <= a < b < i && (#[trigger] ss[a]).prefix[0] == (#[trigger] ss[b]).prefix[0]
                    ==> bare_root(ss, ss[a].prefix[0]),
        decreases stmts@.len() - i,
    {
        if stmts[i].crate_root().is_none() {
            return false;
        }
        let root = &stmts[i].prefix[0];
        if !is_bare_root(stmts, root) {
            let mut j: usize = 0;
            while j < i
                invariant
                    i < stmts@.len(),
                    j <= i,
                    ss == stmt_views(stmts@),
                    ss[i as int].prefix.len() > 0,
                    root@ == ss[i as int].prefix[0],
                    !bare_root(ss, root@),
                    forall|k: int| 0 <= k < i ==> (#[trigger] ss[k]).prefix.len() > 0,
                    forall|a: int| 0 <= a < j ==> (#[trigger] ss[a]).prefix[0] != root@,
                decreases i - j,
            {
                if stmts[j].prefix[0] == *root {
                    assert(ss[j as int].prefix[0] == ss[i as int].prefix[0]);
                    return false;
                }
                j = j + 1;
            }
        }
        i = i + 1;
    }
    true
}

} // verus!
