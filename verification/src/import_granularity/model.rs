//! The flattened form of a `use` statement: its leaves, and the facts
//! about the written tree that the compliance checks and the renderer
//! read.
use vstd::prelude::*;
use crate::ordering::views;

verus! {

/// The thing imported at a leaf of a `use` tree.
#[derive(Debug, Clone, PartialEq, Eq)]
pub enum LeafItem {
    /// A named item — the `HashMap` of `use std::collections::HashMap`.
    Named(String),
    /// A glob — the `*` of `use std::collections::*`.
    Glob,
    /// A `self` import — the `self` of `use foo::bar::{self, Bar}`.
    SelfMod,
}

/// The content of a [`LeafItem`].
pub enum ItemView {
    Named(Seq<char>),
    Glob,
    SelfMod,
}

impl View for LeafItem {
    type V = ItemView;

    open spec fn view(&self) -> ItemView {
        match self {
            LeafItem::Named(n) => ItemView::Named(n@),
            LeafItem::Glob => ItemView::Glob,
            LeafItem::SelfMod => ItemView::SelfMod,
        }
    }
}

/// One imported leaf, flattened out of a (possibly nested) `use` tree.
#[derive(Debug, Clone, PartialEq, Eq)]
pub struct Leaf {
    /// Segments of the module the item lives in: `use std::io::Read` and
    /// `use std::io::*` both give `["std", "io"]`; a bare single-segment
    /// `use serde;` gives `[]`.
    pub module: Vec<String>,
    pub item: LeafItem,
    /// The `as` rename, if any (`use a::b as c` gives `c`).
    pub rename: Option<String>,
}

/// The content of a [`Leaf`].
pub struct LeafView {
    pub module: Seq<Seq<char>>,
    pub item: ItemView,
    pub rename: Option<Seq<char>>,
}

pub open spec fn opt_view(o: Option<String>) -> Option<Seq<char>> {
    match o {
        Some(s) => Some(s@),
        None => None,
    }
}

impl View for Leaf {
    type V = LeafView;

    open spec fn view(&self) -> LeafView {
        LeafView { module: views(self.module@), item: self.item@, rename: opt_view(self.rename) }
    }
}

pub open spec fn leaf_views(s: Seq<Leaf>) -> Seq<LeafView> {
    s.map_values(|l: Leaf| l@)
}

/// A bare single-segment import such as `use serde;`: no module path,
/// nothing to split or merge, so every style leaves it standalone.
pub open spec fn crate_item(l: LeafView) -> bool {
    l.module.len() == 0 && l.item is Named
}

/// What flattening guarantees of a leaf: one without a module path is
/// always a named item (a glob or `self` needs a module to hang off).
pub open spec fn leaf_wf(l: LeafView) -> bool {
    l.module.len() == 0 ==> l.item is Named
}

#[derive(Debug, Clone, Copy, PartialEq, Eq, Structural)]
pub enum TopKind {
    Simple,
    Glob,
    Nested,
}

/// Everything one `use` statement contributes to the group analysis.
pub struct StmtInfo {
    pub leaves: Vec<Leaf>,
    pub top_kind: TopKind,
    /// Segments of the top-level tree's written prefix; empty for a
    /// top-level brace `use {a, b};`.
    pub prefix: Vec<String>,
    /// Whether the written tree is already maximally collapsed.
    pub collapsed: bool,
}

/// The content of a [`StmtInfo`].
pub struct StmtView {
    pub leaves: Seq<LeafView>,
    pub top_kind: TopKind,
    pub prefix: Seq<Seq<char>>,
    pub collapsed: bool,
}

impl View for StmtInfo {
    type V = StmtView;

    open spec fn view(&self) -> StmtView {
        StmtView {
            leaves: leaf_views(self.leaves@),
            top_kind: self.top_kind,
            prefix: views(self.prefix@),
            collapsed: self.collapsed,
        }
    }
}

/// What flattening guarantees of a statement: a plain path or a glob
/// carries exactly one leaf, and every leaf is well formed.
pub open spec fn stmt_wf(s: StmtView) -> bool {
    &&& (s.top_kind is Simple || s.top_kind is Glob) ==> s.leaves.len() == 1
    &&& forall|i: int| 0 <= i < s.leaves.len() ==> leaf_wf(#[trigger] s.leaves[i])
}

/// A statement that imports one crate item and nothing else.
pub open spec fn stmt_crate_item(s: StmtView) -> bool {
    s.leaves.len() == 1 && crate_item(s.leaves[0])
}

/// The module shared by every leaf, if there are leaves and they agree.
pub open spec fn common_module(leaves: Seq<LeafView>) -> Option<Seq<Seq<char>>> {
    if leaves.len() > 0 && forall|i: int| 0 <= i < leaves.len() ==> #[trigger] leaves[i].module
        == leaves[0].module {
        Some(leaves[0].module)
    } else {
        None
    }
}

/// `module` followed by `name`: the path a named item would have as a
/// module.
pub open spec fn deeper_path(module: Seq<Seq<char>>, name: Seq<char>) -> Seq<Seq<char>> {
    module.push(name)
}

/// Some leaf other than `index` lives in the module that `index` names,
/// or deeper.
pub open spec fn deeper_sibling(leaves: Seq<LeafView>, index: int) -> bool {
    exists|j: int|
        0 <= j < leaves.len() && j != index && leaves[index].module.is_prefix_of(
            #[trigger] leaves[j].module,
        )
}

/// The `{thing, thing::T}` pattern: a named item that shares its name
/// with a module a sibling imports from.
pub open spec fn bare_item_dual(leaves: Seq<LeafView>) -> bool {
    exists|i: int, j: int|
        0 <= i < leaves.len() && 0 <= j < leaves.len() && i != j && (#[trigger] leaves[i]).item is Named
            && deeper_path(leaves[i].module, leaves[i].item->0).is_prefix_of(
            (#[trigger] leaves[j]).module,
        )
}

/// The `thing::{self, T}` pattern: a `self` import with a sibling in
/// that module.
pub open spec fn self_dual(leaves: Seq<LeafView>) -> bool {
    exists|i: int| 0 <= i < leaves.len() && (#[trigger] leaves[i]).item is SelfMod && deeper_sibling(leaves, i)
}

/// Whether two segment lists spell the same path.
pub fn segs_eq(a: &[String], b: &[String]) -> (r: bool)
    ensures
        r == (views(a@) == views(b@)),
{
    if a.len() != b.len() {
        assert(views(a@).len() != views(b@).len());
        return false;
    }
    let mut i: usize = 0;
    while i < a.len()
        invariant
            i <= a@.len(),
            a@.len() == b@.len(),
            forall|k: int| 0 <= k < i ==> a@[k]@ == b@[k]@,
        decreases a@.len() - i,
    {
        if a[i] != b[i] {
            assert(views(a@)[i as int] != views(b@)[i as int]);
            return false;
        }
        i = i + 1;
    }
    assert(views(a@) =~= views(b@));
    true
}

/// Whether `prefix` is a leading part of `path`.
pub fn segs_starts_with(path: &[String], prefix: &[String]) -> (r: bool)
    ensures
        r == views(prefix@).is_prefix_of(views(path@)),
{
    if prefix.len() > path.len() {
        return false;
    }
    let mut i: usize = 0;
    while i < prefix.len()
        invariant
            i <= prefix@.len(),
            prefix@.len() <= path@.len(),
            forall|k: int| 0 <= k < i ==> prefix@[k]@ == path@[k]@,
        decreases prefix@.len() - i,
    {
        if prefix[i] != path[i] {
            assert(views(path@).subrange(0, prefix@.len() as int)[i as int] != views(prefix@)[i as int]);
            return false;
        }
        i = i + 1;
    }
    assert(views(path@).subrange(0, prefix@.len() as int) =~= views(prefix@));
    true
}

/// Whether `path` followed by `name` is a leading part of `module`.
pub fn segs_extended_starts(module: &[String], path: &[String], name: &String) -> (r: bool)
    ensures
        r == deeper_path(views(path@), name@).is_prefix_of(views(module@)),
{
    let n = path.len();
    if n >= module.len() {
        return false;
    }
    if !segs_starts_with(module, path) {
        proof {
            let d = deeper_path(views(path@), name@);
            if d.is_prefix_of(views(module@)) {
                assert(views(module@).subrange(0, n as int) =~= views(module@).subrange(0, n + 1).subrange(0, n as int));
                assert(d.subrange(0, n as int) =~= views(path@));
            }
        }
        return false;
    }
    let r = module[n] == *name;
    proof {
        let d = deeper_path(views(path@), name@);
        let m = views(module@);
        if r {
            assert(m.subrange(0, n + 1) =~= d);
        } else {
            assert(m.subrange(0, n + 1)[n as int] != d[n as int]);
        }
    }
    r
}

impl Leaf {
    /// A copy of the leaf.
    pub fn clone_leaf(&self) -> (r: Leaf)
        ensures
            r@ == self@,
    {
        let mut module: Vec<String> = Vec::new();
        let mut i: usize = 0;
        while i < self.module.len()
            invariant
                i <= self.module@.len(),
                views(module@) == views(self.module@.take(i as int)),
            decreases self.module@.len() - i,
        {
            let ghost before = module@;
            module.push(self.module[i].clone());
            assert(views(module@) =~= views(before).push(self.module@[i as int]@));
            assert(views(self.module@.take(i + 1)) =~= views(self.module@.take(i as int)).push(
                self.module@[i as int]@,
            ));
            i = i + 1;
        }
        assert(self.module@.take(self.module@.len() as int) =~= self.module@);
        let item = match &self.item {
            LeafItem::Named(n) => LeafItem::Named(n.clone()),
            LeafItem::Glob => LeafItem::Glob,
            LeafItem::SelfMod => LeafItem::SelfMod,
        };
        let rename = match &self.rename {
            Some(s) => Some(s.clone()),
            None => None,
        };
        Leaf { module, item, rename }
    }

    /// A bare single-segment import like `use serde;` or
    /// `use serde as alias;`.
    pub fn is_crate_item(&self) -> (r: bool)
        ensures
            r == crate_item(self@),
    {
        self.module.len() == 0 && match self.item {
            LeafItem::Named(_) => true,
            _ => false,
        }
    }
}

impl StmtInfo {
    /// Whether the statement imports a single crate item.
    pub fn is_crate_item(&self) -> (r: bool)
        ensures
            r == stmt_crate_item(self@),
    {
        self.leaves.len() == 1 && self.leaves[0].is_crate_item()
    }

    /// The module shared by every leaf, or `None` when the leaves span
    /// more than one module (or there are none).
    pub fn common_module(&self) -> (r: Option<&[String]>)
        ensures
            match r {
                Some(m) => common_module(self@.leaves) == Some(views(m@)),
                None => common_module(self@.leaves) is None,
            },
    {
        if self.leaves.len() == 0 {
            return None;
        }
        let first = &self.leaves[0].module;
        let mut i: usize = 1;
        while i < self.leaves.len()
            invariant
                1 <= i <= self.leaves@.len(),
                first == self.leaves@[0].module,
                forall|k: int| 0 <= k < i ==> (#[trigger] self@.leaves[k]).module == self@.leaves[0].module,
            decreases self.leaves@.len() - i,
        {
            if !segs_eq(self.leaves[i].module.as_slice(), first.as_slice()) {
                assert(self@.leaves[i as int].module != self@.leaves[0].module);
                return None;
            }
            i = i + 1;
        }
        Some(first.as_slice())
    }

    /// The crate root every leaf descends from: the first written
    /// segment, absent for a top-level brace.
    pub fn crate_root(&self) -> (r: Option<&str>)
        ensures
            match r {
                Some(root) => self@.prefix.len() > 0 && root@ == self@.prefix[0],
                None => self@.prefix.len() == 0,
            },
    {
        if self.prefix.len() == 0 {
            None
        } else {
            Some(self.prefix[0].as_str())
        }
    }
}

/// Whether some other leaf lives in the module named by `leaves[index]`,
/// or deeper; the leaf at `index` never counts as its own sibling.
pub fn has_deeper_sibling(leaves: &[Leaf], index: usize) -> (r: bool)
    requires
        index < leaves@.len(),
    ensures
        r == deeper_sibling(leaf_views(leaves@), index as int),
{
    let ghost lv = leaf_views(leaves@);
    let module = &leaves[index].module;
    let mut j: usize = 0;
    while j < leaves.len()
        invariant
            index < leaves@.len(),
            j <= leaves@.len(),
            lv == leaf_views(leaves@),
            module == leaves@[index as int].module,
            forall|k: int| 0 <= k < j && k != index ==> !lv[index as int].module.is_prefix_of(
                #[trigger] lv[k].module,
            ),
        decreases leaves@.len() - j,
    {
        if j != index && segs_starts_with(leaves[j].module.as_slice(), module.as_slice()) {
            assert(lv[index as int].module.is_prefix_of(lv[j as int].module));
            return true;
        }
        j = j + 1;
    }
    false
}

/// Whether `leaves` holds a bare named item that shares its name with a
/// deeper sibling — the `{thing, thing::T}` pattern. Folding it into
/// `thing::{self, T}` re-imports only the module `thing` and drops any
/// value or macro bound under that name, so it is the lossy half of the
/// `fold` rewrite.
pub fn has_bare_item_dual(leaves: &[Leaf]) -> (r: bool)
    ensures
        r == bare_item_dual(leaf_views(leaves@)),
{
    let ghost lv = leaf_views(leaves@);
    let mut i: usize = 0;
    while i < leaves.len()
        invariant
            i <= leaves@.len(),
            lv == leaf_views(leaves@),
            forall|a: int, b: int|
                0 <= a < i && 0 <= b < lv.len() && a != b && (#[trigger] lv[a]).item is Named
                    ==> !deeper_path(lv[a].module, lv[a].item->0).is_prefix_of(
                    (#[trigger] lv[b]).module,
                ),
        decreases leaves@.len() - i,
    {
        if let LeafItem::Named(name) = &leaves[i].item {
            let mut j: usize = 0;
            while j < leaves.len()
                invariant
                    i < leaves@.len(),
                    j <= leaves@.len(),
                    lv == leaf_views(leaves@),
                    leaves@[i as int].item == LeafItem::Named(*name),
                    forall|b: int|
                        0 <= b < j && b != i ==> !deeper_path(lv[i as int].module, name@).is_prefix_of(
                            (#[trigger] lv[b]).module,
                        ),
                decreases leaves@.len() - j,
            {
                if j != i && segs_extended_starts(
                    leaves[j].module.as_slice(),
                    leaves[i].module.as_slice(),
                    name,
                ) {
                    assert(lv[i as int].item->0 == name@);
                    assert(lv[i as int].item is Named);
                    assert(lv[j as int].module == views(leaves@[j as int].module@));
                    assert(deeper_path(lv[i as int].module, lv[i as int].item->0).is_prefix_of(
                        lv[j as int].module,
                    ));
                    return true;
                }
                j = j + 1;
            }
            assert(lv[i as int].item->0 == name@);
        }
        i = i + 1;
    }
    false
}

/// Whether `leaves` holds a `self` import with a deeper sibling — the
/// `thing::{self, T}` pattern. Splitting it into `{thing, thing::T}`
/// raises the module-only `self` to a bare item bound in every
/// namespace, so it is the lossy half of the `split` rewrite.
pub fn has_self_dual(leaves: &[Leaf]) -> (r: bool)
    ensures
        r == self_dual(leaf_views(leaves@)),
{
    let ghost lv = leaf_views(leaves@);
    let mut i: usize = 0;
    while i < leaves.len()
        invariant
            i <= leaves@.len(),
            lv == leaf_views(leaves@),
            forall|a: int| 0 <= a < i && (#[trigger] lv[a]).item is SelfMod ==> !deeper_sibling(lv, a),
        decreases leaves@.len() - i,
    {
        let is_self = match leaves[i].item {
            LeafItem::SelfMod => true,
            _ => false,
        };
        if is_self && has_deeper_sibling(leaves, i) {
            return true;
        }
        i = i + 1;
    }
    false
}

} // verus!
