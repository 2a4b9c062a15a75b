//! The written shape of a `use` tree, and what the rule reads off it:
//! the flattened leaves, the top-level kind and prefix, and whether the
//! tree is already maximally collapsed.
use vstd::prelude::*;
use crate::import_granularity::model::{
    leaf_views, leaf_wf, opt_view, stmt_wf, ItemView, Leaf, LeafItem, LeafView, StmtInfo,
    StmtView, TopKind,
};
use crate::ordering::views;
use crate::text::{chars_of, slice_eq};

verus! {

/// What follows the written path of a `use` tree.
pub enum UseTreeKind {
    /// A plain path, with its `as` rename if any.
    Simple(Option<String>),
    /// `path::*`.
    Glob,
    /// `path::{...}`.
    Nested(Vec<UseTree>),
}

/// A `use` tree as written: the path segments before the kind, then the
/// kind. A leading `::` shows as the segment `{{root}}`.
pub struct UseTree {
    pub prefix: Vec<String>,
    pub kind: UseTreeKind,
}

/// The segment that stands for a leading `::`.
pub open spec fn path_root() -> Seq<char> {
    seq!['{', '{', 'r', 'o', 'o', 't', '}', '}']
}

pub open spec fn self_word() -> Seq<char> {
    seq!['s', 'e', 'l', 'f']
}

pub open spec fn has_root(p: Seq<Seq<char>>) -> bool {
    exists|k: int| 0 <= k < p.len() && p[k] == path_root()
}

/// The leaves of `t` written under the module path `prefix`, or `None`
/// when the tree holds something the rule declines to rewrite: a leading
/// `::`, a `self` with no module before it, or a glob with no module
/// path.
pub open spec fn flat(t: UseTree, prefix: Seq<Seq<char>>) -> Option<Seq<LeafView>>
    decreases t,
{
    let combined = prefix + views(t.prefix@);
    if has_root(views(t.prefix@)) {
        None
    } else {
        match t.kind {
            UseTreeKind::Simple(rename) => if combined.len() == 0 {
                None
            } else if combined.last() == self_word() {
                if combined.len() == 1 {
                    None
                } else {
                    Some(
                        seq![
                            LeafView {
                                module: combined.drop_last(),
                                item: ItemView::SelfMod,
                                rename: opt_view(rename),
                            },
                        ],
                    )
                }
            } else {
                Some(
                    seq![
                        LeafView {
                            module: combined.drop_last(),
                            item: ItemView::Named(combined.last()),
                            rename: opt_view(rename),
                        },
                    ],
                )
            },
            UseTreeKind::Glob => if combined.len() == 0 {
                None
            } else {
                Some(seq![LeafView { module: combined, item: ItemView::Glob, rename: None }])
            },
            UseTreeKind::Nested(items) => flat_items(items@, combined),
        }
    }
}

/// The leaves of each tree of `items` in turn, or `None` when any of
/// them declines.
pub open spec fn flat_items(items: Seq<UseTree>, prefix: Seq<Seq<char>>) -> Option<
    Seq<LeafView>,
>
    decreases items,
{
    if items.len() == 0 {
        Some(Seq::empty())
    } else {
        match flat_items(items.drop_last(), prefix) {
            None => None,
            Some(a) => match flat(items.last(), prefix) {
                None => None,
                Some(b) => Some(a + b),
            },
        }
    }
}

pub open spec fn first_seg(t: UseTree) -> Option<Seq<char>> {
    if t.prefix@.len() > 0 {
        Some(t.prefix@[0]@)
    } else {
        None
    }
}

/// A brace entry with structure past its leading segment: a
/// multi-segment path, a nested group, or a glob.
pub open spec fn continues_spec(t: UseTree) -> bool {
    t.prefix@.len() > 1 || !(t.kind is Simple)
}

/// A lone `self` entry.
pub open spec fn lone_self(t: UseTree) -> bool {
    t.kind is Simple && t.prefix@.len() == 1 && t.prefix@[0]@ == self_word()
}

/// How many entries of `items` start with `seg` and continue past it.
pub open spec fn count_continuing(items: Seq<UseTree>, seg: Seq<char>) -> nat
    decreases items.len(),
{
    if items.len() == 0 {
        0
    } else {
        count_continuing(items.drop_last(), seg) + if first_seg(items.last()) == Some(seg)
            && continues_spec(items.last()) {
            1nat
        } else {
            0nat
        }
    }
}

/// Some entry of `items` is exactly the bare segment `seg`.
pub open spec fn bare_terminal(items: Seq<UseTree>, seg: Seq<char>) -> bool {
    exists|k: int|
        0 <= k < items.len() && first_seg(#[trigger] items[k]) == Some(seg) && !continues_spec(
            items[k],
        )
}

/// Entries starting with `seg` fold into `seg::{...}` with no
/// synthesised `self`: two or more of them, all continuing past it.
pub open spec fn mergeable(items: Seq<UseTree>, seg: Seq<char>) -> bool {
    count_continuing(items, seg) >= 2 && !bare_terminal(items, seg)
}

/// No brace level holds two entries that fold together without a
/// synthesised `self`, and no brace wraps a single entry other than a
/// lone `self`.
pub open spec fn collapsed(t: UseTree) -> bool
    decreases t,
{
    match t.kind {
        UseTreeKind::Nested(items) => if items@.len() == 1 {
            lone_self(items@[0]) && collapsed(items@[0])
        } else {
            &&& forall|k: int|
                0 <= k < items@.len() && (#[trigger] first_seg(items@[k])) is Some ==> !mergeable(
                    items@,
                    first_seg(items@[k])->0,
                )
            &&& all_collapsed(items@)
        },
        _ => true,
    }
}

pub open spec fn all_collapsed(items: Seq<UseTree>) -> bool
    decreases items,
{
    if items.len() == 0 {
        true
    } else {
        all_collapsed(items.drop_last()) && collapsed(items.last())
    }
}

/// What one `use` statement contributes, or `None` when it holds
/// something the rule declines to rewrite.
pub open spec fn stmt_info_spec(t: UseTree) -> Option<StmtView> {
    match flat(t, Seq::empty()) {
        None => None,
        Some(leaves) => Some(
            StmtView {
                leaves,
                top_kind: match t.kind {
                    UseTreeKind::Simple(_) => TopKind::Simple,
                    UseTreeKind::Glob => TopKind::Glob,
                    UseTreeKind::Nested(_) => TopKind::Nested,
                },
                prefix: views(t.prefix@),
                collapsed: collapsed(t),
            },
        ),
    }
}

/// Every leaf flattening yields is well formed.
pub proof fn lemma_flat_wf(t: UseTree, prefix: Seq<Seq<char>>)
    ensures
        flat(t, prefix) matches Some(ls) ==> forall|i: int| 0 <= i < ls.len() ==> leaf_wf(#[trigger] ls[i]),
    decreases t,
{
    if let UseTreeKind::Nested(items) = t.kind {
        lemma_flat_items_wf(items@, prefix + views(t.prefix@));
    }
}

pub proof fn lemma_flat_items_wf(items: Seq<UseTree>, prefix: Seq<Seq<char>>)
    ensures
        flat_items(items, prefix) matches Some(ls) ==> forall|i: int| 0 <= i < ls.len() ==> leaf_wf(#[trigger] ls[i]),
    decreases items,
{
    if items.len() > 0 {
        lemma_flat_items_wf(items.drop_last(), prefix);
        lemma_flat_wf(items.last(), prefix);
        if let Some(ls) = flat_items(items, prefix) {
            let a = flat_items(items.drop_last(), prefix)->0;
            let b = flat(items.last(), prefix)->0;
            assert forall|i: int| 0 <= i < ls.len() implies leaf_wf(#[trigger] ls[i]) by {
                if i < a.len() {
                    assert(ls[i] == a[i]);
                } else {
                    assert(ls[i] == b[i - a.len()]);
                }
            }
        }
    }
}

/// A statement's information, when it is given, is as flattening makes
/// it: a plain path or glob carries one leaf, and every leaf is well
/// formed.
pub proof fn lemma_stmt_info_wf(t: UseTree)
    ensures
        stmt_info_spec(t) matches Some(s) ==> stmt_wf(s),
{
    lemma_flat_wf(t, Seq::empty());
}

fn is_word(s: &String, w: &Vec<char>) -> (r: bool)
    ensures
        r == (s@ == w@),
{
    let c = chars_of(s.as_str());
    slice_eq(c.as_slice(), w.as_slice())
}

fn root_word() -> (w: Vec<char>)
    ensures
        w@ == path_root(),
{
    let w = vec!['{', '{', 'r', 'o', 'o', 't', '}', '}'];
    assert(w@ =~= path_root());
    w
}

fn self_chars() -> (w: Vec<char>)
    ensures
        w@ == self_word(),
{
    let w = vec!['s', 'e', 'l', 'f'];
    assert(w@ =~= self_word());
    w
}

fn copy_segs(s: &[String]) -> (r: Vec<String>)
    ensures
        views(r@) == views(s@),
{
    let mut r: Vec<String> = Vec::new();
    let mut i: usize = 0;
    while i < s.len()
        invariant
            i <= s@.len(),
            views(r@) == views(s@.take(i as int)),
        decreases s@.len() - i,
    {
        r.push(s[i].clone());
        assert(views(s@.take(i + 1)) =~= views(s@.take(i as int)).push(s@[i as int]@));
        assert(views(r@) =~= views(s@.take(i as int)).push(s@[i as int]@));
        i = i + 1;
    }
    assert(s@.take(s@.len() as int) =~= s@);
    r
}

fn copy_opt(o: &Option<String>) -> (r: Option<String>)
    ensures
        opt_view(r) == opt_view(*o),
{
    match o {
        Some(s) => Some(s.clone()),
        None => None,
    }
}

/// Appends the leaves of `tree`, written under the module path `prefix`,
/// to `out`; `None` when the tree holds something the rule declines to
/// rewrite.
pub fn flatten_into(tree: &UseTree, prefix: &[String], out: &mut Vec<Leaf>) -> (r: Option<()>)
    ensures
        r is Some <==> flat(*tree, views(prefix@)) is Some,
        r is Some ==> leaf_views(final(out)@) == leaf_views(old(out)@) + flat(
            *tree,
            views(prefix@),
        )->0,
    decreases tree,
{
    let root = root_word();
    let mut combined = copy_segs(prefix);
    let mut i: usize = 0;
    while i < tree.prefix.len()
        invariant
            i <= tree.prefix@.len(),
            root@ == path_root(),
            views(combined@) == views(prefix@) + views(tree.prefix@.take(i as int)),
            forall|k: int| 0 <= k < i ==> tree.prefix@[k]@ != path_root(),
        decreases tree.prefix@.len() - i,
    {
        if is_word(&tree.prefix[i], &root) {
            assert(views(tree.prefix@)[i as int] == path_root());
            return None;
        }
        let ghost before = combined@;
        combined.push(tree.prefix[i].clone());
        assert(views(combined@) =~= views(before).push(tree.prefix@[i as int]@));
        assert(views(tree.prefix@.take(i + 1)) =~= views(tree.prefix@.take(i as int)).push(
            tree.prefix@[i as int]@,
        ));
        assert(views(combined@) =~= views(prefix@) + views(tree.prefix@.take(i + 1)));
        i = i + 1;
    }
    assert(tree.prefix@.take(tree.prefix@.len() as int) =~= tree.prefix@);
    assert(!has_root(views(tree.prefix@)));
    let ghost c = views(combined@);
    match &tree.kind {
        UseTreeKind::Simple(rename) => {
            let rename = copy_opt(rename);
            let n = combined.len();
            if n == 0 {
                return None;
            }
            let is_self = is_word(&combined[n - 1], &self_chars());
            assert(c.last() == combined@[n - 1]@);
            if is_self {
                combined.pop();
                assert(views(combined@) =~= c.drop_last());
                if combined.len() == 0 {
                    return None;
                }
                let leaf = Leaf { module: combined, item: LeafItem::SelfMod, rename };
                out.push(leaf);
            } else {
                let name = match combined.pop() {
                    Some(name) => name,
                    None => {
                        return None;
                    },
                };
                assert(views(combined@) =~= c.drop_last());
                let leaf = Leaf { module: combined, item: LeafItem::Named(name), rename };
                out.push(leaf);
            }
            assert(leaf_views(out@) =~= leaf_views(old(out)@) + flat(*tree, views(prefix@))->0);
        },
        UseTreeKind::Glob => {
            if combined.len() == 0 {
                return None;
            }
            out.push(Leaf { module: combined, item: LeafItem::Glob, rename: None });
            assert(leaf_views(out@) =~= leaf_views(old(out)@) + flat(*tree, views(prefix@))->0);
        },
        UseTreeKind::Nested(items) => {
            let ghost start = leaf_views(out@);
            let mut k: usize = 0;
            assert(items@.take(0) =~= Seq::<UseTree>::empty());
            while k < items.len()
                invariant
                    k <= items@.len(),
                    views(combined@) == c,
                    c == views(prefix@) + views(tree.prefix@),
                    tree.kind == UseTreeKind::Nested(*items),
                    flat_items(items@.take(k as int), c) is Some,
                    leaf_views(out@) == start + flat_items(items@.take(k as int), c)->0,
                decreases items@.len() - k,
            {
                assert(items@.take(k + 1).drop_last() =~= items@.take(k as int));
                assert(items@.take(k + 1).last() == items@[k as int]);
                proof {
                    assert(decreases_to!(*tree => tree.kind));
                    assert(decreases_to!(tree.kind => *items));
                    assert(decreases_to!(*items => items@));
                    assert(decreases_to!(items@ => items@[k as int]));
                }
                let step = flatten_into(&items[k], combined.as_slice(), out);
                if step.is_none() {
                    proof {
                        lemma_flat_items_prefix_none(items@, k as int + 1, c);
                    }
                    return None;
                }
                assert(leaf_views(out@) =~= start + flat_items(items@.take(k + 1), c)->0);
                k = k + 1;
            }
            assert(items@.take(items@.len() as int) =~= items@);
        },
    }
    Some(())
}

/// A tree that declines among the first `n` of `items` makes the whole
/// list decline.
proof fn lemma_flat_items_prefix_none(items: Seq<UseTree>, n: int, prefix: Seq<Seq<char>>)
    requires
        0 <= n <= items.len(),
        flat_items(items.take(n), prefix) is None,
    ensures
        flat_items(items, prefix) is None,
    decreases items.len() - n,
{
    if n < items.len() {
        assert(items.take(n + 1).drop_last() =~= items.take(n));
        lemma_flat_items_prefix_none(items, n + 1, prefix);
    } else {
        assert(items.take(n) =~= items);
    }
}

/// Whether a brace entry continues past its leading segment.
pub fn continues(tree: &UseTree) -> (r: bool)
    ensures
        r == continues_spec(*tree),
{
    tree.prefix.len() > 1 || match tree.kind {
        UseTreeKind::Simple(_) => false,
        _ => true,
    }
}

/// Whether a brace entry is a lone `self`.
pub fn is_lone_self(tree: &UseTree) -> (r: bool)
    ensures
        r == lone_self(*tree),
{
    match tree.kind {
        UseTreeKind::Simple(_) => tree.prefix.len() == 1 && is_word(&tree.prefix[0], &self_chars()),
        _ => false,
    }
}

/// Whether the brace entries `items` hold two or more that start with
/// `seg` and all continue past it.
fn is_mergeable(items: &Vec<UseTree>, seg: &String) -> (r: bool)
    ensures
        r == mergeable(items@, seg@),
{
    let mut continuing: usize = 0;
    let mut bare = false;
    let mut k: usize = 0;
    while k < items.len()
        invariant
            k <= items@.len(),
            continuing == count_continuing(items@.take(k as int), seg@),
            continuing <= k,
            bare == bare_terminal(items@.take(k as int), seg@),
        decreases items@.len() - k,
    {
        let t = &items[k];
        let starts = t.prefix.len() > 0 && t.prefix[0] == *seg;
        assert(items@.take(k + 1).drop_last() =~= items@.take(k as int));
        assert(items@.take(k + 1).last() == items@[k as int]);
        assert(starts == (first_seg(items@[k as int]) == Some(seg@)));
        if starts {
            if continues(t) {
                continuing = continuing + 1;
            } else {
                bare = true;
                assert(items@.take(k + 1)[k as int] == items@[k as int]);
            }
        }
        proof {
            if bare_terminal(items@.take(k + 1), seg@) && !bare_terminal(items@.take(k as int), seg@) {
                let j = choose|j: int|
                    0 <= j < k + 1 && first_seg(#[trigger] items@.take(k + 1)[j]) == Some(seg@)
                        && !continues_spec(items@.take(k + 1)[j]);
                if j < k {
                    assert(items@.take(k as int)[j] == items@.take(k + 1)[j]);
                }
            }
            if bare_terminal(items@.take(k as int), seg@) {
                let j = choose|j: int|
                    0 <= j < k && first_seg(#[trigger] items@.take(k as int)[j]) == Some(seg@)
                        && !continues_spec(items@.take(k as int)[j]);
                assert(items@.take(k + 1)[j] == items@.take(k as int)[j]);
            }
        }
        k = k + 1;
    }
    assert(items@.take(items@.len() as int) =~= items@);
    continuing >= 2 && !bare
}

/// Whether `tree` is already maximally collapsed. Two entries that share
/// a leading segment fold together only when every entry with that
/// segment continues past it: with a bare `thing` beside `thing::Opts`
/// the only fold is `thing::{self, Opts}`, whose `self` re-imports the
/// module alone and may drop a value or macro of the same name, so that
/// form counts as collapsed.
pub fn is_collapsed(tree: &UseTree) -> (r: bool)
    ensures
        r == collapsed(*tree),
    decreases tree,
{
    match &tree.kind {
        UseTreeKind::Nested(items) => {
            proof {
                assert(decreases_to!(*tree => tree.kind));
                assert(decreases_to!(tree.kind => *items));
                assert(decreases_to!(*items => items@));
            }
            if items.len() == 1 {
                proof {
                    assert(decreases_to!(items@ => items@[0]));
                }
                return is_lone_self(&items[0]) && is_collapsed(&items[0]);
            }
            let mut k: usize = 0;
            while k < items.len()
                invariant
                    k <= items@.len(),
                    tree.kind == UseTreeKind::Nested(*items),
                    forall|j: int|
                        0 <= j < k && (#[trigger] first_seg(items@[j])) is Some ==> !mergeable(
                            items@,
                            first_seg(items@[j])->0,
                        ),
                decreases items@.len() - k,
            {
                if items[k].prefix.len() > 0 {
                    assert(first_seg(items@[k as int]) == Some(items@[k as int].prefix@[0]@));
                    if is_mergeable(items, &items[k].prefix[0]) {
                        return false;
                    }
                }
                k = k + 1;
            }
            let mut k: usize = 0;
            assert(items@.take(0) =~= Seq::<UseTree>::empty());
            while k < items.len()
                invariant
                    k <= items@.len(),
                    tree.kind == UseTreeKind::Nested(*items),
                    decreases_to!(*tree => items@),
                    all_collapsed(items@.take(k as int)),
                decreases items@.len() - k,
            {
                assert(items@.take(k + 1).drop_last() =~= items@.take(k as int));
                assert(items@.take(k + 1).last() == items@[k as int]);
                proof {
                    assert(decreases_to!(items@ => items@[k as int]));
                }
                if !is_collapsed(&items[k]) {
                    proof {
                        lemma_all_collapsed_prefix(items@, k as int + 1);
                    }
                    return false;
                }
                k = k + 1;
            }
            assert(items@.take(items@.len() as int) =~= items@);
            true
        },
        _ => true,
    }
}

proof fn lemma_all_collapsed_prefix(items: Seq<UseTree>, n: int)
    requires
        0 <= n <= items.len(),
        !all_collapsed(items.take(n)),
    ensures
        !all_collapsed(items),
    decreases items.len() - n,
{
    if n < items.len() {
        assert(items.take(n + 1).drop_last() =~= items.take(n));
        lemma_all_collapsed_prefix(items, n + 1);
    } else {
        assert(items.take(n) =~= items);
    }
}

/// The leaves of a whole `use` tree.
pub fn flatten(tree: &UseTree) -> (r: Option<Vec<Leaf>>)
    ensures
        match r {
            Some(v) => flat(*tree, Seq::empty()) == Some(leaf_views(v@)),
            None => flat(*tree, Seq::empty()) is None,
        },
{
    let mut out: Vec<Leaf> = Vec::new();
    let empty: Vec<String> = Vec::new();
    assert(views(empty@) =~= Seq::<Seq<char>>::empty());
    match flatten_into(tree, empty.as_slice(), &mut out) {
        Some(()) => {
            assert(leaf_views(out@) =~= Seq::<LeafView>::empty() + flat(*tree, Seq::empty())->0);
            Some(out)
        },
        None => None,
    }
}

/// Builds the [`StmtInfo`] of one top-level `use` tree, or `None` when
/// the statement holds something the rule declines to rewrite (a leading
/// `::`, or a malformed `self`).
pub fn stmt_info(tree: &UseTree) -> (r: Option<StmtInfo>)
    ensures
        match r {
            Some(s) => stmt_info_spec(*tree) == Some(s@),
            None => stmt_info_spec(*tree) is None,
        },
        r matches Some(s) ==> stmt_wf(s@),
{
    proof {
        lemma_stmt_info_wf(*tree);
    }
    let leaves = match flatten(tree) {
        Some(l) => l,
        None => {
            return None;
        },
    };
    let prefix = copy_segs(tree.prefix.as_slice());
    let top_kind = match tree.kind {
        UseTreeKind::Simple(_) => TopKind::Simple,
        UseTreeKind::Glob => TopKind::Glob,
        UseTreeKind::Nested(_) => TopKind::Nested,
    };
    let collapsed = is_collapsed(tree);
    Some(StmtInfo { leaves, top_kind, prefix, collapsed })
}

} // verus!
