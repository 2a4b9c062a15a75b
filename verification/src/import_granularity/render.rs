//! The canonical text of a run of `use` statements under a style. Each
//! rendered string is what goes between `use ` and `;` in one statement.
use vstd::prelude::*;
use crate::import_granularity::config::Style;
use crate::import_granularity::model::{
    deeper_path, segs_extended_starts,
    crate_item, leaf_views, leaf_wf, opt_view, ItemView, Leaf, LeafItem, LeafView,
};
use crate::ordering::{strictly_sorted, canon, entry_group, entry_group_of, sort_dedup, views};
use crate::text::{chars_of, lower_chars, lower_seq, push_all, push_str, string_of};

verus! {

pub open spec fn path_sep() -> Seq<char> {
    seq![':', ':']
}

pub open spec fn list_sep() -> Seq<char> {
    seq![',', ' ']
}

/// `segs` joined by `::`.
pub open spec fn join_spec(segs: Seq<Seq<char>>) -> Seq<char>
    decreases segs.len(),
{
    if segs.len() == 0 {
        Seq::empty()
    } else if segs.len() == 1 {
        segs[0]
    } else {
        join_spec(segs.drop_last()) + path_sep() + segs.last()
    }
}

/// `entries` joined by `, `.
pub open spec fn comma_join(entries: Seq<Seq<char>>) -> Seq<char>
    decreases entries.len(),
{
    if entries.len() == 0 {
        Seq::empty()
    } else if entries.len() == 1 {
        entries[0]
    } else {
        comma_join(entries.drop_last()) + list_sep() + entries.last()
    }
}

pub open spec fn rename_suffix_spec(rename: Option<Seq<char>>) -> Seq<char> {
    match rename {
        Some(name) => seq![' ', 'a', 's', ' '] + name,
        None => Seq::empty(),
    }
}

/// How a leaf is written inside a brace or after its module path.
pub open spec fn item_entry_spec(l: LeafView) -> Seq<char> {
    match l.item {
        ItemView::Named(name) => name + rename_suffix_spec(l.rename),
        ItemView::Glob => seq!['*'],
        ItemView::SelfMod => seq!['s', 'e', 'l', 'f'] + rename_suffix_spec(l.rename),
    }
}

/// A crate item written on its own: `serde` or `serde as alias`.
pub open spec fn crate_item_body_spec(l: LeafView) -> Seq<char> {
    l.item->Named_0 + rename_suffix_spec(l.rename)
}

/// A `self` entry (possibly renamed) cannot stand outside braces.
pub open spec fn needs_brace_spec(entry: Seq<char>) -> bool {
    entry_group(entry) == 0
}

/// A module path and its entries: no braces around a single entry that
/// can stand alone, braces otherwise.
pub open spec fn wrap_spec(prefix: Seq<char>, entries: Seq<Seq<char>>) -> Seq<char> {
    if entries.len() == 1 && !needs_brace_spec(entries[0]) {
        prefix + path_sep() + entries[0]
    } else {
        prefix + path_sep() + seq!['{'] + comma_join(entries) + seq!['}']
    }
}

/// `item` style: each leaf on its own.
pub open spec fn item_body(l: LeafView) -> Seq<char> {
    if crate_item(l) {
        crate_item_body_spec(l)
    } else {
        wrap_spec(join_spec(l.module), seq![item_entry_spec(l)])
    }
}

pub open spec fn render_item_spec(leaves: Seq<LeafView>) -> Seq<Seq<char>> {
    canon(leaves.map_values(|l: LeafView| item_body(l)), false)
}

/// The entries of the leaves of `s` that live in `module`.
pub open spec fn member_entries(s: Seq<LeafView>, module: Seq<Seq<char>>) -> Seq<Seq<char>>
    decreases s.len(),
{
    if s.len() == 0 {
        Seq::empty()
    } else if s.last().module == module {
        member_entries(s.drop_last(), module).push(item_entry_spec(s.last()))
    } else {
        member_entries(s.drop_last(), module)
    }
}

/// `module` style: the statement that holds leaf `l`, with every leaf of
/// its module in one sorted brace list; a crate item stands alone.
pub open spec fn module_body(leaves: Seq<LeafView>, l: LeafView) -> Seq<char> {
    if l.module.len() == 0 {
        crate_item_body_spec(l)
    } else {
        wrap_spec(join_spec(l.module), canon(member_entries(leaves, l.module), true))
    }
}

pub open spec fn render_module_spec(leaves: Seq<LeafView>) -> Seq<Seq<char>> {
    canon(leaves.map_values(|l: LeafView| module_body(leaves, l)), false)
}

/// The entries of the leaves of `s` that sit at this level.
pub open spec fn items_entries(s: Seq<LeafView>) -> Seq<Seq<char>>
    decreases s.len(),
{
    if s.len() == 0 {
        Seq::empty()
    } else if s.last().module.len() == 0 {
        items_entries(s.drop_last()).push(item_entry_spec(s.last()))
    } else {
        items_entries(s.drop_last())
    }
}

/// The leaves of `s` under the child segment `head`, one level down.
pub open spec fn children_of(s: Seq<LeafView>, head: Seq<char>) -> Seq<LeafView>
    decreases s.len(),
{
    if s.len() == 0 {
        Seq::empty()
    } else if s.last().module.len() > 0 && s.last().module[0] == head {
        children_of(s.drop_last(), head).push(
            LeafView {
                module: s.last().module.drop_first(),
                item: s.last().item,
                rename: s.last().rename,
            },
        )
    } else {
        children_of(s.drop_last(), head)
    }
}

/// `crate` style: the sorted entries of one level of the path trie over
/// `leaves` — the items that end here, then one `head::...` entry per
/// child — looking at most `depth` levels down.
pub open spec fn node_entries_spec(leaves: Seq<LeafView>, depth: nat) -> Seq<Seq<char>>
    decreases depth, leaves.len() + 1,
{
    canon(items_entries(leaves) + child_entries(leaves, leaves, depth), true)
}

/// The child entries contributed by the leaves of `rest`, each the entry
/// for the child its module starts with.
pub open spec fn child_entries(all: Seq<LeafView>, rest: Seq<LeafView>, depth: nat) -> Seq<
    Seq<char>,
>
    decreases depth, rest.len(),
{
    if rest.len() == 0 {
        Seq::empty()
    } else if rest.last().module.len() > 0 && depth > 0 {
        child_entries(all, rest.drop_last(), depth).push(
            wrap_spec(
                rest.last().module[0],
                node_entries_spec(children_of(all, rest.last().module[0]), (depth - 1) as nat),
            ),
        )
    } else {
        child_entries(all, rest.drop_last(), depth)
    }
}

/// The longest module path among `s`.
pub open spec fn max_depth(s: Seq<LeafView>) -> nat
    decreases s.len(),
{
    if s.len() == 0 {
        0
    } else if s.last().module.len() > max_depth(s.drop_last()) {
        s.last().module.len()
    } else {
        max_depth(s.drop_last())
    }
}

pub open spec fn render_crate_spec(leaves: Seq<LeafView>) -> Seq<Seq<char>> {
    canon(node_entries_spec(leaves, max_depth(leaves)), false)
}

/// Leaf `i` is a named item whose name another leaf's module runs
/// through: the `thing` of `{thing, thing::T}`.
pub open spec fn folds_into_self(leaves: Seq<LeafView>, i: int) -> bool {
    &&& leaves[i].item is Named
    &&& exists|j: int|
        0 <= j < leaves.len() && j != i && deeper_path(leaves[i].module, leaves[i].item->Named_0).is_prefix_of(
            #[trigger] leaves[j].module,
        )
}

/// Leaf `i` with the `self`-fold applied: such a named item becomes the
/// `self` of the module it names, keeping its rename.
pub open spec fn self_fold_leaf(leaves: Seq<LeafView>, i: int) -> LeafView {
    if folds_into_self(leaves, i) {
        LeafView {
            module: deeper_path(leaves[i].module, leaves[i].item->Named_0),
            item: ItemView::SelfMod,
            rename: leaves[i].rename,
        }
    } else {
        leaves[i]
    }
}

pub open spec fn self_fold(leaves: Seq<LeafView>) -> Seq<LeafView> {
    Seq::new(leaves.len(), |i: int| self_fold_leaf(leaves, i))
}

/// `crate` style with the `self`-fold: `use a::b::{self, C};` where the
/// plain rendering gives `use a::{b, b::C};`.
pub open spec fn render_crate_self_spec(leaves: Seq<LeafView>) -> Seq<Seq<char>> {
    render_crate_spec(self_fold(leaves))
}

pub open spec fn render_spec(style: Style, leaves: Seq<LeafView>) -> Seq<Seq<char>> {
    match style {
        Style::Crate => render_crate_spec(leaves),
        Style::Module => render_module_spec(leaves),
        Style::Item => render_item_spec(leaves),
    }
}

/// The canonical statements for `leaves` under `style`, in string order,
/// each once. Under `module` style every leaf must be as flattening
/// makes it.
pub fn render(style: Style, leaves: &[Leaf]) -> (r: Vec<String>)
    requires
        style == Style::Module ==> forall|i: int| 0 <= i < leaves@.len() ==> leaf_wf(#[trigger] leaves@[i]@),
    ensures
        views(r@) == render_spec(style, leaf_views(leaves@)),
{
    match style {
        Style::Crate => render_crate(leaves),
        Style::Module => render_module(leaves),
        Style::Item => render_item(leaves),
    }
}

/// The leaves with the `self`-fold applied.
fn self_fold_leaves(leaves: &[Leaf]) -> (r: Vec<Leaf>)
    ensures
        leaf_views(r@) == self_fold(leaf_views(leaves@)),
{
    let ghost lv = leaf_views(leaves@);
    let mut out: Vec<Leaf> = Vec::new();
    let mut i: usize = 0;
    while i < leaves.len()
        invariant
            i <= leaves@.len(),
            lv == leaf_views(leaves@),
            out@.len() == i,
            forall|k: int| 0 <= k < i ==> (#[trigger] out@[k])@ == self_fold_leaf(lv, k),
        decreases leaves@.len() - i,
    {
        let mut leaf = leaves[i].clone_leaf();
        if let LeafItem::Named(name) = &leaves[i].item {
            let mut found = false;
            let mut j: usize = 0;
            while j < leaves.len()
                invariant
                    i < leaves@.len(),
                    j <= leaves@.len(),
                    lv == leaf_views(leaves@),
                    leaves@[i as int].item == LeafItem::Named(*name),
                    found == exists|b: int|
                        0 <= b < j && b != i && deeper_path(lv[i as int].module, name@).is_prefix_of(
                            #[trigger] lv[b].module,
                        ),
                decreases leaves@.len() - j,
            {
                if j != i && segs_extended_starts(leaves[j].module.as_slice(), leaves[i].module.as_slice(), name) {
                    assert(lv[j as int].module == views(leaves@[j as int].module@));
                    found = true;
                }
                j = j + 1;
            }
            assert(lv[i as int].item->Named_0 == name@);
            if found {
                let ghost before = leaf.module@;
                leaf.module.push(name.clone());
                assert(views(leaf.module@) =~= views(before).push(name@));
                leaf.item = LeafItem::SelfMod;
            }
        }
        out.push(leaf);
        i = i + 1;
    }
    assert(leaf_views(out@) =~= self_fold(lv));
    out
}

/// The `crate`-style statements with the `self`-fold applied, in string
/// order, each once.
pub fn render_crate_self(leaves: &[Leaf]) -> (r: Vec<String>)
    ensures
        views(r@) == render_crate_self_spec(leaf_views(leaves@)),
{
    let folded = self_fold_leaves(leaves);
    render_crate(folded.as_slice())
}

/// `segments` joined by `::`.
pub fn join(segments: &[String]) -> (r: String)
    ensures
        r@ == join_spec(views(segments@)),
{
    let mut out: Vec<char> = Vec::new();
    let mut i: usize = 0;
    while i < segments.len()
        invariant
            i <= segments@.len(),
            out@ == join_spec(views(segments@.take(i as int))),
        decreases segments@.len() - i,
    {
        let ghost v = views(segments@.take(i + 1));
        assert(v.drop_last() =~= views(segments@.take(i as int)));
        assert(v.last() == segments@[i as int]@);
        if i > 0 {
            let sep = vec![':', ':'];
            assert(sep@ =~= path_sep());
            push_all(&mut out, sep.as_slice());
        }
        push_str(&mut out, segments[i].as_str());
        proof {
            if i == 0 {
                assert(out@ =~= v[0]);
            }
        }
        assert(out@ =~= join_spec(v));
        i = i + 1;
    }
    assert(segments@.take(segments@.len() as int) =~= segments@);
    string_of(out.as_slice())
}

fn push_suffix(out: &mut Vec<char>, rename: &Option<String>)
    ensures
        final(out)@ == old(out)@ + rename_suffix_spec(opt_view(*rename)),
{
    match rename {
        Some(name) => {
            let w = vec![' ', 'a', 's', ' '];
            assert(w@ =~= seq![' ', 'a', 's', ' ']);
            push_all(out, w.as_slice());
            push_str(out, name.as_str());
            assert(out@ =~= old(out)@ + (seq![' ', 'a', 's', ' '] + name@));
        },
        None => {
            assert(out@ =~= old(out)@ + Seq::<char>::empty());
        },
    }
}

/// ` as name` for a rename, nothing otherwise.
pub fn rename_suffix(rename: &Option<String>) -> (r: String)
    ensures
        r@ == rename_suffix_spec(opt_view(*rename)),
{
    let mut out: Vec<char> = Vec::new();
    push_suffix(&mut out, rename);
    assert(out@ =~= rename_suffix_spec(opt_view(*rename)));
    string_of(out.as_slice())
}

/// The sort key of a brace entry: its section (`self` first, then names,
/// then `*`), its lowercase text, then its exact text.
pub fn entry_key(entry: &str) -> (r: (u8, String, &str))
    ensures
        r.0 == entry_group(entry@),
        r.1@ == lower_seq(entry@),
        r.2 == entry,
{
    let c = chars_of(entry);
    let group = entry_group_of(c.as_slice());
    let lower = lower_chars(c.as_slice());
    (group, string_of(lower.as_slice()), entry)
}

/// Orders brace entries by [`entry_key`] — `self` first, names
/// case-insensitively, the glob last, the exact text breaking ties — and
/// drops exact repeats.
pub fn sort_entries(entries: &mut Vec<String>)
    ensures
        strictly_sorted(views(final(entries)@), true),
        views(final(entries)@).to_set() == views(old(entries)@).to_set(),
        views(final(entries)@) == canon(views(old(entries)@), true),
{
    let sorted = sort_dedup(entries, true);
    *entries = sorted;
}

/// Whether an entry must stay inside braces: a `self`, possibly renamed.
pub fn needs_brace(entry: &str) -> (r: bool)
    ensures
        r == needs_brace_spec(entry@),
{
    let c = chars_of(entry);
    entry_group_of(c.as_slice()) == 0
}

/// A module path and its entries: `std::io::Read`, `std::io::*`, or
/// `std::io::{self, Read}`.
pub fn wrap(prefix: &str, entries: &[String]) -> (r: String)
    ensures
        r@ == wrap_spec(prefix@, views(entries@)),
{
    let mut out = chars_of(prefix);
    let sep = vec![':', ':'];
    assert(sep@ =~= path_sep());
    push_all(&mut out, sep.as_slice());
    let ghost head = out@;
    if entries.len() == 1 && !needs_brace(entries[0].as_str()) {
        push_str(&mut out, entries[0].as_str());
        return string_of(out.as_slice());
    }
    out.push('{');
    let ghost open = out@;
    let mut k: usize = 0;
    while k < entries.len()
        invariant
            k <= entries@.len(),
            out@ == open + comma_join(views(entries@.take(k as int))),
        decreases entries@.len() - k,
    {
        let ghost v = views(entries@.take(k + 1));
        assert(v.drop_last() =~= views(entries@.take(k as int)));
        assert(v.last() == entries@[k as int]@);
        let ghost before = out@;
        if k > 0 {
            let s = vec![',', ' '];
            assert(s@ =~= list_sep());
            push_all(&mut out, s.as_slice());
        }
        push_str(&mut out, entries[k].as_str());
        proof {
            if k == 0 {
                assert(comma_join(v) =~= v[0]);
                assert(comma_join(views(entries@.take(0))) =~= Seq::<char>::empty());
            }
        }
        assert(out@ =~= open + comma_join(v));
        k = k + 1;
    }
    assert(entries@.take(entries@.len() as int) =~= entries@);
    out.push('}');
    assert(out@ =~= prefix@ + path_sep() + seq!['{'] + comma_join(views(entries@)) + seq!['}']);
    string_of(out.as_slice())
}

/// `serde` or `serde as alias`: a crate item on its own.
pub fn crate_item_body(leaf: &Leaf) -> (r: String)
    requires
        leaf@.item is Named,
    ensures
        r@ == crate_item_body_spec(leaf@),
{
    let mut out: Vec<char> = Vec::new();
    match &leaf.item {
        LeafItem::Named(name) => push_str(&mut out, name.as_str()),
        _ => {},
    }
    push_suffix(&mut out, &leaf.rename);
    string_of(out.as_slice())
}

/// How a leaf is written inside a brace list.
pub fn item_entry(leaf: &Leaf) -> (r: String)
    ensures
        r@ == item_entry_spec(leaf@),
{
    let mut out: Vec<char> = Vec::new();
    match &leaf.item {
        LeafItem::Named(name) => {
            push_str(&mut out, name.as_str());
            push_suffix(&mut out, &leaf.rename);
        },
        LeafItem::Glob => {
            out.push('*');
            assert(out@ =~= seq!['*']);
        },
        LeafItem::SelfMod => {
            let w = vec!['s', 'e', 'l', 'f'];
            push_all(&mut out, w.as_slice());
            assert(out@ =~= seq!['s', 'e', 'l', 'f']);
            push_suffix(&mut out, &leaf.rename);
        },
    }
    string_of(out.as_slice())
}

/// `item` style: one statement per leaf.
pub fn render_item(leaves: &[Leaf]) -> (r: Vec<String>)
    ensures
        views(r@) == render_item_spec(leaf_views(leaves@)),
{
    let ghost lv = leaf_views(leaves@);
    let mut out: Vec<String> = Vec::new();
    let mut i: usize = 0;
    while i < leaves.len()
        invariant
            i <= leaves@.len(),
            lv == leaf_views(leaves@),
            views(out@) == lv.take(i as int).map_values(|l: LeafView| item_body(l)),
        decreases leaves@.len() - i,
    {
        let leaf = &leaves[i];
        let body = if leaf.is_crate_item() {
            crate_item_body(leaf)
        } else {
            let entry = item_entry(leaf);
            let one = vec![entry];
            assert(views(one@) =~= seq![item_entry_spec(leaf@)]);
            let module = join(leaf.module.as_slice());
            wrap(module.as_str(), one.as_slice())
        };
        assert(body@ == item_body(lv[i as int]));
        let ghost before = out@;
        out.push(body);
        assert(views(out@) =~= views(before).push(body@));
        assert(views(out@) =~= lv.take(i + 1).map_values(|l: LeafView| item_body(l)));
        i = i + 1;
    }
    assert(lv.take(lv.len() as int) =~= lv);
    sort_dedup(&out, false)
}

/// The entries of the leaves of `leaves` that live in `module`.
fn module_members(leaves: &[Leaf], module: &Vec<String>) -> (r: Vec<String>)
    ensures
        views(r@) == member_entries(leaf_views(leaves@), views(module@)),
{
    let ghost lv = leaf_views(leaves@);
    let mut out: Vec<String> = Vec::new();
    let mut i: usize = 0;
    while i < leaves.len()
        invariant
            i <= leaves@.len(),
            lv == leaf_views(leaves@),
            views(out@) == member_entries(lv.take(i as int), views(module@)),
        decreases leaves@.len() - i,
    {
        assert(lv.take(i + 1).drop_last() =~= lv.take(i as int));
        assert(lv.take(i + 1).last() == leaves@[i as int]@);
        if crate::import_granularity::model::segs_eq(
            leaves[i].module.as_slice(),
            module.as_slice(),
        ) {
            out.push(item_entry(&leaves[i]));
        }
        assert(views(out@) =~= member_entries(lv.take(i + 1), views(module@)));
        i = i + 1;
    }
    assert(lv.take(lv.len() as int) =~= lv);
    out
}

/// `module` style: one statement per module, its items in one sorted
/// brace list; crate items stand alone.
pub fn render_module(leaves: &[Leaf]) -> (r: Vec<String>)
    requires
        forall|i: int| 0 <= i < leaves@.len() ==> leaf_wf(#[trigger] leaves@[i]@),
    ensures
        views(r@) == render_module_spec(leaf_views(leaves@)),
{
    let ghost lv = leaf_views(leaves@);
    let mut out: Vec<String> = Vec::new();
    let mut i: usize = 0;
    while i < leaves.len()
        invariant
            i <= leaves@.len(),
            lv == leaf_views(leaves@),
            forall|k: int| 0 <= k < leaves@.len() ==> leaf_wf(#[trigger] leaves@[k]@),
            views(out@) == lv.take(i as int).map_values(|l: LeafView| module_body(lv, l)),
        decreases leaves@.len() - i,
    {
        let leaf = &leaves[i];
        assert(leaf_wf(leaves@[i as int]@));
        let body = if leaf.module.len() == 0 {
            crate_item_body(leaf)
        } else {
            let mut entries = module_members(leaves, &leaf.module);
            sort_entries(&mut entries);
            let module = join(leaf.module.as_slice());
            wrap(module.as_str(), entries.as_slice())
        };
        assert(body@ == module_body(lv, lv[i as int]));
        let ghost before = out@;
        out.push(body);
        assert(views(out@) =~= views(before).push(body@));
        assert(views(out@) =~= lv.take(i + 1).map_values(|l: LeafView| module_body(lv, l)));
        i = i + 1;
    }
    assert(lv.take(lv.len() as int) =~= lv);
    sort_dedup(&out, false)
}

fn copy_item(item: &LeafItem) -> (r: LeafItem)
    ensures
        r@ == item@,
{
    match item {
        LeafItem::Named(n) => LeafItem::Named(n.clone()),
        LeafItem::Glob => LeafItem::Glob,
        LeafItem::SelfMod => LeafItem::SelfMod,
    }
}

/// The leaves under the child segment `head`, one level down.
fn children(leaves: &[Leaf], head: &String) -> (r: Vec<Leaf>)
    ensures
        leaf_views(r@) == children_of(leaf_views(leaves@), head@),
{
    let ghost lv = leaf_views(leaves@);
    let mut out: Vec<Leaf> = Vec::new();
    let mut i: usize = 0;
    while i < leaves.len()
        invariant
            i <= leaves@.len(),
            lv == leaf_views(leaves@),
            leaf_views(out@) == children_of(lv.take(i as int), head@),
        decreases leaves@.len() - i,
    {
        assert(lv.take(i + 1).drop_last() =~= lv.take(i as int));
        assert(lv.take(i + 1).last() == leaves@[i as int]@);
        let leaf = &leaves[i];
        if leaf.module.len() > 0 && leaf.module[0] == *head {
            let mut tail: Vec<String> = Vec::new();
            let mut k: usize = 1;
            while k < leaf.module.len()
                invariant
                    1 <= k <= leaf.module@.len(),
                    views(tail@) == views(leaf.module@).subrange(1, k as int),
                decreases leaf.module@.len() - k,
            {
                let ghost before = tail@;
                tail.push(leaf.module[k].clone());
                assert(views(tail@) =~= views(before).push(leaf.module@[k as int]@));
                assert(views(tail@) =~= views(leaf.module@).subrange(1, k + 1));
                k = k + 1;
            }
            assert(views(tail@) =~= views(leaf.module@).drop_first());
            let rename = match &leaf.rename {
                Some(s) => Some(s.clone()),
                None => None,
            };
            out.push(Leaf { module: tail, item: copy_item(&leaf.item), rename });
        }
        assert(leaf_views(out@) =~= children_of(lv.take(i + 1), head@));
        i = i + 1;
    }
    assert(lv.take(lv.len() as int) =~= lv);
    out
}

/// `crate` style: the sorted entries of one level of the path trie over
/// `leaves`, looking at most `depth` levels down. A named item stays an
/// entry of its own even when a child module shares its name — `a::{b,
/// b::C}` — because `use a::b::{self}` would import the module alone and
/// drop a value or macro of the same name.
pub fn node_entries(leaves: &[Leaf], depth: usize) -> (r: Vec<String>)
    ensures
        views(r@) == node_entries_spec(leaf_views(leaves@), depth as nat),
    decreases depth,
{
    let ghost lv = leaf_views(leaves@);
    let mut entries: Vec<String> = Vec::new();
    let mut i: usize = 0;
    while i < leaves.len()
        invariant
            i <= leaves@.len(),
            lv == leaf_views(leaves@),
            views(entries@) == items_entries(lv.take(i as int)),
        decreases leaves@.len() - i,
    {
        assert(lv.take(i + 1).drop_last() =~= lv.take(i as int));
        assert(lv.take(i + 1).last() == leaves@[i as int]@);
        if leaves[i].module.len() == 0 {
            entries.push(item_entry(&leaves[i]));
        }
        assert(views(entries@) =~= items_entries(lv.take(i + 1)));
        i = i + 1;
    }
    assert(lv.take(lv.len() as int) =~= lv);
    let ghost items = views(entries@);
    let mut i: usize = 0;
    assert(child_entries(lv, lv.take(0), depth as nat) =~= Seq::<Seq<char>>::empty());
    while i < leaves.len()
        invariant
            i <= leaves@.len(),
            lv == leaf_views(leaves@),
            items == items_entries(lv),
            views(entries@) == items + child_entries(lv, lv.take(i as int), depth as nat),
        decreases leaves@.len() - i,
    {
        assert(lv.take(i + 1).drop_last() =~= lv.take(i as int));
        assert(lv.take(i + 1).last() == leaves@[i as int]@);
        if leaves[i].module.len() > 0 && depth > 0 {
            let head = &leaves[i].module[0];
            let sub = children(leaves, head);
            let sub_entries = node_entries(sub.as_slice(), depth - 1);
            let entry = wrap(head.as_str(), sub_entries.as_slice());
            assert(head@ == lv[i as int].module[0]);
            assert(entry@ == wrap_spec(
                lv[i as int].module[0],
                node_entries_spec(children_of(lv, lv[i as int].module[0]), (depth - 1) as nat),
            ));
            let ghost before = entries@;
            entries.push(entry);
            assert(views(entries@) =~= views(before).push(entry@));
        }
        assert(views(entries@) =~= items + child_entries(lv, lv.take(i + 1), depth as nat));
        i = i + 1;
    }
    assert(lv.take(lv.len() as int) =~= lv);
    sort_entries(&mut entries);
    entries
}

/// The longest module path among `leaves`.
fn depth_of(leaves: &[Leaf]) -> (d: usize)
    ensures
        d == max_depth(leaf_views(leaves@)),
{
    let ghost lv = leaf_views(leaves@);
    let mut d: usize = 0;
    let mut i: usize = 0;
    while i < leaves.len()
        invariant
            i <= leaves@.len(),
            lv == leaf_views(leaves@),
            d == max_depth(lv.take(i as int)),
        decreases leaves@.len() - i,
    {
        assert(lv.take(i + 1).drop_last() =~= lv.take(i as int));
        assert(lv.take(i + 1).last() == leaves@[i as int]@);
        if leaves[i].module.len() > d {
            d = leaves[i].module.len();
        }
        i = i + 1;
    }
    assert(lv.take(lv.len() as int) =~= lv);
    d
}

/// `crate` style: one statement per top-level entry of the path trie,
/// with every shared prefix collapsed into nested braces. A bare
/// `use foo;` and `use foo::Bar;` fold into `foo, foo::Bar` at the top.
pub fn render_crate(leaves: &[Leaf]) -> (r: Vec<String>)
    ensures
        views(r@) == render_crate_spec(leaf_views(leaves@)),
{
    let depth = depth_of(leaves);
    let entries = node_entries(leaves, depth);
    let r = sort_dedup(&entries, false);
    proof {
        let e = node_entries_spec(leaf_views(leaves@), depth as nat);
        assert(views(r@).to_set() == e.to_set());
    }
    r
}

/// `entries` joined by `, `.
pub fn join_with_comma(entries: &Vec<String>) -> (r: String)
    ensures
        r@ == comma_join(views(entries@)),
{
    let mut out: Vec<char> = Vec::new();
    let mut k: usize = 0;
    while k < entries.len()
        invariant
            k <= entries@.len(),
            out@ == comma_join(views(entries@.take(k as int))),
        decreases entries@.len() - k,
    {
        let ghost v = views(entries@.take(k + 1));
        assert(v.drop_last() =~= views(entries@.take(k as int)));
        assert(v.last() == entries@[k as int]@);
        let ghost before = out@;
        if k > 0 {
            let s = vec![',', ' '];
            assert(s@ =~= list_sep());
            push_all(&mut out, s.as_slice());
        }
        push_str(&mut out, entries[k].as_str());
        proof {
            if k == 0 {
                assert(comma_join(v) =~= v[0]);
                assert(out@ =~= v[0]);
            }
        }
        assert(out@ =~= comma_join(v));
        k = k + 1;
    }
    assert(entries@.take(entries@.len() as int) =~= entries@);
    string_of(out.as_slice())
}

/// Law: under `item` style the rendered statements depend only on which
/// leaves the run holds, not on their order or repetition.
pub proof fn lemma_render_item_order_free(a: Seq<LeafView>, b: Seq<LeafView>)
    requires
        a.to_set() == b.to_set(),
    ensures
        render_item_spec(a) == render_item_spec(b),
{
    let f = |l: LeafView| item_body(l);
    a.lemma_to_set_map_commutes(f);
    b.lemma_to_set_map_commutes(f);
    assert(a.map_values(f).to_set() == b.map_values(f).to_set());
}

/// The entries of the leaves of `s` in `module`, as a set.
proof fn lemma_member_entries_set(s: Seq<LeafView>, module: Seq<Seq<char>>)
    ensures
        member_entries(s, module).to_set() == s.to_set().filter(|x: LeafView| x.module == module).map(
            |x: LeafView| item_entry_spec(x),
        ),
    decreases s.len(),
{
    let g = |x: LeafView| item_entry_spec(x);
    let p = |x: LeafView| x.module == module;
    if s.len() == 0 {
        assert(member_entries(s, module).to_set() =~= Set::empty());
        assert(s.to_set().filter(p).map(g) =~= Set::empty());
    } else {
        lemma_member_entries_set(s.drop_last(), module);
        let prev = member_entries(s.drop_last(), module);
        assert(s.drop_last().push(s.last()) =~= s);
        crate::ordering::lemma_push_to_set(s.drop_last(), s.last());
        assert forall|e: Seq<char>| #[trigger] member_entries(s, module).to_set().contains(e) <==> s.to_set().filter(p).map(g).contains(e) by {
            if s.last().module == module {
                crate::ordering::lemma_push_to_set(prev, item_entry_spec(s.last()));
                if e == item_entry_spec(s.last()) {
                    assert(s.to_set().filter(p).contains(s.last()));
                }
            }
            if s.to_set().filter(p).map(g).contains(e) {
                let x = choose|x: LeafView| s.to_set().filter(p).contains(x) && g(x) == e;
                if x != s.last() {
                    assert(s.drop_last().to_set().filter(p).contains(x));
                    assert(s.drop_last().to_set().filter(p).map(g).contains(e));
                }
            }
            if prev.to_set().contains(e) {
                let x = choose|x: LeafView| s.drop_last().to_set().filter(p).contains(x) && g(x) == e;
                assert(s.to_set().filter(p).contains(x));
            }
        }
        assert(member_entries(s, module).to_set() =~= s.to_set().filter(p).map(g));
    }
}

/// Law: under `module` style the rendered statements depend only on which
/// leaves the run holds, not on their order or repetition.
pub proof fn lemma_render_module_order_free(a: Seq<LeafView>, b: Seq<LeafView>)
    requires
        a.to_set() == b.to_set(),
    ensures
        render_module_spec(a) == render_module_spec(b),
{
    assert forall|l: LeafView| #[trigger] module_body(a, l) == module_body(b, l) by {
        lemma_member_entries_set(a, l.module);
        lemma_member_entries_set(b, l.module);
    }
    let fa = |l: LeafView| module_body(a, l);
    let fb = |l: LeafView| module_body(b, l);
    assert(fa =~= fb);
    a.lemma_to_set_map_commutes(fa);
    b.lemma_to_set_map_commutes(fb);
    assert(a.map_values(fa).to_set() == b.map_values(fb).to_set());
}

} // verus!
