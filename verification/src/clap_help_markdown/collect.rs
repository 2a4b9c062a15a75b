//! Finding the clap-derived containers of a crate and the state of every
//! doc-commented node in them, from the attributes as written.
//!
//! The result maps the source offset of each `///` line of a documented
//! node to that node's [`NodeState`], and records each node's first
//! line. A node whose help text an explicit attribute overrides, or one
//! with no doc comment, contributes nothing.
use vstd::prelude::*;
use crate::clap_help_markdown::NodeState;
use crate::ordering::views;
use crate::text::{chars_of, slice_eq};

verus! {

broadcast use vstd::std_specs::hash::group_hash_axioms;

/// A meta item as written: its path, and what follows the path.
pub struct MetaItem {
    pub path: Vec<String>,
    pub kind: MetaKind,
}

pub enum MetaKind {
    /// `path`.
    Word,
    /// `path = value`.
    NameValue,
    /// `path(items)`.
    List(Vec<MetaItem>),
    /// A literal standing where a meta item could (`"text"`, `1`); its
    /// path is empty.
    Lit,
}

/// An attribute of an item, a field or a variant.
pub enum Attribute {
    /// A `///` doc comment line, with the source offset it starts at.
    DocComment(u32),
    /// Any other attribute, `#[meta]`.
    Normal(MetaItem),
}

/// An enum variant: its attributes and the attributes of each of its
/// fields.
pub struct Variant {
    pub attrs: Vec<Attribute>,
    pub fields: Vec<Vec<Attribute>>,
}

/// A top-level item of a module body, as far as the collection reads it.
pub enum Item {
    Struct { attrs: Vec<Attribute>, fields: Vec<Vec<Attribute>> },
    Enum { attrs: Vec<Attribute>, variants: Vec<Variant> },
    /// An inline `mod { ... }`; `live` when it survived `#[cfg(...)]`
    /// stripping into the compiled crate.
    Mod { live: bool, items: Vec<Item> },
    Other,
}

/// Every clap-bound, doc-commented, non-overridden node, indexed by the
/// offset of each `///` line and by each node's first line.
pub struct DocNodes {
    pub by_line: std::collections::HashMap<u32, NodeState>,
    pub first_lines: std::collections::HashSet<u32>,
}

pub struct DocNodesView {
    pub by_line: Map<u32, NodeState>,
    pub first_lines: Set<u32>,
}

impl View for DocNodes {
    type V = DocNodesView;

    open spec fn view(&self) -> DocNodesView {
        DocNodesView { by_line: self.by_line@, first_lines: self.first_lines@ }
    }
}

impl DocNodes {
    pub fn new() -> (r: Self)
        ensures
            r@.by_line == Map::<u32, NodeState>::empty(),
            r@.first_lines == Set::<u32>::empty(),
    {
        DocNodes { by_line: std::collections::HashMap::new(), first_lines: std::collections::HashSet::new() }
    }

    /// No clap-bound, doc-commented, non-overridden node exists.
    pub fn is_empty(&self) -> (r: bool)
        ensures
            r == self@.by_line.is_empty(),
    {
        self.by_line.is_empty()
    }
}

/// The derives that make a container a clap help source.
pub open spec fn clap_derives() -> Seq<Seq<char>> {
    seq!["Parser"@, "Args"@, "Subcommand"@, "ValueEnum"@, "CommandFactory"@, "Clap"@]
}

/// The derives that turn a container's own doc comment into `--help`
/// text.
pub open spec fn command_about_derives() -> Seq<Seq<char>> {
    seq!["Parser"@, "CommandFactory"@, "Clap"@]
}

/// The attribute namespaces that can carry a help override or the
/// `verbatim_doc_comment` flag.
pub open spec fn clap_namespaces() -> Seq<Seq<char>> {
    seq!["clap"@, "arg"@, "command"@, "value"@]
}

/// The path is the single segment `name`.
pub open spec fn named(m: MetaItem, name: Seq<char>) -> bool {
    m.path@.len() == 1 && m.path@[0]@ == name
}

/// The last segment of the path is one of `names`.
pub open spec fn last_in(m: MetaItem, names: Seq<Seq<char>>) -> bool {
    m.path@.len() > 0 && names.contains(m.path@.last()@)
}

/// Some entry of a `derive(...)` list names one of `names` by its last
/// segment.
pub open spec fn entries_match(entries: Seq<MetaItem>, names: Seq<Seq<char>>) -> bool {
    exists|k: int| 0 <= k < entries.len() && !(entries[k].kind is Lit) && last_in(#[trigger] entries[k], names)
}

/// `m` is a `derive(...)` naming one of `names`, or a `cfg_attr(...)`
/// whose gated attributes hold one.
pub open spec fn meta_has_derive(m: MetaItem, names: Seq<Seq<char>>) -> bool
    decreases m,
{
    match m.kind {
        MetaKind::List(items) => if named(m, "derive"@) {
            entries_match(items@, names)
        } else if named(m, "cfg_attr"@) {
            gated_has_derive(items@, names)
        } else {
            false
        },
        _ => false,
    }
}

/// Among the gated attributes of a `cfg_attr(...)` (every item after the
/// condition), some derive names one of `names`.
pub open spec fn gated_has_derive(items: Seq<MetaItem>, names: Seq<Seq<char>>) -> bool
    decreases items,
{
    if items.len() <= 1 {
        false
    } else {
        gated_has_derive(items.drop_last(), names) || meta_has_derive(items.last(), names)
    }
}

/// Some attribute derives one of `names`, directly or behind `cfg_attr`.
pub open spec fn attrs_have_derive(attrs: Seq<Attribute>, names: Seq<Seq<char>>) -> bool {
    exists|k: int| 0 <= k < attrs.len() && (#[trigger] attrs[k] matches Attribute::Normal(m) && meta_has_derive(m, names))
}

/// The entries of the clap-namespace lists among the gated attributes of
/// a `cfg_attr(...)`, nested `cfg_attr`s looked through.
pub open spec fn gated_namespace_items(items: Seq<MetaItem>) -> Seq<MetaItem>
    decreases items,
{
    if items.len() <= 1 {
        Seq::empty()
    } else {
        gated_namespace_items(items.drop_last()) + meta_namespace_items(items.last())
    }
}

pub open spec fn meta_namespace_items(m: MetaItem) -> Seq<MetaItem>
    decreases m,
{
    match m.kind {
        MetaKind::List(inner) => if last_in(m, clap_namespaces()) {
            inner@
        } else if named(m, "cfg_attr"@) {
            gated_namespace_items(inner@)
        } else {
            Seq::empty()
        },
        _ => Seq::empty(),
    }
}

/// The entries of one attribute's clap-namespace lists: of the attribute
/// itself when it is `#[clap(...)]`, `#[arg(...)]`, `#[command(...)]` or
/// `#[value(...)]`, or of those behind it when it is a `#[cfg_attr(...)]`.
pub open spec fn attr_namespace_items(a: Attribute, through_cfg_attr: bool) -> Seq<MetaItem> {
    match a {
        Attribute::Normal(m) => if m.path@.len() == 1 && clap_namespaces().contains(m.path@[0]@) {
            match m.kind {
                MetaKind::List(inner) => inner@,
                _ => Seq::empty(),
            }
        } else if through_cfg_attr && named(m, "cfg_attr"@) {
            match m.kind {
                MetaKind::List(inner) => gated_namespace_items(inner@),
                _ => Seq::empty(),
            }
        } else {
            Seq::empty()
        },
        Attribute::DocComment(_) => Seq::empty(),
    }
}

/// The entries of every clap-namespace list on a node, in order.
pub open spec fn namespace_items(attrs: Seq<Attribute>, through_cfg_attr: bool) -> Seq<MetaItem>
    decreases attrs.len(),
{
    if attrs.len() == 0 {
        Seq::empty()
    } else {
        namespace_items(attrs.drop_last(), through_cfg_attr) + attr_namespace_items(attrs.last(), through_cfg_attr)
    }
}

/// The entry is what is looked for: an override `key = value` whose
/// last segment is one of `keys`, or the bare word
/// `verbatim_doc_comment`.
pub open spec fn hit(m: MetaItem, keys: Seq<Seq<char>>, want_override: bool) -> bool {
    if want_override {
        m.kind is NameValue && last_in(m, keys)
    } else {
        m.kind is Word && named(m, "verbatim_doc_comment"@)
    }
}

pub open spec fn any_hit(items: Seq<MetaItem>, keys: Seq<Seq<char>>, want_override: bool) -> bool {
    exists|k: int| 0 <= k < items.len() && hit(#[trigger] items[k], keys, want_override)
}

/// Some entry overrides the help text.
pub open spec fn overrides(items: Seq<MetaItem>, keys: Seq<Seq<char>>) -> bool {
    any_hit(items, keys, true)
}

/// Some entry asks for the doc comment verbatim.
pub open spec fn verbatim(items: Seq<MetaItem>) -> bool {
    any_hit(items, Seq::empty(), false)
}

proof fn lemma_any_hit_concat(a: Seq<MetaItem>, b: Seq<MetaItem>, keys: Seq<Seq<char>>, w: bool)
    ensures
        any_hit(a + b, keys, w) == (any_hit(a, keys, w) || any_hit(b, keys, w)),
{
    if any_hit(a + b, keys, w) {
        let k = choose|k: int| 0 <= k < (a + b).len() && hit(#[trigger] (a + b)[k], keys, w);
        if k < a.len() {
            assert(a[k] == (a + b)[k]);
        } else {
            assert(b[k - a.len()] == (a + b)[k]);
        }
    }
    if any_hit(a, keys, w) {
        let k = choose|k: int| 0 <= k < a.len() && hit(#[trigger] a[k], keys, w);
        assert((a + b)[k] == a[k]);
    }
    if any_hit(b, keys, w) {
        let k = choose|k: int| 0 <= k < b.len() && hit(#[trigger] b[k], keys, w);
        assert((a + b)[a.len() + k] == b[k]);
    }
}

/// The offsets of a node's doc comment lines, in order.
pub open spec fn doc_offsets(attrs: Seq<Attribute>) -> Seq<u32>
    decreases attrs.len(),
{
    if attrs.len() == 0 {
        Seq::empty()
    } else {
        doc_offsets(attrs.drop_last()) + match attrs.last() {
            Attribute::DocComment(lo) => seq![lo],
            Attribute::Normal(_) => Seq::empty(),
        }
    }
}

/// `m` with every offset of `los` mapped to `state`.
pub open spec fn map_all(m: Map<u32, NodeState>, los: Seq<u32>, state: NodeState) -> Map<u32, NodeState>
    decreases los.len(),
{
    if los.len() == 0 {
        m
    } else {
        map_all(m, los.drop_last(), state).insert(los.last(), state)
    }
}

/// What recording one node adds: nothing for a node with no doc comment
/// or an overridden help text; otherwise its first line, and each of its
/// lines mapped to `Verbatim` or `Normal`.
pub open spec fn record_spec(
    nodes: DocNodesView,
    attrs: Seq<Attribute>,
    keys: Seq<Seq<char>>,
    through_cfg_attr: bool,
) -> DocNodesView {
    let los = doc_offsets(attrs);
    let items = namespace_items(attrs, through_cfg_attr);
    if los.len() == 0 || overrides(items, keys) {
        nodes
    } else {
        DocNodesView {
            by_line: map_all(
                nodes.by_line,
                los,
                if verbatim(items) {
                    NodeState::Verbatim
                } else {
                    NodeState::Normal
                },
            ),
            first_lines: nodes.first_lines.insert(los[0]),
        }
    }
}

/// Each field's attributes recorded in turn.
pub open spec fn record_fields_spec(
    nodes: DocNodesView,
    fields: Seq<Vec<Attribute>>,
    keys: Seq<Seq<char>>,
    through_cfg_attr: bool,
) -> DocNodesView
    decreases fields.len(),
{
    if fields.len() == 0 {
        nodes
    } else {
        record_spec(
            record_fields_spec(nodes, fields.drop_last(), keys, through_cfg_attr),
            fields.last()@,
            keys,
            through_cfg_attr,
        )
    }
}

/// Each variant, then its fields, recorded in turn.
pub open spec fn record_variants_spec(
    nodes: DocNodesView,
    variants: Seq<Variant>,
    keys: Seq<Seq<char>>,
    through_cfg_attr: bool,
) -> DocNodesView
    decreases variants.len(),
{
    if variants.len() == 0 {
        nodes
    } else {
        let v = variants.last();
        record_fields_spec(
            record_spec(
                record_variants_spec(nodes, variants.drop_last(), keys, through_cfg_attr),
                v.attrs@,
                keys,
                through_cfg_attr,
            ),
            v.fields@,
            keys,
            through_cfg_attr,
        )
    }
}

/// Whether an enum's own doc comment can reach `--help`: not for a
/// `ValueEnum`, unless it also derives a command-producing trait.
pub open spec fn enum_doc_reaches_help(attrs: Seq<Attribute>) -> bool {
    !attrs_have_derive(attrs, seq!["ValueEnum"@]) || attrs_have_derive(attrs, command_about_derives())
}

/// How the collection reads the attributes: `through_cfg_attr` looks for
/// clap-namespace lists behind `#[cfg_attr(...)]` too, and
/// `value_enum_rule` leaves out the own doc comment of a `ValueEnum`.
pub open spec fn item_spec(
    nodes: DocNodesView,
    item: Item,
    keys: Seq<Seq<char>>,
    through_cfg_attr: bool,
    value_enum_rule: bool,
) -> DocNodesView
    decreases item,
{
    match item {
        Item::Struct { attrs, fields } => if attrs_have_derive(attrs@, clap_derives()) {
            record_fields_spec(record_spec(nodes, attrs@, keys, through_cfg_attr), fields@, keys, through_cfg_attr)
        } else {
            nodes
        },
        Item::Enum { attrs, variants } => if attrs_have_derive(attrs@, clap_derives()) {
            record_variants_spec(
                if !value_enum_rule || enum_doc_reaches_help(attrs@) {
                    record_spec(nodes, attrs@, keys, through_cfg_attr)
                } else {
                    nodes
                },
                variants@,
                keys,
                through_cfg_attr,
            )
        } else {
            nodes
        },
        Item::Mod { live, items } => if live {
            items_spec(nodes, items@, keys, through_cfg_attr, value_enum_rule)
        } else {
            nodes
        },
        Item::Other => nodes,
    }
}

/// Each item of a module body walked in turn.
pub open spec fn items_spec(
    nodes: DocNodesView,
    items: Seq<Item>,
    keys: Seq<Seq<char>>,
    through_cfg_attr: bool,
    value_enum_rule: bool,
) -> DocNodesView
    decreases items,
{
    if items.len() == 0 {
        nodes
    } else {
        item_spec(
            items_spec(nodes, items.drop_last(), keys, through_cfg_attr, value_enum_rule),
            items.last(),
            keys,
            through_cfg_attr,
            value_enum_rule,
        )
    }
}

fn is_named(m: &MetaItem, name: &str) -> (r: bool)
    ensures
        r == named(*m, name@),
{
    if m.path.len() != 1 {
        return false;
    }
    let a = chars_of(m.path[0].as_str());
    let b = chars_of(name);
    slice_eq(a.as_slice(), b.as_slice())
}

fn is_last_in(m: &MetaItem, names: &Vec<String>) -> (r: bool)
    ensures
        r == last_in(*m, views(names@)),
{
    let n = m.path.len();
    if n == 0 {
        return false;
    }
    assert(m.path@.last() == m.path@[n - 1]);
    crate::common::contains_string(names, &m.path[n - 1])
}

fn owned(names: &[&str]) -> (r: Vec<String>)
    ensures
        views(r@) == names@.map_values(|s: &str| s@),
{
    let mut r: Vec<String> = Vec::new();
    let mut k: usize = 0;
    while k < names.len()
        invariant
            k <= names@.len(),
            views(r@) == names@.take(k as int).map_values(|s: &str| s@),
        decreases names@.len() - k,
    {
        r.push(names[k].to_owned());
        assert(names@.take(k + 1).map_values(|s: &str| s@) =~= names@.take(k as int).map_values(|s: &str| s@).push(names@[k as int]@));
        assert(views(r@) =~= names@.take(k as int).map_values(|s: &str| s@).push(names@[k as int]@));
        k = k + 1;
    }
    assert(names@.take(names@.len() as int) =~= names@);
    r
}

fn clap_derive_names() -> (r: Vec<String>)
    ensures
        views(r@) == clap_derives(),
{
    let names = ["Parser", "Args", "Subcommand", "ValueEnum", "CommandFactory", "Clap"];
    let r = owned(&names);
    assert(names@.map_values(|s: &str| s@) =~= clap_derives());
    r
}

fn command_about_names() -> (r: Vec<String>)
    ensures
        views(r@) == command_about_derives(),
{
    let names = ["Parser", "CommandFactory", "Clap"];
    let r = owned(&names);
    assert(names@.map_values(|s: &str| s@) =~= command_about_derives());
    r
}

fn value_enum_names() -> (r: Vec<String>)
    ensures
        views(r@) == seq!["ValueEnum"@],
{
    let names = ["ValueEnum"];
    let r = owned(&names);
    assert(names@.map_values(|s: &str| s@) =~= seq!["ValueEnum"@]);
    r
}

fn namespace_names() -> (r: Vec<String>)
    ensures
        views(r@) == clap_namespaces(),
{
    let names = ["clap", "arg", "command", "value"];
    let r = owned(&names);
    assert(names@.map_values(|s: &str| s@) =~= clap_namespaces());
    r
}

fn entries_match_exec(entries: &Vec<MetaItem>, names: &Vec<String>) -> (r: bool)
    ensures
        r == entries_match(entries@, views(names@)),
{
    let mut k: usize = 0;
    while k < entries.len()
        invariant
            k <= entries@.len(),
            forall|j: int| 0 <= j < k ==> !(!(entries@[j].kind is Lit) && last_in(#[trigger] entries@[j], views(names@))),
        decreases entries@.len() - k,
    {
        let lit = match entries[k].kind {
            MetaKind::Lit => true,
            _ => false,
        };
        if !lit && is_last_in(&entries[k], names) {
            return true;
        }
        k = k + 1;
    }
    false
}

/// Whether `m` derives one of `names`, directly or behind `cfg_attr`.
fn meta_has_derive_exec(m: &MetaItem, names: &Vec<String>) -> (r: bool)
    ensures
        r == meta_has_derive(*m, views(names@)),
    decreases m,
{
    match &m.kind {
        MetaKind::List(items) => {
            if is_named(m, "derive") {
                entries_match_exec(items, names)
            } else if is_named(m, "cfg_attr") {
                let mut found = false;
                let mut k: usize = 1;
                if items.len() == 0 {
                    return false;
                }
                assert(items@.take(1).len() == 1);
                while k < items.len()
                    invariant
                        1 <= k <= items@.len(),
                        m.kind == MetaKind::List(*items),
                        found == gated_has_derive(items@.take(k as int), views(names@)),
                    decreases items@.len() - k,
                {
                    proof {
                        assert(items@.take(k + 1).drop_last() =~= items@.take(k as int));
                        assert(items@.take(k + 1).last() == items@[k as int]);
                        assert(decreases_to!(*m => m.kind));
                        assert(m.kind->List_0 == *items);
                        assert(decreases_to!(m.kind => m.kind->List_0));
                        assert(decreases_to!(m.kind => *items));
                        assert(decreases_to!(*items => items@));
                        assert(decreases_to!(items@ => items@[k as int]));
                    }
                    let one = meta_has_derive_exec(&items[k], names);
                    found = found || one;
                    k = k + 1;
                }
                assert(items@.take(items@.len() as int) =~= items@);
                found
            } else {
                false
            }
        },
        _ => false,
    }
}

/// Whether some attribute derives one of `names`.
fn attrs_have_derive_exec(attrs: &Vec<Attribute>, names: &Vec<String>) -> (r: bool)
    ensures
        r == attrs_have_derive(attrs@, views(names@)),
{
    let mut k: usize = 0;
    while k < attrs.len()
        invariant
            k <= attrs@.len(),
            forall|j: int| 0 <= j < k ==> !(#[trigger] attrs@[j] matches Attribute::Normal(m) && meta_has_derive(m, views(names@))),
        decreases attrs@.len() - k,
    {
        if let Attribute::Normal(m) = &attrs[k] {
            if meta_has_derive_exec(m, names) {
                return true;
            }
        }
        k = k + 1;
    }
    false
}

fn hit_exec(m: &MetaItem, keys: &Vec<String>, want_override: bool) -> (r: bool)
    ensures
        r == hit(*m, views(keys@), want_override),
{
    if want_override {
        let nv = match m.kind {
            MetaKind::NameValue => true,
            _ => false,
        };
        nv && is_last_in(m, keys)
    } else {
        let word = match m.kind {
            MetaKind::Word => true,
            _ => false,
        };
        word && is_named(m, "verbatim_doc_comment")
    }
}

fn list_any_hit(items: &Vec<MetaItem>, keys: &Vec<String>, want_override: bool) -> (r: bool)
    ensures
        r == any_hit(items@, views(keys@), want_override),
{
    let mut k: usize = 0;
    while k < items.len()
        invariant
            k <= items@.len(),
            forall|j: int| 0 <= j < k ==> !hit(#[trigger] items@[j], views(keys@), want_override),
        decreases items@.len() - k,
    {
        if hit_exec(&items[k], keys, want_override) {
            return true;
        }
        k = k + 1;
    }
    false
}

/// Whether an entry of `m`'s clap-namespace lists is a hit.
fn meta_namespace_hit(m: &MetaItem, keys: &Vec<String>, want_override: bool, namespaces: &Vec<String>) -> (r: bool)
    requires
        views(namespaces@) == clap_namespaces(),
    ensures
        r == any_hit(meta_namespace_items(*m), views(keys@), want_override),
    decreases m,
{
    match &m.kind {
        MetaKind::List(inner) => {
            if is_last_in(m, namespaces) {
                list_any_hit(inner, keys, want_override)
            } else if is_named(m, "cfg_attr") {
                if inner.len() == 0 {
                    return false;
                }
                let mut found = false;
                let mut k: usize = 1;
                while k < inner.len()
                    invariant
                        1 <= k <= inner@.len(),
                        views(namespaces@) == clap_namespaces(),
                        m.kind == MetaKind::List(*inner),
                        found == any_hit(gated_namespace_items(inner@.take(k as int)), views(keys@), want_override),
                    decreases inner@.len() - k,
                {
                    proof {
                        assert(inner@.take(k + 1).drop_last() =~= inner@.take(k as int));
                        assert(inner@.take(k + 1).last() == inner@[k as int]);
                        lemma_any_hit_concat(
                            gated_namespace_items(inner@.take(k as int)),
                            meta_namespace_items(inner@[k as int]),
                            views(keys@),
                            want_override,
                        );
                        assert(decreases_to!(*m => m.kind));
                        assert(m.kind->List_0 == *inner);
                        assert(decreases_to!(m.kind => m.kind->List_0));
                        assert(decreases_to!(m.kind => *inner));
                        assert(decreases_to!(*inner => inner@));
                        assert(decreases_to!(inner@ => inner@[k as int]));
                    }
                    let one = meta_namespace_hit(&inner[k], keys, want_override, namespaces);
                    found = found || one;
                    k = k + 1;
                }
                assert(inner@.take(inner@.len() as int) =~= inner@);
                found
            } else {
                false
            }
        },
        _ => false,
    }
}

/// Whether an entry of the node's clap-namespace lists is a hit.
fn namespace_hit(attrs: &Vec<Attribute>, through_cfg_attr: bool, keys: &Vec<String>, want_override: bool) -> (r: bool)
    ensures
        r == any_hit(namespace_items(attrs@, through_cfg_attr), views(keys@), want_override),
{
    let namespaces = namespace_names();
    let mut found = false;
    let mut k: usize = 0;
    assert(attrs@.take(0).len() == 0);
    while k < attrs.len()
        invariant
            k <= attrs@.len(),
            views(namespaces@) == clap_namespaces(),
            found == any_hit(namespace_items(attrs@.take(k as int), through_cfg_attr), views(keys@), want_override),
        decreases attrs@.len() - k,
    {
        proof {
            assert(attrs@.take(k + 1).drop_last() =~= attrs@.take(k as int));
            assert(attrs@.take(k + 1).last() == attrs@[k as int]);
            lemma_any_hit_concat(
                namespace_items(attrs@.take(k as int), through_cfg_attr),
                attr_namespace_items(attrs@[k as int], through_cfg_attr),
                views(keys@),
                want_override,
            );
        }
        let one = match &attrs[k] {
            Attribute::Normal(m) => {
                let own = m.path.len() == 1 && crate::common::contains_string(&namespaces, &m.path[0]);
                if own {
                    match &m.kind {
                        MetaKind::List(inner) => list_any_hit(inner, keys, want_override),
                        _ => false,
                    }
                } else if through_cfg_attr && is_named(m, "cfg_attr") {
                    match &m.kind {
                        MetaKind::List(_) => meta_namespace_hit(m, keys, want_override, &namespaces),
                        _ => false,
                    }
                } else {
                    false
                }
            },
            Attribute::DocComment(_) => false,
        };
        found = found || one;
        k = k + 1;
    }
    assert(attrs@.take(attrs@.len() as int) =~= attrs@);
    found
}

/// The offsets of a node's doc comment lines, in order.
fn doc_offsets_exec(attrs: &Vec<Attribute>) -> (r: Vec<u32>)
    ensures
        r@ == doc_offsets(attrs@),
{
    let mut r: Vec<u32> = Vec::new();
    let mut k: usize = 0;
    assert(attrs@.take(0).len() == 0);
    while k < attrs.len()
        invariant
            k <= attrs@.len(),
            r@ == doc_offsets(attrs@.take(k as int)),
        decreases attrs@.len() - k,
    {
        assert(attrs@.take(k + 1).drop_last() =~= attrs@.take(k as int));
        assert(attrs@.take(k + 1).last() == attrs@[k as int]);
        if let Attribute::DocComment(lo) = &attrs[k] {
            r.push(*lo);
            assert(r@ =~= doc_offsets(attrs@.take(k + 1)));
        } else {
            assert(r@ =~= doc_offsets(attrs@.take(k + 1)));
        }
        k = k + 1;
    }
    assert(attrs@.take(attrs@.len() as int) =~= attrs@);
    r
}

/// Records one node.
fn record_node(attrs: &Vec<Attribute>, keys: &Vec<String>, through_cfg_attr: bool, nodes: &mut DocNodes)
    ensures
        final(nodes)@ == record_spec(old(nodes)@, attrs@, views(keys@), through_cfg_attr),
{
    let los = doc_offsets_exec(attrs);
    if los.len() == 0 {
        return;
    }
    if namespace_hit(attrs, through_cfg_attr, keys, true) {
        return;
    }
    let none: Vec<String> = Vec::new();
    assert(views(none@) =~= Seq::<Seq<char>>::empty());
    let state = if namespace_hit(attrs, through_cfg_attr, &none, false) {
        NodeState::Verbatim
    } else {
        NodeState::Normal
    };
    nodes.first_lines.insert(los[0]);
    let ghost start = nodes@.by_line;
    let mut k: usize = 0;
    assert(los@.take(0).len() == 0);
    while k < los.len()
        invariant
            k <= los@.len(),
            nodes@.by_line == map_all(start, los@.take(k as int), state),
            nodes@.first_lines == old(nodes)@.first_lines.insert(los@[0]),
            start == old(nodes)@.by_line,
        decreases los@.len() - k,
    {
        assert(los@.take(k + 1).drop_last() =~= los@.take(k as int));
        assert(los@.take(k + 1).last() == los@[k as int]);
        nodes.by_line.insert(los[k], state);
        k = k + 1;
    }
    assert(los@.take(los@.len() as int) =~= los@);
}

fn record_fields(fields: &Vec<Vec<Attribute>>, keys: &Vec<String>, through_cfg_attr: bool, nodes: &mut DocNodes)
    ensures
        final(nodes)@ == record_fields_spec(old(nodes)@, fields@, views(keys@), through_cfg_attr),
{
    let mut k: usize = 0;
    assert(fields@.take(0).len() == 0);
    while k < fields.len()
        invariant
            k <= fields@.len(),
            nodes@ == record_fields_spec(old(nodes)@, fields@.take(k as int), views(keys@), through_cfg_attr),
        decreases fields@.len() - k,
    {
        assert(fields@.take(k + 1).drop_last() =~= fields@.take(k as int));
        assert(fields@.take(k + 1).last() == fields@[k as int]);
        record_node(&fields[k], keys, through_cfg_attr, nodes);
        k = k + 1;
    }
    assert(fields@.take(fields@.len() as int) =~= fields@);
}

fn record_variants(variants: &Vec<Variant>, keys: &Vec<String>, through_cfg_attr: bool, nodes: &mut DocNodes)
    ensures
        final(nodes)@ == record_variants_spec(old(nodes)@, variants@, views(keys@), through_cfg_attr),
{
    let mut k: usize = 0;
    assert(variants@.take(0).len() == 0);
    while k < variants.len()
        invariant
            k <= variants@.len(),
            nodes@ == record_variants_spec(old(nodes)@, variants@.take(k as int), views(keys@), through_cfg_attr),
        decreases variants@.len() - k,
    {
        assert(variants@.take(k + 1).drop_last() =~= variants@.take(k as int));
        assert(variants@.take(k + 1).last() == variants@[k as int]);
        record_node(&variants[k].attrs, keys, through_cfg_attr, nodes);
        record_fields(&variants[k].fields, keys, through_cfg_attr, nodes);
        k = k + 1;
    }
    assert(variants@.take(variants@.len() as int) =~= variants@);
}

/// Walks one item: a clap-derived struct records itself and its
/// fields; a clap-derived enum its own doc (unless it cannot reach
/// `--help`), its variants and their fields; a live inline module its
/// items.
fn walk_item(
    item: &Item,
    keys: &Vec<String>,
    through_cfg_attr: bool,
    value_enum_rule: bool,
    derives: &Vec<String>,
    nodes: &mut DocNodes,
)
    requires
        views(derives@) == clap_derives(),
    ensures
        final(nodes)@ == item_spec(old(nodes)@, *item, views(keys@), through_cfg_attr, value_enum_rule),
    decreases item,
{
    match item {
        Item::Struct { attrs, fields } => {
            if attrs_have_derive_exec(attrs, derives) {
                record_node(attrs, keys, through_cfg_attr, nodes);
                record_fields(fields, keys, through_cfg_attr, nodes);
            }
        },
        Item::Enum { attrs, variants } => {
            if attrs_have_derive_exec(attrs, derives) {
                let reaches = !attrs_have_derive_exec(attrs, &value_enum_names())
                    || attrs_have_derive_exec(attrs, &command_about_names());
                if !value_enum_rule || reaches {
                    record_node(attrs, keys, through_cfg_attr, nodes);
                }
                record_variants(variants, keys, through_cfg_attr, nodes);
            }
        },
        Item::Mod { live, items } => {
            if *live {
                let mut k: usize = 0;
                assert(items@.take(0).len() == 0);
                while k < items.len()
                    invariant
                        k <= items@.len(),
                        views(derives@) == clap_derives(),
                        *item == (Item::Mod { live: *live, items: *items }),
                        nodes@ == items_spec(old(nodes)@, items@.take(k as int), views(keys@), through_cfg_attr, value_enum_rule),
                    decreases items@.len() - k,
                {
                    proof {
                        assert(items@.take(k + 1).drop_last() =~= items@.take(k as int));
                        assert(items@.take(k + 1).last() == items@[k as int]);
                        assert(item->items == *items);
                        assert(decreases_to!(*item => item->items));
                        assert(decreases_to!(*item => *items));
                        assert(decreases_to!(*items => items@));
                        assert(decreases_to!(items@ => items@[k as int]));
                    }
                    walk_item(&items[k], keys, through_cfg_attr, value_enum_rule, derives, nodes);
                    k = k + 1;
                }
                assert(items@.take(items@.len() as int) =~= items@);
            }
        },
        Item::Other => {},
    }
}

/// Each crate file's items walked in turn.
pub open spec fn crates_spec(
    nodes: DocNodesView,
    crates: Seq<Vec<Item>>,
    keys: Seq<Seq<char>>,
    through_cfg_attr: bool,
    value_enum_rule: bool,
) -> DocNodesView
    decreases crates.len(),
{
    if crates.len() == 0 {
        nodes
    } else {
        items_spec(
            crates_spec(nodes, crates.drop_last(), keys, through_cfg_attr, value_enum_rule),
            crates.last()@,
            keys,
            through_cfg_attr,
            value_enum_rule,
        )
    }
}

/// Walks the items of every crate file into `nodes`.
pub fn walk_crates(
    crates: &Vec<Vec<Item>>,
    keys: &Vec<String>,
    through_cfg_attr: bool,
    value_enum_rule: bool,
    nodes: &mut DocNodes,
)
    ensures
        final(nodes)@ == crates_spec(old(nodes)@, crates@, views(keys@), through_cfg_attr, value_enum_rule),
{
    let derives = clap_derive_names();
    let mut c: usize = 0;
    assert(crates@.take(0).len() == 0);
    while c < crates.len()
        invariant
            c <= crates@.len(),
            views(derives@) == clap_derives(),
            nodes@ == crates_spec(old(nodes)@, crates@.take(c as int), views(keys@), through_cfg_attr, value_enum_rule),
        decreases crates@.len() - c,
    {
        assert(crates@.take(c + 1).drop_last() =~= crates@.take(c as int));
        assert(crates@.take(c + 1).last() == crates@[c as int]);
        let items = &crates[c];
        let ghost before = nodes@;
        let mut k: usize = 0;
        assert(items@.take(0).len() == 0);
        while k < items.len()
            invariant
                k <= items@.len(),
                views(derives@) == clap_derives(),
                nodes@ == items_spec(before, items@.take(k as int), views(keys@), through_cfg_attr, value_enum_rule),
            decreases items@.len() - k,
        {
            assert(items@.take(k + 1).drop_last() =~= items@.take(k as int));
            assert(items@.take(k + 1).last() == items@[k as int]);
            walk_item(&items[k], keys, through_cfg_attr, value_enum_rule, &derives, nodes);
            k = k + 1;
        }
        assert(items@.take(items@.len() as int) =~= items@);
        c = c + 1;
    }
    assert(crates@.take(crates@.len() as int) =~= crates@);
}

/// The doc-node map of every clap-derived container in the crate files:
/// clap's own help-override keys, clap-namespace lists looked for behind
/// `#[cfg_attr(...)]` too, and a `ValueEnum`'s own doc comment left out.
pub fn collect_doc_nodes(crates: &Vec<Vec<Item>>) -> (r: DocNodes)
    ensures
        r@ == crates_spec(
            DocNodesView { by_line: Map::empty(), first_lines: Set::empty() },
            crates@,
            seq!["about"@, "long_about"@, "help"@, "long_help"@],
            true,
            true,
        ),
{
    let fixed = crate::clap_help_markdown::override_keys();
    let keys = owned(fixed.as_slice());
    assert(fixed@.map_values(|s: &str| s@) =~= seq!["about"@, "long_about"@, "help"@, "long_help"@]);
    let mut nodes = DocNodes::new();
    walk_crates(crates, &keys, true, true, &mut nodes);
    nodes
}

} // verus!
