//! The `import_granularity` rule: one project-wide shape for runs of
//! adjacent `use` statements — one statement per crate root (`crate`),
//! per module (`module`, the default) or per imported item (`item`).
//! A run that is not already in the configured shape is reported with
//! its canonical rewrite.
use vstd::prelude::*;

pub mod config;
pub mod model;
pub mod tree;
pub mod check;
pub mod render;

use crate::diagnostic::{Applicability, Diagnostic, DiagnosticModel, Part, PartModel, Suggestion, SuggestionModel};
use crate::import_granularity::check::{compliant, is_compliant, stmt_views};
use crate::import_granularity::config::{Config, SelfMerge, Style};
use crate::import_granularity::model::{leaf_views, stmt_wf, Leaf, LeafView, StmtInfo, StmtView};
use crate::import_granularity::render::{render, render_crate_self, render_crate_self_spec, render_spec};
use crate::ordering::{sort_strings, str_leq, views};
use crate::text::{chars_of, find_sub, first_sub, push_all, push_str, slice_eq, string_of};

verus! {

/// How an attribute on a `use` statement bears on merging.
#[derive(Debug, Clone, Copy, PartialEq, Eq, Structural)]
pub enum AttrClass {
    /// Documentation text: `///`, `//!` or `#[doc = "..."]`.
    Doc,
    /// `#[cfg(...)]` or `#[cfg_attr(...)]`.
    Cfg,
    /// Anything else, including `#[doc(hidden)]`, which changes the API.
    Other,
}

pub open spec fn attr_class_spec(doc_comment: bool, name: Seq<char>, name_value: bool) -> AttrClass {
    if doc_comment || (name == seq!['d', 'o', 'c'] && name_value) {
        AttrClass::Doc
    } else if name == seq!['c', 'f', 'g'] || name == seq!['c', 'f', 'g', '_', 'a', 't', 't', 'r'] {
        AttrClass::Cfg
    } else {
        AttrClass::Other
    }
}

/// Classifies an attribute: `doc_comment` for a `///` / `//!` comment,
/// `name` the attribute's name when its path is a single identifier,
/// `name_value` for the `name = value` form. Only documentation text
/// counts as a doc comment; the list form `#[doc(hidden)]` is a real
/// attribute.
pub fn attr_class(doc_comment: bool, name: &str, name_value: bool) -> (c: AttrClass)
    ensures
        c == attr_class_spec(doc_comment, name@, name_value),
{
    let n = chars_of(name);
    let doc = vec!['d', 'o', 'c'];
    let cfg = vec!['c', 'f', 'g'];
    let cfg_attr = vec!['c', 'f', 'g', '_', 'a', 't', 't', 'r'];
    assert(doc@ =~= seq!['d', 'o', 'c']);
    assert(cfg@ =~= seq!['c', 'f', 'g']);
    assert(cfg_attr@ =~= seq!['c', 'f', 'g', '_', 'a', 't', 't', 'r']);
    if doc_comment || (slice_eq(n.as_slice(), doc.as_slice()) && name_value) {
        AttrClass::Doc
    } else if slice_eq(n.as_slice(), cfg.as_slice()) || slice_eq(n.as_slice(), cfg_attr.as_slice()) {
        AttrClass::Cfg
    } else {
        AttrClass::Other
    }
}

/// An attribute of a `use` statement: its source text and class.
pub struct AttrText {
    pub text: String,
    pub class: AttrClass,
}

/// One `use` statement admitted into the group analysis.
pub struct UseEntry {
    pub info: StmtInfo,
    /// Source text of every attribute, in order, reproduced verbatim on
    /// each rendered statement.
    pub attrs: Vec<String>,
    /// Source text of the non-doc attributes, sorted: two statements that
    /// differ here cannot be merged without changing what compiles.
    pub nondoc_attrs: Vec<String>,
    /// Visibility text ending in a space (`"pub "`), or empty.
    pub vis: String,
    /// What decides whether two adjacent statements may share a group:
    /// the visibility (when respected) and the sorted attributes that
    /// count under the `respect_*` settings.
    pub group_vis: String,
    pub group_attrs: Vec<String>,
    /// A doc-commented statement (under `respect_doc_comments`) is never
    /// merged with a neighbour.
    pub force_singleton: bool,
}

pub struct UseEntryView {
    pub info: StmtView,
    pub attrs: Seq<Seq<char>>,
    pub nondoc_attrs: Seq<Seq<char>>,
    pub vis: Seq<char>,
    pub group_vis: Seq<char>,
    pub group_attrs: Seq<Seq<char>>,
    pub force_singleton: bool,
}

impl View for UseEntry {
    type V = UseEntryView;

    open spec fn view(&self) -> UseEntryView {
        UseEntryView {
            info: self.info@,
            attrs: views(self.attrs@),
            nondoc_attrs: views(self.nondoc_attrs@),
            vis: self.vis@,
            group_vis: self.group_vis@,
            group_attrs: views(self.group_attrs@),
            force_singleton: self.force_singleton,
        }
    }
}

pub open spec fn entry_views(s: Seq<UseEntry>) -> Seq<UseEntryView> {
    s.map_values(|e: UseEntry| e@)
}

/// A finding for one run of statements.
pub enum Violation {
    /// The run is flagged, but merging would change what is compiled or
    /// exported, so no rewrite is offered.
    ManualMerge,
    /// The run can be rewritten to the given text.
    Reorganize { suggestions: Vec<String>, applicability: Applicability },
}

pub enum ViolationView {
    ManualMerge,
    Reorganize { suggestions: Seq<Seq<char>>, applicability: Applicability },
}

impl View for Violation {
    type V = ViolationView;

    open spec fn view(&self) -> ViolationView {
        match self {
            Violation::ManualMerge => ViolationView::ManualMerge,
            Violation::Reorganize { suggestions, applicability } => ViolationView::Reorganize {
                suggestions: views(suggestions@),
                applicability: *applicability,
            },
        }
    }
}

/// The rule with its configuration.
pub struct ImportGranularity {
    style: Style,
    self_merge: Option<SelfMerge>,
    respect_cfg_blocks: bool,
    respect_visibility: bool,
    respect_doc_comments: bool,
}

/// The texts of the attributes that `keep` admits, in order.
pub open spec fn kept_texts(attrs: Seq<(Seq<char>, AttrClass)>, keep: spec_fn(AttrClass) -> bool) -> Seq<
    Seq<char>,
>
    decreases attrs.len(),
{
    if attrs.len() == 0 {
        Seq::empty()
    } else if keep(attrs.last().1) {
        kept_texts(attrs.drop_last(), keep).push(attrs.last().0)
    } else {
        kept_texts(attrs.drop_last(), keep)
    }
}

pub open spec fn attr_views(attrs: Seq<AttrText>) -> Seq<(Seq<char>, AttrClass)> {
    attrs.map_values(|a: AttrText| (a.text@, a.class))
}

/// The statements of a run joined one per line, each indented by `pad`.
pub open spec fn join_lines(stmts: Seq<Seq<char>>, pad: Seq<char>) -> Seq<char>
    decreases stmts.len(),
{
    if stmts.len() == 0 {
        Seq::empty()
    } else if stmts.len() == 1 {
        stmts[0]
    } else {
        join_lines(stmts.drop_last(), pad) + seq!['\n'] + pad + stmts.last()
    }
}

/// What precedes `use` in every rendered statement: each attribute on a
/// line of its own, then the visibility.
pub open spec fn prefix_text(attrs: Seq<Seq<char>>, pad: Seq<char>, vis: Seq<char>) -> Seq<char>
    decreases attrs.len(),
{
    if attrs.len() == 0 {
        vis
    } else {
        attrs[0] + seq!['\n'] + pad + prefix_text(attrs.drop_first(), pad, vis)
    }
}

pub open spec fn use_kw() -> Seq<char> {
    seq!['u', 's', 'e', ' ']
}

/// The full replacement text for `bodies`.
pub open spec fn full_text(bodies: Seq<Seq<char>>, prefix: Seq<char>, pad: Seq<char>) -> Seq<char> {
    join_lines(bodies.map_values(|b: Seq<char>| prefix + use_kw() + b + seq![';']), pad)
}

pub open spec fn spaces(n: nat) -> Seq<char> {
    Seq::new(n, |i: int| ' ')
}

/// The leaves of every statement of a run, in order.
pub open spec fn group_leaves(g: Seq<UseEntryView>) -> Seq<LeafView>
    decreases g.len(),
{
    if g.len() == 0 {
        Seq::empty()
    } else {
        group_leaves(g.drop_last()) + g.last().info.leaves
    }
}

/// The replaced text holds a comment the rewrite would drop.
pub open spec fn holds_comment(text: Option<Seq<char>>) -> bool {
    match text {
        Some(t) => first_sub(t, seq!['/', '/']) >= 0 || first_sub(t, seq!['/', '*']) >= 0,
        None => false,
    }
}

pub open spec fn group_stmts(g: Seq<UseEntryView>) -> Seq<StmtView> {
    g.map_values(|e: UseEntryView| e.info)
}

impl ImportGranularity {
    pub closed spec fn style_of(&self) -> Style {
        self.style
    }

    pub closed spec fn self_merge_of(&self) -> Option<SelfMerge> {
        self.self_merge
    }

    pub closed spec fn respects(&self) -> (bool, bool, bool) {
        (self.respect_cfg_blocks, self.respect_visibility, self.respect_doc_comments)
    }

    pub fn new(config: &Config) -> (r: Self)
        ensures
            r.style_of() == config.style,
            r.self_merge_of() == config.self_merge,
            r.respects() == (config.respect_cfg_blocks, config.respect_visibility, config.respect_doc_comments),
    {
        ImportGranularity {
            style: config.style,
            self_merge: config.self_merge,
            respect_cfg_blocks: config.respect_cfg_blocks,
            respect_visibility: config.respect_visibility,
            respect_doc_comments: config.respect_doc_comments,
        }
    }

    /// The headline of a finding under the configured style.
    pub fn message(&self) -> (r: &'static str)
        ensures
            r@ == match self.style_of() {
                Style::Crate => "imports are not collapsed to one `use` per crate root"@,
                Style::Module => "imports are not grouped into one `use` per module"@,
                Style::Item => "imports are not split into one `use` per item"@,
            },
    {
        match self.style {
            Style::Crate => "imports are not collapsed to one `use` per crate root",
            Style::Module => "imports are not grouped into one `use` per module",
            Style::Item => "imports are not split into one `use` per item",
        }
    }

    pub open spec fn counts_in_key(&self, c: AttrClass) -> bool {
        match c {
            AttrClass::Doc => self.respects().2,
            AttrClass::Cfg => self.respects().0,
            AttrClass::Other => true,
        }
    }

    pub open spec fn use_entry_spec(&self, info: StmtView, attrs: Seq<(Seq<char>, AttrClass)>, vis: Seq<char>) -> UseEntryView {
        UseEntryView {
            info,
            attrs: kept_texts(attrs, |c: AttrClass| true),
            nondoc_attrs: kept_texts(attrs, |c: AttrClass| c != AttrClass::Doc).sort_by(str_leq()),
            vis,
            group_vis: if self.respects().1 { vis } else { Seq::empty() },
            group_attrs: kept_texts(attrs, |c: AttrClass| self.counts_in_key(c)).sort_by(str_leq()),
            force_singleton: self.respects().2 && exists|k: int| 0 <= k < attrs.len() && (#[trigger] attrs[k]).1 == AttrClass::Doc,
        }
    }

    /// Admits one `use` statement into the group analysis, given its
    /// flattened form, its attributes and its visibility text. Attributes
    /// are compared as a set, so two statements with the same attributes
    /// in a different order still merge.
    pub fn use_entry(&self, info: StmtInfo, attrs: &[AttrText], vis: String) -> (r: UseEntry)
        ensures
            r@ == self.use_entry_spec(info@, attr_views(attrs@), vis@),
            r.info@ == info@,
    {
        let ghost av = attr_views(attrs@);
        let mut all: Vec<String> = Vec::new();
        let mut nondoc: Vec<String> = Vec::new();
        let mut key: Vec<String> = Vec::new();
        let mut has_doc = false;
        let mut i: usize = 0;
        while i < attrs.len()
            invariant
                i <= attrs@.len(),
                av == attr_views(attrs@),
                views(all@) == kept_texts(av.take(i as int), |c: AttrClass| true),
                views(nondoc@) == kept_texts(av.take(i as int), |c: AttrClass| c != AttrClass::Doc),
                views(key@) == kept_texts(av.take(i as int), |c: AttrClass| self.counts_in_key(c)),
                has_doc == exists|k: int| 0 <= k < i && (#[trigger] av[k]).1 == AttrClass::Doc,
            decreases attrs@.len() - i,
        {
            let a = &attrs[i];
            assert(av.take(i + 1).drop_last() =~= av.take(i as int));
            assert(av.take(i + 1).last() == av[i as int]);
            let counted = match a.class {
                AttrClass::Doc => self.respect_doc_comments,
                AttrClass::Cfg => self.respect_cfg_blocks,
                AttrClass::Other => true,
            };
            let ghost (b1, b2, b3) = (all@, nondoc@, key@);
            if counted {
                key.push(a.text.clone());
                assert(views(key@) =~= views(b3).push(a.text@));
            }
            if a.class != AttrClass::Doc {
                nondoc.push(a.text.clone());
                assert(views(nondoc@) =~= views(b2).push(a.text@));
            } else {
                has_doc = true;
            }
            all.push(a.text.clone());
            assert(views(all@) =~= views(b1).push(a.text@));
            i = i + 1;
        }
        assert(av.take(attrs@.len() as int) =~= av);
        let group_attrs = sort_strings(&key);
        let nondoc_attrs = sort_strings(&nondoc);
        let group_vis = if self.respect_visibility {
            vis.clone()
        } else {
            String::new()
        };
        let force_singleton = self.respect_doc_comments && has_doc;
        UseEntry { info, attrs: all, nondoc_attrs, vis, group_vis, group_attrs, force_singleton }
    }

    /// The statements the rewrite renders to: the `self`-folded shape
    /// under `crate` style with `self_merge = fold`, else the style's
    /// plain shape.
    pub open spec fn bodies_spec(&self, leaves: Seq<LeafView>) -> Seq<Seq<char>> {
        if self.style_of() == Style::Crate && self.self_merge_of() == Some(SelfMerge::Fold) {
            render_crate_self_spec(leaves)
        } else {
            render_spec(self.style_of(), leaves)
        }
    }

    /// A `crate`-style merge with `self_merge` unset whose `self`-folded
    /// shape differs from the plain one: which is right depends on
    /// whether the bare name also binds a value or a macro.
    pub open spec fn ambiguous_spec(&self, leaves: Seq<LeafView>) -> bool {
        &&& self.style_of() == Style::Crate
        &&& self.self_merge_of() is None
        &&& render_crate_self_spec(leaves) != render_spec(self.style_of(), leaves)
    }

    pub open spec fn process_spec(
        &self,
        g: Seq<UseEntryView>,
        indent: nat,
        replaced: Option<Seq<char>>,
    ) -> Option<ViolationView> {
        let leaves = group_leaves(g);
        let bodies = self.bodies_spec(leaves);
        let prefix = prefix_text(g[0].attrs, spaces(indent), g[0].vis);
        if g.len() == 0 || compliant(self.style_of(), self.self_merge_of(), group_stmts(g)) || bodies.len()
            == 0 {
            None
        } else if exists|k: int|
            0 <= k < g.len() && ((#[trigger] g[k]).vis != g[0].vis || g[k].nondoc_attrs
                != g[0].nondoc_attrs) {
            Some(ViolationView::ManualMerge)
        } else if self.ambiguous_spec(leaves) {
            Some(
                ViolationView::Reorganize {
                    suggestions: seq![
                        full_text(render_crate_self_spec(leaves), prefix, spaces(indent)),
                        full_text(bodies, prefix, spaces(indent)),
                    ],
                    applicability: Applicability::MaybeIncorrect,
                },
            )
        } else {
            Some(
                ViolationView::Reorganize {
                    suggestions: seq![full_text(bodies, prefix, spaces(indent))],
                    applicability: if holds_comment(replaced) || exists|k: int|
                        0 <= k < g.len() && (#[trigger] g[k]).attrs != g[0].attrs {
                        Applicability::MaybeIncorrect
                    } else {
                        Applicability::MachineApplicable
                    },
                },
            )
        }
    }

    /// Decides a run of mergeable statements: nothing when it is empty,
    /// already in the configured shape, or renders to nothing; a finding
    /// without a rewrite when its statements differ in visibility or in
    /// non-doc attributes (merging would change what compiles or is
    /// exported); else the canonical rewrite, each statement carrying the
    /// first statement's attributes and visibility, lines indented by
    /// `indent` spaces. The rewrite is `MaybeIncorrect` when `replaced`,
    /// the text being replaced, holds a comment, or when the statements'
    /// attributes differ (only the first one's are kept).
    pub fn process_group(&self, group: &[UseEntry], indent: usize, replaced: Option<&str>) -> (r:
        Option<Violation>)
        requires
            forall|i: int| 0 <= i < group@.len() ==> stmt_wf(#[trigger] group@[i].info@),
        ensures
            match r {
                Some(v) => self.process_spec(entry_views(group@), indent as nat, opt_str(replaced)) == Some(v@),
                None => self.process_spec(entry_views(group@), indent as nat, opt_str(replaced)) is None,
            },
    {
        let ghost g = entry_views(group@);
        if group.len() == 0 {
            return None;
        }
        let mut stmts: Vec<&StmtInfo> = Vec::new();
        let mut leaves: Vec<Leaf> = Vec::new();
        let mut i: usize = 0;
        while i < group.len()
            invariant
                i <= group@.len(),
                g == entry_views(group@),
                stmt_views(stmts@) == group_stmts(g.take(i as int)),
                leaf_views(leaves@) == group_leaves(g.take(i as int)),
                forall|k: int| 0 <= k < group@.len() ==> stmt_wf(#[trigger] group@[k].info@),
            decreases group@.len() - i,
        {
            assert(g.take(i + 1).drop_last() =~= g.take(i as int));
            assert(g.take(i + 1).last() == group@[i as int]@);
            let ghost sb = stmts@;
            stmts.push(&group[i].info);
            assert(stmt_views(stmts@) =~= stmt_views(sb).push(group@[i as int].info@));
            assert(group_stmts(g.take(i + 1)) =~= group_stmts(g.take(i as int)).push(g[i as int].info));
            assert(stmt_views(stmts@) =~= group_stmts(g.take(i + 1)));
            let mut k: usize = 0;
            let ghost base = leaves@;
            while k < group[i].info.leaves.len()
                invariant
                    i < group@.len(),
                    k <= group@[i as int].info.leaves@.len(),
                    leaf_views(leaves@) == leaf_views(base) + leaf_views(group@[i as int].info.leaves@.take(k as int)),
                decreases group@[i as int].info.leaves@.len() - k,
            {
                let ghost before = leaves@;
                leaves.push(group[i].info.leaves[k].clone_leaf());
                assert(leaf_views(group@[i as int].info.leaves@.take(k + 1)) =~= leaf_views(
                    group@[i as int].info.leaves@.take(k as int),
                ).push(group@[i as int].info.leaves@[k as int]@));
                assert(leaf_views(leaves@) =~= leaf_views(before).push(group@[i as int].info.leaves@[k as int]@));
                k = k + 1;
            }
            assert(group@[i as int].info.leaves@.take(group@[i as int].info.leaves@.len() as int) =~= group@[i as int].info.leaves@);
            assert(leaf_views(leaves@) =~= group_leaves(g.take(i + 1)));
            i = i + 1;
        }
        assert(g.take(group@.len() as int) =~= g);
        proof {
            assert forall|k: int| 0 <= k < stmts@.len() implies stmt_wf(#[trigger] stmts@[k]@) by {
                assert(stmt_views(stmts@)[k] == group_stmts(g)[k]);
            }
            lemma_group_leaves_wf(g);
            assert forall|k: int| 0 <= k < leaves@.len() implies crate::import_granularity::model::leaf_wf(#[trigger] leaves@[k]@) by {
                assert(leaf_views(leaves@)[k] == leaves@[k]@);
            }
        }
        if is_compliant(self.style, self.self_merge, stmts.as_slice()) {
            return None;
        }
        let plain = render(self.style, leaves.as_slice());
        let folded = match self.style {
            Style::Crate => Some(render_crate_self(leaves.as_slice())),
            _ => None,
        };
        let fold_forced = match (self.style, self.self_merge) {
            (Style::Crate, Some(SelfMerge::Fold)) => true,
            _ => false,
        };
        let bodies = if fold_forced {
            match &folded {
                Some(f) => clone_strings(f),
                None => clone_strings(&plain),
            }
        } else {
            clone_strings(&plain)
        };
        if bodies.len() == 0 {
            return None;
        }
        let first = &group[0];
        let mut j: usize = 0;
        while j < group.len()
            invariant
                j <= group@.len(),
                g == entry_views(group@),
                first == group@[0],
                stmt_views(stmts@) == group_stmts(g),
                !compliant(self.style_of(), self.self_merge_of(), group_stmts(g)),
                views(bodies@) == self.bodies_spec(group_leaves(g)),
                bodies@.len() > 0,
                forall|k: int| 0 <= k < j ==> (#[trigger] g[k]).vis == g[0].vis && g[k].nondoc_attrs == g[0].nondoc_attrs,
            decreases group@.len() - j,
        {
            if group[j].vis != first.vis || !strings_eq(&group[j].nondoc_attrs, &first.nondoc_attrs) {
                assert(g[j as int].vis != g[0].vis || g[j as int].nondoc_attrs != g[0].nondoc_attrs);
                return Some(Violation::ManualMerge);
            }
            j = j + 1;
        }
        let mut pad: Vec<char> = Vec::new();
        let mut n: usize = 0;
        while n < indent
            invariant
                n <= indent,
                pad@ == spaces(n as nat),
            decreases indent - n,
        {
            pad.push(' ');
            assert(pad@ =~= spaces((n + 1) as nat));
            n = n + 1;
        }
        let prefix = build_prefix(&first.attrs, &pad, &first.vis);
        let text = build_full(&bodies, &prefix, &pad);
        let ambiguous = match (&folded, self.self_merge) {
            (Some(f), None) => !strings_eq(f, &plain),
            _ => false,
        };
        if ambiguous {
            let folded_text = match &folded {
                Some(f) => build_full(f, &prefix, &pad),
                None => String::new(),
            };
            let suggestions = vec![folded_text, text];
            assert(views(suggestions@) =~= seq![suggestions@[0]@, suggestions@[1]@]);
            return Some(Violation::Reorganize { suggestions, applicability: Applicability::MaybeIncorrect });
        }
        let has_comment = match replaced {
            Some(t) => {
                let c = chars_of(t);
                let slash = vec!['/', '/'];
                let star = vec!['/', '*'];
                assert(slash@ =~= seq!['/', '/']);
                assert(star@ =~= seq!['/', '*']);
                find_sub(c.as_slice(), slash.as_slice()).is_some() || find_sub(c.as_slice(), star.as_slice()).is_some()
            },
            None => false,
        };
        let mut drops_doc = false;
        let mut j: usize = 0;
        while j < group.len()
            invariant
                j <= group@.len(),
                g == entry_views(group@),
                first == group@[0],
                drops_doc == exists|k: int| 0 <= k < j && (#[trigger] g[k]).attrs != g[0].attrs,
            decreases group@.len() - j,
        {
            if !strings_eq(&group[j].attrs, &first.attrs) {
                assert(g[j as int].attrs != g[0].attrs);
                drops_doc = true;
            }
            j = j + 1;
        }
        let applicability = if has_comment || drops_doc {
            Applicability::MaybeIncorrect
        } else {
            Applicability::MachineApplicable
        };
        let suggestions = vec![text];
        assert(views(suggestions@) =~= seq![suggestions@[0]@]);
        Some(Violation::Reorganize { suggestions, applicability })
    }

    /// The diagnostic for a finding.
    pub fn report(&self, violation: &Violation) -> (d: Diagnostic)
        ensures
            d@ == report_spec(self.style_of(), violation@),
    {
        let message = self.message().to_owned();
        let parts = match violation {
            Violation::ManualMerge => vec![Part::Help("these statements differ in visibility or `#[cfg(...)]`; merge them by hand to avoid changing what is compiled or exported".to_owned())],
            Violation::Reorganize { suggestions, applicability } => {
                let mut parts: Vec<Part> = Vec::new();
                let mut k: usize = 0;
                while k < suggestions.len()
                    invariant
                        k <= suggestions@.len(),
                        parts@.map_values(|p: Part| p@) == reorganize_parts(views(suggestions@.take(k as int)), *applicability),
                    decreases suggestions@.len() - k,
                {
                    let ghost before = parts@;
                    parts.push(Part::Suggest(Suggestion {
                        message: "reorganize the imports".to_owned(),
                        replacement: suggestions[k].clone(),
                        appended: None,
                        applicability: *applicability,
                    }));
                    assert(views(suggestions@.take(k + 1)) =~= views(suggestions@.take(k as int)).push(suggestions@[k as int]@));
                    assert(parts@.map_values(|p: Part| p@) =~= before.map_values(|p: Part| p@).push(parts@[k as int]@));
                    k = k + 1;
                }
                assert(suggestions@.take(suggestions@.len() as int) =~= suggestions@);
                parts
            },
        };
        let d = Diagnostic { message, parts };
        assert(d@.parts =~= report_spec(self.style_of(), violation@).parts);
        d
    }
}

/// Statement `i` of a module body joins the run of statement `i - 1`:
/// both are admitted `use` statements, neither is forced to stand
/// alone, and their grouping keys agree.
pub open spec fn joins(items: Seq<Option<UseEntryView>>, i: int) -> bool {
    &&& 0 < i < items.len()
    &&& items[i - 1] is Some
    &&& items[i] is Some
    &&& !items[i - 1]->0.force_singleton
    &&& !items[i]->0.force_singleton
    &&& items[i - 1]->0.group_vis == items[i]->0.group_vis
    &&& items[i - 1]->0.group_attrs == items[i]->0.group_attrs
}

/// Statement `i` begins a run.
pub open spec fn run_start(items: Seq<Option<UseEntryView>>, i: int) -> bool {
    0 <= i < items.len() && items[i] is Some && !joins(items, i)
}

pub open spec fn item_views(items: Seq<Option<UseEntry>>) -> Seq<Option<UseEntryView>> {
    items.map_values(|o: Option<UseEntry>| match o {
        Some(e) => Some(e@),
        None => None,
    })
}

/// Statement `i` of `items` joins the run of statement `i - 1`.
fn joins_exec(items: &[Option<UseEntry>], i: usize) -> (r: bool)
    requires
        0 < i < items@.len(),
    ensures
        r == joins(item_views(items@), i as int),
{
    let ghost iv = item_views(items@);
    match (&items[i - 1], &items[i]) {
        (Some(a), Some(b)) => {
            assert(iv[i - 1] == Some(a@) && iv[i as int] == Some(b@));
            !a.force_singleton && !b.force_singleton && a.group_vis == b.group_vis && strings_eq(
                &a.group_attrs,
                &b.group_attrs,
            )
        },
        _ => false,
    }
}

impl ImportGranularity {
    /// The runs of a module body's items that are decided together, as
    /// `(start, end)` index ranges in order: each run is a maximal stretch
    /// of adjacent `use` statements (`Some`) that share a grouping key,
    /// except that a statement forced to stand alone is a run of its own.
    /// Any other item (`None`) ends the current run.
    pub fn check_items(&self, items: &[Option<UseEntry>]) -> (runs: Vec<(usize, usize)>)
        ensures
            forall|k: int| 0 <= k < runs@.len() ==> {
                let (s, t) = #[trigger] runs@[k];
                &&& s < t <= items@.len()
                &&& run_start(item_views(items@), s as int)
                &&& forall|m: int| s < m < t ==> joins(item_views(items@), m)
                &&& t == items@.len() || !joins(item_views(items@), t as int)
            },
            forall|k: int, l: int| 0 <= k < l < runs@.len() ==> (#[trigger] runs@[k]).0 < (#[trigger] runs@[l]).0,
            forall|i: int| run_start(item_views(items@), i) ==> exists|k: int| 0 <= k < runs@.len() && (#[trigger] runs@[k]).0 == i,
    {
        let ghost iv = item_views(items@);
        let mut runs: Vec<(usize, usize)> = Vec::new();
        let mut i: usize = 0;
        while i < items.len()
            invariant
                i <= items@.len(),
                iv == item_views(items@),
                i < items@.len() ==> !joins(iv, i as int),
                forall|k: int| 0 <= k < runs@.len() ==> {
                    let (s, t) = #[trigger] runs@[k];
                    &&& s < t <= i
                    &&& run_start(iv, s as int)
                    &&& forall|m: int| s < m < t ==> joins(iv, m)
                    &&& t == items@.len() || !joins(iv, t as int)
                },
                forall|k: int, l: int| 0 <= k < l < runs@.len() ==> (#[trigger] runs@[k]).0 < (#[trigger] runs@[l]).0,
                forall|j: int| 0 <= j < i && run_start(iv, j) ==> exists|k: int| 0 <= k < runs@.len() && (#[trigger] runs@[k]).0 == j,
            decreases items@.len() - i,
        {
            if items[i].is_none() {
                assert(iv[i as int] is None);
                proof {
                    if i + 1 < items@.len() {
                        assert(!joins(iv, i + 1));
                    }
                }
                i = i + 1;
                continue;
            }
            assert(iv[i as int] is Some);
            let start = i;
            i = i + 1;
            while i < items.len() && joins_exec(items, i)
                invariant
                    start < i <= items@.len(),
                    iv == item_views(items@),
                    forall|m: int| start < m < i ==> joins(iv, m),
                decreases items@.len() - i,
            {
                i = i + 1;
            }
            let ghost old_runs = runs@;
            runs.push((start, i));
            proof {
                assert forall|j: int| 0 <= j < i && run_start(iv, j) implies exists|k: int| 0 <= k < runs@.len() && (#[trigger] runs@[k]).0 == j by {
                    if j < start {
                        let k = choose|k: int| 0 <= k < old_runs.len() && (#[trigger] old_runs[k]).0 == j;
                        assert(runs@[k] == old_runs[k]);
                    } else if j == start {
                        assert(runs@[old_runs.len() as int].0 == j);
                    } else {
                        assert(joins(iv, j));
                    }
                }
                assert forall|k: int, l: int| 0 <= k < l < runs@.len() implies (#[trigger] runs@[k]).0 < (#[trigger] runs@[l]).0 by {
                    if l < old_runs.len() {
                        assert(runs@[k] == old_runs[k] && runs@[l] == old_runs[l]);
                    } else {
                        assert(runs@[k] == old_runs[k]);
                    }
                }
            }
        }
        runs
    }
}

pub open spec fn reorganize_parts(suggestions: Seq<Seq<char>>, applicability: Applicability) -> Seq<PartModel> {
    suggestions.map_values(|s: Seq<char>| PartModel::Suggest(SuggestionModel {
        message: "reorganize the imports"@,
        replacement: s,
        appended: None,
        applicability,
    }))
}

pub open spec fn report_spec(style: Style, v: ViolationView) -> DiagnosticModel {
    DiagnosticModel {
        message: match style {
            Style::Crate => "imports are not collapsed to one `use` per crate root"@,
            Style::Module => "imports are not grouped into one `use` per module"@,
            Style::Item => "imports are not split into one `use` per item"@,
        },
        parts: match v {
            ViolationView::ManualMerge => seq![PartModel::Help("these statements differ in visibility or `#[cfg(...)]`; merge them by hand to avoid changing what is compiled or exported"@)],
            ViolationView::Reorganize { suggestions, applicability } => reorganize_parts(suggestions, applicability),
        },
    }
}

pub open spec fn opt_str(o: Option<&str>) -> Option<Seq<char>> {
    match o {
        Some(s) => Some(s@),
        None => None,
    }
}

proof fn lemma_group_leaves_wf(g: Seq<UseEntryView>)
    requires
        forall|i: int| 0 <= i < g.len() ==> stmt_wf(#[trigger] g[i].info),
    ensures
        forall|i: int| 0 <= i < group_leaves(g).len() ==> crate::import_granularity::model::leaf_wf(#[trigger] group_leaves(g)[i]),
    decreases g.len(),
{
    if g.len() > 0 {
        lemma_group_leaves_wf(g.drop_last());
        let a = group_leaves(g.drop_last());
        let b = g.last().info.leaves;
        assert(stmt_wf(g[g.len() - 1].info));
        assert forall|i: int| 0 <= i < group_leaves(g).len() implies crate::import_granularity::model::leaf_wf(#[trigger] group_leaves(g)[i]) by {
            if i < a.len() {
                assert(group_leaves(g)[i] == a[i]);
            } else {
                assert(group_leaves(g)[i] == b[i - a.len()]);
            }
        }
    }
}

/// Whether two lists of strings are equal.
fn clone_strings(v: &Vec<String>) -> (r: Vec<String>)
    ensures
        views(r@) == views(v@),
{
    let mut out: Vec<String> = Vec::new();
    let mut i: usize = 0;
    while i < v.len()
        invariant
            i <= v@.len(),
            views(out@) == views(v@.take(i as int)),
        decreases v@.len() - i,
    {
        let ghost before = out@;
        out.push(v[i].clone());
        assert(views(out@) =~= views(before).push(v@[i as int]@));
        assert(views(v@.take(i + 1)) =~= views(v@.take(i as int)).push(v@[i as int]@));
        i = i + 1;
    }
    assert(v@.take(v@.len() as int) =~= v@);
    out
}

fn strings_eq(a: &Vec<String>, b: &Vec<String>) -> (r: bool)
    ensures
        r == (views(a@) == views(b@)),
{
    crate::import_granularity::model::segs_eq(a.as_slice(), b.as_slice())
}

fn build_prefix(attrs: &Vec<String>, pad: &Vec<char>, vis: &String) -> (r: Vec<char>)
    ensures
        r@ == prefix_text(views(attrs@), pad@, vis@),
{
    let mut out: Vec<char> = Vec::new();
    let mut i: usize = 0;
    assert(views(attrs@).skip(0) =~= views(attrs@));
    assert(out@ + prefix_text(views(attrs@), pad@, vis@) =~= prefix_text(views(attrs@), pad@, vis@));
    while i < attrs.len()
        invariant
            i <= attrs@.len(),
            out@ + prefix_text(views(attrs@).skip(i as int), pad@, vis@) == prefix_text(views(attrs@), pad@, vis@),
        decreases attrs@.len() - i,
    {
        let ghost rest = views(attrs@).skip(i as int);
        assert(rest.drop_first() =~= views(attrs@).skip(i + 1));
        assert(rest[0] == attrs@[i as int]@);
        let ghost before = out@;
        push_str(&mut out, attrs[i].as_str());
        out.push('\n');
        push_all(&mut out, pad.as_slice());
        assert(out@ =~= before + rest[0] + seq!['\n'] + pad@);
        assert(out@ + prefix_text(rest.drop_first(), pad@, vis@) =~= before + prefix_text(rest, pad@, vis@));
        i = i + 1;
    }
    assert(views(attrs@).skip(attrs@.len() as int) =~= Seq::<Seq<char>>::empty());
    push_str(&mut out, vis.as_str());
    out
}

fn build_full(bodies: &Vec<String>, prefix: &Vec<char>, pad: &Vec<char>) -> (r: String)
    ensures
        r@ == full_text(views(bodies@), prefix@, pad@),
{
    let ghost lines = views(bodies@).map_values(|b: Seq<char>| prefix@ + use_kw() + b + seq![';']);
    let mut out: Vec<char> = Vec::new();
    let mut i: usize = 0;
    while i < bodies.len()
        invariant
            i <= bodies@.len(),
            lines == views(bodies@).map_values(|b: Seq<char>| prefix@ + use_kw() + b + seq![';']),
            out@ == join_lines(lines.take(i as int), pad@),
        decreases bodies@.len() - i,
    {
        assert(lines.take(i + 1).drop_last() =~= lines.take(i as int));
        let ghost before = out@;
        if i > 0 {
            out.push('\n');
            push_all(&mut out, pad.as_slice());
        }
        push_all(&mut out, prefix.as_slice());
        let kw = vec!['u', 's', 'e', ' '];
        assert(kw@ =~= use_kw());
        push_all(&mut out, kw.as_slice());
        push_str(&mut out, bodies[i].as_str());
        out.push(';');
        proof {
            let line = lines[i as int];
            assert(line == prefix@ + use_kw() + bodies@[i as int]@ + seq![';']);
            if i > 0 {
                assert(out@ =~= before + seq!['\n'] + pad@ + line);
            } else {
                assert(out@ =~= line);
            }
            assert(lines.take(i + 1).last() == line);
        }
        assert(out@ =~= join_lines(lines.take(i + 1), pad@));
        i = i + 1;
    }
    assert(lines.take(lines.len() as int) =~= lines);
    string_of(out.as_slice())
}

} // verus!
