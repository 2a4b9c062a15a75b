//! The `allow_attributes` rule: an `#[allow(...)]` naming lints that
//! fire deterministically stays silent after they stop firing; it should
//! be removed, or be an `#[expect(...)]`, which reports itself once dead.
//! Exempt lints, unknown bare names and lint groups stay under `allow`.
use vstd::prelude::*;
use crate::common::{contains_string, resolve_string_set};
use crate::diagnostic::{Applicability, Diagnostic, DiagnosticModel, Part, PartModel, Suggestion, SuggestionModel};
use crate::import_granularity::render::{comma_join, join, join_spec};
use crate::ordering::{sort_dedup, views};
use crate::text::{chars_of, count_start_ws, push_all, push_str, string_of, trim_start_ws};

verus! {

/// `keyword(a, b, reason)`: the lint names, then the reason snippet when
/// there is one, joined by `, `.
pub open spec fn invocation(keyword: Seq<char>, names: Seq<Seq<char>>, reason: Option<Seq<char>>) -> Seq<char> {
    keyword + seq!['('] + comma_join(
        match reason {
            Some(r) => names.push(r),
            None => names,
        },
    ) + seq![')']
}

/// Renders an `allow(...)` / `expect(...)` invocation from a list of
/// lint names and an optional verbatim `reason = "..."` snippet.
pub fn render_invocation(keyword: &str, names: &[String], reason: Option<&str>) -> (r: String)
    ensures
        r@ == invocation(
            keyword@,
            views(names@),
            match reason {
                Some(s) => Some(s@),
                None => None,
            },
        ),
{
    let mut parts: Vec<String> = Vec::new();
    let mut k: usize = 0;
    while k < names.len()
        invariant
            k <= names@.len(),
            views(parts@) == views(names@.take(k as int)),
        decreases names@.len() - k,
    {
        let ghost before = parts@;
        parts.push(names[k].clone());
        assert(views(parts@) =~= views(before).push(names@[k as int]@));
        assert(views(names@.take(k + 1)) =~= views(names@.take(k as int)).push(names@[k as int]@));
        k = k + 1;
    }
    assert(names@.take(names@.len() as int) =~= names@);
    match reason {
        Some(r) => {
            let ghost before = parts@;
            parts.push(r.to_owned());
            assert(views(parts@) =~= views(before).push(r@));
        },
        None => {},
    }
    let body = crate::import_granularity::render::join_with_comma(&parts);
    let mut out: Vec<char> = Vec::new();
    push_str(&mut out, keyword);
    out.push('(');
    push_str(&mut out, body.as_str());
    out.push(')');
    string_of(out.as_slice())
}

/// The lints kept under `allow` by default: the `cfg`-conditional
/// `unused_*` and reachability lints, which can fire under one `cfg` arm
/// and stay silent under another.
pub open spec fn default_exempt_lints() -> Seq<Seq<char>> {
    seq![
        "dead_code"@,
        "unused_imports"@,
        "unused_macros"@,
        "unused_variables"@,
        "unused_mut"@,
        "unused_assignments"@,
        "unused_must_use"@,
        "unreachable_code"@,
    ]
}

/// Clippy's lint groups, which fire only when some member does.
pub open spec fn clippy_lint_groups() -> Seq<Seq<char>> {
    seq![
        "all"@,
        "cargo"@,
        "complexity"@,
        "correctness"@,
        "deprecated"@,
        "nursery"@,
        "pedantic"@,
        "perf"@,
        "restriction"@,
        "style"@,
        "suspicious"@,
    ]
}

/// Rustdoc's lint groups.
pub open spec fn rustdoc_lint_groups() -> Seq<Seq<char>> {
    seq!["all"@]
}

fn strings_of(names: &[&str]) -> (r: Vec<String>)
    ensures
        views(r@) == names@.map_values(|s: &str| s@),
{
    let mut r: Vec<String> = Vec::new();
    let mut k: usize = 0;
    while k < names.len()
        invariant
            k <= names@.len(),
            views(r@) == names@.take(k as int).map_values(|s: &str| s@),
        decreases names@.len() - k,
    {
        r.push(names[k].to_owned());
        assert(names@.take(k + 1).map_values(|s: &str| s@) =~= names@.take(k as int).map_values(|s: &str| s@).push(names@[k as int]@));
        assert(views(r@) =~= names@.take(k as int).map_values(|s: &str| s@).push(names@[k as int]@));
        k = k + 1;
    }
    assert(names@.take(names@.len() as int) =~= names@);
    r
}

fn default_exempt_list() -> (r: Vec<String>)
    ensures
        views(r@) == default_exempt_lints(),
{
    let names = [
        "dead_code",
        "unused_imports",
        "unused_macros",
        "unused_variables",
        "unused_mut",
        "unused_assignments",
        "unused_must_use",
        "unreachable_code",
    ];
    let r = strings_of(&names);
    assert(names@.map_values(|s: &str| s@) =~= default_exempt_lints());
    r
}

fn clippy_group_list() -> (r: Vec<String>)
    ensures
        views(r@) == clippy_lint_groups(),
{
    let names = [
        "all",
        "cargo",
        "complexity",
        "correctness",
        "deprecated",
        "nursery",
        "pedantic",
        "perf",
        "restriction",
        "style",
        "suspicious",
    ];
    let r = strings_of(&names);
    assert(names@.map_values(|s: &str| s@) =~= clippy_lint_groups());
    r
}

fn rustdoc_group_list() -> (r: Vec<String>)
    ensures
        views(r@) == rustdoc_lint_groups(),
{
    let names = ["all"];
    let r = strings_of(&names);
    assert(names@.map_values(|s: &str| s@) =~= rustdoc_lint_groups());
    r
}

/// The rule's settings.
pub struct Config {
    /// Lints exempted on top of the default set.
    pub extra_exempt_lints: Vec<String>,
    /// Lints dropped from the exempt set, defaults and extras alike.
    pub ignore_exempt_lints: Vec<String>,
    /// Also rewrite crate-level `#![allow(...)]` and the attributes of a
    /// `mod` item.
    pub apply_to_outer_scopes: bool,
    /// Rewrite the lints of tool namespaces other than `clippy` and
    /// `rustdoc` (such as `perfectionist`).
    pub apply_to_tool_namespaces: bool,
}

impl Default for Config {
    fn default() -> (c: Self)
        ensures
            c.extra_exempt_lints@.len() == 0,
            c.ignore_exempt_lints@.len() == 0,
            !c.apply_to_outer_scopes,
            c.apply_to_tool_namespaces,
    {
        Config {
            extra_exempt_lints: Vec::new(),
            ignore_exempt_lints: Vec::new(),
            apply_to_outer_scopes: false,
            apply_to_tool_namespaces: true,
        }
    }
}

/// Whether an attribute is inner (`#![...]`) or outer (`#[...]`).
#[derive(Debug, Clone, Copy, PartialEq, Eq, Structural)]
pub enum AttrStyle {
    Inner,
    Outer,
}

/// Where an `allow(...)` invocation lives, which decides how a split
/// rewrite is rendered.
#[derive(Debug, Clone, Copy, PartialEq, Eq, Structural)]
pub enum Container {
    /// A standalone `#[allow(...)]` / `#![allow(...)]`, indented by
    /// `indent` columns; the rewrite replaces the whole attribute.
    Bare { style: AttrStyle, indent: usize },
    /// An `allow(...)` inside a `cfg_attr` argument list; the rewrite
    /// replaces just that item, keeping the `cfg_attr` and its condition.
    CfgAttrInner,
}

/// One argument of an `allow(...)`.
pub enum AllowArg {
    /// A lint named by its path segments (`clippy`, `too_many_lines`).
    Lint(Vec<String>),
    /// `reason = "..."`, with its source text, or `None` when the text
    /// cannot be recovered.
    Reason(Option<String>),
    /// Anything else, which names no lint.
    Other,
}

/// Where a suggestion of a finding applies.
#[derive(Debug, Clone, Copy, PartialEq, Eq, Structural)]
pub enum Target {
    /// The whole attribute, or the inner `allow(...)` of a `cfg_attr`.
    Attribute,
    /// The `allow` identifier.
    Ident,
}

/// A finding: the diagnostic, and for each of its parts where it
/// applies.
pub struct AllowFinding {
    pub diagnostic: Diagnostic,
    pub targets: Vec<Target>,
}

pub struct AllowAttributes {
    exempt_lints: Vec<String>,
    apply_to_outer_scopes: bool,
    apply_to_tool_namespaces: bool,
    /// Every built-in lint name, without a tool prefix.
    builtin_lints: Vec<String>,
    /// The attributes that sit on a `mod` item, by identity.
    module_attr_spans: std::collections::HashSet<u64>,
}

/// Whether a lint name carries a tool prefix.
pub open spec fn has_path_sep(name: Seq<char>) -> bool {
    exists|i: int| 0 <= i < name.len() - 1 && #[trigger] name[i] == ':' && name[i + 1] == ':'
}

fn contains_path_sep(name: &String) -> (r: bool)
    ensures
        r == has_path_sep(name@),
{
    let c = chars_of(name.as_str());
    let mut i: usize = 0;
    while i < c.len()
        invariant
            i <= c@.len(),
            c@ == name@,
            forall|j: int| 0 <= j < i && j < c@.len() - 1 ==> !(#[trigger] c@[j] == ':' && c@[j + 1] == ':'),
        decreases c@.len() - i,
    {
        if i + 1 < c.len() && c[i] == ':' && c[i + 1] == ':' {
            return true;
        }
        i = i + 1;
    }
    false
}

/// The registered lints whose names carry no tool prefix: the built-in
/// rustc lints.
pub fn collect_builtin_lint_names(registered: &Vec<String>) -> (r: Vec<String>)
    ensures
        forall|x: Seq<char>| #[trigger] views(r@).contains(x) <==> (views(registered@).contains(x) && !has_path_sep(x)),
{
    let mut r: Vec<String> = Vec::new();
    let mut k: usize = 0;
    while k < registered.len()
        invariant
            k <= registered@.len(),
            forall|x: Seq<char>| #[trigger] views(r@).contains(x) <==> (views(registered@.take(k as int)).contains(x) && !has_path_sep(x)),
        decreases registered@.len() - k,
    {
        let ghost before = r@;
        let ghost prev = views(registered@.take(k as int));
        let ghost next = views(registered@.take(k + 1));
        assert(next =~= prev.push(registered@[k as int]@));
        if !contains_path_sep(&registered[k]) {
            r.push(registered[k].clone());
            assert(views(r@) =~= views(before).push(registered@[k as int]@));
        }
        proof {
            assert forall|x: Seq<char>| #[trigger] views(r@).contains(x) <==> (next.contains(x) && !has_path_sep(x)) by {
                if x == registered@[k as int]@ {
                    assert(next[k as int] == x);
                    if !has_path_sep(x) {
                        assert(views(r@)[views(before).len() as int] == x);
                    }
                }
                if next.contains(x) && x != registered@[k as int]@ {
                    let j = choose|j: int| 0 <= j < next.len() && next[j] == x;
                    if j == k {
                        assert(next[j] == registered@[k as int]@);
                    }
                    assert(prev[j] == x);
                }
                if prev.contains(x) {
                    let j = choose|j: int| 0 <= j < prev.len() && prev[j] == x;
                    assert(next[j] == x);
                }
                if views(r@).contains(x) && !views(before).contains(x) {
                    let j = choose|j: int| 0 <= j < views(r@).len() && views(r@)[j] == x;
                    assert(j == views(before).len());
                }
                if views(before).contains(x) {
                    let j = choose|j: int| 0 <= j < views(before).len() && views(before)[j] == x;
                    assert(views(r@)[j] == x);
                }
            }
        }
        k = k + 1;
    }
    assert(registered@.take(registered@.len() as int) =~= registered@);
    r
}

impl AllowAttributes {
    pub closed spec fn exempt_set(&self) -> Seq<Seq<char>> {
        views(self.exempt_lints@)
    }

    pub closed spec fn builtin_set(&self) -> Seq<Seq<char>> {
        views(self.builtin_lints@)
    }

    pub closed spec fn outer_scopes(&self) -> bool {
        self.apply_to_outer_scopes
    }

    pub closed spec fn tool_namespaces(&self) -> bool {
        self.apply_to_tool_namespaces
    }

    pub closed spec fn module_attrs(&self) -> Set<u64> {
        self.module_attr_spans@
    }

    /// The rule with `builtin_lints` as the built-in lint names: the
    /// exempt set is the defaults and the extras, less the ignored ones.
    pub fn new(builtin_lints: Vec<String>, config: Config) -> (r: Self)
        ensures
            forall|x: Seq<char>| #[trigger] r.exempt_set().contains(x) <==> ((default_exempt_lints().contains(x)
                || views(config.extra_exempt_lints@).contains(x)) && !views(config.ignore_exempt_lints@).contains(x)),
            forall|x: Seq<char>| #[trigger] r.builtin_set().contains(x) <==> views(builtin_lints@).contains(x),
            r.outer_scopes() == config.apply_to_outer_scopes,
            r.tool_namespaces() == config.apply_to_tool_namespaces,
            r.module_attrs() == Set::<u64>::empty(),
    {
        let defaults = default_exempt_list();
        let exempt_lints = resolve_string_set(&defaults, &config.extra_exempt_lints, &config.ignore_exempt_lints);
        let builtin = sort_dedup(&builtin_lints, false);
        proof {
            assert forall|x: Seq<char>| #[trigger] views(builtin@).contains(x) <==> views(builtin_lints@).contains(x) by {
                assert(views(builtin@).to_set().contains(x) <==> views(builtin_lints@).to_set().contains(x));
            }
        }
        AllowAttributes {
            exempt_lints,
            apply_to_outer_scopes: config.apply_to_outer_scopes,
            apply_to_tool_namespaces: config.apply_to_tool_namespaces,
            builtin_lints: builtin,
            module_attr_spans: std::collections::HashSet::new(),
        }
    }

    /// Records the attributes of an item when it is a `mod`, so their
    /// scope can be recognised.
    pub fn check_item(&mut self, is_mod: bool, attrs: &Vec<u64>)
        ensures
            final(self).module_attrs() == if is_mod {
                old(self).module_attrs().union(attrs@.to_set())
            } else {
                old(self).module_attrs()
            },
            final(self).exempt_set() == old(self).exempt_set(),
            final(self).builtin_set() == old(self).builtin_set(),
            final(self).outer_scopes() == old(self).outer_scopes(),
            final(self).tool_namespaces() == old(self).tool_namespaces(),
    {
        broadcast use vstd::std_specs::hash::group_hash_axioms;
        if !is_mod {
            return;
        }
        let mut k: usize = 0;
        while k < attrs.len()
            invariant
                k <= attrs@.len(),
                self.module_attr_spans@ == old(self).module_attr_spans@.union(attrs@.take(k as int).to_set()),
                self.exempt_lints == old(self).exempt_lints,
                self.builtin_lints == old(self).builtin_lints,
                self.apply_to_outer_scopes == old(self).apply_to_outer_scopes,
                self.apply_to_tool_namespaces == old(self).apply_to_tool_namespaces,
            decreases attrs@.len() - k,
        {
            proof {
                assert(attrs@.take(k + 1) =~= attrs@.take(k as int).push(attrs@[k as int]));
                crate::ordering::lemma_push_to_set(attrs@.take(k as int), attrs@[k as int]);
            }
            self.module_attr_spans.insert(attrs[k]);
            k = k + 1;
        }
        assert(attrs@.take(attrs@.len() as int) =~= attrs@);
    }

    pub open spec fn eligible(&self, style: AttrStyle, span: u64) -> bool {
        self.outer_scopes() || (style == AttrStyle::Outer && !self.module_attrs().contains(span))
    }

    /// Whether an attribute at this scope may be rewritten: a crate-root
    /// or module-body inner attribute, or one on a `mod` item, only when
    /// outer scopes are opted in.
    pub fn scope_is_eligible(&self, style: AttrStyle, span: u64) -> (r: bool)
        ensures
            r == self.eligible(style, span),
    {
        broadcast use vstd::std_specs::hash::group_hash_axioms;
        if self.apply_to_outer_scopes {
            return true;
        }
        if style == AttrStyle::Inner {
            return false;
        }
        !self.module_attr_spans.contains(&span)
    }

    /// Whether the lint named by `path` fires deterministically: not
    /// exempt, and a built-in lint when bare; a `clippy` or `rustdoc` lint
    /// other than a lint group; any other tool's lint when tool
    /// namespaces are opted in.
    pub open spec fn rewriteable(&self, path: Seq<Seq<char>>) -> bool {
        let name = join_spec(path);
        if self.exempt_set().contains(name) {
            false
        } else if path.len() <= 1 {
            self.builtin_set().contains(name)
        } else if path[0] == "clippy"@ {
            !clippy_lint_groups().contains(path.last())
        } else if path[0] == "rustdoc"@ {
            !rustdoc_lint_groups().contains(path.last())
        } else {
            self.tool_namespaces()
        }
    }

    pub fn is_rewriteable(&self, path: &Vec<String>) -> (r: bool)
        ensures
            r == self.rewriteable(views(path@)),
    {
        let name = join(path.as_slice());
        if contains_string(&self.exempt_lints, &name) {
            return false;
        }
        let n = path.len();
        if n <= 1 {
            return contains_string(&self.builtin_lints, &name);
        }
        let tool = chars_of(path[0].as_str());
        let clippy = vec!['c', 'l', 'i', 'p', 'p', 'y'];
        let rustdoc = vec!['r', 'u', 's', 't', 'd', 'o', 'c'];
        proof {
            reveal_strlit("clippy");
            reveal_strlit("rustdoc");
        }
        assert(clippy@ =~= "clippy"@);
        assert(rustdoc@ =~= "rustdoc"@);
        assert(views(path@)[0] == path@[0]@);
        assert(views(path@).last() == path@[n - 1]@);
        if crate::text::slice_eq(tool.as_slice(), clippy.as_slice()) {
            !contains_string(&clippy_group_list(), &path[n - 1])
        } else if crate::text::slice_eq(tool.as_slice(), rustdoc.as_slice()) {
            !contains_string(&rustdoc_group_list(), &path[n - 1])
        } else {
            self.apply_to_tool_namespaces
        }
    }
}

/// `parts` joined by `sep`.
pub open spec fn sep_join(parts: Seq<Seq<char>>, sep: Seq<char>) -> Seq<char>
    decreases parts.len(),
{
    if parts.len() == 0 {
        Seq::empty()
    } else if parts.len() == 1 {
        parts[0]
    } else {
        sep_join(parts.drop_last(), sep) + sep + parts.last()
    }
}

fn join_by(parts: &Vec<Vec<char>>, sep: &Vec<char>) -> (r: Vec<char>)
    ensures
        r@ == sep_join(parts@.map_values(|p: Vec<char>| p@), sep@),
{
    let ghost pv = parts@.map_values(|p: Vec<char>| p@);
    let mut out: Vec<char> = Vec::new();
    let mut k: usize = 0;
    while k < parts.len()
        invariant
            k <= parts@.len(),
            pv == parts@.map_values(|p: Vec<char>| p@),
            out@ == sep_join(pv.take(k as int), sep@),
        decreases parts@.len() - k,
    {
        assert(pv.take(k + 1).drop_last() =~= pv.take(k as int));
        assert(pv.take(k + 1).last() == parts@[k as int]@);
        if k > 0 {
            push_all(&mut out, sep.as_slice());
        } else {
            assert(pv.take(1)[0] == parts@[0]@);
        }
        push_all(&mut out, parts[k].as_slice());
        k = k + 1;
    }
    assert(pv.take(parts@.len() as int) =~= pv);
    out
}

pub open spec fn spaces(n: nat) -> Seq<char> {
    Seq::new(n, |i: int| ' ')
}

/// The invocations of the groups that name some lint, in order.
pub open spec fn bodies(groups: Seq<(Seq<char>, Seq<Seq<char>>)>, reason: Option<Seq<char>>) -> Seq<Seq<char>>
    decreases groups.len(),
{
    if groups.len() == 0 {
        Seq::empty()
    } else {
        let rest = bodies(groups.drop_last(), reason);
        let (keyword, names) = groups.last();
        if names.len() == 0 {
            rest
        } else {
            rest.push(invocation(keyword, names, reason))
        }
    }
}

pub open spec fn hash_of(style: AttrStyle) -> Seq<char> {
    match style {
        AttrStyle::Inner => "#!"@,
        AttrStyle::Outer => "#"@,
    }
}

/// The invocations rendered in the form the container takes: joined by
/// `, ` inside a `cfg_attr`; as standalone attributes, one per line at
/// the attribute's indent, for a bare attribute.
pub open spec fn attrs_text(container: Container, bodies: Seq<Seq<char>>) -> Seq<char> {
    match container {
        Container::CfgAttrInner => comma_join(bodies),
        Container::Bare { style, indent } => sep_join(
            bodies.map_values(|b: Seq<char>| hash_of(style) + "["@ + b + "]"@),
            "\n"@ + spaces(indent as nat),
        ),
    }
}

pub open spec fn group_views(groups: Seq<(String, Vec<String>)>) -> Seq<(Seq<char>, Seq<Seq<char>>)> {
    groups.map_values(|g: (String, Vec<String>)| (g.0@, views(g.1@)))
}

pub open spec fn opt_str(o: Option<&str>) -> Option<Seq<char>> {
    match o {
        Some(s) => Some(s@),
        None => None,
    }
}

/// Renders lint-control invocations (`("allow", names)`,
/// `("expect", names)`) in the form `container` takes; a group naming no
/// lint is left out.
pub fn render_attrs(container: Container, groups: &Vec<(String, Vec<String>)>, reason: Option<&str>) -> (r: String)
    ensures
        r@ == attrs_text(container, bodies(group_views(groups@), opt_str(reason))),
{
    let ghost gv = group_views(groups@);
    let mut parts: Vec<Vec<char>> = Vec::new();
    let mut plain: Vec<String> = Vec::new();
    let mut k: usize = 0;
    while k < groups.len()
        invariant
            k <= groups@.len(),
            gv == group_views(groups@),
            views(plain@) == bodies(gv.take(k as int), opt_str(reason)),
            parts@.map_values(|p: Vec<char>| p@) == bodies(gv.take(k as int), opt_str(reason)).map_values(
                |b: Seq<char>| hash_of(match container {
                    Container::Bare { style, .. } => style,
                    Container::CfgAttrInner => AttrStyle::Outer,
                }) + "["@ + b + "]"@,
            ),
        decreases groups@.len() - k,
    {
        assert(gv.take(k + 1).drop_last() =~= gv.take(k as int));
        assert(gv.take(k + 1).last() == gv[k as int]);
        let (keyword, names) = (&groups[k].0, &groups[k].1);
        if names.len() > 0 {
            let body = render_invocation(keyword.as_str(), names.as_slice(), reason);
            let style = match container {
                Container::Bare { style, .. } => style,
                Container::CfgAttrInner => AttrStyle::Outer,
            };
            let mut wrapped: Vec<char> = Vec::new();
            match style {
                AttrStyle::Inner => push_str(&mut wrapped, "#!"),
                AttrStyle::Outer => push_str(&mut wrapped, "#"),
            }
            push_str(&mut wrapped, "[");
            push_str(&mut wrapped, body.as_str());
            push_str(&mut wrapped, "]");
            let ghost before_parts = parts@;
            let ghost before_plain = plain@;
            parts.push(wrapped);
            plain.push(body);
            assert(views(plain@) =~= views(before_plain).push(body@));
            assert(parts@.map_values(|p: Vec<char>| p@) =~= before_parts.map_values(|p: Vec<char>| p@).push(wrapped@));
            assert(bodies(gv.take(k + 1), opt_str(reason)).map_values(
                |b: Seq<char>| hash_of(style) + "["@ + b + "]"@,
            ) =~= bodies(gv.take(k as int), opt_str(reason)).map_values(
                |b: Seq<char>| hash_of(style) + "["@ + b + "]"@,
            ).push(wrapped@));
        }
        k = k + 1;
    }
    assert(gv.take(groups@.len() as int) =~= gv);
    match container {
        Container::CfgAttrInner => crate::import_granularity::render::join_with_comma(&plain),
        Container::Bare { style, indent } => {
            let mut sep: Vec<char> = Vec::new();
            sep.push('\n');
            proof {
                reveal_strlit("\n");
            }
            assert(sep@ =~= "\n"@ + spaces(0));
            let mut i: usize = 0;
            while i < indent
                invariant
                    i <= indent,
                    sep@ == "\n"@ + spaces(i as nat),
                decreases indent - i,
            {
                proof {
                    reveal_strlit("\n");
                }
                sep.push(' ');
                assert(sep@ =~= "\n"@ + spaces((i + 1) as nat));
                i = i + 1;
            }
            proof {
                reveal_strlit("\n");
            }
            assert(parts@.map_values(|p: Vec<char>| p@) =~= bodies(gv, opt_str(reason)).map_values(
                |b: Seq<char>| hash_of(style) + "["@ + b + "]"@,
            ));
            let joined = join_by(&parts, &sep);
            string_of(joined.as_slice())
        },
    }
}

/// Where an `allow` lives, from its source text: a bare attribute keeps
/// its `#`; an `allow(...)` a `cfg_attr` produced does not. `None` when
/// the text cannot be recovered.
pub open spec fn container_spec(snippet: Option<Seq<char>>, style: AttrStyle, indent: usize) -> Option<Container> {
    match snippet {
        None => None,
        Some(t) => if trim_start_ws(t).len() > 0 && trim_start_ws(t)[0] == '#' {
            Some(Container::Bare { style, indent })
        } else {
            Some(Container::CfgAttrInner)
        },
    }
}

pub fn container_of(snippet: Option<&str>, style: AttrStyle, indent: usize) -> (r: Option<Container>)
    ensures
        r == container_spec(opt_str(snippet), style, indent),
{
    match snippet {
        None => None,
        Some(t) => {
            let c = chars_of(t);
            let n = count_start_ws(c.as_slice());
            if n < c.len() && c[n] == '#' {
                assert(trim_start_ws(t@)[0] == c@[n as int]);
                Some(Container::Bare { style, indent })
            } else {
                Some(Container::CfgAttrInner)
            }
        },
    }
}

pub struct FindingModel {
    pub diagnostic: DiagnosticModel,
    pub targets: Seq<Target>,
}

impl View for AllowFinding {
    type V = FindingModel;

    open spec fn view(&self) -> FindingModel {
        FindingModel { diagnostic: self.diagnostic@, targets: self.targets@ }
    }
}

pub open spec fn simple_message() -> Seq<char> {
    "this `#[allow]` stays silent even after its lint stops firing"@
}

pub open spec fn split_message() -> Seq<char> {
    "some lints in this `#[allow]` stay silent even after they stop firing"@
}

pub open spec fn maybe(message: Seq<char>, replacement: Seq<char>) -> PartModel {
    PartModel::Suggest(
        SuggestionModel { message, replacement, appended: None, applicability: Applicability::MaybeIncorrect },
    )
}

/// Every named lint is rewriteable: remove the suppression (offered only
/// for a bare attribute, which can be deleted whole), or swap `allow`
/// for `expect`.
pub open spec fn simple_spec(container: Option<Container>) -> FindingModel {
    let removable = container matches Some(Container::Bare { .. });
    let expect = maybe(
        if removable {
            "otherwise replace `allow` with `expect`, which warns once the lint stops firing"@
        } else {
            "replace `allow` with `expect`, which warns once the lint stops firing"@
        },
        "expect"@,
    );
    if removable {
        FindingModel {
            diagnostic: DiagnosticModel {
                message: simple_message(),
                parts: seq![maybe("remove the suppression if its lint can no longer fire here"@, Seq::empty()), expect],
            },
            targets: seq![Target::Attribute, Target::Ident],
        }
    } else {
        FindingModel {
            diagnostic: DiagnosticModel { message: simple_message(), parts: seq![expect] },
            targets: seq![Target::Ident],
        }
    }
}

/// Some named lints are rewriteable and some are not: drop the
/// rewriteable ones, or split them into a separate `expect`.
pub open spec fn split_spec(
    container: Container,
    kept: Seq<Seq<char>>,
    rewriteable: Seq<Seq<char>>,
    reason: Option<Seq<char>>,
) -> FindingModel {
    FindingModel {
        diagnostic: DiagnosticModel {
            message: split_message(),
            parts: seq![
                maybe(
                    "drop them from the `#[allow]` if they can no longer fire here"@,
                    attrs_text(container, bodies(seq![("allow"@, kept)], reason)),
                ),
                maybe(
                    "otherwise split them into a separate `#[expect]` that self-cleans"@,
                    attrs_text(container, bodies(seq![("allow"@, kept), ("expect"@, rewriteable)], reason)),
                ),
            ],
        },
        targets: seq![Target::Attribute, Target::Attribute],
    }
}

/// The mixed case when the source text the rewrite needs is missing.
pub open spec fn split_without_fix_spec() -> FindingModel {
    FindingModel {
        diagnostic: DiagnosticModel {
            message: split_message(),
            parts: seq![
                PartModel::Help(
                    "drop them from the `#[allow]` if they can no longer fire here, or split them out into a separate `#[expect]` that self-cleans"@,
                ),
            ],
        },
        targets: seq![Target::Ident],
    }
}

fn maybe_part(message: &str, replacement: String) -> (p: Part)
    ensures
        p@ == maybe(message@, replacement@),
{
    Part::Suggest(
        Suggestion { message: message.to_owned(), replacement, appended: None, applicability: Applicability::MaybeIncorrect },
    )
}

pub fn emit_simple(container: Option<Container>) -> (r: AllowFinding)
    ensures
        r@ == simple_spec(container),
{
    let removable = match container {
        Some(Container::Bare { .. }) => true,
        _ => false,
    };
    let replace_help = if removable {
        "otherwise replace `allow` with `expect`, which warns once the lint stops firing"
    } else {
        "replace `allow` with `expect`, which warns once the lint stops firing"
    };
    let mut parts: Vec<Part> = Vec::new();
    let mut targets: Vec<Target> = Vec::new();
    if removable {
        let empty: Vec<char> = Vec::new();
        let none = string_of(empty.as_slice());
        parts.push(maybe_part("remove the suppression if its lint can no longer fire here", none));
        targets.push(Target::Attribute);
    }
    parts.push(maybe_part(replace_help, "expect".to_owned()));
    targets.push(Target::Ident);
    let r = AllowFinding {
        diagnostic: Diagnostic {
            message: "this `#[allow]` stays silent even after its lint stops firing".to_owned(),
            parts,
        },
        targets,
    };
    assert(r@.diagnostic.parts =~= simple_spec(container).diagnostic.parts);
    assert(r@.targets =~= simple_spec(container).targets);
    r
}

fn group(keyword: &str, names: &Vec<String>) -> (g: (String, Vec<String>))
    ensures
        g.0@ == keyword@,
        views(g.1@) == views(names@),
{
    let mut copy: Vec<String> = Vec::new();
    let mut k: usize = 0;
    while k < names.len()
        invariant
            k <= names@.len(),
            views(copy@) == views(names@.take(k as int)),
        decreases names@.len() - k,
    {
        let ghost before = copy@;
        copy.push(names[k].clone());
        assert(views(copy@) =~= views(before).push(names@[k as int]@));
        assert(views(names@.take(k + 1)) =~= views(names@.take(k as int)).push(names@[k as int]@));
        k = k + 1;
    }
    assert(names@.take(names@.len() as int) =~= names@);
    (keyword.to_owned(), copy)
}

pub fn emit_split(container: Container, kept: &Vec<String>, rewriteable: &Vec<String>, reason: Option<&str>) -> (r: AllowFinding)
    ensures
        r@ == split_spec(container, views(kept@), views(rewriteable@), opt_str(reason)),
{
    let drop_groups = vec![group("allow", kept)];
    assert(group_views(drop_groups@) =~= seq![("allow"@, views(kept@))]);
    let drop_rewriteable = render_attrs(container, &drop_groups, reason);
    let split_groups = vec![group("allow", kept), group("expect", rewriteable)];
    assert(group_views(split_groups@) =~= seq![("allow"@, views(kept@)), ("expect"@, views(rewriteable@))]);
    let split = render_attrs(container, &split_groups, reason);
    let r = AllowFinding {
        diagnostic: Diagnostic {
            message: "some lints in this `#[allow]` stay silent even after they stop firing".to_owned(),
            parts: vec![
                maybe_part("drop them from the `#[allow]` if they can no longer fire here", drop_rewriteable),
                maybe_part("otherwise split them into a separate `#[expect]` that self-cleans", split),
            ],
        },
        targets: vec![Target::Attribute, Target::Attribute],
    };
    assert(r@.diagnostic.parts =~= split_spec(container, views(kept@), views(rewriteable@), opt_str(reason)).diagnostic.parts);
    assert(r@.targets =~= split_spec(container, views(kept@), views(rewriteable@), opt_str(reason)).targets);
    r
}

pub fn emit_split_without_fix() -> (r: AllowFinding)
    ensures
        r@ == split_without_fix_spec(),
{
    let r = AllowFinding {
        diagnostic: Diagnostic {
            message: "some lints in this `#[allow]` stay silent even after they stop firing".to_owned(),
            parts: vec![
                Part::Help(
                    "drop them from the `#[allow]` if they can no longer fire here, or split them out into a separate `#[expect]` that self-cleans".to_owned(),
                ),
            ],
        },
        targets: vec![Target::Ident],
    };
    assert(r@.diagnostic.parts =~= split_without_fix_spec().diagnostic.parts);
    assert(r@.targets =~= split_without_fix_spec().targets);
    r
}

pub open spec fn arg_reason(a: AllowArg) -> Option<Option<Seq<char>>> {
    match a {
        AllowArg::Reason(t) => Some(
            match t {
                Some(x) => Some(x@),
                None => None,
            },
        ),
        _ => None,
    }
}

/// The last `reason = ...` argument: `None` when there is none, else its
/// source text when that can be recovered.
pub open spec fn last_reason(args: Seq<AllowArg>) -> Option<Option<Seq<char>>>
    decreases args.len(),
{
    if args.len() == 0 {
        None
    } else if arg_reason(args.last()) is Some {
        arg_reason(args.last())
    } else {
        last_reason(args.drop_last())
    }
}

impl AllowAttributes {
    /// The names of the lint arguments that are (`want`) or are not
    /// rewriteable, in order.
    pub open spec fn names_where(&self, args: Seq<AllowArg>, want: bool) -> Seq<Seq<char>>
        decreases args.len(),
    {
        if args.len() == 0 {
            Seq::empty()
        } else {
            let rest = self.names_where(args.drop_last(), want);
            match args.last() {
                AllowArg::Lint(p) => if self.rewriteable(views(p@)) == want {
                    rest.push(join_spec(views(p@)))
                } else {
                    rest
                },
                _ => rest,
            }
        }
    }

    /// The finding on an `allow(...)` with arguments `args`, in
    /// `container` (`None` when its source text is missing): none when no
    /// named lint is rewriteable.
    pub open spec fn check_allow_spec(&self, args: Seq<AllowArg>, container: Option<Container>) -> Option<FindingModel> {
        let rewriteable = self.names_where(args, true);
        let kept = self.names_where(args, false);
        let reason = last_reason(args);
        if rewriteable.len() == 0 {
            None
        } else if kept.len() == 0 {
            Some(simple_spec(container))
        } else {
            match container {
                Some(c) => match reason {
                    None => Some(split_spec(c, kept, rewriteable, None)),
                    Some(Some(t)) => Some(split_spec(c, kept, rewriteable, Some(t))),
                    Some(None) => Some(split_without_fix_spec()),
                },
                None => Some(split_without_fix_spec()),
            }
        }
    }

    /// Applies the rule to one `allow(...)` invocation.
    pub fn check_allow(&self, args: &Vec<AllowArg>, container: Option<Container>) -> (r: Option<AllowFinding>)
        ensures
            match r {
                None => self.check_allow_spec(args@, container) is None,
                Some(f) => self.check_allow_spec(args@, container) == Some(f@),
            },
    {
        let mut rewriteable: Vec<String> = Vec::new();
        let mut kept: Vec<String> = Vec::new();
        let mut reason: Option<Option<String>> = None;
        let mut k: usize = 0;
        while k < args.len()
            invariant
                k <= args@.len(),
                views(rewriteable@) == self.names_where(args@.take(k as int), true),
                views(kept@) == self.names_where(args@.take(k as int), false),
                match reason {
                    None => last_reason(args@.take(k as int)) is None,
                    Some(None) => last_reason(args@.take(k as int)) == Some(None::<Seq<char>>),
                    Some(Some(t)) => last_reason(args@.take(k as int)) == Some(Some(t@)),
                },
            decreases args@.len() - k,
        {
            assert(args@.take(k + 1).drop_last() =~= args@.take(k as int));
            assert(args@.take(k + 1).last() == args@[k as int]);
            match &args[k] {
                AllowArg::Lint(path) => {
                    let name = join(path.as_slice());
                    if self.is_rewriteable(path) {
                        let ghost before = rewriteable@;
                        rewriteable.push(name);
                        assert(views(rewriteable@) =~= views(before).push(join_spec(views(path@))));
                    } else {
                        let ghost before = kept@;
                        kept.push(name);
                        assert(views(kept@) =~= views(before).push(join_spec(views(path@))));
                    }
                },
                AllowArg::Reason(text) => {
                    reason = match text {
                        Some(t) => Some(Some(t.clone())),
                        None => Some(None),
                    };
                },
                AllowArg::Other => {},
            }
            k = k + 1;
        }
        assert(args@.take(args@.len() as int) =~= args@);
        if rewriteable.len() == 0 {
            return None;
        }
        if kept.len() == 0 {
            return Some(emit_simple(container));
        }
        match container {
            Some(c) => match reason {
                None => Some(emit_split(c, &kept, &rewriteable, None)),
                Some(Some(t)) => Some(emit_split(c, &kept, &rewriteable, Some(t.as_str()))),
                Some(None) => Some(emit_split_without_fix()),
            },
            None => Some(emit_split_without_fix()),
        }
    }
}

impl AllowAttributes {
    /// Judges one attribute: an `allow(...)` list, not produced by a
    /// procedural macro, at an eligible scope, is checked; anything else
    /// is left alone. `args` is `None` when the attribute is not a list.
    pub fn check_attribute(
        &self,
        named_allow: bool,
        from_proc_macro: bool,
        style: AttrStyle,
        span: u64,
        args: Option<&Vec<AllowArg>>,
        container: Option<Container>,
    ) -> (r: Option<AllowFinding>)
        ensures
            match r {
                None => !named_allow || from_proc_macro || !self.eligible(style, span) || args is None
                    || self.check_allow_spec(args->0@, container) is None,
                Some(f) => named_allow && !from_proc_macro && self.eligible(style, span) && args is Some
                    && self.check_allow_spec(args->0@, container) == Some(f@),
            },
    {
        if !named_allow || from_proc_macro {
            return None;
        }
        if !self.scope_is_eligible(style, span) {
            return None;
        }
        match args {
            Some(a) => self.check_allow(a, container),
            None => None,
        }
    }
}

} // verus!
