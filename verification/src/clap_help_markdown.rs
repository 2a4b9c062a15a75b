//! The `clap_help_markdown` rule: markdown in a clap-derived doc comment
//! leaks verbatim into the terminal `--help` output.
use crate::diagnostic::{Applicability, Diagnostic, DiagnosticModel, Part, PartModel, Suggestion, SuggestionModel};
use crate::text::{chars_of, contains_char, push_str, string_of};
use vstd::prelude::*;

pub mod collect;

verus! {

/// A markdown construct the scanner recognises.
#[derive(Debug, Clone, Copy, PartialEq, Eq, Structural)]
pub enum ConstructKind {
    CodeSpan,
    CodeBlock,
    InlineLink,
    ReferenceLink,
    ReferenceDefinition,
    IntraDocLink,
    HtmlTag,
    Heading,
    Bold,
    Italic,
    List,
    Autolink,
}

/// A markdown construct category the rule can be configured to forbid.
#[derive(Debug, Clone, Copy, PartialEq, Eq, Structural)]
pub enum ConstructCategory {
    Html,
    InlineLink,
    ReferenceLink,
    IntraDocLink,
    CodeBlock,
    CodeSpan,
    Heading,
    Bold,
    Italic,
    List,
}

pub open spec fn spec_from_kind(kind: ConstructKind) -> Option<ConstructCategory> {
    match kind {
        ConstructKind::CodeSpan => Some(ConstructCategory::CodeSpan),
        ConstructKind::CodeBlock => Some(ConstructCategory::CodeBlock),
        ConstructKind::InlineLink => Some(ConstructCategory::InlineLink),
        ConstructKind::ReferenceLink | ConstructKind::ReferenceDefinition => Some(
            ConstructCategory::ReferenceLink,
        ),
        ConstructKind::IntraDocLink => Some(ConstructCategory::IntraDocLink),
        ConstructKind::HtmlTag => Some(ConstructCategory::Html),
        ConstructKind::Heading => Some(ConstructCategory::Heading),
        ConstructKind::Bold => Some(ConstructCategory::Bold),
        ConstructKind::Italic => Some(ConstructCategory::Italic),
        ConstructKind::List => Some(ConstructCategory::List),
        ConstructKind::Autolink => None,
    }
}

pub open spec fn spec_label(c: ConstructCategory) -> Seq<char> {
    match c {
        ConstructCategory::Html => "an HTML tag"@,
        ConstructCategory::InlineLink => "an inline link"@,
        ConstructCategory::ReferenceLink => "a reference link"@,
        ConstructCategory::IntraDocLink => "an intra-doc link"@,
        ConstructCategory::CodeBlock => "a code block"@,
        ConstructCategory::CodeSpan => "a code span"@,
        ConstructCategory::Heading => "a heading"@,
        ConstructCategory::Bold => "bold text"@,
        ConstructCategory::Italic => "italic text"@,
        ConstructCategory::List => "a list marker"@,
    }
}

impl ConstructCategory {
    /// The category a scanned construct belongs to, or `None` for a kind
    /// that is never forbidden (an autolink).
    pub fn from_kind(kind: ConstructKind) -> (r: Option<Self>)
        ensures
            r == spec_from_kind(kind),
    {
        match kind {
            ConstructKind::CodeSpan => Some(ConstructCategory::CodeSpan),
            ConstructKind::CodeBlock => Some(ConstructCategory::CodeBlock),
            ConstructKind::InlineLink => Some(ConstructCategory::InlineLink),
            ConstructKind::ReferenceLink | ConstructKind::ReferenceDefinition => Some(
                ConstructCategory::ReferenceLink,
            ),
            ConstructKind::IntraDocLink => Some(ConstructCategory::IntraDocLink),
            ConstructKind::HtmlTag => Some(ConstructCategory::Html),
            ConstructKind::Heading => Some(ConstructCategory::Heading),
            ConstructKind::Bold => Some(ConstructCategory::Bold),
            ConstructKind::Italic => Some(ConstructCategory::Italic),
            ConstructKind::List => Some(ConstructCategory::List),
            ConstructKind::Autolink => None,
        }
    }

    /// A short noun phrase naming the construct in a diagnostic.
    pub fn label(self) -> (r: &'static str)
        ensures
            r@ == spec_label(self),
    {
        match self {
            ConstructCategory::Html => "an HTML tag",
            ConstructCategory::InlineLink => "an inline link",
            ConstructCategory::ReferenceLink => "a reference link",
            ConstructCategory::IntraDocLink => "an intra-doc link",
            ConstructCategory::CodeBlock => "a code block",
            ConstructCategory::CodeSpan => "a code span",
            ConstructCategory::Heading => "a heading",
            ConstructCategory::Bold => "bold text",
            ConstructCategory::Italic => "italic text",
            ConstructCategory::List => "a list marker",
        }
    }
}

/// The position of each category in declaration order.
pub open spec fn category_index(c: ConstructCategory) -> int {
    match c {
        ConstructCategory::Html => 0,
        ConstructCategory::InlineLink => 1,
        ConstructCategory::ReferenceLink => 2,
        ConstructCategory::IntraDocLink => 3,
        ConstructCategory::CodeBlock => 4,
        ConstructCategory::CodeSpan => 5,
        ConstructCategory::Heading => 6,
        ConstructCategory::Bold => 7,
        ConstructCategory::Italic => 8,
        ConstructCategory::List => 9,
    }
}

proof fn lemma_index_injective(a: ConstructCategory, b: ConstructCategory)
    ensures
        category_index(a) == category_index(b) ==> a == b,
{
    match a {
        ConstructCategory::Html => {},
        ConstructCategory::InlineLink => {},
        ConstructCategory::ReferenceLink => {},
        ConstructCategory::IntraDocLink => {},
        ConstructCategory::CodeBlock => {},
        ConstructCategory::CodeSpan => {},
        ConstructCategory::Heading => {},
        ConstructCategory::Bold => {},
        ConstructCategory::Italic => {},
        ConstructCategory::List => {},
    }
}

/// The built-in default set of forbidden constructs.
pub open spec fn in_default_forbid(c: ConstructCategory) -> bool {
    !(c == ConstructCategory::Bold || c == ConstructCategory::Italic || c == ConstructCategory::List)
}

pub fn default_forbid() -> (r: Vec<ConstructCategory>)
    ensures
        forall|c: ConstructCategory| r@.contains(c) <==> in_default_forbid(c),
{
    let r = vec![
        ConstructCategory::Html,
        ConstructCategory::InlineLink,
        ConstructCategory::ReferenceLink,
        ConstructCategory::IntraDocLink,
        ConstructCategory::CodeBlock,
        ConstructCategory::CodeSpan,
        ConstructCategory::Heading,
    ];
    proof {
        assert forall|c: ConstructCategory| r@.contains(c) <==> in_default_forbid(c) by {
            if in_default_forbid(c) {
                match c {
                    ConstructCategory::Html => assert(r@[0] == c),
                    ConstructCategory::InlineLink => assert(r@[1] == c),
                    ConstructCategory::ReferenceLink => assert(r@[2] == c),
                    ConstructCategory::IntraDocLink => assert(r@[3] == c),
                    ConstructCategory::CodeBlock => assert(r@[4] == c),
                    ConstructCategory::CodeSpan => assert(r@[5] == c),
                    ConstructCategory::Heading => assert(r@[6] == c),
                    _ => {},
                }
            }
        }
    }
    r
}

/// The keys that, inside a `clap` / `arg` / `command` attribute, mark
/// the help text as overridden.
pub fn override_keys() -> (r: Vec<&'static str>)
    ensures
        r@.len() == 4,
        r@[0]@ == "about"@,
        r@[1]@ == "long_about"@,
        r@[2]@ == "help"@,
        r@[3]@ == "long_help"@,
{
    vec!["about", "long_about", "help", "long_help"]
}

/// The rule's configuration, as read from `dylint.toml`.
pub struct Config {
    pub extra_constructs: Vec<ConstructCategory>,
    pub ignore_constructs: Vec<ConstructCategory>,
    pub require_help_override: bool,
}

/// The resolved form of [`Config`]: the active forbidden set, and the
/// `require_help_override` mode flag.
pub struct ResolvedConfig {
    pub forbid: Vec<ConstructCategory>,
    pub require_help_override: bool,
}

fn has_category(v: &Vec<ConstructCategory>, c: ConstructCategory) -> (r: bool)
    ensures
        r == v@.contains(c),
{
    let mut k: usize = 0;
    while k < v.len()
        invariant
            k <= v@.len(),
            forall|j: int| 0 <= j < k ==> v@[j] != c,
        decreases v@.len() - k,
    {
        if v[k] == c {
            assert(v@[k as int] == c);
            return true;
        }
        k = k + 1;
    }
    false
}

impl ResolvedConfig {
    /// Effective set = (default ∪ `extra_constructs`) \ `ignore_constructs`.
    pub fn from_config(config: Config) -> (r: Self)
        ensures
            forall|c: ConstructCategory| r.forbid@.contains(c) <==> ((in_default_forbid(c)
                || config.extra_constructs@.contains(c)) && !config.ignore_constructs@.contains(c)),
            r.require_help_override == config.require_help_override,
    {
        let defaults = default_forbid();
        let all = [
            ConstructCategory::Html,
            ConstructCategory::InlineLink,
            ConstructCategory::ReferenceLink,
            ConstructCategory::IntraDocLink,
            ConstructCategory::CodeBlock,
            ConstructCategory::CodeSpan,
            ConstructCategory::Heading,
            ConstructCategory::Bold,
            ConstructCategory::Italic,
            ConstructCategory::List,
        ];
        let mut forbid: Vec<ConstructCategory> = Vec::new();
        let mut k: usize = 0;
        assert(forall|j: int| 0 <= j < 10 ==> category_index(#[trigger] all@[j]) == j);
        while k < 10
            invariant
                k <= 10,
                all@.len() == 10,
                forall|j: int| 0 <= j < 10 ==> category_index(#[trigger] all@[j]) == j,
                forall|c: ConstructCategory| defaults@.contains(c) <==> in_default_forbid(c),
                forall|c: ConstructCategory| #[trigger] forbid@.contains(c) <==> category_index(c) < k
                    && (in_default_forbid(c) || config.extra_constructs@.contains(c))
                    && !config.ignore_constructs@.contains(c),
            decreases 10 - k,
        {
            let c = all[k];
            assert(category_index(c) == k);
            let wanted = (has_category(&defaults, c) || has_category(&config.extra_constructs, c))
                && !has_category(&config.ignore_constructs, c);
            assert(!forbid@.contains(c));
            let ghost old_forbid = forbid@;
            if wanted {
                forbid.push(c);
            }
            proof {
                assert(wanted == ((in_default_forbid(c) || config.extra_constructs@.contains(c)) && !config.ignore_constructs@.contains(c)));
                if wanted {
                    assert(forbid@ == old_forbid.push(c));
                } else {
                    assert(forbid@ == old_forbid);
                }
                assert forall|d: ConstructCategory| #[trigger] forbid@.contains(d) <==> category_index(d) < k + 1
                    && (in_default_forbid(d) || config.extra_constructs@.contains(d))
                    && !config.ignore_constructs@.contains(d) by {
                    if forbid@.contains(d) {
                        let i = choose|i: int| 0 <= i < forbid@.len() && forbid@[i] == d;
                        if i < old_forbid.len() {
                            assert(old_forbid[i] == d);
                        }
                    }
                    if d == c && wanted {
                        assert(forbid@[forbid@.len() - 1] == d);
                    }
                    if old_forbid.contains(d) {
                        let i = choose|i: int| 0 <= i < old_forbid.len() && old_forbid[i] == d;
                        assert(forbid@[i] == d);
                    }
                    lemma_index_injective(d, c);
                }
            }
            k = k + 1;
        }
        proof {
            assert forall|c: ConstructCategory| forbid@.contains(c) <==> ((in_default_forbid(c)
                || config.extra_constructs@.contains(c)) && !config.ignore_constructs@.contains(c)) by {
                assert(category_index(c) < 10);
            }
        }
        ResolvedConfig { forbid, require_help_override: config.require_help_override }
    }

    /// Whether `category` is forbidden.
    pub fn forbids(&self, category: ConstructCategory) -> (r: bool)
        ensures
            r == self.forbid@.contains(category),
    {
        has_category(&self.forbid, category)
    }

    /// Whether the classifier needs to look for `*` / `_` emphasis runs —
    /// only when `bold` or `italic` is forbidden.
    pub fn detect_emphasis(&self) -> (r: bool)
        ensures
            r == (self.forbid@.contains(ConstructCategory::Bold) || self.forbid@.contains(
                ConstructCategory::Italic,
            )),
    {
        has_category(&self.forbid, ConstructCategory::Bold) || has_category(&self.forbid, ConstructCategory::Italic)
    }

    /// Whether the classifier needs to look for list markers.
    pub fn detect_lists(&self) -> (r: bool)
        ensures
            r == self.forbid@.contains(ConstructCategory::List),
    {
        has_category(&self.forbid, ConstructCategory::List)
    }
}

/// What the lint should do with a clap-bound, doc-commented node.
#[derive(Debug, Clone, Copy, PartialEq, Eq, Structural)]
pub enum NodeState {
    /// Flag forbidden markdown normally, with the code-span autofix.
    Normal,
    /// The node renders its doc comment verbatim: a softer note, no
    /// autofix.
    Verbatim,
}

pub struct ClapHelpMarkdown {
    pub config: ResolvedConfig,
}

impl ClapHelpMarkdown {
    pub fn new(config: Config) -> (r: Self)
        ensures
            forall|c: ConstructCategory| r.config.forbid@.contains(c) <==> ((in_default_forbid(c)
                || config.extra_constructs@.contains(c)) && !config.ignore_constructs@.contains(c)),
            r.config.require_help_override == config.require_help_override,
    {
        ClapHelpMarkdown { config: ResolvedConfig::from_config(config) }
    }
}

/// Whether every character of `s` is a space.
pub open spec fn all_spaces(s: Seq<char>) -> bool {
    forall|i: int| 0 <= i < s.len() ==> s[i] == ' '
}

/// Whether every character of `s` is a space.
fn is_all_spaces(s: &[char]) -> (r: bool)
    ensures
        r == all_spaces(s@),
{
    let mut i: usize = 0;
    while i < s.len()
        invariant
            i <= s@.len(),
            forall|j: int| 0 <= j < i ==> s@[j] == ' ',
        decreases s@.len() - i,
    {
        if s[i] != ' ' {
            return false;
        }
        i = i + 1;
    }
    true
}

/// The body of a single-backtick code span without its fences, one
/// CommonMark padding space stripped from each side when both are there
/// and the body is not all spaces.
pub open spec fn spec_code_span_autofix(span_text: Seq<char>) -> Option<Seq<char>> {
    if span_text.len() < 2 || span_text[0] != '`' || span_text.last() != '`' {
        None
    } else {
        let inner = span_text.subrange(1, span_text.len() - 1);
        if inner.contains('`') {
            None
        } else if inner.len() >= 2 && inner[0] == ' ' && inner.last() == ' ' && !all_spaces(inner) {
            Some(inner.subrange(1, inner.len() - 1))
        } else {
            Some(inner)
        }
    }
}

/// The replacement text for the trivial `` `Foo` `` → `Foo` code-span
/// autofix, or `None` when the span is not safe to rewrite: only a
/// single-backtick fence whose content holds no backtick is rewritten.
pub fn code_span_autofix(span_text: &str) -> (r: Option<String>)
    ensures
        match r {
            Some(s) => spec_code_span_autofix(span_text@) == Some(s@),
            None => spec_code_span_autofix(span_text@) is None,
        },
{
    let t = chars_of(span_text);
    let n = t.len();
    if n < 2 || t[0] != '`' || t[n - 1] != '`' {
        return None;
    }
    let inner = &t[1..n - 1];
    if contains_char(inner, '`') {
        return None;
    }
    let m = inner.len();
    if m >= 2 && inner[0] == ' ' && inner[m - 1] == ' ' && !is_all_spaces(inner) {
        return Some(string_of(&inner[1..m - 1]));
    }
    Some(string_of(inner))
}

pub open spec fn help_override() -> Seq<char> {
    "override the help text with a plain string (e.g. `#[arg(help = \"...\")]`) or remove the markdown from the doc comment"@
}

/// The report for a forbidden construct: a note for a verbatim node;
/// otherwise the code-span autofix when there is one, else a help.
pub open spec fn spec_emit_markdown(category: ConstructCategory, soft: bool, replacement: Option<Seq<char>>) -> DiagnosticModel {
    if soft {
        DiagnosticModel {
            message: spec_label(category) + " in a `verbatim_doc_comment` clap doc comment"@,
            parts: seq![PartModel::Note("clap renders this doc comment verbatim, so the markdown syntax appears literally in the terminal `--help` output"@)],
        }
    } else {
        DiagnosticModel {
            message: spec_label(category) + " in a clap-derived doc comment leaks into `--help` output"@,
            parts: match replacement {
                Some(text) => seq![PartModel::Suggest(SuggestionModel { message: "remove the code span"@, replacement: text, appended: None, applicability: Applicability::MachineApplicable })],
                None => seq![PartModel::Help(help_override())],
            },
        }
    }
}

pub fn emit_markdown(category: ConstructCategory, soft: bool, replacement: Option<&str>) -> (r: Diagnostic)
    ensures
        r@ == spec_emit_markdown(category, soft, match replacement { Some(s) => Some(s@), None => None }),
{
    let label = category.label();
    let mut message: Vec<char> = Vec::new();
    push_str(&mut message, label);
    if soft {
        push_str(&mut message, " in a `verbatim_doc_comment` clap doc comment");
        let r = Diagnostic {
            message: string_of(message.as_slice()),
            parts: vec![Part::Note("clap renders this doc comment verbatim, so the markdown syntax appears literally in the terminal `--help` output".to_owned())],
        };
        assert(r@.parts =~= spec_emit_markdown(category, soft, None).parts);
        return r;
    }
    push_str(&mut message, " in a clap-derived doc comment leaks into `--help` output");
    let parts = match replacement {
        Some(text) => vec![Part::Suggest(Suggestion { message: "remove the code span".to_owned(), replacement: text.to_owned(), appended: None, applicability: Applicability::MachineApplicable })],
        None => vec![Part::Help("override the help text with a plain string (e.g. `#[arg(help = \"...\")]`) or remove the markdown from the doc comment".to_owned())],
    };
    let r = Diagnostic { message: string_of(message.as_slice()), parts };
    assert(r@.parts =~= spec_emit_markdown(category, soft, match replacement { Some(s) => Some(s@), None => None }).parts);
    r
}

pub open spec fn spec_emit_missing_override() -> DiagnosticModel {
    DiagnosticModel {
        message: "clap derives `--help` from this doc comment instead of an explicit override"@,
        parts: seq![PartModel::Help("override the help text with a plain string (e.g. `#[arg(help = \"...\")]` or `#[command(about = \"...\")]`)"@)],
    }
}

pub fn emit_missing_override() -> (r: Diagnostic)
    ensures
        r@ == spec_emit_missing_override(),
{
    let r = Diagnostic {
        message: "clap derives `--help` from this doc comment instead of an explicit override".to_owned(),
        parts: vec![Part::Help("override the help text with a plain string (e.g. `#[arg(help = \"...\")]` or `#[command(about = \"...\")]`)".to_owned())],
    };
    assert(r@.parts =~= spec_emit_missing_override().parts);
    r
}

} // verus!
