//! The `exhaustive_error_enums` rule: an error-shaped type reachable by
//! other crates — an enum, or a struct wrapping exactly one enum, named
//! like an error or implementing `std::error::Error` — should carry
//! `#[non_exhaustive]`, so that adding a variant is not a SemVer break.
use vstd::prelude::*;
use crate::common::{resolve_string_set, unignored};
use crate::diagnostic::{Applicability, Diagnostic, DiagnosticModel, Part, PartModel, Suggestion, SuggestionModel};
use crate::ordering::{canon, views};
use crate::text::{chars_of, push_str, string_of};

verus! {

/// Which items the rule asks `#[non_exhaustive]` of.
#[derive(Debug, Clone, Copy, PartialEq, Eq, Structural)]
pub enum RequireFor {
    /// Items effectively reachable from outside the crate.
    Pub,
    /// Those, and items declared `pub(crate)`.
    PubCrate,
    /// Every error-shaped item, whatever its visibility.
    All,
}

impl Default for RequireFor {
    fn default() -> (r: Self)
        ensures
            r == RequireFor::Pub,
    {
        RequireFor::Pub
    }
}

pub struct Config {
    /// Visibility threshold; `pub` by default.
    pub require_for: RequireFor,
    /// Suffixes that mark a type as an error by name, on top of
    /// `Error`; empty by default.
    pub extra_suffixes: Vec<String>,
    /// Suffixes dropped from the by-name match set, after the merge.
    pub ignore_suffixes: Vec<String>,
}

impl Default for Config {
    fn default() -> (c: Self)
        ensures
            c.require_for == RequireFor::Pub,
            c.extra_suffixes@.len() == 0,
            c.ignore_suffixes@.len() == 0,
    {
        Config { require_for: RequireFor::Pub, extra_suffixes: Vec::new(), ignore_suffixes: Vec::new() }
    }
}

/// What kind of item is being looked at.
#[derive(Debug, Clone, Copy, PartialEq, Eq, Structural)]
pub enum ItemShape {
    Enum,
    /// A struct with exactly one field, whose type is an enum.
    SumLikeStruct,
    /// Anything else.
    Other,
}

pub struct ExhaustiveErrorEnums {
    require_for: RequireFor,
    suffixes: Vec<String>,
}

pub open spec fn ends_with(s: Seq<char>, suffix: Seq<char>) -> bool {
    suffix.len() <= s.len() && s.skip(s.len() - suffix.len()) == suffix
}

fn str_ends_with(s: &[char], suffix: &[char]) -> (r: bool)
    ensures
        r == ends_with(s@, suffix@),
{
    if suffix.len() > s.len() {
        return false;
    }
    let off = s.len() - suffix.len();
    let mut k: usize = 0;
    while k < suffix.len()
        invariant
            off + suffix@.len() == s@.len(),
            s@.len() <= usize::MAX,
            k <= suffix@.len(),
            forall|j: int| 0 <= j < k ==> s@[off + j] == suffix@[j],
        decreases suffix@.len() - k,
    {
        if s[off + k] != suffix[k] {
            assert(s@.skip(off as int)[k as int] != suffix@[k as int]);
            return false;
        }
        k = k + 1;
    }
    assert(s@.skip(off as int) =~= suffix@);
    true
}

impl ExhaustiveErrorEnums {
    pub closed spec fn require_for_of(&self) -> RequireFor {
        self.require_for
    }

    /// The suffixes that mark a type as an error by name.
    pub closed spec fn suffix_set(&self) -> Seq<Seq<char>> {
        views(self.suffixes@)
    }

    /// The rule for `config`: the suffix set is `Error` and the extra
    /// suffixes, less the ignored ones.
    pub fn new(config: &Config) -> (r: Self)
        ensures
            r.require_for_of() == config.require_for,
            r.suffix_set() == canon(unignored(seq!["Error"@] + views(config.extra_suffixes@), views(config.ignore_suffixes@)), false),
    {
        let defaults = vec!["Error".to_owned()];
        assert(views(defaults@) =~= seq!["Error"@]);
        let suffixes = resolve_string_set(&defaults, &config.extra_suffixes, &config.ignore_suffixes);
        ExhaustiveErrorEnums { require_for: config.require_for, suffixes }
    }

    pub open spec fn qualifies(&self, reachable: bool, crate_visible: bool) -> bool {
        match self.require_for_of() {
            RequireFor::All => true,
            RequireFor::Pub => reachable,
            RequireFor::PubCrate => reachable || crate_visible,
        }
    }

    /// Whether an item's visibility brings it under the rule, given
    /// whether it is effectively reachable from other crates and whether
    /// it is declared `pub(crate)`.
    pub fn visibility_qualifies(&self, reachable: bool, crate_visible: bool) -> (r: bool)
        ensures
            r == self.qualifies(reachable, crate_visible),
    {
        match self.require_for {
            RequireFor::All => true,
            RequireFor::Pub => reachable,
            RequireFor::PubCrate => reachable || crate_visible,
        }
    }

    pub open spec fn name_matches_spec(&self, name: Seq<char>) -> bool {
        exists|k: int| 0 <= k < self.suffix_set().len() && ends_with(name, #[trigger] self.suffix_set()[k])
    }

    /// Whether `name` ends with one of the configured suffixes.
    pub fn name_matches(&self, name: &str) -> (r: bool)
        ensures
            r == self.name_matches_spec(name@),
    {
        let n = chars_of(name);
        let mut k: usize = 0;
        while k < self.suffixes.len()
            invariant
                k <= self.suffixes@.len(),
                n@ == name@,
                forall|j: int| 0 <= j < k ==> !ends_with(name@, #[trigger] self.suffix_set()[j]),
            decreases self.suffixes@.len() - k,
        {
            let s = chars_of(self.suffixes[k].as_str());
            if str_ends_with(n.as_slice(), s.as_slice()) {
                assert(self.suffix_set()[k as int] == s@);
                return true;
            }
            assert(self.suffix_set()[k as int] == s@);
            k = k + 1;
        }
        false
    }

    pub open spec fn report_spec(&self, shape: ItemShape, name: Seq<char>, indent: nat) -> DiagnosticModel {
        let label = if shape == ItemShape::Enum { "enum"@ } else { "struct"@ };
        DiagnosticModel {
            message: label + " `"@ + name + "` is missing `#[non_exhaustive]`"@,
            parts: seq![PartModel::Suggest(SuggestionModel {
                message: "add `#[non_exhaustive]` to keep new variants from being a SemVer break"@,
                replacement: "#[non_exhaustive]\n"@ + Seq::new(indent, |i: int| ' '),
                appended: None,
                applicability: Applicability::MaybeIncorrect,
            })],
        }
    }

    /// Judges one item: an enum or sum-like struct whose visibility
    /// qualifies, that is error-shaped by name or by implementing
    /// `std::error::Error`, and lacks `#[non_exhaustive]`, is reported;
    /// the suggestion inserts the attribute on its own line above the
    /// item, indented by `indent`. `MaybeIncorrect`: adding it changes
    /// how other crates may match on the type.
    pub fn check_item(
        &self,
        shape: ItemShape,
        name: &str,
        reachable: bool,
        crate_visible: bool,
        implements_error: bool,
        has_non_exhaustive: bool,
        indent: usize,
    ) -> (r: Option<Diagnostic>)
        ensures
            match r {
                None => shape == ItemShape::Other || !self.qualifies(reachable, crate_visible) || (
                !self.name_matches_spec(name@) && !implements_error) || has_non_exhaustive,
                Some(d) => shape != ItemShape::Other && self.qualifies(reachable, crate_visible) && (
                self.name_matches_spec(name@) || implements_error) && !has_non_exhaustive && d@
                    == self.report_spec(shape, name@, indent as nat),
            },
    {
        if shape == ItemShape::Other || !self.visibility_qualifies(reachable, crate_visible) {
            return None;
        }
        if !self.name_matches(name) && !implements_error {
            return None;
        }
        if has_non_exhaustive {
            return None;
        }
        let label = if shape == ItemShape::Enum { "enum" } else { "struct" };
        let mut message: Vec<char> = Vec::new();
        push_str(&mut message, label);
        push_str(&mut message, " `");
        push_str(&mut message, name);
        push_str(&mut message, "` is missing `#[non_exhaustive]`");
        let mut replacement: Vec<char> = Vec::new();
        push_str(&mut replacement, "#[non_exhaustive]\n");
        let ghost head = replacement@;
        let mut k: usize = 0;
        while k < indent
            invariant
                k <= indent,
                replacement@ == head + Seq::new(k as nat, |i: int| ' '),
            decreases indent - k,
        {
            replacement.push(' ');
            assert(replacement@ =~= head + Seq::new((k + 1) as nat, |i: int| ' '));
            k = k + 1;
        }
        let d = Diagnostic {
            message: string_of(message.as_slice()),
            parts: vec![Part::Suggest(Suggestion {
                message: "add `#[non_exhaustive]` to keep new variants from being a SemVer break".to_owned(),
                replacement: string_of(replacement.as_slice()),
                appended: None,
                applicability: Applicability::MaybeIncorrect,
            })],
        };
        assert(d@.message =~= self.report_spec(shape, name@, indent as nat).message);
        assert(d@.parts =~= self.report_spec(shape, name@, indent as nat).parts);
        Some(d)
    }
}

/// The visibility threshold: under `all` every item qualifies, whatever
/// its visibility; under `pub` exactly the items reachable from other
/// crates; under `pub-crate` those and the `pub(crate)` ones. So an item
/// reachable from other crates qualifies under every threshold, and
/// being `pub(crate)` never takes an item out.
pub proof fn lemma_visibility_threshold(rule: &ExhaustiveErrorEnums, reachable: bool, crate_visible: bool)
    ensures
        rule.require_for_of() == RequireFor::All ==> rule.qualifies(reachable, crate_visible),
        rule.require_for_of() == RequireFor::Pub ==> (rule.qualifies(reachable, crate_visible) <==> reachable),
        rule.require_for_of() == RequireFor::PubCrate ==> (rule.qualifies(reachable, crate_visible) <==> (reachable || crate_visible)),
        rule.qualifies(true, crate_visible),
        rule.qualifies(reachable, false) ==> rule.qualifies(reachable, true),
{
}

} // verus!
