//! The `cloning_getter` rule: a getter that returns an owned copy of a
//! field of `self` where a borrow would serve is reported.
use vstd::prelude::*;
use crate::common::{resolve_string_set, unignored};
use crate::diagnostic::{Diagnostic, DiagnosticModel, Part, PartModel};
use crate::getter_name_patterns::{is_conversion_name, CONVERSION_PREFIXES};
use crate::ordering::{canon, views};
use crate::text::{push_str, str_starts_with, string_of};

verus! {

pub struct Config {
    /// Prefixes whose methods are never getters, on top of `clone_` and
    /// `cloned_`.
    pub extra_exempt_prefixes: Vec<String>,
    /// Prefixes dropped from the exempt set, after the merge.
    pub ignore_exempt_prefixes: Vec<String>,
    /// Whether a name matching no getter pattern is measured anyway; off
    /// by default.
    pub measure_unmatched_names: bool,
    /// Whether test code is left alone; on by default.
    pub exempt_tests: bool,
}

impl Default for Config {
    fn default() -> (c: Self)
        ensures
            c.extra_exempt_prefixes@.len() == 0,
            c.ignore_exempt_prefixes@.len() == 0,
            !c.measure_unmatched_names,
            c.exempt_tests,
    {
        Config {
            extra_exempt_prefixes: Vec::new(),
            ignore_exempt_prefixes: Vec::new(),
            measure_unmatched_names: false,
            exempt_tests: true,
        }
    }
}

pub struct CloningGetter {
    measure_unmatched_names: bool,
    exempt_tests: bool,
    exempt_prefixes: Vec<String>,
}

pub open spec fn rename_help() -> Seq<char> {
    "or stop it being a getter: rename it `to_*`, the prefix for a conversion that costs something, which is the right shape when every call site would copy the borrow straight back"@
}

pub open spec fn report_spec(method: Seq<char>, field: Seq<char>, borrowed: Seq<char>) -> DiagnosticModel {
    DiagnosticModel {
        message: "getter `"@ + method + "` returns an owned copy of `self."@ + field + "`"@,
        parts: seq![
            PartModel::Help("either stop it cloning: return `"@ + borrowed + "`, and let a caller that needs ownership copy at the call site"@),
            PartModel::Help(rename_help()),
        ],
    }
}

impl CloningGetter {
    pub closed spec fn exempt(&self) -> Seq<Seq<char>> {
        views(self.exempt_prefixes@)
    }

    pub closed spec fn measures_unmatched(&self) -> bool {
        self.measure_unmatched_names
    }

    pub closed spec fn exempts_tests(&self) -> bool {
        self.exempt_tests
    }

    /// The rule for `config`: the exempt prefixes are `clone_` and
    /// `cloned_` and the extra ones, less the ignored ones.
    pub fn new(config: &Config) -> (r: Self)
        ensures
            r.exempt() == canon(unignored(seq!["clone_"@, "cloned_"@] + views(config.extra_exempt_prefixes@), views(config.ignore_exempt_prefixes@)), false),
            r.measures_unmatched() == config.measure_unmatched_names,
            r.exempts_tests() == config.exempt_tests,
    {
        let defaults = vec!["clone_".to_owned(), "cloned_".to_owned()];
        assert(views(defaults@) =~= seq!["clone_"@, "cloned_"@]);
        let exempt_prefixes = resolve_string_set(&defaults, &config.extra_exempt_prefixes, &config.ignore_exempt_prefixes);
        CloningGetter {
            measure_unmatched_names: config.measure_unmatched_names,
            exempt_tests: config.exempt_tests,
            exempt_prefixes,
        }
    }

    pub open spec fn getter(&self, name: Seq<char>, is_field: bool) -> bool {
        if exists|k: int| 0 <= k < 3 && (#[trigger] CONVERSION_PREFIXES@[k])@.is_prefix_of(name) {
            false
        } else if exists|k: int| 0 <= k < self.exempt().len() && (#[trigger] self.exempt()[k]).is_prefix_of(name) {
            false
        } else if "get_"@.is_prefix_of(name) {
            true
        } else if is_field {
            true
        } else {
            self.measures_unmatched()
        }
    }

    /// Whether a `&self` method is read as a getter: never under a
    /// conversion prefix or an exempt prefix; always as `get_*` or when
    /// named for a field of `self` (`is_field`); otherwise as
    /// `measure_unmatched_names` says.
    pub fn is_getter(&self, name: &str, is_field: bool) -> (r: bool)
        ensures
            r == self.getter(name@, is_field),
    {
        if is_conversion_name(name) {
            return false;
        }
        let mut k: usize = 0;
        while k < self.exempt_prefixes.len()
            invariant
                k <= self.exempt_prefixes@.len(),
                forall|j: int| 0 <= j < k ==> !(#[trigger] self.exempt()[j]).is_prefix_of(name@),
            decreases self.exempt_prefixes@.len() - k,
        {
            assert(self.exempt()[k as int] == self.exempt_prefixes@[k as int]@);
            if str_starts_with(name, self.exempt_prefixes[k].as_str()) {
                return false;
            }
            k = k + 1;
        }
        if str_starts_with(name, "get_") {
            return true;
        }
        is_field || self.measure_unmatched_names
    }

    /// Judges one method whose body copies the field `field` of `self`
    /// (`borrowed` the borrowed form of its type): reported when it reads
    /// as a getter, unless it is test code and tests are exempt.
    pub fn check_method(&self, method: &str, is_field: bool, in_test: bool, field: &str, borrowed: &str) -> (r: Option<Diagnostic>)
        ensures
            match r {
                Some(d) => self.getter(method@, is_field) && !(self.exempts_tests() && in_test)
                    && d@ == report_spec(method@, field@, borrowed@),
                None => !self.getter(method@, is_field) || (self.exempts_tests() && in_test),
            },
    {
        if !self.is_getter(method, is_field) || (self.exempt_tests && in_test) {
            return None;
        }
        let mut message: Vec<char> = Vec::new();
        push_str(&mut message, "getter `");
        push_str(&mut message, method);
        push_str(&mut message, "` returns an owned copy of `self.");
        push_str(&mut message, field);
        push_str(&mut message, "`");
        let mut help: Vec<char> = Vec::new();
        push_str(&mut help, "either stop it cloning: return `");
        push_str(&mut help, borrowed);
        push_str(&mut help, "`, and let a caller that needs ownership copy at the call site");
        let d = Diagnostic {
            message: string_of(message.as_slice()),
            parts: vec![
                Part::Help(string_of(help.as_slice())),
                Part::Help("or stop it being a getter: rename it `to_*`, the prefix for a conversion that costs something, which is the right shape when every call site would copy the borrow straight back".to_owned()),
            ],
        };
        assert(d@.message =~= report_spec(method@, field@, borrowed@).message);
        assert(d@.parts =~= report_spec(method@, field@, borrowed@).parts);
        Some(d)
    }
}

/// Law: no method is measured both by this rule and by
/// `cloning_as_conversion`. That rule reports only names under `as_`,
/// and this one never reads such a name as a getter, whatever its
/// configuration and whether or not the name is a field's.
pub proof fn lemma_no_method_measured_by_both(rule: &CloningGetter, name: Seq<char>, is_field: bool)
    requires
        "as_"@.is_prefix_of(name),
    ensures
        !rule.getter(name, is_field),
{
    assert(CONVERSION_PREFIXES@[0]@ == "as_"@);
}

} // verus!
