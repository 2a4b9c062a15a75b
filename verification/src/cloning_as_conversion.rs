//! The `cloning_as_conversion` rule: an `as_*` method promises a free
//! conversion, so one that copies a field of `self` is reported.
use vstd::prelude::*;
use crate::diagnostic::{Diagnostic, DiagnosticModel, Part, PartModel};
use crate::text::{push_str, str_starts_with, string_of};

verus! {

/// The prefix this rule measures; `cloning_getter` leaves every name
/// under it alone.
pub const AS_PREFIX: &'static str = "as_";

pub open spec fn rename_help() -> Seq<char> {
    "or stop it being an `as_*`: rename it `to_*`, the prefix for a conversion that costs something, so the call site shows what it pays"@
}

pub open spec fn report_spec(method: Seq<char>, field: Seq<char>, borrowed: Seq<char>) -> DiagnosticModel {
    DiagnosticModel {
        message: "`"@ + method + "` copies `self."@ + field + "`, but `as_` promises a free conversion"@,
        parts: seq![
            PartModel::Help("either stop it copying: return `"@ + borrowed + "`, which is free and is what the name promises"@),
            PartModel::Help(rename_help()),
        ],
    }
}

/// The rule. It takes no configuration.
pub struct CloningAsConversion;

impl CloningAsConversion {
    pub fn new() -> (r: Self) {
        CloningAsConversion
    }

    /// Judges one method: an `as_*` method whose body copies the field
    /// `field` of `self` (when `copied` is given, with the borrowed form of
    /// the field's type to return instead) is reported.
    pub fn check_method(&self, method: &str, copied: Option<(&str, &str)>) -> (r: Option<Diagnostic>)
        ensures
            match r {
                Some(d) => {
                    &&& "as_"@.is_prefix_of(method@)
                    &&& copied matches Some((field, borrowed))
                    &&& d@ == report_spec(method@, field@, borrowed@)
                },
                None => !"as_"@.is_prefix_of(method@) || copied is None,
            },
    {
        if !str_starts_with(method, AS_PREFIX) {
            return None;
        }
        let (field, borrowed) = match copied {
            Some(c) => c,
            None => {
                return None;
            },
        };
        let mut message: Vec<char> = Vec::new();
        push_str(&mut message, "`");
        push_str(&mut message, method);
        push_str(&mut message, "` copies `self.");
        push_str(&mut message, field);
        push_str(&mut message, "`, but `as_` promises a free conversion");
        let mut help: Vec<char> = Vec::new();
        push_str(&mut help, "either stop it copying: return `");
        push_str(&mut help, borrowed);
        push_str(&mut help, "`, which is free and is what the name promises");
        let d = Diagnostic {
            message: string_of(message.as_slice()),
            parts: vec![
                Part::Help(string_of(help.as_slice())),
                Part::Help("or stop it being an `as_*`: rename it `to_*`, the prefix for a conversion that costs something, so the call site shows what it pays".to_owned()),
            ],
        };
        assert(d@.message =~= report_spec(method@, field@, borrowed@).message);
        assert(d@.parts =~= report_spec(method@, field@, borrowed@).parts);
        Some(d)
    }
}

} // verus!
