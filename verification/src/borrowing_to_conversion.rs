//! The `borrowing_to_conversion` rule: a `to_*` method promises an owned
//! value, so one that returns a borrow is reported, with the cost-free
//! `as_*` name proposed.
use vstd::prelude::*;
use crate::diagnostic::{Diagnostic, DiagnosticModel, Part, PartModel};
use crate::text::{chars_of, push_str, string_of};

verus! {

/// The rule. It takes no configuration.
pub struct BorrowingToConversion;

/// The shape of a method's return type, as far as the rule reads it.
#[derive(Debug, Clone, Copy, PartialEq, Eq, Structural)]
pub enum ReturnShape {
    /// A reference `&T` / `&mut T`.
    Ref,
    /// `Option<&T>` / `Option<&mut T>`.
    OptionOfRef,
    /// Anything else.
    Owned,
}

/// Whether the return type hands out a borrow: a reference, or an
/// `Option` of one.
pub fn returns_a_borrow(shape: ReturnShape) -> (r: bool)
    ensures
        r == (shape != ReturnShape::Owned),
{
    match shape {
        ReturnShape::Ref | ReturnShape::OptionOfRef => true,
        ReturnShape::Owned => false,
    }
}

pub open spec fn to_prefix() -> Seq<char> {
    seq!['t', 'o', '_']
}

pub open spec fn owned_help() -> Seq<char> {
    "or stop it borrowing: return the owned value the name promises, where a caller really does need one of its own"@
}

pub open spec fn report_spec(method: Seq<char>) -> DiagnosticModel {
    DiagnosticModel {
        message: "`"@ + method + "` returns a borrow, but `to_` promises an owned value"@,
        parts: seq![
            PartModel::Help("either stop it being a `to_*`: rename it `"@ + (seq!['a', 's', '_'] + method.skip(3)) + "`, the prefix for a conversion that costs nothing"@),
            PartModel::Help(owned_help()),
        ],
    }
}

impl BorrowingToConversion {
    pub fn new() -> (r: Self) {
        BorrowingToConversion
    }

    /// Judges one method: a `to_*` method (`eligible`: not from a macro,
    /// and the kind of method the rule looks at) that returns a borrow
    /// is reported, and its `as_*` rename proposed (the first `to_`, its
    /// prefix, becomes `as_`).
    pub fn check_method(&self, method: &str, eligible: bool, shape: ReturnShape) -> (r: Option<Diagnostic>)
        ensures
            match r {
                Some(d) => to_prefix().is_prefix_of(method@) && eligible && shape != ReturnShape::Owned
                    && d@ == report_spec(method@),
                None => !to_prefix().is_prefix_of(method@) || !eligible || shape == ReturnShape::Owned,
            },
    {
        let m = chars_of(method);
        let starts = m.len() >= 3 && m[0] == 't' && m[1] == 'o' && m[2] == '_';
        assert(starts == to_prefix().is_prefix_of(method@)) by {
            if m@.len() >= 3 {
                assert(starts == (m@.subrange(0, 3) =~= to_prefix()));
            }
        }
        if !starts || !eligible || !returns_a_borrow(shape) {
            return None;
        }
        let mut message: Vec<char> = Vec::new();
        push_str(&mut message, "`");
        push_str(&mut message, method);
        push_str(&mut message, "` returns a borrow, but `to_` promises an owned value");
        let mut help: Vec<char> = Vec::new();
        push_str(&mut help, "either stop it being a `to_*`: rename it `");
        help.push('a');
        help.push('s');
        help.push('_');
        let mut k: usize = 3;
        let ghost base = help@;
        while k < m.len()
            invariant
                3 <= k <= m@.len(),
                help@ == base + m@.subrange(3, k as int),
            decreases m@.len() - k,
        {
            help.push(m[k]);
            assert(help@ =~= base + m@.subrange(3, k + 1));
            k = k + 1;
        }
        push_str(&mut help, "`, the prefix for a conversion that costs nothing");
        let d = Diagnostic {
            message: string_of(message.as_slice()),
            parts: vec![
                Part::Help(string_of(help.as_slice())),
                Part::Help("or stop it borrowing: return the owned value the name promises, where a caller really does need one of its own".to_owned()),
            ],
        };
        assert(m@.subrange(3, m@.len() as int) =~= method@.skip(3));
        assert(help@ =~= "either stop it being a `to_*`: rename it `"@ + (seq!['a', 's', '_'] + method@.skip(3)) + "`, the prefix for a conversion that costs nothing"@);
        assert(d@.parts[0] == PartModel::Help(help@));
        assert(d@.message =~= report_spec(method@).message);
        assert(d@.parts =~= report_spec(method@).parts);
        Some(d)
    }
}

} // verus!
