//! The `arc_rc_clone` rule: `.clone()` on an `Arc<T>` or `Rc<T>` is
//! written `Arc::clone(&x)` / `Rc::clone(&x)`, so the cheap refcount bump
//! reads as one.
use vstd::prelude::*;
use crate::diagnostic::{Applicability, Diagnostic, DiagnosticModel, Part, PartModel, Suggestion, SuggestionModel};
use crate::text::{chars_of, push_str, slice_eq, string_of};

verus! {

/// The reference-counted pointer a `.clone()` call produces.
#[derive(Debug, Clone, Copy, PartialEq, Eq, Structural)]
pub enum RcKind {
    Arc,
    Rc,
}

pub open spec fn kind_name(k: RcKind) -> Seq<char> {
    match k {
        RcKind::Arc => "Arc"@,
        RcKind::Rc => "Rc"@,
    }
}

/// The rule. It takes no configuration.
pub struct ArcRcClone;

pub open spec fn report_spec(kind: RcKind, receiver: Seq<char>, receiver_is_ref: bool) -> DiagnosticModel {
    DiagnosticModel {
        message: "calling `.clone()` on an `"@ + kind_name(kind) + "<T>`"@,
        parts: seq![PartModel::Suggest(SuggestionModel {
            message: "use the qualified form to make the cheap refcount bump explicit"@,
            replacement: kind_name(kind) + "::clone("@ + (if receiver_is_ref { Seq::empty() } else { "&"@ }) + receiver + ")"@,
            appended: None,
            applicability: Applicability::MaybeIncorrect,
        })],
    }
}

fn push_kind(out: &mut Vec<char>, kind: RcKind)
    ensures
        final(out)@ == old(out)@ + kind_name(kind),
{
    match kind {
        RcKind::Arc => push_str(out, "Arc"),
        RcKind::Rc => push_str(out, "Rc"),
    }
}

impl ArcRcClone {
    pub fn new() -> (r: Self) {
        ArcRcClone
    }

    /// Judges one method call: a `clone` with no arguments, outside an
    /// external macro, whose result is an `Arc` or `Rc` (`result_kind`),
    /// is reported. The suggestion passes the receiver's source text
    /// (`receiver`) to `Arc::clone` / `Rc::clone`, borrowing it unless it
    /// already is a reference. It names the bare type, which must be in
    /// scope, hence `MaybeIncorrect`.
    pub fn check_call(
        &self,
        method: &str,
        arg_count: usize,
        in_external_macro: bool,
        result_kind: Option<RcKind>,
        receiver: &str,
        receiver_is_ref: bool,
    ) -> (r: Option<Diagnostic>)
        ensures
            match r {
                Some(d) => method@ == "clone"@ && arg_count == 0 && !in_external_macro && result_kind is Some
                    && d@ == report_spec(result_kind->0, receiver@, receiver_is_ref),
                None => method@ != "clone"@ || arg_count != 0 || in_external_macro || result_kind is None,
            },
    {
        let m = chars_of(method);
        let clone = vec!['c', 'l', 'o', 'n', 'e'];
        proof {
            reveal_strlit("clone");
        }
        assert(clone@ =~= "clone"@);
        if !slice_eq(m.as_slice(), clone.as_slice()) || arg_count != 0 || in_external_macro {
            return None;
        }
        let kind = match result_kind {
            Some(k) => k,
            None => {
                return None;
            },
        };
        let mut message: Vec<char> = Vec::new();
        push_str(&mut message, "calling `.clone()` on an `");
        push_kind(&mut message, kind);
        push_str(&mut message, "<T>`");
        let mut replacement: Vec<char> = Vec::new();
        push_kind(&mut replacement, kind);
        push_str(&mut replacement, "::clone(");
        if !receiver_is_ref {
            push_str(&mut replacement, "&");
        }
        push_str(&mut replacement, receiver);
        push_str(&mut replacement, ")");
        let d = Diagnostic {
            message: string_of(message.as_slice()),
            parts: vec![Part::Suggest(Suggestion {
                message: "use the qualified form to make the cheap refcount bump explicit".to_owned(),
                replacement: string_of(replacement.as_slice()),
                appended: None,
                applicability: Applicability::MaybeIncorrect,
            })],
        };
        assert(d@.message =~= report_spec(kind, receiver@, receiver_is_ref).message);
        assert(d@.parts =~= report_spec(kind, receiver@, receiver_is_ref).parts);
        Some(d)
    }
}

} // verus!
