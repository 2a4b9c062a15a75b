//! The `flat_module_pattern` rule: a submodule is a sibling
//! `<parent>.rs` file, not a `<parent>/mod.rs`.
use vstd::prelude::*;
use crate::diagnostic::{Diagnostic, DiagnosticModel, Part, PartModel};

verus! {

/// The rule. It takes no configuration.
pub struct FlatModulePattern;

pub open spec fn mod_rs() -> Seq<char> {
    seq!['m', 'o', 'd', '.', 'r', 's']
}

/// Whether a file whose final path component is `file_name` is a
/// `mod.rs` file. `None` (a path with no final name, or one that is not
/// valid UTF-8) is not.
pub fn is_mod_rs(file_name: Option<&str>) -> (r: bool)
    ensures
        r == (file_name matches Some(n) && n@ == mod_rs()),
{
    match file_name {
        Some(n) => {
            let c = crate::text::chars_of(n);
            let m = vec!['m', 'o', 'd', '.', 'r', 's'];
            assert(m@ =~= mod_rs());
            crate::text::slice_eq(c.as_slice(), m.as_slice())
        },
        None => false,
    }
}

pub open spec fn report_spec() -> DiagnosticModel {
    DiagnosticModel {
        message: "submodule uses the `mod.rs` layout"@,
        parts: seq![PartModel::Help("rename `mod.rs` to the sibling `<parent>.rs` form"@)],
    }
}

impl FlatModulePattern {
    pub fn new() -> (r: Self) {
        FlatModulePattern
    }

    /// Judges one source file of the crate: a `mod.rs` file other than
    /// the crate root is reported.
    pub fn check_file(&self, file_name: Option<&str>, is_crate_root: bool) -> (r: Option<Diagnostic>)
        ensures
            match r {
                Some(d) => file_name matches Some(n) && n@ == mod_rs() && !is_crate_root && d@ == report_spec(),
                None => !(file_name matches Some(n) && n@ == mod_rs()) || is_crate_root,
            },
    {
        if !is_mod_rs(file_name) || is_crate_root {
            return None;
        }
        let d = Diagnostic {
            message: "submodule uses the `mod.rs` layout".to_owned(),
            parts: vec![Part::Help("rename `mod.rs` to the sibling `<parent>.rs` form".to_owned())],
        };
        assert(d@.parts =~= report_spec().parts);
        Some(d)
    }
}

} // verus!
