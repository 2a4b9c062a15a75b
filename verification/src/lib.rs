use vstd::prelude::*;

pub mod text;
pub mod lexing;
pub mod diagnostic;
pub mod repo_url;
pub mod issue_reference;
pub mod bare_email;
pub mod bare_identifier_reference;
pub mod arbitrary_source_item_ordering;
pub mod clap_help_markdown;
pub mod collection_round_trip;
pub mod common;
pub mod ordering;
pub mod utf8_order;
pub mod import_granularity;
pub mod derive_ordering;
pub mod import_grouping;
pub mod import_grouping_mismatch;
pub mod exhaustive_error_enums;
pub mod flat_module_pattern;
pub mod excessive_inline_tests;
pub mod arc_rc_clone;
pub mod borrowing_to_conversion;
pub mod bare_url;
pub mod getter_name_patterns;
pub mod allow_attributes;
pub mod allow_attributes_without_reason;
pub mod cloning_as_conversion;
pub mod cloning_getter;
pub mod avoidable_string_escapes;
pub mod core_instead_of_std;
pub mod clap_help_no_markdown;
pub mod fn_body;
pub mod excessive_cognitive_complexity;
pub mod excessive_nesting;

verus! {

} // verus!
