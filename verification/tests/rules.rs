use perfectionist::arbitrary_source_item_ordering::{ArbitrarySourceItemOrdering, Category};
use perfectionist::arc_rc_clone::{ArcRcClone, RcKind};
use perfectionist::avoidable_string_escapes::{
    is_supported_eligible_entry, literal_body, surviving, AvoidableStringEscapes, Config as EscapesConfig,
};
use perfectionist::bare_url::{BareUrl, Config as UrlConfig};
use perfectionist::borrowing_to_conversion::{returns_a_borrow, BorrowingToConversion, ReturnShape};
use perfectionist::clap_help_markdown::ConstructCategory;
use perfectionist::clap_help_no_markdown::{Config as NoMarkdownConfig, ResolvedConfig};
use perfectionist::collection_round_trip::{is_collection, stage_of, ChainExpr, ChainKind, CollectionRoundTrip, Stage, TypeInfo};
use perfectionist::common::resolve_string_set;
use perfectionist::core_instead_of_std::{
    flush, skip_entry_valid, validate, Config as CoreConfig, CoreInsteadOfStd, Group, PathFacts, Point, Resolved,
};
use perfectionist::diagnostic::{Applicability, Part};
use perfectionist::excessive_inline_tests::{
    canonical_target, common_module_name, help_extract, is_mod_root, run as scan_crate, ExcessiveInlineTests, InlineFinding, InlineStyle,
    ItemOrigin, ScanItem, ScanKind, TestItem,
};
use perfectionist::excessive_inline_tests::cfg_test::{cfg_predicate_implies_test, entry_implies_test, CfgEntry};
use perfectionist::exhaustive_error_enums::{Config as ErrorConfig, ExhaustiveErrorEnums, ItemShape, RequireFor};
use perfectionist::flat_module_pattern::{is_mod_rs, FlatModulePattern};
use perfectionist::ordering::{chars_lt, sort_dedup, sort_strings};

fn strings(items: &[&str]) -> Vec<String> {
    items.iter().map(|s| (*s).to_owned()).collect()
}

#[test]
fn item_ordering_report_names_both_sections() {
    let d = ArbitrarySourceItemOrdering::new().report(Category::PubUse, Category::PrivateUse);
    assert_eq!(d.message, "`pub use` re-export appears after a private `use` import");
    match &d.parts[0] {
        Part::Note(n) => assert_eq!(n, "this private `use` import belongs below it"),
        _ => panic!("expected a note"),
    }
}

#[test]
fn arc_clone_is_rewritten_to_the_qualified_form() {
    let rule = ArcRcClone::new();
    let d = rule.check_call("clone", 0, false, Some(RcKind::Arc), "shared", false).unwrap();
    assert_eq!(d.message, "calling `.clone()` on an `Arc<T>`");
    match &d.parts[0] {
        Part::Suggest(s) => {
            assert_eq!(s.replacement, "Arc::clone(&shared)");
            assert_eq!(s.applicability, Applicability::MaybeIncorrect);
        }
        _ => panic!("expected a suggestion"),
    }
    let d = rule.check_call("clone", 0, false, Some(RcKind::Rc), "shared_ref", true).unwrap();
    match &d.parts[0] {
        Part::Suggest(s) => assert_eq!(s.replacement, "Rc::clone(shared_ref)"),
        _ => panic!("expected a suggestion"),
    }
    assert!(rule.check_call("clone", 0, false, None, "x", false).is_none());
    assert!(rule.check_call("clone_from", 0, false, Some(RcKind::Rc), "x", false).is_none());
    assert!(rule.check_call("clone", 0, true, Some(RcKind::Rc), "x", false).is_none());
}

#[test]
fn borrowing_to_method_gets_the_as_name() {
    let rule = BorrowingToConversion::new();
    let d = rule.check_method("to_str", true, ReturnShape::Ref).unwrap();
    assert_eq!(d.message, "`to_str` returns a borrow, but `to_` promises an owned value");
    match &d.parts[0] {
        Part::Help(h) => assert_eq!(h, "either stop it being a `to_*`: rename it `as_str`, the prefix for a conversion that costs nothing"),
        _ => panic!("expected a help"),
    }
    assert!(rule.check_method("to_owned_thing", true, ReturnShape::Owned).is_none());
    assert!(rule.check_method("as_str", true, ReturnShape::Ref).is_none());
    assert!(returns_a_borrow(ReturnShape::OptionOfRef));
    assert!(!returns_a_borrow(ReturnShape::Owned));
}

#[test]
fn bare_url_skips_configured_hosts() {
    let rule = BareUrl::new(UrlConfig::default());
    assert!(rule.host_is_skipped("http://LocalHost:8080/x"));
    assert!(rule.host_is_skipped("localhost"));
    assert!(!rule.host_is_skipped("https://example.com/localhost"));
    let d = rule.report("https://example.com", true);
    assert_eq!(d.message, "bare URL `https://example.com`; wrap in `<...>` or use a labelled markdown link");
    match &d.parts[0] {
        Part::Suggest(s) => {
            assert_eq!(s.replacement, "<https://example.com>");
            assert_eq!(s.applicability, Applicability::MachineApplicable);
        }
        _ => panic!("expected a suggestion"),
    }
}

#[test]
fn escapes_config_keeps_only_self_decoding_escapes() {
    assert!(is_supported_eligible_entry(&"\\\"".to_owned()));
    assert!(is_supported_eligible_entry(&"\\'".to_owned()));
    assert!(!is_supported_eligible_entry(&"\\n".to_owned()));
    let config = EscapesConfig { min_escapes_to_trigger: 2, eligible_escapes: strings(&["\\n", "\\\\", "x"]) };
    let rule = AvoidableStringEscapes::new(config);
    assert!(!rule.triggers(1));
    assert!(rule.triggers(2));
    assert_eq!(EscapesConfig::default().eligible_escapes.len(), 3);
}

#[test]
fn literal_bodies_and_surviving_ranges() {
    assert_eq!(literal_body("\"a\\\"b\"").unwrap().iter().collect::<String>(), "a\\\"b");
    assert!(literal_body("r\"x\"").is_none());
    assert!(literal_body("\"").is_none());
    let pending = [(1, 5), (7, 9), (1, 5), (10, 12)];
    assert_eq!(surviving(&pending, &[(10, 12)]), [0, 1]);
}

#[test]
fn no_markdown_config_resolves_forbid_and_keys() {
    let config = NoMarkdownConfig {
        extra_forbid: vec![ConstructCategory::Bold],
        allow: vec![ConstructCategory::CodeSpan],
        override_keys: strings(&["help", "about", "help"]),
    };
    let resolved = ResolvedConfig::from_config(config);
    assert!(resolved.forbid.contains(&ConstructCategory::Bold));
    assert!(!resolved.forbid.contains(&ConstructCategory::CodeSpan));
    assert!(resolved.forbid.contains(&ConstructCategory::Html));
    assert_eq!(resolved.override_keys, ["about", "help"]);
    assert_eq!(NoMarkdownConfig::default().override_keys, ["about", "long_about", "help", "long_help"]);
}

#[test]
fn name_sets_merge_then_drop_ignored() {
    let set = resolve_string_set(&strings(&["Error"]), &strings(&["Fault", "Error"]), &strings(&["Fault"]));
    assert_eq!(set, ["Error"]);
    let set = resolve_string_set(&strings(&["b", "a"]), &strings(&["c"]), &Vec::new());
    assert_eq!(set, ["a", "b", "c"]);
}

#[test]
fn skip_path_entries_are_validated() {
    assert!(skip_entry_valid("::core::mem::transmute"));
    assert!(skip_entry_valid("::alloc::sync::Arc"));
    assert!(!skip_entry_valid("core::mem::transmute"));
    assert!(!skip_entry_valid("::rayon::iter"));
    assert!(!skip_entry_valid("::core"));
    assert!(!skip_entry_valid("::core::"));
    assert!(!skip_entry_valid("::core:: ::x"));
    let ok = CoreConfig { also_alloc: true, skip_paths: strings(&["::core::mem::transmute"]) };
    assert!(validate(&ok).is_ok());
    let bad = CoreConfig { also_alloc: true, skip_paths: strings(&["::core::fmt", "core::x"]) };
    let message = validate(&bad).unwrap_err();
    assert!(message.starts_with("`skip_paths` entry \"core::x\" is not a path this rule could flag"));
}

#[test]
fn a_group_through_one_token_is_judged_whole() {
    let mut state = CoreInsteadOfStd::new(&CoreConfig::default(), false);
    assert!(state.covers("core"));
    assert!(state.covers("alloc"));
    assert!(!state.covers("std"));
    assert!(state.check_path(1, "core".to_owned(), Point::Rewritable { anchor: 10 }).is_none());
    assert!(state.check_path(1, "core".to_owned(), Point::Rewritable { anchor: 11 }).is_none());
    let finished = state.check_path(2, "core".to_owned(), Point::Blocked);
    let out = flush(finished);
    assert_eq!(out.len(), 1);
    assert_eq!(out[0].anchor, 10);
    assert!(out[0].at_token);
    assert_eq!(out[0].diagnostic.message, "item named through `core` instead of `std`");
    assert!(state.check_path(2, "core".to_owned(), Point::Rewritable { anchor: 12 }).is_none());
    let out = flush(state.close());
    assert_eq!(out.len(), 1);
    assert_eq!(out[0].anchor, 12);
    assert!(!out[0].at_token);
    assert!(matches!(&out[0].diagnostic.parts[0], Part::Help(_)));
    assert!(flush(None).is_empty());
    let only_blocked = Group { token: 3, crate_name: "alloc".to_owned(), points: vec![Point::Blocked] };
    assert!(flush(Some(only_blocked)).is_empty());
    let mut no_std = CoreInsteadOfStd::new(&CoreConfig::default(), true);
    assert!(no_std.check_path(1, "core".to_owned(), Point::Blocked).is_none());
    assert!(no_std.close().is_none());
}

#[test]
fn inline_test_findings() {
    let always = ExcessiveInlineTests { inline_style: InlineStyle::ExternalOnly, inline_max_lines: 50 };
    let items = [TestItem { id: 1, module_name: Some("tests".to_owned()) }, TestItem { id: 2, module_name: None }];
    let found = always.emit_inline_style(&items, 3, 10, 100, false);
    assert_eq!(found.len(), 2);
    assert!(always.emit_inline_style(&items, 0, 10, 100, false).is_empty());
    let long = ExcessiveInlineTests { inline_style: InlineStyle::ExternalWhenLong, inline_max_lines: 50 };
    assert!(long.emit_inline_style(&items, 3, 50, 100, false).is_empty());
    match &long.emit_inline_style(&items, 3, 51, 100, false)[0] {
        InlineFinding::Whole { message, name } => {
            assert_eq!(message, "inline test code spans 51 lines, over the limit of 50");
            assert_eq!(name, "tests");
        }
        _ => panic!("expected one finding over the whole file"),
    }
    match &long.emit_inline_style(&items[..1], 3, 20, 30, true)[0] {
        InlineFinding::Whole { message, .. } => {
            assert_eq!(message, "inline test code is 20 of 30 lines in this file, over the configured fraction")
        }
        _ => panic!("expected one finding over the whole file"),
    }
    assert_eq!(common_module_name(&items), None);
    assert_eq!(common_module_name(&items[..1]), Some("tests".to_owned()));
    assert!(is_mod_root(Some("lib.rs")));
    assert!(!is_mod_root(Some("foo.rs")));
    assert_eq!(
        help_extract(None, Some("src/foo/tests.rs")),
        "move the inline test code into a separate file (e.g. `src/foo/tests.rs`) and replace it with an external `mod tests;` declaration",
    );
}

#[test]
fn error_enums_need_non_exhaustive() {
    let rule = ExhaustiveErrorEnums::new(&ErrorConfig::default());
    assert!(rule.name_matches("ParseError"));
    assert!(!rule.name_matches("Errors"));
    assert!(rule.visibility_qualifies(true, false));
    assert!(!rule.visibility_qualifies(false, true));
    let d = rule.check_item(ItemShape::Enum, "ParseError", true, false, false, false, 4).unwrap();
    assert_eq!(d.message, "enum `ParseError` is missing `#[non_exhaustive]`");
    match &d.parts[0] {
        Part::Suggest(s) => {
            assert_eq!(s.replacement, "#[non_exhaustive]\n    ");
            assert_eq!(s.applicability, Applicability::MaybeIncorrect);
        }
        _ => panic!("expected a suggestion"),
    }
    assert!(rule.check_item(ItemShape::Enum, "ParseError", true, false, false, true, 0).is_none());
    assert!(rule.check_item(ItemShape::Other, "ParseError", true, false, false, false, 0).is_none());
    assert!(rule.check_item(ItemShape::SumLikeStruct, "Wrapper", true, false, true, false, 0).is_some());
    let crate_rule = ExhaustiveErrorEnums::new(&ErrorConfig {
        require_for: RequireFor::PubCrate,
        extra_suffixes: strings(&["Failure"]),
        ignore_suffixes: strings(&["Error"]),
    });
    assert!(crate_rule.visibility_qualifies(false, true));
    assert!(crate_rule.name_matches("LoadFailure"));
    assert!(!crate_rule.name_matches("LoadError"));
}

#[test]
fn mod_rs_files_are_reported_except_the_crate_root() {
    let rule = FlatModulePattern::new();
    assert!(is_mod_rs(Some("mod.rs")));
    assert!(!is_mod_rs(Some("lib.rs")));
    assert!(!is_mod_rs(None));
    let d = rule.check_file(Some("mod.rs"), false).unwrap();
    assert_eq!(d.message, "submodule uses the `mod.rs` layout");
    assert!(rule.check_file(Some("mod.rs"), true).is_none());
}

#[test]
fn string_orders() {
    let c = |s: &str| s.chars().collect::<Vec<char>>();
    assert!(chars_lt(&c("a"), &c("b")));
    assert!(chars_lt(&c("ab"), &c("abc")));
    assert!(!chars_lt(&c("b"), &c("B")));
    assert_eq!(sort_dedup(&strings(&["b", "a", "b"]), false), ["a", "b"]);
    assert_eq!(sort_strings(&strings(&["b", "a", "b"])), ["a", "b", "b"]);
}

fn core_config(skip_paths: &[&str]) -> CoreConfig {
    CoreConfig { skip_paths: strings(skip_paths), ..CoreConfig::default() }
}

#[test]
fn default_covers_alloc_and_exempts_nothing() {
    let resolved = Resolved::from_config(CoreConfig::default());
    assert!(resolved.also_alloc);
    assert!(resolved.skip_paths.is_empty());
}

#[test]
fn resolved_skip_paths_form_a_set() {
    let resolved = Resolved::from_config(core_config(&["::core::mem::transmute", "::alloc::sync::Arc", "::core::mem::transmute"]));
    assert_eq!(resolved.skip_paths, strings(&["::alloc::sync::Arc", "::core::mem::transmute"]));
    assert!(resolved.skipped(&"::core::mem::transmute".to_owned()));
    assert!(!resolved.skipped(&"::core::mem::swap".to_owned()));
}

#[test]
fn skip_paths_accepts_core_and_alloc_entries() {
    let config = core_config(&["::core::mem::transmute", "::alloc::sync::Arc"]);
    assert!(validate(&config).is_ok());
}

#[test]
fn skip_paths_rejects_a_missing_leading_root() {
    let config = core_config(&["core::mem::transmute"]);
    assert!(validate(&config).is_err());
}

#[test]
fn skip_paths_rejects_a_path_the_rule_could_never_flag() {
    let other = core_config(&["::rayon::iter"]);
    assert!(validate(&other).is_err());
    let bare = core_config(&["::core"]);
    assert!(validate(&bare).is_err());
    let empty_segment = core_config(&["::core::"]);
    assert!(validate(&empty_segment).is_err());
}

fn ty(name: Option<&str>, is_iterator: bool) -> TypeInfo {
    TypeInfo { diagnostic_name: name.map(|n| n.to_owned()), is_iterator }
}

fn call(id: u64, produced: TypeInfo, receiver: ChainExpr) -> ChainExpr {
    ChainExpr { id, from_macro: false, ty: produced, kind: ChainKind::MethodCall(Box::new(receiver)) }
}

fn base(id: u64, t: TypeInfo) -> ChainExpr {
    ChainExpr { id, from_macro: false, ty: t, kind: ChainKind::Other }
}

/// `names.into_iter().collect::<HashSet<_>>().into_iter().collect::<Vec<_>>()`.
fn dedup_chain() -> ChainExpr {
    let names = base(1, ty(Some("Vec"), false));
    let iter1 = call(2, ty(None, true), names);
    let set = call(3, ty(Some("HashSet"), false), iter1);
    let iter2 = call(4, ty(None, true), set);
    call(5, ty(Some("Vec"), false), iter2)
}

#[test]
fn collections_are_the_listed_containers() {
    assert!(is_collection(&ty(Some("BTreeSet"), false)));
    assert!(!is_collection(&ty(Some("String"), false)));
    assert!(!is_collection(&ty(None, true)));
    assert_eq!(stage_of(&ty(Some("Vec"), false), &ty(None, true)), Stage::Collection);
    assert_eq!(stage_of(&ty(Some("Vec"), false), &ty(Some("Option"), false)), Stage::Other);
    assert_eq!(stage_of(&ty(None, true), &ty(Some("Vec"), false)), Stage::Iterator);
}

#[test]
fn a_chain_that_collects_walks_and_collects_again_is_reported_once() {
    let mut rule = CollectionRoundTrip::new(false);
    let head = dedup_chain();
    let d = rule.check_expr(&head, false).unwrap();
    assert_eq!(d.message, "expression builds a collection, walks it again, and builds another");
    assert_eq!(rule.measured.len(), 4);
    if let ChainKind::MethodCall(receiver) = &head.kind {
        assert!(rule.check_expr(receiver, false).is_none());
    }
    let mut exempt = CollectionRoundTrip::new(true);
    assert!(exempt.check_expr(&dedup_chain(), true).is_none());
    assert!(exempt.check_expr(&dedup_chain(), false).is_none());
    let mut fresh = CollectionRoundTrip::new(true);
    assert!(fresh.check_expr(&dedup_chain(), false).is_some());
}

#[test]
fn a_conversion_that_merely_arrives_goes_one_way() {
    // `paths.unwrap_or_default().into_iter().map(PathBuf::from).collect()`
    let paths = base(1, ty(Some("Option"), false));
    let unwrapped = call(2, ty(Some("Vec"), false), paths);
    let iter = call(3, ty(None, true), unwrapped);
    let mapped = call(4, ty(None, true), iter);
    let head = call(5, ty(Some("Vec"), false), mapped);
    let mut rule = CollectionRoundTrip::new(false);
    assert_eq!(rule.walk_spine(&head), vec![Stage::Other, Stage::Iterator, Stage::Iterator, Stage::Collection]);
    let mut rule = CollectionRoundTrip::new(false);
    assert!(rule.check_expr(&head, false).is_none());
}

#[test]
fn try_and_await_pass_the_chain_through_and_macros_end_it() {
    let names = base(1, ty(Some("Vec"), false));
    let iter1 = call(2, ty(None, true), names);
    let set = call(3, ty(Some("HashSet"), false), iter1);
    let tried = ChainExpr { id: 6, from_macro: false, ty: ty(Some("HashSet"), false), kind: ChainKind::TryOrAwait(Some(Box::new(set))) };
    let iter2 = call(4, ty(None, true), tried);
    let head = call(5, ty(Some("Vec"), false), iter2);
    let mut rule = CollectionRoundTrip::new(false);
    assert!(rule.check_expr(&head, false).is_some());
    let mut generated = dedup_chain();
    generated.from_macro = true;
    let mut rule = CollectionRoundTrip::new(false);
    assert!(rule.check_expr(&generated, false).is_none());
    assert!(rule.measured.is_empty());
}

fn scan_item(id: u64, file: u64, origin: ItemOrigin, cfg_test: bool, is_test_fn: bool, lines: usize, kind: ScanKind) -> ScanItem {
    let cfgs = if cfg_test { vec![cfg_name("test")] } else { vec![] };
    ScanItem { id, file, origin, cfgs, is_test_fn, lines, kind }
}

fn cfg_name(name: &str) -> CfgEntry {
    CfgEntry::NameValue { name: name.to_owned(), value: None }
}

#[test]
fn compound_cfg_predicates_gate_to_tests() {
    let feature = CfgEntry::NameValue { name: "feature".to_owned(), value: Some("x".to_owned()) };
    assert!(entry_implies_test(&cfg_name("test")));
    assert!(!entry_implies_test(&cfg_name("unix")));
    assert!(entry_implies_test(&CfgEntry::All(vec![cfg_name("test"), cfg_name("unix")])));
    assert!(entry_implies_test(&CfgEntry::All(vec![feature, cfg_name("test")])));
    assert!(!entry_implies_test(&CfgEntry::Any(vec![cfg_name("test"), cfg_name("unix")])));
    assert!(entry_implies_test(&CfgEntry::Any(vec![cfg_name("test"), CfgEntry::All(vec![cfg_name("test")])])));
    let nested = CfgEntry::All(vec![CfgEntry::Any(vec![cfg_name("test"), cfg_name("foo")]), cfg_name("bar")]);
    assert!(!entry_implies_test(&nested));
    assert!(!entry_implies_test(&CfgEntry::Not(Box::new(cfg_name("test")))));
    assert!(!entry_implies_test(&CfgEntry::Bool(true)));
    assert!(!entry_implies_test(&CfgEntry::Version));
    assert!(cfg_predicate_implies_test(&[cfg_name("unix"), CfgEntry::All(vec![cfg_name("test")])]));
    assert!(!cfg_predicate_implies_test(&[cfg_name("unix")]));
    assert!(!cfg_predicate_implies_test(&[]));
}

#[test]
fn a_compound_test_gate_makes_a_test_module() {
    let gate = CfgEntry::All(vec![cfg_name("test"), cfg_name("unix")]);
    let module = ScanItem {
        id: 2,
        file: 1,
        origin: ItemOrigin::Written,
        cfgs: vec![gate],
        is_test_fn: false,
        lines: 12,
        kind: ScanKind::Mod("tests".to_owned(), false, vec![]),
    };
    let production = scan_item(1, 1, ItemOrigin::Written, false, false, 3, ScanKind::Other);
    let files = scan_crate(&vec![production, module], false);
    assert_eq!(files.len(), 1);
    assert_eq!((files[0].production_count, files[0].inline_test_lines), (1, 12));
    let tests: Vec<(u64, Option<String>)> = files[0].test_items.iter().map(|t| (t.id, t.module_name.clone())).collect();
    assert_eq!(tests, vec![(2, Some("tests".to_owned()))]);
}

#[test]
fn files_are_tallied_by_production_and_inline_tests() {
    let submodule = scan_item(
        4,
        1,
        ItemOrigin::Written,
        false,
        false,
        1,
        ScanKind::Mod(
            "sub".to_owned(),
            true,
            vec![
                scan_item(5, 2, ItemOrigin::Written, false, false, 3, ScanKind::Other),
                scan_item(6, 2, ItemOrigin::Written, true, false, 1, ScanKind::Mod("tests".to_owned(), true, vec![])),
            ],
        ),
    );
    let items = vec![
        scan_item(1, 1, ItemOrigin::Written, false, false, 4, ScanKind::Other),
        scan_item(2, 1, ItemOrigin::Written, true, false, 20, ScanKind::Mod("tests".to_owned(), false, vec![])),
        scan_item(3, 1, ItemOrigin::Written, false, true, 5, ScanKind::Other),
        submodule,
        scan_item(7, 9, ItemOrigin::Synthesised, false, false, 1, ScanKind::Other),
        scan_item(8, 9, ItemOrigin::Macro(1), false, false, 1, ScanKind::Other),
        scan_item(9, 9, ItemOrigin::Macro(1), false, true, 1, ScanKind::Other),
    ];
    let files = scan_crate(&items, false);
    assert_eq!(files.len(), 2);
    assert_eq!((files[0].file, files[0].production_count, files[0].inline_test_lines), (1, 3, 25));
    let tests: Vec<(u64, Option<String>)> = files[0].test_items.iter().map(|t| (t.id, t.module_name.clone())).collect();
    assert_eq!(tests, vec![(2, Some("tests".to_owned())), (3, None)]);
    assert_eq!((files[1].file, files[1].production_count, files[1].test_items.len()), (2, 1, 0));
    let rule = ExcessiveInlineTests { inline_style: InlineStyle::ExternalWhenLong, inline_max_lines: 20 };
    let found = rule.emit_inline_style(&files[0].test_items, files[0].production_count, files[0].inline_test_lines, 100, false);
    match &found[0] {
        InlineFinding::Whole { message, name } => {
            assert_eq!(message, "inline test code spans 25 lines, over the limit of 20");
            assert_eq!(name, "tests");
        }
        _ => panic!("expected one finding over the whole file"),
    }
    assert!(scan_crate(&items, true).is_empty());
}

fn facts(first: Option<&str>) -> PathFacts {
    PathFacts {
        resolves_to_def: true,
        is_macro: false,
        first_segment: first.map(|f| f.to_owned()),
        first_is_crate_root: true,
        from_expansion: false,
        skipped: false,
        resolves_through_std: true,
        anchor: 42,
    }
}

#[test]
fn paths_are_classified_before_grouping() {
    let rule = CoreInsteadOfStd::new(&CoreConfig::default(), false);
    assert_eq!(rule.classify(&facts(Some("core"))), Some(Point::Rewritable { anchor: 42 }));
    assert_eq!(rule.classify(&facts(Some("alloc"))), Some(Point::Rewritable { anchor: 42 }));
    assert_eq!(rule.classify(&facts(Some("std"))), None);
    assert_eq!(rule.classify(&facts(None)), None);
    assert_eq!(rule.classify(&PathFacts { is_macro: true, ..facts(Some("core")) }), None);
    assert_eq!(rule.classify(&PathFacts { resolves_to_def: false, ..facts(Some("core")) }), None);
    assert_eq!(rule.classify(&PathFacts { first_is_crate_root: false, ..facts(Some("core")) }), None);
    assert_eq!(rule.classify(&PathFacts { from_expansion: true, ..facts(Some("core")) }), None);
    assert_eq!(rule.classify(&PathFacts { skipped: true, ..facts(Some("core")) }), Some(Point::Blocked));
    assert_eq!(rule.classify(&PathFacts { resolves_through_std: false, ..facts(Some("core")) }), Some(Point::Blocked));
    let core_only = CoreInsteadOfStd::new(&CoreConfig { also_alloc: false, skip_paths: vec![] }, false);
    assert_eq!(core_only.classify(&facts(Some("alloc"))), None);
}

#[test]
fn extraction_targets_follow_cargo_module_paths() {
    assert_eq!(canonical_target(true, Some("lib.rs"), Some("lib"), "tests"), Some(vec!["tests.rs".to_owned()]));
    assert_eq!(canonical_target(true, Some("mod.rs"), Some("mod"), "x"), Some(vec!["x.rs".to_owned()]));
    assert_eq!(
        canonical_target(true, Some("parser.rs"), Some("parser"), "tests"),
        Some(vec!["parser".to_owned(), "tests.rs".to_owned()]),
    );
    assert_eq!(canonical_target(false, Some("lib.rs"), Some("lib"), "tests"), None);
    assert_eq!(canonical_target(true, None, None, "tests"), None);
}
