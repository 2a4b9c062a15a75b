use perfectionist::diagnostic::{Applicability, Part};
use perfectionist::import_granularity::check::{crate_compliant, is_compliant, module_compliant};
use perfectionist::import_granularity::config::{Config, SelfMerge, Style};
use perfectionist::import_granularity::model::{
    has_bare_item_dual, has_deeper_sibling, has_self_dual, Leaf, LeafItem, StmtInfo,
};
use perfectionist::import_granularity::render::{
    entry_key, item_entry, join, needs_brace, render, rename_suffix, sort_entries, wrap,
};
use perfectionist::import_granularity::tree::{flatten, is_collapsed, stmt_info, UseTree, UseTreeKind};
use perfectionist::import_granularity::{attr_class, AttrClass, AttrText, ImportGranularity, Violation};

fn segs(path: &[&str]) -> Vec<String> {
    path.iter().map(|s| (*s).to_owned()).collect()
}

fn named(module: &[&str], name: &str) -> Leaf {
    Leaf { module: segs(module), item: LeafItem::Named(name.to_owned()), rename: None }
}

fn simple(path: &[&str]) -> UseTree {
    UseTree { prefix: segs(path), kind: UseTreeKind::Simple(None) }
}

fn nested(path: &[&str], items: Vec<UseTree>) -> UseTree {
    UseTree { prefix: segs(path), kind: UseTreeKind::Nested(items) }
}

#[test]
fn module_style_merges_items_of_one_module() {
    let leaves = vec![named(&["std", "io"], "Write"), named(&["std", "collections"], "HashMap"), named(&["std", "io"], "Read")];
    assert_eq!(render(Style::Module, &leaves), ["std::collections::HashMap", "std::io::{Read, Write}"]);
}

#[test]
fn item_style_splits_every_leaf() {
    let leaves = vec![named(&["std", "io"], "Write"), named(&["std", "collections"], "HashMap"), named(&["std", "io"], "Read")];
    assert_eq!(render(Style::Item, &leaves), ["std::collections::HashMap", "std::io::Read", "std::io::Write"]);
}

#[test]
fn crate_style_collapses_a_root_into_nested_braces() {
    let leaves = vec![named(&["std", "io"], "Write"), named(&["std", "collections"], "HashMap"), named(&["std", "io"], "Read")];
    assert_eq!(render(Style::Crate, &leaves), ["std::{collections::HashMap, io::{Read, Write}}"]);
}

#[test]
fn crate_style_keeps_a_bare_crate_item_beside_its_module() {
    let leaves = vec![named(&[], "serde"), named(&["serde"], "Serialize")];
    assert_eq!(render(Style::Crate, &leaves), ["serde", "serde::Serialize"]);
}

#[test]
fn self_sorts_first_and_glob_last() {
    let leaves = vec![
        Leaf { module: segs(&["a", "b"]), item: LeafItem::Glob, rename: None },
        named(&["a", "b"], "c"),
        Leaf { module: segs(&["a", "b"]), item: LeafItem::SelfMod, rename: None },
        named(&["a", "b"], "B"),
    ];
    assert_eq!(render(Style::Module, &leaves), ["a::b::{self, B, c, *}"]);
}

#[test]
fn renames_and_repeats() {
    let leaf = Leaf { module: segs(&["a"]), item: LeafItem::Named("B".to_owned()), rename: Some("C".to_owned()) };
    assert_eq!(item_entry(&leaf), "B as C");
    assert_eq!(rename_suffix(&None), "");
    let leaves = vec![leaf, named(&["a"], "B"), named(&["a"], "B")];
    assert_eq!(render(Style::Module, &leaves), ["a::{B, B as C}"]);
}

#[test]
fn rendering_ignores_the_order_of_leaves() {
    let a = vec![named(&["x"], "A"), named(&["y"], "B"), named(&["x"], "C")];
    let b = vec![named(&["x"], "C"), named(&["x"], "A"), named(&["y"], "B"), named(&["x"], "A")];
    assert_eq!(render(Style::Module, &a), render(Style::Module, &b));
    assert_eq!(render(Style::Item, &a), render(Style::Item, &b));
}

#[test]
fn small_render_helpers() {
    assert_eq!(join(&segs(&["std", "io"])), "std::io");
    assert_eq!(join(&[]), "");
    assert_eq!(wrap("std::io", &segs(&["Read"])), "std::io::Read");
    assert_eq!(wrap("std::io", &segs(&["self"])), "std::io::{self}");
    assert_eq!(wrap("m", &segs(&["A", "B"])), "m::{A, B}");
    assert!(needs_brace("self"));
    assert!(needs_brace("self as io"));
    assert!(!needs_brace("selfish"));
    let key = entry_key("Foo");
    assert_eq!((key.0, key.1.as_str(), key.2), (1, "foo", "Foo"));
    assert_eq!(entry_key("*").0, 2);
    let mut entries = segs(&["b", "*", "A", "self", "A"]);
    sort_entries(&mut entries);
    assert_eq!(entries, ["self", "A", "b", "*"]);
}

#[test]
fn flattening_a_nested_tree() {
    let tree = nested(&["std"], vec![simple(&["io", "Read"]), nested(&["collections"], vec![simple(&["HashMap"]), simple(&["self"])])]);
    let leaves = flatten(&tree).unwrap();
    assert_eq!(leaves.len(), 3);
    assert_eq!(leaves[0], named(&["std", "io"], "Read"));
    assert_eq!(leaves[1], named(&["std", "collections"], "HashMap"));
    assert_eq!(leaves[2].module, segs(&["std", "collections"]));
    assert_eq!(leaves[2].item, LeafItem::SelfMod);
}

#[test]
fn flattening_declines_a_global_path_or_a_bare_self() {
    assert!(flatten(&simple(&["{{root}}", "std", "io"])).is_none());
    assert!(flatten(&simple(&["self"])).is_none());
    assert!(stmt_info(&UseTree { prefix: vec![], kind: UseTreeKind::Glob }).is_none());
}

#[test]
fn collapsed_trees() {
    assert!(is_collapsed(&simple(&["a", "b"])));
    assert!(!is_collapsed(&nested(&["a"], vec![simple(&["b"])])));
    assert!(is_collapsed(&nested(&["a"], vec![simple(&["self"])])));
    assert!(!is_collapsed(&nested(&[], vec![simple(&["path", "Path"]), simple(&["path", "PathBuf"])])));
    assert!(is_collapsed(&nested(&[], vec![simple(&["thing"]), simple(&["thing", "Opts"])])));
    assert!(is_collapsed(&nested(&[], vec![simple(&["B"]), simple(&["B"])])));
}

#[test]
fn dual_patterns() {
    let split = vec![named(&[], "thing"), named(&["thing"], "T")];
    assert!(has_bare_item_dual(&split));
    assert!(!has_self_dual(&split));
    let folded = vec![Leaf { module: segs(&["thing"]), item: LeafItem::SelfMod, rename: None }, named(&["thing"], "T")];
    assert!(has_self_dual(&folded));
    assert!(has_deeper_sibling(&folded, 0));
    assert!(has_deeper_sibling(&folded, 1));
    let apart = vec![named(&["a"], "X"), named(&["b"], "Y")];
    assert!(!has_deeper_sibling(&apart, 0));
    assert!(!has_bare_item_dual(&apart));
}

fn info(tree: UseTree) -> StmtInfo {
    stmt_info(&tree).unwrap()
}

#[test]
fn compliance_per_style() {
    let a = info(simple(&["std", "io", "Read"]));
    let b = info(simple(&["std", "io", "Write"]));
    assert!(is_compliant(Style::Item, None, &[&a, &b]));
    assert!(!module_compliant(&[&a, &b]));
    let merged = info(nested(&["std", "io"], vec![simple(&["Read"]), simple(&["Write"])]));
    assert!(module_compliant(&[&merged]));
    assert!(!is_compliant(Style::Item, None, &[&merged]));
    assert!(!crate_compliant(None, &[&a, &b]));
    assert!(crate_compliant(None, &[&merged]));
    let bare = info(simple(&["serde"]));
    let deep = info(simple(&["serde", "Serialize"]));
    assert!(crate_compliant(None, &[&bare, &deep]));
    let split = info(nested(&[], vec![simple(&["thing"]), simple(&["thing", "T"])]));
    assert!(crate_compliant(None, &[&split]) == false);
    let pair = info(nested(&["a"], vec![simple(&["thing"]), simple(&["thing", "T"])]));
    assert!(crate_compliant(None, &[&pair]));
    assert!(!crate_compliant(Some(SelfMerge::Fold), &[&pair]));
    assert!(crate_compliant(Some(SelfMerge::Split), &[&pair]));
}

fn entry(rule: &ImportGranularity, tree: UseTree, vis: &str) -> perfectionist::import_granularity::UseEntry {
    rule.use_entry(info(tree), &[], vis.to_owned())
}

#[test]
fn a_split_module_run_is_rewritten() {
    let rule = ImportGranularity::new(&Config::default());
    let group = vec![entry(&rule, simple(&["std", "io", "Read"]), ""), entry(&rule, simple(&["std", "io", "Write"]), "")];
    match rule.process_group(&group, 4, Some("use std::io::Read;\n    use std::io::Write;")) {
        Some(Violation::Reorganize { suggestions, applicability }) => {
            assert_eq!(suggestions, ["use std::io::{Read, Write};"]);
            assert_eq!(applicability, Applicability::MachineApplicable);
        }
        _ => panic!("expected a rewrite"),
    }
    assert_eq!(rule.message(), "imports are not grouped into one `use` per module");
}

#[test]
fn a_commented_run_is_only_maybe_incorrect() {
    let rule = ImportGranularity::new(&Config::default());
    let group = vec![entry(&rule, simple(&["std", "io", "Read"]), ""), entry(&rule, simple(&["std", "io", "Write"]), "")];
    match rule.process_group(&group, 0, Some("use std::io::Read; // keep\nuse std::io::Write;")) {
        Some(Violation::Reorganize { applicability, .. }) => assert_eq!(applicability, Applicability::MaybeIncorrect),
        _ => panic!("expected a rewrite"),
    }
}

#[test]
fn item_style_rewrites_with_indent_and_visibility() {
    let mut config = Config::default();
    config.style = Style::Item;
    let rule = ImportGranularity::new(&config);
    let group = vec![entry(&rule, nested(&["a"], vec![simple(&["B"]), simple(&["C"])]), "pub ")];
    match rule.process_group(&group, 2, None) {
        Some(Violation::Reorganize { suggestions, .. }) => assert_eq!(suggestions, ["pub use a::B;\n  pub use a::C;"]),
        _ => panic!("expected a rewrite"),
    }
}

#[test]
fn compliant_and_mixed_visibility_runs() {
    let rule = ImportGranularity::new(&Config::default());
    let ok = vec![entry(&rule, nested(&["std", "io"], vec![simple(&["Read"]), simple(&["Write"])]), "")];
    assert!(rule.process_group(&ok, 0, None).is_none());
    let mixed = vec![entry(&rule, simple(&["std", "io", "Read"]), "pub "), entry(&rule, simple(&["std", "io", "Write"]), "")];
    assert!(matches!(rule.process_group(&mixed, 0, None), Some(Violation::ManualMerge)));
    let d = rule.report(&Violation::ManualMerge);
    assert!(matches!(&d.parts[0], Part::Help(_)));
}

#[test]
fn runs_break_at_other_items_keys_and_doc_comments() {
    let rule = ImportGranularity::new(&Config::default());
    let doc = vec![AttrText { text: "/// docs".to_owned(), class: AttrClass::Doc }];
    let items = vec![
        Some(entry(&rule, simple(&["a", "A"]), "")),
        Some(entry(&rule, simple(&["a", "B"]), "")),
        None,
        Some(entry(&rule, simple(&["b", "C"]), "pub ")),
        Some(entry(&rule, simple(&["b", "D"]), "")),
        Some(rule.use_entry(info(simple(&["c", "E"])), &doc, String::new())),
        Some(entry(&rule, simple(&["c", "F"]), "")),
    ];
    assert_eq!(rule.check_items(&items), [(0, 2), (3, 4), (4, 5), (5, 6), (6, 7)]);
}

#[test]
fn attribute_classes() {
    assert_eq!(attr_class(true, "", false), AttrClass::Doc);
    assert_eq!(attr_class(false, "doc", true), AttrClass::Doc);
    assert_eq!(attr_class(false, "doc", false), AttrClass::Other);
    assert_eq!(attr_class(false, "cfg_attr", false), AttrClass::Cfg);
    assert_eq!(attr_class(false, "allow", false), AttrClass::Other);
}

fn crate_rule(self_merge: Option<SelfMerge>) -> ImportGranularity {
    let mut config = Config::default();
    config.style = Style::Crate;
    config.self_merge = self_merge;
    ImportGranularity::new(&config)
}

#[test]
fn an_ambiguous_crate_merge_offers_both_shapes() {
    let rule = crate_rule(None);
    let group = vec![entry(&rule, simple(&["crate", "thing"]), ""), entry(&rule, simple(&["crate", "thing", "T"]), "")];
    match rule.process_group(&group, 0, None) {
        Some(Violation::Reorganize { suggestions, applicability }) => {
            assert_eq!(suggestions, ["use crate::thing::{self, T};", "use crate::{thing, thing::T};"]);
            assert_eq!(applicability, Applicability::MaybeIncorrect);
        }
        _ => panic!("expected a rewrite"),
    }
}

#[test]
fn self_merge_picks_one_crate_shape() {
    let fold = crate_rule(Some(SelfMerge::Fold));
    let group = vec![entry(&fold, simple(&["crate", "thing"]), ""), entry(&fold, simple(&["crate", "thing", "T"]), "")];
    match fold.process_group(&group, 0, None) {
        Some(Violation::Reorganize { suggestions, applicability }) => {
            assert_eq!(suggestions, ["use crate::thing::{self, T};"]);
            assert_eq!(applicability, Applicability::MachineApplicable);
        }
        _ => panic!("expected a rewrite"),
    }
    let split = crate_rule(Some(SelfMerge::Split));
    let group = vec![entry(&split, simple(&["crate", "thing"]), ""), entry(&split, simple(&["crate", "thing", "T"]), "")];
    match split.process_group(&group, 0, None) {
        Some(Violation::Reorganize { suggestions, .. }) => assert_eq!(suggestions, ["use crate::{thing, thing::T};"]),
        _ => panic!("expected a rewrite"),
    }
}

#[test]
fn an_unambiguous_crate_merge_offers_one_shape() {
    let rule = crate_rule(None);
    let group = vec![entry(&rule, simple(&["std", "io", "Read"]), ""), entry(&rule, simple(&["std", "fmt"]), "")];
    match rule.process_group(&group, 0, None) {
        Some(Violation::Reorganize { suggestions, applicability }) => {
            assert_eq!(suggestions, ["use std::{fmt, io::Read};"]);
            assert_eq!(applicability, Applicability::MachineApplicable);
        }
        _ => panic!("expected a rewrite"),
    }
    assert_eq!(
        perfectionist::import_granularity::render::render_crate_self(&[named(&["a"], "b"), named(&["a", "b"], "C")]),
        ["a::b::{self, C}"],
    );
}
