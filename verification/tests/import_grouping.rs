use perfectionist::import_grouping_mismatch::check::{blank_lines_from_tokens, count_blank_lines};
use perfectionist::lexing::TokenClass;
use perfectionist::import_grouping::check::{blanks_between, is_compliant, UseStmt};
use perfectionist::import_grouping::config::{
    default_blank_line_count, default_internal_prefixes, default_order, default_std_crates, CfgBlockHandling, Config,
    Group, Style,
};
use perfectionist::diagnostic::{Applicability, Part};
use perfectionist::import_granularity::tree::{UseTree, UseTreeKind};
use perfectionist::import_grouping::classify::{first_segment, path_group, rank};
use perfectionist::import_grouping::render::replacement;
use perfectionist::import_grouping::ImportGrouping;

fn stmt(rank: usize, start_line: usize, end_line: usize, text: &str) -> UseStmt {
    UseStmt { rank, start_line, end_line, text: text.to_owned() }
}

#[test]
fn blank_lines_in_a_gap() {
    assert_eq!(count_blank_lines("\n"), 0);
    assert_eq!(count_blank_lines("\n\n"), 1);
    assert_eq!(count_blank_lines("\n  \n\t\n"), 2);
    assert_eq!(count_blank_lines("\n// note\n"), 0);
}

#[test]
fn blank_lines_inside_a_block_comment_do_not_separate() {
    assert_eq!(count_blank_lines("\n/*\n\n*/\n"), 0);
    assert_eq!(count_blank_lines("\n/* x */\n\n"), 1);
    assert_eq!(count_blank_lines("\n\u{e9}/*\n\n*/\n\n"), 1);
}

#[test]
fn defaults() {
    assert_eq!(default_order(), [Group::Std, Group::Internal, Group::Thirdparty]);
    assert_eq!(default_std_crates(), ["std", "core", "alloc"]);
    assert_eq!(default_internal_prefixes(), ["crate", "super", "self"]);
    assert_eq!(default_blank_line_count(), 1);
    let config = Config::with_style(Style::MultiBlock);
    assert_eq!(config.cfg_block_handling, CfgBlockHandling::Trailing);
    assert_eq!(config.group_rank(Group::Internal), 1);
    assert_eq!(config.cfg_rank(), 4);
    let mut partial = Config::with_style(Style::MultiBlock);
    partial.order = vec![Group::Thirdparty];
    assert_eq!(partial.group_rank(Group::Std), 1);
    assert_eq!(partial.group_rank(Group::Thirdparty), 0);
}

#[test]
fn gaps_and_compliance() {
    let a = stmt(0, 1, 1, "use std::fmt;");
    let b = stmt(1, 3, 3, "use crate::x;");
    assert_eq!(blanks_between(&a, &b), 1);
    assert!(is_compliant(Style::MultiBlock, 1, &[a, b]));
    let c = stmt(0, 1, 1, "use std::fmt;");
    let d = stmt(1, 2, 2, "use crate::x;");
    assert!(!is_compliant(Style::MultiBlock, 1, &[c, d]));
    let e = stmt(1, 1, 1, "use crate::x;");
    let f = stmt(0, 2, 2, "use std::fmt;");
    assert!(!is_compliant(Style::MultiBlock, 1, &[e, f]));
    let g = stmt(5, 1, 1, "use b;");
    let h = stmt(0, 2, 2, "use a;");
    assert!(is_compliant(Style::SingleBlock, 1, &[g, h]));
}

#[test]
fn replacement_partitions_by_rank() {
    let stmts = [stmt(2, 1, 1, "use serde;"), stmt(0, 2, 2, "use std::fmt;"), stmt(2, 3, 3, "use clap;"), stmt(1, 4, 4, "use crate::x;")];
    assert_eq!(
        replacement(Style::MultiBlock, 1, "    ", &stmts),
        "use std::fmt;\n\n    use crate::x;\n\n    use serde;\n    use clap;",
    );
    assert_eq!(replacement(Style::SingleBlock, 1, "", &stmts), "use serde;\nuse std::fmt;\nuse clap;\nuse crate::x;");
    assert_eq!(replacement(Style::MultiBlock, 2, "", &stmts[1..3]), "use std::fmt;\n\n\nuse clap;");
}

fn path(segments: &[&str]) -> UseTree {
    UseTree { prefix: segments.iter().map(|s| (*s).to_owned()).collect(), kind: UseTreeKind::Simple(None) }
}

#[test]
fn first_segment_passes_over_a_leading_root() {
    assert_eq!(first_segment(&path(&["{{root}}", "serde", "Deserialize"])), Some("serde".to_owned()));
    assert_eq!(first_segment(&path(&["std", "fmt"])), Some("std".to_owned()));
    assert_eq!(first_segment(&UseTree { prefix: vec![], kind: UseTreeKind::Nested(vec![]) }), None);
}

#[test]
fn paths_fall_into_their_configured_groups() {
    let mut config = Config::with_style(Style::MultiBlock);
    assert_eq!(path_group(&path(&["core", "mem"]), &config), Group::Std);
    assert_eq!(path_group(&path(&["super", "Thing"]), &config), Group::Internal);
    assert_eq!(path_group(&path(&["clap", "Parser"]), &config), Group::Thirdparty);
    assert_eq!(path_group(&UseTree { prefix: vec![], kind: UseTreeKind::Glob }, &config), Group::Thirdparty);
    config.internal_prefixes.push("workspace_root".to_owned());
    assert_eq!(path_group(&path(&["workspace_root", "X"]), &config), Group::Internal);
}

#[test]
fn ranks_follow_style_order_and_cfg_handling() {
    let mut config = Config::with_style(Style::MultiBlock);
    assert_eq!(rank(&path(&["std", "fmt"]), false, &config), 0);
    assert_eq!(rank(&path(&["crate", "a"]), false, &config), 1);
    assert_eq!(rank(&path(&["clap", "Parser"]), false, &config), 2);
    assert_eq!(rank(&path(&["std", "fmt"]), true, &config), 4);
    config.cfg_block_handling = CfgBlockHandling::Merge;
    assert_eq!(rank(&path(&["std", "fmt"]), true, &config), 0);
    config.order = vec![Group::Thirdparty, Group::Std, Group::Internal];
    assert_eq!(rank(&path(&["clap", "Parser"]), false, &config), 0);
    let single = Config::with_style(Style::SingleBlock);
    assert_eq!(rank(&path(&["clap", "Parser"]), true, &single), 0);
}

#[test]
fn use_statements_are_admitted_with_their_rank() {
    let rule = ImportGrouping::new(Config::with_style(Style::MultiBlock));
    let s = rule
        .use_stmt(&path(&["std", "fmt"]), &["cfg".to_owned()], false, Some("#[cfg(test)]\nuse std::fmt;".to_owned()), 3, 4)
        .unwrap();
    assert_eq!((s.rank, s.start_line, s.end_line), (4, 3, 4));
    assert_eq!(s.text, "#[cfg(test)]\nuse std::fmt;");
    assert!(rule.use_stmt(&path(&["std", "fmt"]), &[], true, Some("use std::fmt;".to_owned()), 1, 1).is_none());
    assert!(rule.use_stmt(&path(&["std", "fmt"]), &[], false, None, 1, 1).is_none());
}

#[test]
fn runs_are_maximal_stretches_of_use_statements() {
    let rule = ImportGrouping::new(Config::with_style(Style::MultiBlock));
    let items = vec![
        Some(stmt(0, 1, 1, "use a;")),
        Some(stmt(0, 2, 2, "use b;")),
        None,
        Some(stmt(0, 4, 4, "use c;")),
        None,
        None,
        Some(stmt(0, 7, 7, "use d;")),
        Some(stmt(0, 8, 8, "use e;")),
        Some(stmt(0, 9, 9, "use f;")),
    ];
    assert_eq!(rule.check_items(&items), vec![(0, 2), (3, 4), (6, 9)]);
}

#[test]
fn a_run_out_of_shape_is_regrouped() {
    let rule = ImportGrouping::new(Config::with_style(Style::MultiBlock));
    let run = vec![stmt(2, 1, 1, "use clap::Parser;"), stmt(0, 2, 2, "use std::time::Duration;"), stmt(1, 3, 3, "use crate::args::Args;")];
    let gaps = vec!["\n".to_owned(), "\n".to_owned()];
    let d = rule.process_run(&run, &gaps, 4).unwrap();
    assert_eq!(d.message, "imports are not partitioned into ordered groups");
    match &d.parts[0] {
        Part::Suggest(s) => {
            assert_eq!(s.message, "regroup the imports");
            assert_eq!(s.replacement, "use std::time::Duration;\n\n    use crate::args::Args;\n\n    use clap::Parser;");
            assert_eq!(s.applicability, Applicability::MachineApplicable);
            assert!(s.appended.is_none());
        },
        _ => panic!("expected a suggestion"),
    }
    let commented = vec!["\n// the parser\n".to_owned(), "\n".to_owned()];
    match &rule.process_run(&run, &commented, 0).unwrap().parts[0] {
        Part::Suggest(s) => assert_eq!(s.applicability, Applicability::MaybeIncorrect),
        _ => panic!("expected a suggestion"),
    }
    let fine = vec![stmt(0, 1, 1, "use std::fmt;"), stmt(1, 3, 3, "use crate::a;")];
    assert!(rule.process_run(&fine, &["\n\n".to_owned()], 0).is_none());
    assert!(rule.process_run(&run[..1], &[], 0).is_none());
}

#[test]
fn single_block_message_and_comment_detection() {
    let rule = ImportGrouping::new(Config::with_style(Style::SingleBlock));
    assert_eq!(rule.message(), "blank lines split the imports; this project keeps them in a single group");
    assert!(rule.run_has_interstatement_comment(&["\n/* x */\n".to_owned()]));
    assert!(!rule.run_has_interstatement_comment(&["\n\n".to_owned(), "/ /".to_owned()]));
    let split = vec![stmt(0, 1, 1, "use a;"), stmt(0, 3, 3, "use b;")];
    let d = rule.process_run(&split, &["\n\n".to_owned()], 0).unwrap();
    match &d.parts[0] {
        Part::Suggest(s) => assert_eq!(s.replacement, "use a;\nuse b;"),
        _ => panic!("expected a suggestion"),
    }
}

#[test]
fn a_replacement_reread_is_in_place() {
    let stmts = [
        stmt(2, 1, 1, "use serde;"),
        stmt(0, 2, 2, "use std::fmt;"),
        stmt(2, 3, 3, "use clap;"),
        stmt(1, 4, 4, "use crate::x;"),
    ];
    assert!(!is_compliant(Style::MultiBlock, 2, &stmts));
    for style in [Style::MultiBlock, Style::SingleBlock] {
        let text = replacement(style, 2, "", &stmts);
        let reread: Vec<UseStmt> = text
            .split('\n')
            .enumerate()
            .filter(|(_, line)| !line.is_empty())
            .map(|(i, line)| {
                let rank = stmts.iter().find(|s| s.text == line).unwrap().rank;
                stmt(rank, i + 10, i + 10, line)
            })
            .collect();
        assert_eq!(reread.len(), stmts.len());
        assert!(is_compliant(style, 2, &reread));
    }
}

#[test]
fn blank_lines_from_given_tokens() {
    let gap = "\n\n/*\n\n*/\n\n";
    let with_comment = [(TokenClass::Whitespace, 2), (TokenClass::BlockComment, 6), (TokenClass::Whitespace, 2)];
    assert_eq!(blank_lines_from_tokens(gap, &with_comment), 2);
    assert_eq!(blank_lines_from_tokens(gap, &[(TokenClass::Other, 10)]), 3);
    assert_eq!(count_blank_lines(gap), 2);
}
