use perfectionist::import_granularity::tree::{UseTree, UseTreeKind};
use perfectionist::import_grouping_mismatch::check::{count_blank_lines, is_compliant, UseStmt};
use perfectionist::import_grouping_mismatch::classify::{is_alias_reexport, path_group, rank};
use perfectionist::import_grouping_mismatch::config::{
    default_order, CfgBlockHandling, Config, Group, ReexportGrouping, Style,
};
use perfectionist::import_grouping_mismatch::render::replacement;

fn config(style: Style, reexports: ReexportGrouping) -> Config {
    Config { style, order: default_order(), cfg_block_handling: CfgBlockHandling::default(), reexports }
}

fn path(segments: &[&str]) -> UseTree {
    UseTree { prefix: segments.iter().map(|s| (*s).to_owned()).collect(), kind: UseTreeKind::Simple(None) }
}

fn stmt(rank: usize, text: &str) -> UseStmt {
    UseStmt { rank, start_line: 0, end_line: 0, text: text.to_owned() }
}

#[test]
fn reexport_block_offset_tracks_grouping() {
    let with = |reexports| config(Style::MultiBlock, reexports).reexport_block_offset();
    assert_eq!(with(ReexportGrouping::ByPath), 0);
    assert_eq!(with(ReexportGrouping::Grouped), 1);
    assert_eq!(with(ReexportGrouping::Split), 2);
}

#[test]
fn defaults_and_group_ranks() {
    assert_eq!(default_order(), vec![Group::Std, Group::Internal, Group::Thirdparty]);
    assert_eq!(ReexportGrouping::default(), ReexportGrouping::Grouped);
    assert_eq!(CfgBlockHandling::default(), CfgBlockHandling::Trailing);
    let mut c = config(Style::MultiBlock, ReexportGrouping::ByPath);
    assert!(!c.separates_reexports());
    assert!(config(Style::MultiBlock, ReexportGrouping::Split).separates_reexports());
    c.order = vec![Group::Thirdparty, Group::Std];
    assert_eq!(c.group_rank(Group::Std), 1);
    assert_eq!(c.group_rank(Group::Internal), 2);
    assert_eq!(c.cfg_rank(), 3);
}

#[test]
fn sibling_modules_count_as_internal() {
    let locals = vec!["error".to_owned()];
    assert_eq!(path_group(&path(&["error", "Error"]), &locals), Group::Internal);
    assert_eq!(path_group(&path(&["error", "Error"]), &[]), Group::Thirdparty);
    assert_eq!(path_group(&path(&["{{root}}", "proc_macro", "TokenStream"]), &locals), Group::Std);
    assert_eq!(path_group(&path(&["self", "x"]), &locals), Group::Internal);
    let std_named = vec!["std".to_owned()];
    assert_eq!(path_group(&path(&["std", "fmt"]), &std_named), Group::Std);
    assert_eq!(path_group(&UseTree { prefix: vec![], kind: UseTreeKind::Glob }, &locals), Group::Thirdparty);
}

#[test]
fn alias_reexports_are_single_segment_plain_paths() {
    assert!(is_alias_reexport(&path(&["Item"])));
    assert!(is_alias_reexport(&path(&["{{root}}", "foo"])));
    assert!(is_alias_reexport(&UseTree { prefix: vec!["Item".to_owned()], kind: UseTreeKind::Simple(Some("Alias".to_owned())) }));
    assert!(!is_alias_reexport(&path(&["child", "Item"])));
    assert!(!is_alias_reexport(&UseTree { prefix: vec!["child".to_owned()], kind: UseTreeKind::Glob }));
    assert!(!is_alias_reexport(&UseTree { prefix: vec![], kind: UseTreeKind::Nested(vec![]) }));
}

#[test]
fn ranks_reserve_the_leading_reexport_region() {
    let none: Vec<String> = vec![];
    let grouped = config(Style::MultiBlock, ReexportGrouping::Grouped);
    assert_eq!(rank(&path(&["child", "Item"]), true, true, &grouped, &none), 0);
    assert_eq!(rank(&path(&["std", "fmt"]), false, false, &grouped, &none), 1);
    assert_eq!(rank(&path(&["clap", "Parser"]), false, false, &grouped, &none), 3);
    assert_eq!(rank(&path(&["std", "fmt"]), false, true, &grouped, &none), 5);
    let split = config(Style::MultiBlock, ReexportGrouping::Split);
    assert_eq!(rank(&path(&["child", "Item"]), true, false, &split, &none), 0);
    assert_eq!(rank(&path(&["Item"]), true, false, &split, &none), 1);
    assert_eq!(rank(&path(&["crate", "x"]), false, false, &split, &none), 3);
    let by_path = config(Style::MultiBlock, ReexportGrouping::ByPath);
    assert_eq!(rank(&path(&["clap", "Parser"]), true, false, &by_path, &none), 2);
    let single = config(Style::SingleBlock, ReexportGrouping::Grouped);
    assert_eq!(rank(&path(&["clap", "Parser"]), false, false, &single, &none), 1);
    assert_eq!(rank(&path(&["std", "fmt"]), false, false, &single, &none), 1);
    assert_eq!(rank(&path(&["std", "fmt"]), false, true, &single, &none), 2);
    assert_eq!(rank(&path(&["Item"]), true, false, &single, &none), 0);
    let mut merged = config(Style::SingleBlock, ReexportGrouping::ByPath);
    merged.cfg_block_handling = CfgBlockHandling::Merge;
    assert_eq!(rank(&path(&["std", "fmt"]), false, true, &merged, &none), 0);
}

#[test]
fn compliance_is_one_blank_line_per_step_up() {
    let run = [stmt(0, "use std::fmt;"), stmt(0, "use std::io;"), stmt(2, "use clap;")];
    assert!(is_compliant(&run, &[0, 1]));
    assert!(!is_compliant(&run, &[0, 2]));
    assert!(!is_compliant(&run, &[1, 1]));
    assert!(!is_compliant(&[stmt(1, "use a;"), stmt(0, "use b;")], &[1]));
    assert!(is_compliant(&run, &[0]));
    assert!(is_compliant(&run[..1], &[]));
    assert_eq!(count_blank_lines("\n\n\n"), 2);
}

#[test]
fn replacement_partitions_with_one_blank_line() {
    let run = [stmt(2, "use clap;"), stmt(0, "use std::fmt;"), stmt(1, "pub use crate::x;"), stmt(0, "use std::io;")];
    assert_eq!(replacement("    ", &run), "use std::fmt;\n    use std::io;\n\n    pub use crate::x;\n\n    use clap;");
    assert_eq!(replacement("", &[]), "");
}
