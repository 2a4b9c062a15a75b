use perfectionist::clap_help_markdown::collect::{collect_doc_nodes, Attribute, Item, MetaItem, MetaKind, Variant};
use perfectionist::clap_help_markdown::NodeState;
use perfectionist::clap_help_no_markdown::collect_doc_nodes as collect_doc_lines;

fn path(segments: &[&str]) -> Vec<String> {
    segments.iter().map(|s| (*s).to_owned()).collect()
}

fn word(segments: &[&str]) -> MetaItem {
    MetaItem { path: path(segments), kind: MetaKind::Word }
}

fn name_value(segments: &[&str]) -> MetaItem {
    MetaItem { path: path(segments), kind: MetaKind::NameValue }
}

fn list(segments: &[&str], items: Vec<MetaItem>) -> MetaItem {
    MetaItem { path: path(segments), kind: MetaKind::List(items) }
}

fn attr(meta: MetaItem) -> Attribute {
    Attribute::Normal(meta)
}

fn derive(names: &[&str]) -> Attribute {
    attr(list(&["derive"], names.iter().map(|n| word(&["clap", n])).collect()))
}

fn doc(lo: u32) -> Attribute {
    Attribute::DocComment(lo)
}

#[test]
fn clap_struct_records_docs_skips_overrides_and_marks_verbatim() {
    let item = Item::Struct {
        attrs: vec![doc(10), derive(&["Debug", "Parser"]), doc(20)],
        fields: vec![
            vec![doc(30), attr(list(&["arg"], vec![name_value(&["help"])]))],
            vec![doc(40), attr(list(&["arg"], vec![word(&["verbatim_doc_comment"]), word(&["long"])]))],
            vec![attr(list(&["arg"], vec![word(&["short"])]))],
        ],
    };
    let nodes = collect_doc_nodes(&vec![vec![item]]);
    assert_eq!(nodes.by_line.len(), 3);
    assert_eq!(nodes.by_line.get(&10), Some(&NodeState::Normal));
    assert_eq!(nodes.by_line.get(&20), Some(&NodeState::Normal));
    assert_eq!(nodes.by_line.get(&40), Some(&NodeState::Verbatim));
    assert!(nodes.by_line.get(&30).is_none());
    assert_eq!(nodes.first_lines.len(), 2);
    assert!(nodes.first_lines.contains(&10) && nodes.first_lines.contains(&40));
    assert!(!nodes.is_empty());
}

#[test]
fn value_enum_container_doc_is_left_out_unless_it_also_makes_a_command() {
    let value_only = Item::Enum {
        attrs: vec![doc(5), derive(&["ValueEnum"])],
        variants: vec![Variant { attrs: vec![doc(15)], fields: vec![] }],
    };
    let nodes = collect_doc_nodes(&vec![vec![value_only]]);
    assert!(nodes.by_line.get(&5).is_none());
    assert_eq!(nodes.by_line.get(&15), Some(&NodeState::Normal));
    let also_parser = Item::Enum {
        attrs: vec![doc(5), derive(&["ValueEnum", "Parser"])],
        variants: vec![Variant { attrs: vec![doc(15)], fields: vec![vec![doc(25)]] }],
    };
    let nodes = collect_doc_nodes(&vec![vec![also_parser]]);
    assert_eq!(nodes.by_line.get(&5), Some(&NodeState::Normal));
    assert_eq!(nodes.by_line.get(&25), Some(&NodeState::Normal));
    let value_only = Item::Enum {
        attrs: vec![doc(5), derive(&["ValueEnum"])],
        variants: vec![Variant { attrs: vec![doc(15)], fields: vec![] }],
    };
    let lines = collect_doc_lines(&vec![vec![value_only]], &path(&["about", "long_about", "help", "long_help"]));
    assert_eq!(lines.get(&5), Some(&NodeState::Normal));
}

#[test]
fn cfg_attr_gates_are_looked_through() {
    let gated = Item::Struct {
        attrs: vec![
            doc(10),
            attr(list(&["cfg_attr"], vec![name_value(&["feature"]), list(&["derive"], vec![word(&["Args"])])])),
        ],
        fields: vec![vec![
            doc(30),
            attr(list(&["cfg_attr"], vec![word(&["cli"]), list(&["arg"], vec![name_value(&["long_help"])])])),
        ]],
    };
    let nodes = collect_doc_nodes(&vec![vec![gated]]);
    assert_eq!(nodes.by_line.get(&10), Some(&NodeState::Normal));
    assert!(nodes.by_line.get(&30).is_none());
    let gated_again = Item::Struct {
        attrs: vec![attr(list(&["cfg_attr"], vec![word(&["a"]), list(&["derive"], vec![word(&["Args"])])]))],
        fields: vec![vec![
            doc(30),
            attr(list(&["cfg_attr"], vec![word(&["cli"]), list(&["arg"], vec![name_value(&["long_help"])])])),
        ]],
    };
    let lines = collect_doc_lines(&vec![vec![gated_again]], &path(&["help", "long_help"]));
    assert_eq!(lines.get(&30), Some(&NodeState::Normal));
}

#[test]
fn only_clap_containers_and_live_modules_count() {
    let plain = Item::Struct { attrs: vec![doc(1), derive(&["Debug"])], fields: vec![vec![doc(2)]] };
    let hidden = Item::Mod {
        live: false,
        items: vec![Item::Struct { attrs: vec![doc(3), derive(&["Parser"])], fields: vec![] }],
    };
    let nodes = collect_doc_nodes(&vec![vec![plain, hidden, Item::Other]]);
    assert!(nodes.is_empty());
    let live = Item::Mod {
        live: true,
        items: vec![Item::Struct { attrs: vec![doc(3), derive(&["Subcommand"])], fields: vec![] }],
    };
    let nodes = collect_doc_nodes(&vec![vec![], vec![live]]);
    assert_eq!(nodes.by_line.get(&3), Some(&NodeState::Normal));
}
