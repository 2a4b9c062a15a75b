use perfectionist::derive_ordering::{ascii_ci_cmp, is_identity, Config, DeriveEntry, DeriveOrdering, Style};
use perfectionist::diagnostic::{Applicability, Part};
use std::cmp::Ordering;

fn entries(names: &[&str]) -> Vec<DeriveEntry> {
    names.iter().map(|n| DeriveEntry { final_name: (*n).to_owned(), snippet: None }).collect()
}

fn rule(style: Style) -> DeriveOrdering {
    let mut config = Config::default();
    config.style = style;
    DeriveOrdering::new(config)
}

#[test]
fn case_insensitive_comparison() {
    assert_eq!(ascii_ci_cmp("clone", "Copy"), Ordering::Less);
    assert_eq!(ascii_ci_cmp("Debug", "debug"), Ordering::Equal);
    assert_eq!(ascii_ci_cmp("Eq", "Default"), Ordering::Greater);
}

#[test]
fn identity_permutations() {
    assert!(is_identity(&[0, 1, 2]));
    assert!(is_identity(&[]));
    assert!(!is_identity(&[1, 0]));
}

#[test]
fn alphabetical_order_is_case_insensitive_and_stable() {
    let r = rule(Style::Alphabetical);
    assert_eq!(r.desired_order(&entries(&["Debug", "Clone", "Copy"])), [1, 2, 0]);
    assert_eq!(r.desired_order(&entries(&["b", "A", "B", "a"])), [1, 3, 0, 2]);
}

#[test]
fn prefix_then_alphabetical_places_the_prefix_first() {
    let r = rule(Style::PrefixThenAlphabetical);
    assert_eq!(r.desired_order(&entries(&["Serialize", "Clone", "Debug"])), [2, 1, 0]);
    assert_eq!(r.desired_order(&entries(&["Zeta", "alpha", "Hash"])), [2, 1, 0]);
}

#[test]
fn preserve_reports_nothing() {
    let r = rule(Style::Preserve);
    assert!(r.check_derive_list(&entries(&["Debug", "Clone"]), false, None).is_none());
    assert_eq!(r.desired_order(&entries(&["Debug", "Clone"])), [0, 1]);
}

#[test]
fn an_out_of_order_list_gets_a_rewrite() {
    let r = rule(Style::Alphabetical);
    let mut list = entries(&["Debug", "Clone", "Copy"]);
    list[0].snippet = Some("std::fmt::Debug".to_owned());
    let d = r.check_derive_list(&list, false, Some("std::fmt::Debug, Clone, Copy")).unwrap();
    assert_eq!(d.message, "derive list is not in ASCII-case-insensitive alphabetical order");
    match &d.parts[0] {
        Part::Suggest(s) => {
            assert_eq!(s.replacement, "Clone, Copy, std::fmt::Debug");
            assert_eq!(s.applicability, Applicability::MachineApplicable);
        }
        _ => panic!("expected a suggestion"),
    }
}

#[test]
fn a_multiline_or_commented_list_is_maybe_incorrect() {
    let r = rule(Style::PrefixThenAlphabetical);
    let d = r.check_derive_list(&entries(&["Clone", "Debug"]), true, None).unwrap();
    assert_eq!(d.message, "derive list does not match the configured `prefix_then_alphabetical` order");
    match &d.parts[0] {
        Part::Suggest(s) => {
            assert_eq!(s.replacement, "Debug, Clone");
            assert_eq!(s.applicability, Applicability::MaybeIncorrect);
        }
        _ => panic!("expected a suggestion"),
    }
    let d = r.check_derive_list(&entries(&["Clone", "Debug"]), false, Some("Clone, /* x */ Debug")).unwrap();
    match &d.parts[0] {
        Part::Suggest(s) => assert_eq!(s.applicability, Applicability::MaybeIncorrect),
        _ => panic!("expected a suggestion"),
    }
}

#[test]
fn a_rewritten_list_is_not_reported_again() {
    let r = rule(Style::Alphabetical);
    let names = ["Debug", "clone", "Copy", "Clone"];
    let order = r.desired_order(&entries(&names));
    let fixed: Vec<&str> = order.iter().map(|&i| names[i]).collect();
    assert!(r.check_derive_list(&entries(&fixed), false, None).is_none());
    assert!(r.check_derive_list(&entries(&["Only"]), false, None).is_none());
}

#[test]
fn a_prefix_rewritten_list_is_not_reported_again() {
    let r = rule(Style::PrefixThenAlphabetical);
    let names = ["Zeta", "Debug", "alpha", "Clone", "Debug", "Hash"];
    let order = r.desired_order(&entries(&names));
    let fixed: Vec<&str> = order.iter().map(|&i| names[i]).collect();
    assert_eq!(r.desired_order(&entries(&fixed)), (0..names.len()).collect::<Vec<_>>());
    assert!(r.check_derive_list(&entries(&fixed), false, None).is_none());
}

#[test]
fn case_blind_order_is_str_order_on_lowered_texts() {
    let words = ["apple", "Banana", "Debug", "clone", "Copy", "copy", "Zeta", "éclair", "Éclair", "_x", "a_b", "ab"];
    for a in words {
        for b in words {
            assert_eq!(ascii_ci_cmp(a, b), a.to_ascii_lowercase().cmp(&b.to_ascii_lowercase()), "{a} vs {b}");
        }
    }
    assert_eq!(ascii_ci_cmp("apple", "Banana"), Ordering::Less);
    assert_eq!(ascii_ci_cmp("Debug", "clone"), Ordering::Greater);
    assert_eq!(ascii_ci_cmp("Copy", "copy"), Ordering::Equal);
}
