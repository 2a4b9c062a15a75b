use perfectionist::bare_email::{emit_email, position_in_skip, take_email, BareEmail, Config, Style};
use perfectionist::diagnostic::{Applicability, Part};

#[test]
fn takes_basic_email() {
    let (local, total) = take_email("user@example.com rest").unwrap();
    assert_eq!(local, 4);
    assert_eq!(&"user@example.com rest"[..total], "user@example.com");
}

#[test]
fn takes_email_with_dots_in_local() {
    let (_local, total) = take_email("first.last@example.co.uk").unwrap();
    assert_eq!(total, "first.last@example.co.uk".len());
}

#[test]
fn rejects_missing_tld() {
    assert!(take_email("user@example").is_none());
}

#[test]
fn rejects_short_tld() {
    assert!(take_email("user@example.c").is_none());
}

#[test]
fn rejects_numeric_tld() {
    assert!(take_email("user@example.42").is_none());
}

#[test]
fn rejects_word_continuation_after_tld() {
    assert!(take_email("user@example.com5").is_none());
}

#[test]
fn scan_finds_a_bare_address_and_skips_wrapped_ones() {
    let rule = BareEmail::new(Config::default());
    let found = rule.scan("Mail user@example.com or <other@example.com>.", &[]);
    assert_eq!(found.len(), 1);
    assert_eq!(found[0].0, 5);
    assert_eq!(found[0].1, "user@example.com");
}

#[test]
fn scan_leaves_addresses_inside_skip_regions() {
    let rule = BareEmail::new(Config::default());
    let text = "see user@example.com";
    assert!(rule.scan(text, &[(0, text.len())]).is_empty());
    assert!(position_in_skip(&[(2, 5)], 4));
    assert!(!position_in_skip(&[(2, 5)], 5));
}

#[test]
fn scan_respects_skip_domains() {
    let mut config = Config::default();
    config.skip_domains = vec!["Example.COM".to_owned()];
    let rule = BareEmail::new(config);
    assert!(rule.scan("user@example.com", &[]).is_empty());
}

#[test]
fn emit_email_either_offers_both_forms() {
    let d = emit_email(Style::Either, "a@b.io");
    assert_eq!(d.message, "bare email address `a@b.io`");
    assert_eq!(d.parts.len(), 2);
    match &d.parts[0] {
        Part::Suggest(s) => {
            assert_eq!(s.replacement, "<a@b.io>");
            assert_eq!(s.applicability, Applicability::MaybeIncorrect);
        }
        _ => panic!("expected a suggestion"),
    }
    match &d.parts[1] {
        Part::Suggest(s) => assert_eq!(s.replacement, "mailto:a@b.io"),
        _ => panic!("expected a suggestion"),
    }
}

#[test]
fn emit_email_both_wraps_the_mailto_form() {
    let d = emit_email(Style::Both, "a@b.io");
    match &d.parts[0] {
        Part::Suggest(s) => {
            assert_eq!(s.replacement, "<mailto:a@b.io>");
            assert_eq!(s.applicability, Applicability::MachineApplicable);
        }
        _ => panic!("expected a suggestion"),
    }
}
