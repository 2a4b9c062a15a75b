use perfectionist::allow_attributes::{
    collect_builtin_lint_names, container_of, emit_split_without_fix, render_attrs, render_invocation, AllowArg,
    AllowAttributes, AllowFinding, AttrStyle, Config, Container, Target,
};
use perfectionist::diagnostic::{Applicability, Part};

#[test]
fn render_without_reason() {
    assert_eq!(
        render_invocation("expect", &["clippy::foo".to_owned()], None),
        "expect(clippy::foo)",
    );
}

#[test]
fn render_with_reason() {
    assert_eq!(
        render_invocation(
            "allow",
            &["dead_code".to_owned()],
            Some(r#"reason = "scaffolding""#),
        ),
        r#"allow(dead_code, reason = "scaffolding")"#,
    );
}

#[test]
fn render_multiple_names() {
    assert_eq!(
        render_invocation(
            "expect",
            &["clippy::foo".to_owned(), "rustdoc::bar".to_owned()],
            Some(r#"reason = "x""#),
        ),
        r#"expect(clippy::foo, rustdoc::bar, reason = "x")"#,
    );
}

#[test]
fn render_with_no_names_and_no_reason() {
    assert_eq!(render_invocation("allow", &[], None), "allow()");
}

fn path(name: &str) -> AllowArg {
    AllowArg::Lint(name.split("::").map(|s| s.to_owned()).collect())
}

fn rule(config: Config) -> AllowAttributes {
    AllowAttributes::new(vec!["dead_code".to_owned(), "unused_imports".to_owned(), "non_snake_case".to_owned()], config)
}

fn suggestion(f: &AllowFinding, k: usize) -> (String, String, Applicability) {
    match &f.diagnostic.parts[k] {
        Part::Suggest(s) => (s.message.clone(), s.replacement.clone(), s.applicability),
        _ => panic!("expected a suggestion"),
    }
}

#[test]
fn deterministic_allow_offers_removal_or_expect() {
    let r = rule(Config::default());
    let args = vec![path("clippy::too_many_arguments"), AllowArg::Reason(Some(r#"reason = "matches pnpm's signature""#.to_owned()))];
    let f = r.check_allow(&args, Some(Container::Bare { style: AttrStyle::Outer, indent: 0 })).unwrap();
    assert_eq!(f.diagnostic.message, "this `#[allow]` stays silent even after its lint stops firing");
    assert_eq!(f.targets, vec![Target::Attribute, Target::Ident]);
    assert_eq!(
        suggestion(&f, 0),
        ("remove the suppression if its lint can no longer fire here".to_owned(), String::new(), Applicability::MaybeIncorrect)
    );
    assert_eq!(
        suggestion(&f, 1),
        (
            "otherwise replace `allow` with `expect`, which warns once the lint stops firing".to_owned(),
            "expect".to_owned(),
            Applicability::MaybeIncorrect
        )
    );
    let inner = r.check_allow(&args, Some(Container::CfgAttrInner)).unwrap();
    assert_eq!(inner.targets, vec![Target::Ident]);
    assert_eq!(suggestion(&inner, 0).0, "replace `allow` with `expect`, which warns once the lint stops firing");
}

#[test]
fn exempt_unknown_and_group_names_stay_allowed() {
    let r = rule(Config::default());
    for name in ["dead_code", "unused", "clippy::pedantic", "rustdoc::all", "some_plugin_lint"] {
        assert!(r.check_allow(&vec![path(name)], None).is_none(), "{name}");
    }
    assert!(r.is_rewriteable(&vec!["non_snake_case".to_owned()]));
    assert!(r.is_rewriteable(&vec!["rustdoc".to_owned(), "broken_intra_doc_links".to_owned()]));
    assert!(r.is_rewriteable(&vec!["perfectionist".to_owned(), "bare_url".to_owned()]));
    let closed = rule(Config { apply_to_tool_namespaces: false, ..Config::default() });
    assert!(!closed.is_rewriteable(&vec!["perfectionist".to_owned(), "bare_url".to_owned()]));
    let opened = rule(Config { ignore_exempt_lints: vec!["dead_code".to_owned()], ..Config::default() });
    assert!(opened.is_rewriteable(&vec!["dead_code".to_owned()]));
    let extra = rule(Config { extra_exempt_lints: vec!["clippy::foo".to_owned()], ..Config::default() });
    assert!(!extra.is_rewriteable(&vec!["clippy".to_owned(), "foo".to_owned()]));
}

#[test]
fn mixed_allow_splits_out_an_expect() {
    let r = rule(Config::default());
    let args = vec![
        path("dead_code"),
        path("clippy::too_many_lines"),
        AllowArg::Other,
        AllowArg::Reason(Some(r#"reason = "x""#.to_owned())),
    ];
    let f = r.check_allow(&args, Some(Container::Bare { style: AttrStyle::Outer, indent: 4 })).unwrap();
    assert_eq!(f.diagnostic.message, "some lints in this `#[allow]` stay silent even after they stop firing");
    assert_eq!(f.targets, vec![Target::Attribute, Target::Attribute]);
    assert_eq!(suggestion(&f, 0).1, r#"#[allow(dead_code, reason = "x")]"#);
    assert_eq!(suggestion(&f, 1).1, "#[allow(dead_code, reason = \"x\")]\n    #[expect(clippy::too_many_lines, reason = \"x\")]");
    let inner = r.check_allow(&args, Some(Container::CfgAttrInner)).unwrap();
    assert_eq!(suggestion(&inner, 1).1, r#"allow(dead_code, reason = "x"), expect(clippy::too_many_lines, reason = "x")"#);
    let crate_level = r.check_allow(&args, Some(Container::Bare { style: AttrStyle::Inner, indent: 0 })).unwrap();
    assert_eq!(suggestion(&crate_level, 0).1, r#"#![allow(dead_code, reason = "x")]"#);
}

#[test]
fn mixed_allow_without_source_text_gets_prose_only() {
    let r = rule(Config::default());
    let lost_reason = vec![path("dead_code"), path("clippy::foo"), AllowArg::Reason(None)];
    let f = r.check_allow(&lost_reason, Some(Container::CfgAttrInner)).unwrap();
    assert_eq!(f.targets, vec![Target::Ident]);
    match &f.diagnostic.parts[0] {
        Part::Help(h) => assert_eq!(
            h,
            "drop them from the `#[allow]` if they can no longer fire here, or split them out into a separate `#[expect]` that self-cleans"
        ),
        _ => panic!("expected help"),
    }
    let no_container = vec![path("dead_code"), path("clippy::foo")];
    assert_eq!(r.check_allow(&no_container, None).unwrap().diagnostic.parts.len(), 1);
    assert_eq!(emit_split_without_fix().targets, vec![Target::Ident]);
}

#[test]
fn containers_and_scopes() {
    assert_eq!(
        container_of(Some("  #[allow(x)]"), AttrStyle::Outer, 2),
        Some(Container::Bare { style: AttrStyle::Outer, indent: 2 })
    );
    assert_eq!(container_of(Some("allow(x)"), AttrStyle::Outer, 0), Some(Container::CfgAttrInner));
    assert_eq!(container_of(None, AttrStyle::Outer, 0), None);
    let mut r = rule(Config::default());
    r.check_item(true, &vec![7, 8]);
    r.check_item(false, &vec![9]);
    assert!(!r.scope_is_eligible(AttrStyle::Outer, 7));
    assert!(r.scope_is_eligible(AttrStyle::Outer, 9));
    assert!(!r.scope_is_eligible(AttrStyle::Inner, 9));
    let args = vec![path("clippy::foo")];
    assert!(r.check_attribute(true, false, AttrStyle::Outer, 7, Some(&args), None).is_none());
    assert!(r.check_attribute(true, false, AttrStyle::Outer, 9, Some(&args), None).is_some());
    assert!(r.check_attribute(true, true, AttrStyle::Outer, 9, Some(&args), None).is_none());
    assert!(r.check_attribute(false, false, AttrStyle::Outer, 9, Some(&args), None).is_none());
    assert!(r.check_attribute(true, false, AttrStyle::Outer, 9, None, None).is_none());
    let outer = rule(Config { apply_to_outer_scopes: true, ..Config::default() });
    assert!(outer.scope_is_eligible(AttrStyle::Inner, 1));
}

#[test]
fn builtin_names_carry_no_tool_prefix() {
    let names = collect_builtin_lint_names(&vec!["dead_code".to_owned(), "clippy::foo".to_owned(), "unused".to_owned()]);
    assert_eq!(names, vec!["dead_code".to_owned(), "unused".to_owned()]);
    let text = render_attrs(
        Container::CfgAttrInner,
        &vec![("allow".to_owned(), vec![]), ("expect".to_owned(), vec!["a".to_owned()])],
        None,
    );
    assert_eq!(text, "expect(a)");
}
