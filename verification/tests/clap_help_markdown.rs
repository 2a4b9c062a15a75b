use perfectionist::clap_help_markdown::code_span_autofix;

#[test]
fn code_span_autofix_strips_fences_and_one_padding_space() {
    assert_eq!(code_span_autofix("`Foo`").as_deref(), Some("Foo"));
    assert_eq!(code_span_autofix("` Foo `").as_deref(), Some("Foo"));
    assert_eq!(code_span_autofix("`  Foo  `").as_deref(), Some(" Foo "));
    assert_eq!(code_span_autofix("` Foo`").as_deref(), Some(" Foo"));
}

#[test]
fn code_span_autofix_keeps_an_all_space_body_whole() {
    assert_eq!(code_span_autofix("`   `").as_deref(), Some("   "));
    assert_eq!(code_span_autofix("`  `").as_deref(), Some("  "));
    assert_eq!(code_span_autofix("` `").as_deref(), Some(" "));
}

#[test]
fn code_span_autofix_refuses_unsafe_spans() {
    assert_eq!(code_span_autofix("`` `code` ``"), None);
    assert_eq!(code_span_autofix("Foo"), None);
    assert_eq!(code_span_autofix("`"), None);
}
