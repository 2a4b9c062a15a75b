use perfectionist::bare_identifier_reference::{collect_candidates, strip_code_fences, is_plain_ident, take_backticked_ident};

#[test]
fn rejects_non_identifier_bodies() {
    assert_eq!(take_backticked_ident("`a + b`"), None);
    assert_eq!(take_backticked_ident("`foo::Bar`"), None);
    assert_eq!(take_backticked_ident("`foo()`"), None);
    assert_eq!(take_backticked_ident("``"), None);
    assert_eq!(take_backticked_ident("`_`"), None);
}

#[test]
fn accepts_padded_double_backtick_span() {
    assert_eq!(take_backticked_ident("`` Foo ``").as_deref(), Some("Foo"));
}

#[test]
fn rejects_multi_line_span() {
    assert_eq!(take_backticked_ident("`\nFoo\n`"), None);
}

#[test]
fn rejects_over_padded_span() {
    assert_eq!(take_backticked_ident("`  Foo  `"), None);
    assert_eq!(take_backticked_ident("`\tFoo\t`"), None);
    assert_eq!(take_backticked_ident("` Foo `").as_deref(), Some("Foo"));
}

#[test]
fn plain_ident_predicate() {
    assert!(is_plain_ident("Foo"));
    assert!(is_plain_ident("snake_case_2"));
    assert!(is_plain_ident("_leading"));
    assert!(!is_plain_ident("_"));
    assert!(!is_plain_ident("2foo"));
    assert!(!is_plain_ident(""));
}

#[test]
fn candidates_come_from_the_given_code_spans() {
    let text = "Installs `PackageManifest` into `Store`.";
    let first = text.find('`').unwrap();
    let first_end = first + "`PackageManifest`".len();
    let second = text[first_end..].find('`').unwrap() + first_end;
    let second_end = second + "`Store`".len();
    let candidates = collect_candidates(text, &[(first, first_end), (second, second_end)]);
    let idents: Vec<&str> = candidates.iter().map(|c| c.ident.as_str()).collect();
    assert_eq!(idents, ["PackageManifest", "Store"]);
    assert_eq!(&text[candidates[1].start..candidates[1].end], "`Store`");
}

#[test]
fn fenced_bodies_of_any_fence_length_come_back_whole() {
    let chars = |s: &str| s.chars().collect::<Vec<char>>();
    for k in 1..4 {
        let fence = "`".repeat(k);
        let span = chars(&format!("{fence}Foo bar{fence}"));
        assert_eq!(strip_code_fences(&span), Some(&chars("Foo bar")[..]));
    }
    assert_eq!(strip_code_fences(&chars("Foo")), None);
    assert_eq!(strip_code_fences(&chars("``")), None);
    assert_eq!(strip_code_fences(&chars("``Foo`")), None);
}
