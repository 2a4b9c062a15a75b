use perfectionist::allow_attributes_without_reason::insertion_from_tokens;
use perfectionist::lexing::TokenClass;
use perfectionist::allow_attributes_without_reason::{Insertion, build_insertion};

fn run(input: &str) -> String {
    let Insertion {
        start,
        end,
        replacement,
    } = build_insertion(input).expect("build_insertion returned None");
    let mut output = String::new();
    output.push_str(&input[..start]);
    output.push_str(&replacement);
    output.push_str(&input[end..]);
    output
}

#[test]
fn single_line_no_trailing_comma() {
    assert_eq!(run("allow(foo)"), r#"allow(foo, reason = "")"#);
}

#[test]
fn single_line_trailing_comma() {
    assert_eq!(run("allow(foo,)"), r#"allow(foo, reason = "",)"#);
}

#[test]
fn single_line_multiple_lints() {
    assert_eq!(run("allow(foo, bar)"), r#"allow(foo, bar, reason = "")"#);
}

#[test]
fn multi_line_trailing_comma() {
    let input = "allow(\n    foo,\n)";
    let expected = "allow(\n    foo,\n    reason = \"\",\n)";
    assert_eq!(run(input), expected);
}

#[test]
fn multi_line_no_trailing_comma() {
    let input = "allow(\n    foo\n)";
    let expected = "allow(\n    foo,\n    reason = \"\",\n)";
    assert_eq!(run(input), expected);
}

#[test]
fn multi_line_tab_indent() {
    let input = "expect(\n\tfoo,\n)";
    let expected = "expect(\n\tfoo,\n\treason = \"\",\n)";
    assert_eq!(run(input), expected);
}

/// `rfind(')')` would land inside the block comment; the
/// tokenizer-backed scan skips comment contents and finds the
/// real outer `)`.
#[test]
fn snippet_with_block_comment_containing_paren() {
    let input = "#[allow(foo) /* ) */]";
    let expected = r#"#[allow(foo, reason = "") /* ) */]"#;
    assert_eq!(run(input), expected);
}

/// Same but with a line comment after the close-paren.
#[test]
fn snippet_with_line_comment_after_args() {
    let input = "#[allow(foo) // trailing comment\n]";
    let expected = "#[allow(foo, reason = \"\") // trailing comment\n]";
    assert_eq!(run(input), expected);
}

/// Block comment *between* arguments.
#[test]
fn snippet_with_block_comment_between_args() {
    let input = "#[allow(/* ) */ foo)]";
    let expected = r#"#[allow(/* ) */ foo, reason = "")]"#;
    assert_eq!(run(input), expected);
}

/// CRLF line endings should not confuse the trailing-comma
/// detection — `\r` is treated the same as horizontal
/// whitespace when scanning the end of the last content line.
/// The inserted line uses LF; the existing source's CRLF runs
/// are preserved.
#[test]
fn multi_line_crlf_trailing_comma() {
    let input = "allow(\r\n    foo,\r\n)";
    let expected = "allow(\r\n    foo,\r\n    reason = \"\",\n)";
    assert_eq!(run(input), expected);
}

/// Empty snippets and snippets with no parens return `None`
/// so the caller falls back to the no-sugg diagnostic.
#[test]
fn empty_or_unparenthesised_snippets_yield_none() {
    assert!(build_insertion("").is_none());
    assert!(build_insertion("allow").is_none());
    assert!(build_insertion("allow(foo").is_none());
}

#[test]
fn empty_argument_list_yields_none() {
    assert!(build_insertion("allow()").is_none());
    assert!(build_insertion("allow( /* ( */ )").is_none());
}

#[test]
fn nested_parentheses_close_at_the_matching_paren() {
    assert_eq!(run("allow(foo(bar))"), r#"allow(foo(bar), reason = "")"#);
    assert!(build_insertion("allow(foo(bar)").is_none());
}

#[test]
fn multi_line_no_trailing_comma_adds_the_comma_before_a_trailing_comment() {
    let input = "allow(\n    foo // why\n)";
    let expected = "allow(\n    foo,\n    reason = \"\", // why\n)";
    assert_eq!(run(input), expected);
}

#[test]
fn close_on_the_last_argument_line_stays_single_line() {
    let input = "allow(\n    foo,\n    bar)";
    let expected = "allow(\n    foo,\n    bar, reason = \"\")";
    assert_eq!(run(input), expected);
}

#[test]
fn edit_offsets_are_bytes() {
    let input = "allow(/* é */ foo)";
    let ins = build_insertion(input).unwrap();
    assert_eq!(ins.start, input.len() - 1);
    assert_eq!(ins.end, ins.start);
}

#[test]
fn insertion_from_given_tokens() {
    let snippet = "allow(foo)";
    let tokens = [(TokenClass::Other, 5), (TokenClass::OpenParen, 1), (TokenClass::Other, 3), (TokenClass::CloseParen, 1)];
    let ins = insertion_from_tokens(snippet, &tokens).unwrap();
    assert_eq!((ins.start, ins.end, ins.replacement.as_str()), (9, 9, ", reason = \"\""));
    // The same text read as one comment token holds no list at all.
    assert!(insertion_from_tokens(snippet, &[(TokenClass::BlockComment, 10)]).is_none());
    // A trailing comma token turns the joining comma around.
    let tokens = [
        (TokenClass::Other, 5),
        (TokenClass::OpenParen, 1),
        (TokenClass::Other, 3),
        (TokenClass::Comma, 1),
        (TokenClass::CloseParen, 1),
    ];
    let ins = insertion_from_tokens("allow(foo,)", &tokens).unwrap();
    assert_eq!((ins.start, ins.replacement.as_str()), (10, " reason = \"\","));
}
