use perfectionist::issue_reference::{doc_line_prefix, DocLine};
use perfectionist::diagnostic::{Applicability, Part};
use perfectionist::issue_reference::{
    block_defines_reference, emit_issue_ref, join_url, render_doc_suggestion,
    render_plain_suggestion, resolve_repository, BareIssueReference, Config, DocForm, Forge,
    PlainForm, RefDefinitionSite,
};

#[test]
fn join_url_appends_path_to_base() {
    assert_eq!(
        join_url("https://github.com/owner/repo", "/issues/{number}", "42"),
        "https://github.com/owner/repo/issues/42",
    );
}

#[test]
fn join_url_collapses_double_slash_from_trailing_base() {
    assert_eq!(
        join_url("https://github.com/owner/repo/", "/pull/{number}", "7"),
        "https://github.com/owner/repo/pull/7",
    );
}

#[test]
fn join_url_adds_separator_when_template_lacks_leading_slash() {
    assert_eq!(
        join_url("https://example.com/o/r", "issues/{number}", "9"),
        "https://example.com/o/r/issues/9",
    );
}

#[test]
fn forge_paths_are_layout_specific() {
    assert_eq!(Forge::GitHub.issue_path(), "/issues/{number}");
    assert_eq!(Forge::GitHub.pr_path(), "/pull/{number}");
    assert_eq!(Forge::GitLab.issue_path(), "/-/issues/{number}");
    assert_eq!(Forge::GitLab.pr_path(), "/-/merge_requests/{number}");
    assert_eq!(Forge::Gitea.issue_path(), "/issues/{number}");
    assert_eq!(Forge::Gitea.pr_path(), "/pulls/{number}");
}

#[test]
fn forge_detects_known_hosts() {
    assert_eq!(Forge::detect("https://github.com/o/r"), Some(Forge::GitHub));
    assert_eq!(Forge::detect("https://gitlab.com/o/r"), Some(Forge::GitLab));
    assert_eq!(Forge::detect("https://gitea.com/o/r"), Some(Forge::Gitea));
    assert_eq!(
        Forge::detect("https://codeberg.org/o/r"),
        Some(Forge::Gitea),
    );
}

#[test]
fn forge_detection_is_host_case_insensitive() {
    assert_eq!(Forge::detect("https://GitHub.com/o/r"), Some(Forge::GitHub));
    assert_eq!(
        Forge::detect("https://GitLab.Example.com/o/r"),
        Some(Forge::GitLab),
    );
}

#[test]
fn forge_detects_self_hosted_subdomain_pattern() {
    assert_eq!(
        Forge::detect("https://gitlab.example.com/o/r"),
        Some(Forge::GitLab),
    );
    assert_eq!(
        Forge::detect("https://gitea.example.com/o/r"),
        Some(Forge::Gitea),
    );
    assert_eq!(
        Forge::detect("https://forgejo.example.com/o/r"),
        Some(Forge::Gitea),
    );
    assert_eq!(
        Forge::detect("https://github.example.com/o/r"),
        Some(Forge::GitHub),
    );
}

#[test]
fn forge_detection_has_no_fallback_for_unknown_hosts() {
    assert_eq!(Forge::detect("https://code.example.com/o/r"), None);
    assert_eq!(Forge::detect("https://git.example.com/o/r"), None);
    assert_eq!(Forge::detect("https://bitbucket.org/o/r"), None);
    assert_eq!(Forge::detect("https://bitbucket.example.com/o/r"), None);
}

#[test]
fn forge_detection_needs_a_scheme_separator() {
    assert_eq!(Forge::detect("github.com/o/r"), None);
    assert_eq!(Forge::detect("https://github.com:8443/o/r"), Some(Forge::GitHub));
}

#[test]
fn block_defines_reference_detects_existing_definition() {
    let block = "Closes [#99].\n\n[#99]: https://example.com/issues/99";
    assert!(block_defines_reference(block, "99"));
    assert!(!block_defines_reference(block, "98"));
    assert!(!block_defines_reference("Closes #99.", "99"));
}

#[test]
fn block_defines_reference_allows_indented_definition_only_at_line_start() {
    assert!(block_defines_reference("text\n   [#7]: https://x", "7"));
    assert!(!block_defines_reference("text [#7]: https://x", "7"));
}

fn lint(web_base: &str) -> BareIssueReference {
    BareIssueReference {
        forge: None,
        repo_web_base: Some(web_base.to_owned()),
        suggest_issue_url: true,
        suggest_pr_url: true,
        doc_comment_form: DocForm::Inline,
        include_plain_comments: false,
        plain_comment_form: PlainForm::BareUrl,
    }
}

#[test]
fn urls_are_derived_when_only_repository_is_set() {
    let github = lint("https://github.com/owner/repo");
    assert_eq!(github.effective_forge(), Some(Forge::GitHub));
    assert_eq!(
        github.issue_url("123").as_deref(),
        Some("https://github.com/owner/repo/issues/123"),
    );
    assert_eq!(
        github.pr_url("123").as_deref(),
        Some("https://github.com/owner/repo/pull/123"),
    );

    let gitlab = lint("https://gitlab.com/owner/repo");
    assert_eq!(gitlab.effective_forge(), Some(Forge::GitLab));
    assert_eq!(
        gitlab.issue_url("123").as_deref(),
        Some("https://gitlab.com/owner/repo/-/issues/123"),
    );
    assert_eq!(
        gitlab.pr_url("123").as_deref(),
        Some("https://gitlab.com/owner/repo/-/merge_requests/123"),
    );
}

#[test]
fn hash_reference_is_issue_only_on_gitlab() {
    assert!(!lint("https://gitlab.com/o/r").hash_can_mean_pr());
    assert!(!lint("https://gitlab.example.com/o/r").hash_can_mean_pr());
    assert!(lint("https://github.com/o/r").hash_can_mean_pr());
    assert!(lint("https://gitea.com/o/r").hash_can_mean_pr());
}

#[test]
fn explicit_forge_wins_over_detection() {
    let mut l = lint("https://git.example.com/o/r");
    l.forge = Some(Forge::Gitea);
    assert_eq!(l.effective_forge(), Some(Forge::Gitea));
    assert_eq!(
        l.pr_url("5").as_deref(),
        Some("https://git.example.com/o/r/pulls/5"),
    );
}

#[test]
fn resolve_repository_passes_valid_url() {
    assert_eq!(
        resolve_repository(Some("git@github.com:owner/repo.git")).as_deref(),
        Some("https://github.com/owner/repo"),
    );
}

#[test]
fn resolve_repository_is_none_when_unset() {
    assert_eq!(resolve_repository(None), None);
}

#[test]
fn no_urls_when_repository_host_is_unrecognised() {
    let lint = BareIssueReference {
        forge: None,
        repo_web_base: Some("https://git.example.com/owner/repo".to_owned()),
        suggest_issue_url: true,
        suggest_pr_url: true,
        doc_comment_form: DocForm::Inline,
        include_plain_comments: false,
        plain_comment_form: PlainForm::BareUrl,
    };
    assert_eq!(lint.effective_forge(), None);
    assert_eq!(lint.issue_url("123"), None);
    assert_eq!(lint.pr_url("123"), None);
}

#[test]
fn new_normalizes_the_configured_repository() {
    let mut config = Config::default();
    config.repository = Some("git@gitlab.com:o/r.git".to_owned());
    let lint = BareIssueReference::new(config);
    assert_eq!(lint.repo_web_base.as_deref(), Some("https://gitlab.com/o/r"));
    assert!(lint.suggest_issue_url && lint.suggest_pr_url);
    assert_eq!(lint.doc_comment_form, DocForm::Inline);
}

#[test]
fn renders_inline_doc_suggestion() {
    assert_eq!(
        render_doc_suggestion(DocForm::Inline, "#42", "https://example.com/issues/42"),
        "[#42](https://example.com/issues/42)",
    );
}

#[test]
fn renders_reference_doc_suggestion() {
    assert_eq!(
        render_doc_suggestion(DocForm::Reference, "#42", "https://example.com/issues/42"),
        "[#42]",
    );
}

#[test]
fn renders_bare_url_doc_suggestion() {
    assert_eq!(
        render_doc_suggestion(DocForm::BareUrl, "#42", "https://example.com/issues/42"),
        "https://example.com/issues/42",
    );
}

#[test]
fn renders_bracketed_url_doc_suggestion() {
    assert_eq!(
        render_doc_suggestion(
            DocForm::BracketedUrl,
            "#42",
            "https://example.com/issues/42"
        ),
        "<https://example.com/issues/42>",
    );
}

#[test]
fn renders_plain_suggestion_bracketed() {
    assert_eq!(
        render_plain_suggestion(PlainForm::BracketedUrl, "https://example.com/issues/42"),
        "<https://example.com/issues/42>",
    );
}

#[test]
fn renders_plain_suggestion_bare() {
    assert_eq!(
        render_plain_suggestion(PlainForm::BareUrl, "https://example.com/issues/42"),
        "https://example.com/issues/42",
    );
}

fn help_texts(parts: &[Part]) -> Vec<String> {
    parts
        .iter()
        .filter_map(|p| match p {
            Part::Help(h) => Some(h.clone()),
            _ => None,
        })
        .collect()
}

#[test]
fn report_without_repository_is_help_only() {
    let lint = BareIssueReference::new(Config::default());
    let violation = lint.violation("12", true, None);
    assert_eq!(violation.token, "#12");
    let diag = emit_issue_ref(&violation, lint.emit_options());
    assert!(diag.message.starts_with("ambiguous `#12`"));
    let helps = help_texts(&diag.parts);
    assert_eq!(helps.len(), 3);
    assert!(helps[0].starts_with("set `repository`"));
    assert!(helps[1].contains("enclose it in backticks"));
}

#[test]
fn report_on_gitlab_offers_only_the_issue_link() {
    let lint = lint("https://gitlab.com/o/r");
    let violation = lint.violation("3", true, None);
    let diag = emit_issue_ref(&violation, lint.emit_options());
    let suggestions: Vec<_> = diag
        .parts
        .iter()
        .filter_map(|p| match p {
            Part::Suggest(s) => Some(s),
            _ => None,
        })
        .collect();
    assert_eq!(suggestions.len(), 1);
    assert_eq!(suggestions[0].replacement, "[#3](https://gitlab.com/o/r/-/issues/3)");
    assert_eq!(suggestions[0].message, "use an inline markdown link to the issue");
    assert_eq!(suggestions[0].applicability, Applicability::MaybeIncorrect);
}

#[test]
fn reference_form_appends_definition() {
    let mut lint = lint("https://github.com/o/r");
    lint.doc_comment_form = DocForm::Reference;
    let site = RefDefinitionSite { doc_prefix: "    ///".to_owned() };
    let violation = lint.violation("8", true, Some(site));
    let diag = emit_issue_ref(&violation, lint.emit_options());
    match &diag.parts[0] {
        Part::Suggest(s) => {
            assert_eq!(s.replacement, "[#8]");
            assert_eq!(
                s.appended.as_deref(),
                Some("\n    ///\n    /// [#8]: https://github.com/o/r/issues/8"),
            );
        }
        _ => panic!("expected a suggestion"),
    }
}

#[test]
fn disabled_knobs_name_only_the_useful_one_on_gitlab() {
    let mut lint = lint("https://gitlab.com/o/r");
    lint.suggest_issue_url = false;
    let violation = lint.violation("3", false, None);
    let diag = emit_issue_ref(&violation, lint.emit_options());
    let helps = help_texts(&diag.parts);
    assert!(helps[0].starts_with("enable `suggest_issue_url` in dylint.toml"));
}

#[test]
fn doc_line_prefix_is_the_source_before_the_content() {
    let src = "    /// See #12.\n    //! more\n";
    let lines = [
        DocLine { rendered_start: 0, rendered_len: 8, source_offset: 8 },
        DocLine { rendered_start: 9, rendered_len: 4, source_offset: 25 },
    ];
    assert_eq!(doc_line_prefix(&lines, Some(src), 3).as_deref(), Some("    ///"));
    assert_eq!(doc_line_prefix(&lines, Some(src), 10).as_deref(), Some("    //!"));
    assert_eq!(doc_line_prefix(&lines, Some(src), 100), None);
    assert_eq!(doc_line_prefix(&lines, None, 3), None);
    let wide = [DocLine { rendered_start: 0, rendered_len: 1, source_offset: 1 }];
    assert_eq!(doc_line_prefix(&wide, Some("é"), 0), None);
}

#[test]
fn bare_hash_numbers_are_found_with_their_guards() {
    let rule = BareIssueReference::new(Config::default());
    let text = "See #12, foo#3, [#4], `#5`, #6a, #, #77_ and https://e.com/p#8 or #90.";
    let fragment = text.find("#8").unwrap();
    let found: Vec<(usize, usize, String)> = rule.scan(text, &[], &[fragment]);
    let numbers: Vec<&str> = found.iter().map(|(_, _, n)| n.as_str()).collect();
    assert_eq!(numbers, ["12", "90"]);
    let (start, end, _) = &found[0];
    assert_eq!(&text[*start..*end], "#12");
    let skip = text.find("#90").unwrap();
    let found = rule.scan(text, &[(skip, skip + 3)], &[fragment]);
    assert_eq!(found.len(), 1);
    assert!(rule.scan("", &[], &[]).is_empty());
    assert_eq!(rule.scan("é #1", &[], &[]), vec![(3, 5, "1".to_owned())]);
}
