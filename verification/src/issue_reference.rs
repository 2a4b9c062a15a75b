//! The `bare_issue_reference` rule's link resolution: which forge a
//! repository lives on, the issue / pull-request URLs a bare `#NNN`
//! may link to, and the replacement text each autofix form renders.
use crate::diagnostic::{Applicability, Diagnostic, DiagnosticModel, Part, PartModel, Suggestion, SuggestionModel};
use crate::repo_url::{normalize, spec_normalize};
use crate::text::{
    count_end_in as count_end_chars_in, last_in, lemma_last_in, rfind_in, chars_of, count_end_in, count_start_in, count_start_ws, find_in, find_sub, first_in, first_sub,
    lemma_first_in, lemma_first_sub, lower_chars, lower_seq, push_all, push_str, replace_all,
    replace_chars, slice_eq, string_of, trim_end_in, trim_start_in, trim_start_ws,
};
use vstd::prelude::*;
use vstd::string::StringSliceAdditionalSpecFns;
use vstd::utf8::{encode_utf8, is_char_boundary};

verus! {

/// A recognised git-hosting service. The chosen forge fixes the
/// issue / PR URL layout.
#[derive(Debug, Clone, Copy, PartialEq, Eq, Structural)]
pub enum Forge {
    /// GitHub or a GitHub Enterprise instance. Paths:
    /// `/issues/{number}`, `/pull/{number}`.
    GitHub,
    /// GitLab (gitlab.com or self-hosted). Paths:
    /// `/-/issues/{number}`, `/-/merge_requests/{number}`.
    GitLab,
    /// Gitea / Forgejo (including Codeberg). Paths:
    /// `/issues/{number}`, `/pulls/{number}`.
    Gitea,
}

/// Markdown-link shape produced by the autofix inside doc comments.
#[derive(Debug, Clone, Copy, PartialEq, Eq, Structural)]
pub enum DocForm {
    /// `[#123](URL)` — the URL is inlined.
    Inline,
    /// `[#123]`, with a matching `[#123]: URL` definition.
    Reference,
    /// The bare URL replaces the `#123` token outright.
    BareUrl,
    /// `<URL>` replaces the `#123` token outright.
    BracketedUrl,
}

/// URL shape used inside plain `//` comments.
#[derive(Debug, Clone, Copy, PartialEq, Eq, Structural)]
pub enum PlainForm {
    /// Substitute the URL itself, unwrapped.
    BareUrl,
    /// Substitute `<URL>`.
    BracketedUrl,
}

pub open spec fn spec_issue_path(forge: Forge) -> Seq<char> {
    match forge {
        Forge::GitHub | Forge::Gitea => "/issues/{number}"@,
        Forge::GitLab => "/-/issues/{number}"@,
    }
}

pub open spec fn spec_pr_path(forge: Forge) -> Seq<char> {
    match forge {
        Forge::GitHub => "/pull/{number}"@,
        Forge::Gitea => "/pulls/{number}"@,
        Forge::GitLab => "/-/merge_requests/{number}"@,
    }
}

/// The host of a URL: the text after the first `://` up to the first
/// `/`, `?`, `#` or `:`. `None` without a `://`.
pub open spec fn spec_host_of(url: Seq<char>) -> Option<Seq<char>> {
    let at = first_sub(url, "://"@);
    if at < 0 {
        None
    } else {
        let rest = url.skip(at + 3);
        let end = first_in(rest, seq!['/', '?', '#', ':']);
        Some(
            if end < 0 {
                rest
            } else {
                rest.take(end)
            },
        )
    }
}

/// The forge a lower-cased host names: a public instance by its full
/// host, or a self-hosted one by its leading DNS label.
pub open spec fn spec_forge_of_host(host: Seq<char>) -> Option<Forge> {
    let dot = first_in(host, seq!['.']);
    let label = if dot < 0 {
        host
    } else {
        host.take(dot)
    };
    if host == "github.com"@ {
        Some(Forge::GitHub)
    } else if host == "gitlab.com"@ {
        Some(Forge::GitLab)
    } else if host == "codeberg.org"@ || host == "gitea.com"@ {
        Some(Forge::Gitea)
    } else if label == "gitlab"@ {
        Some(Forge::GitLab)
    } else if label == "github"@ {
        Some(Forge::GitHub)
    } else if label == "gitea"@ || label == "forgejo"@ {
        Some(Forge::Gitea)
    } else {
        None
    }
}

/// The forge detected from a repository URL's host, compared
/// ASCII-case-insensitively.
pub open spec fn spec_detect(url: Seq<char>) -> Option<Forge> {
    match spec_host_of(url) {
        None => None,
        Some(host) => spec_forge_of_host(lower_seq(host)),
    }
}

/// `base_url` and `path` joined by exactly one `/`, with `{number}` in
/// `path` replaced by `number`.
pub open spec fn spec_join_url(base_url: Seq<char>, path: Seq<char>, number: Seq<char>) -> Seq<char> {
    trim_end_in(base_url, seq!['/']) + seq!['/'] + trim_start_in(
        replace_all(path, "{number}"@, number),
        seq!['/'],
    )
}

impl Forge {
    pub fn issue_path(self) -> (r: &'static str)
        ensures
            r@ == spec_issue_path(self),
    {
        match self {
            Forge::GitHub | Forge::Gitea => "/issues/{number}",
            Forge::GitLab => "/-/issues/{number}",
        }
    }

    pub fn pr_path(self) -> (r: &'static str)
        ensures
            r@ == spec_pr_path(self),
    {
        match self {
            Forge::GitHub => "/pull/{number}",
            Forge::Gitea => "/pulls/{number}",
            Forge::GitLab => "/-/merge_requests/{number}",
        }
    }

    /// Detect the forge from a repository URL's host — both the public
    /// instances (`github.com`, `gitlab.com`, `codeberg.org`,
    /// `gitea.com`) and the conventional `gitlab.*` / `github.*` /
    /// `gitea.*` / `forgejo.*` self-hosted subdomains. `None` for a host
    /// that gives no such hint.
    pub fn detect(repo_url: &str) -> (r: Option<Forge>)
        ensures
            r == spec_detect(repo_url@),
    {
        let url = chars_of(repo_url);
        let host = match host_of(url.as_slice()) {
            Some(h) => h,
            None => return None,
        };
        let host = lower_chars(host);
        forge_of_host(host.as_slice())
    }
}

/// The forge a lower-cased host names.
fn forge_of_host(host: &[char]) -> (r: Option<Forge>)
    ensures
        r == spec_forge_of_host(host@),
{
    let dot_set = vec!['.'];
    assert(dot_set@ =~= seq!['.']);
    let label = match find_in(host, dot_set.as_slice()) {
        Some(dot) => {
            let l = &host[0..dot];
            assert(l@ =~= host@.take(dot as int));
            l
        },
        None => host,
    };
    if slice_eq(host, chars_of("github.com").as_slice()) {
        Some(Forge::GitHub)
    } else if slice_eq(host, chars_of("gitlab.com").as_slice()) {
        Some(Forge::GitLab)
    } else if slice_eq(host, chars_of("codeberg.org").as_slice()) || slice_eq(
        host,
        chars_of("gitea.com").as_slice(),
    ) {
        Some(Forge::Gitea)
    } else if slice_eq(label, chars_of("gitlab").as_slice()) {
        Some(Forge::GitLab)
    } else if slice_eq(label, chars_of("github").as_slice()) {
        Some(Forge::GitHub)
    } else if slice_eq(label, chars_of("gitea").as_slice()) || slice_eq(
        label,
        chars_of("forgejo").as_slice(),
    ) {
        Some(Forge::Gitea)
    } else {
        None
    }
}

/// Host component of a URL like `https://github.com/owner/repo` →
/// `"github.com"`. `None` if the URL has no `://`.
pub fn host_of(url: &[char]) -> (r: Option<&[char]>)
    ensures
        match r {
            Some(h) => spec_host_of(url@) == Some(h@),
            None => spec_host_of(url@) is None,
        },
{
    let n = url.len();
    proof {
        reveal_strlit("://");
    }
    let at = match find_sub(url, chars_of("://").as_slice()) {
        Some(at) => at,
        None => return None,
    };
    proof {
        lemma_first_sub(url@, "://"@);
    }
    let rest = &url[at + 3..n];
    assert(rest@ =~= url@.skip(at + 3));
    let stops = vec!['/', '?', '#', ':'];
    assert(stops@ =~= seq!['/', '?', '#', ':']);
    match find_in(rest, stops.as_slice()) {
        Some(end) => {
            let h = &rest[0..end];
            assert(h@ =~= rest@.take(end as int));
            Some(h)
        },
        None => Some(rest),
    }
}

/// Join a repository base URL with a relative path (the part after
/// the base), substituting `{number}`. Exactly one `/` separates the
/// base from the path regardless of a trailing slash on the base or a
/// leading slash on the path.
pub fn join_url(base_url: &str, path: &str, number: &str) -> (r: String)
    ensures
        r@ == spec_join_url(base_url@, path@, number@),
{
    let slash = vec!['/'];
    assert(slash@ =~= seq!['/']);
    let base = chars_of(base_url);
    let keep = count_end_in(base.as_slice(), slash.as_slice());
    let placeholder = chars_of("{number}");
    proof {
        reveal_strlit("{number}");
    }
    let replaced = replace_chars(chars_of(path).as_slice(), placeholder.as_slice(), chars_of(number).as_slice());
    let skip = count_start_in(replaced.as_slice(), slash.as_slice());
    let mut out: Vec<char> = Vec::new();
    push_all(&mut out, &base[0..keep]);
    out.push('/');
    push_all(&mut out, &replaced[skip..replaced.len()]);
    proof {
        assert(base@.subrange(0, keep as int) =~= base@.take(keep as int));
        assert(replaced@.subrange(skip as int, replaced@.len() as int) =~= replaced@.skip(skip as int));
        assert(out@ =~= spec_join_url(base_url@, path@, number@));
    }
    string_of(out.as_slice())
}

/// `true` when some line of `text`, once its leading whitespace is
/// dropped, starts with `prefix`.
pub open spec fn some_line_starts_with(text: Seq<char>, prefix: Seq<char>) -> bool {
    exists|i: int|
        0 <= i < text.len() && is_line_start(text, i) && #[trigger] starts_with(
            trim_start_ws(line_from(text, i)),
            prefix,
        )
}

/// Whether `i` is where a line of `text` begins.
pub open spec fn is_line_start(text: Seq<char>, i: int) -> bool {
    i == 0 || (0 < i <= text.len() && text[i - 1] == '\n')
}

/// The line of `text` beginning at `i`, without its `\n`.
pub open spec fn line_from(text: Seq<char>, i: int) -> Seq<char> {
    let rest = text.skip(i);
    let end = first_in(rest, seq!['\n']);
    if end < 0 {
        rest
    } else {
        rest.take(end)
    }
}

/// `str::starts_with`.
pub open spec fn starts_with(s: Seq<char>, prefix: Seq<char>) -> bool {
    prefix.len() <= s.len() && s.take(prefix.len() as int) == prefix
}

/// The label a reference-link definition for `#number` starts with.
pub open spec fn reference_label(number: Seq<char>) -> Seq<char> {
    "[#"@ + number + "]:"@
}

/// Whether the rendered doc block already carries a `[#NNN]: ...`
/// reference-link definition, so the completed fix shouldn't append a
/// duplicate.
pub fn block_defines_reference(rendered: &str, number: &str) -> (r: bool)
    ensures
        r == some_line_starts_with(rendered@, reference_label(number@)),
{
    let text = chars_of(rendered);
    let mut label: Vec<char> = Vec::new();
    push_str(&mut label, "[#");
    push_str(&mut label, number);
    push_str(&mut label, "]:");
    assert(label@ =~= reference_label(number@));
    let newline = vec!['\n'];
    assert(newline@ =~= seq!['\n']);
    let n = text.len();
    let mut pos: usize = 0;
    while pos < n
        invariant
            n == text@.len(),
            text@ == rendered@,
            label@ == reference_label(number@),
            newline@ == seq!['\n'],
            pos <= n,
            pos == 0 || pos == n || text@[pos - 1] == '\n',
            forall|i: int|
                0 <= i < pos && is_line_start(text@, i) ==> !#[trigger] starts_with(
                    trim_start_ws(line_from(text@, i)),
                    label@,
                ),
        decreases n - pos,
    {
        let rest = &text[pos..n];
        assert(rest@ =~= text@.skip(pos as int));
        proof {
            lemma_first_in(rest@, newline@);
        }
        let found = find_in(rest, newline.as_slice());
        let end = match found {
            Some(e) => e,
            None => rest.len(),
        };
        assert(forall|j: int| 0 <= j < end ==> !newline@.contains(#[trigger] rest@[j]));
        assert(end < rest@.len() ==> newline@.contains(rest@[end as int]));
        let line = &rest[0..end];
        assert(line@ == line_from(text@, pos as int)) by {
            assert(line@ =~= rest@.take(end as int));
            if end == rest@.len() {
                assert(rest@.take(end as int) =~= rest@);
            }
        }
        let skip = count_start_ws(line);
        let trimmed = &line[skip..end];
        assert(trimmed@ =~= line@.skip(skip as int));
        let hit = label.len() <= trimmed.len() && slice_eq(&trimmed[0..label.len()], label.as_slice());
        if hit {
            assert(trimmed@.subrange(0, label@.len() as int) =~= trimmed@.take(label@.len() as int));
            assert(starts_with(trim_start_ws(line_from(text@, pos as int)), label@));
            assert(is_line_start(text@, pos as int));
            return true;
        }
        proof {
            if label@.len() <= trimmed@.len() {
                assert(trimmed@.subrange(0, label@.len() as int) =~= trimmed@.take(label@.len() as int));
            }
            assert forall|i: int|
                0 <= i < pos + end + 1 && i < n && is_line_start(text@, i) implies !#[trigger] starts_with(
                trim_start_ws(line_from(text@, i)),
                label@,
            ) by {
                if i > pos {
                    assert(rest@[i - 1 - pos] == text@[i - 1]);
                    assert(!newline@.contains(rest@[i - 1 - pos]));
                    assert(newline@[0] == '\n');
                    assert(newline@.contains('\n'));
                }
            }
        }
        if end == rest.len() {
            pos = n;
        } else {
            assert(newline@.contains(rest@[end as int]));
            assert(newline@.len() == 1);
            assert(rest@[end as int] == '\n');
            pos = pos + end + 1;
        }
    }
    false
}


// ---------------------------------------------------------------------
// The rule's settings and the links it derives from them
// ---------------------------------------------------------------------

/// The rule's configuration, as read from `dylint.toml`.
pub struct Config {
    /// Git-hosting service the repository is on; detected from the
    /// `repository` host when unset.
    pub forge: Option<Forge>,
    /// The repository's URL, in any form you'd clone or paste.
    pub repository: Option<String>,
    /// Offer a suggestion that links the reference as an issue.
    pub suggest_issue_url: bool,
    /// Offer a suggestion that links the reference as a pull request.
    pub suggest_pr_url: bool,
    /// Doc-comment fix form.
    pub doc_comment_form: DocForm,
    /// Also lint plain `//` line comments.
    pub include_plain_comments: bool,
    /// Replacement form used inside plain `//` comments.
    pub plain_comment_form: PlainForm,
}

impl Default for Config {
    fn default() -> (r: Self)
        ensures
            r.forge is None,
            r.repository is None,
            r.suggest_issue_url,
            r.suggest_pr_url,
            r.doc_comment_form == DocForm::Inline,
            !r.include_plain_comments,
            r.plain_comment_form == PlainForm::BareUrl,
    {
        Config {
            forge: None,
            repository: None,
            suggest_issue_url: true,
            suggest_pr_url: true,
            doc_comment_form: DocForm::Inline,
            include_plain_comments: false,
            plain_comment_form: PlainForm::BareUrl,
        }
    }
}

pub struct BareIssueReference {
    pub forge: Option<Forge>,
    /// The `repository` URL normalised to its canonical web base, or
    /// `None` when unset.
    pub repo_web_base: Option<String>,
    pub suggest_issue_url: bool,
    pub suggest_pr_url: bool,
    pub doc_comment_form: DocForm,
    pub include_plain_comments: bool,
    pub plain_comment_form: PlainForm,
}

/// Whether the configured repository (if any) is a parseable git URL.
pub open spec fn repository_parses(repository: Option<Seq<char>>) -> bool {
    match repository {
        Some(raw) => spec_normalize(raw) is Some,
        None => true,
    }
}

pub open spec fn opt_view(s: Option<String>) -> Option<Seq<char>> {
    match s {
        Some(s) => Some(s@),
        None => None,
    }
}

/// Resolve the `repository` config value to its canonical web base.
/// `None` when unset — the lint then runs help-only. A set but
/// unparseable value is a configuration error the caller reports
/// before calling.
pub fn resolve_repository(repository: Option<&str>) -> (r: Option<String>)
    requires
        match repository {
            Some(raw) => spec_normalize(raw@) is Some,
            None => true,
        },
    ensures
        match repository {
            Some(raw) => opt_view(r) == spec_normalize(raw@),
            None => r is None,
        },
{
    match repository {
        Some(raw) => {
            let n = normalize(raw);
            match n {
                Some(s) => Some(s),
                None => None,
            }
        },
        None => None,
    }
}

impl BareIssueReference {
    pub fn new(config: Config) -> (r: Self)
        requires
            repository_parses(opt_view(config.repository)),
        ensures
            r.forge == config.forge,
            r.repo_web_base.is_some() == config.repository.is_some(),
            config.repository.is_some() ==> opt_view(r.repo_web_base) == spec_normalize(
                config.repository.unwrap()@,
            ),
            r.suggest_issue_url == config.suggest_issue_url,
            r.suggest_pr_url == config.suggest_pr_url,
            r.doc_comment_form == config.doc_comment_form,
            r.include_plain_comments == config.include_plain_comments,
            r.plain_comment_form == config.plain_comment_form,
    {
        let repo_web_base = match &config.repository {
            Some(raw) => resolve_repository(Some(raw.as_str())),
            None => None,
        };
        BareIssueReference {
            forge: config.forge,
            repo_web_base,
            suggest_issue_url: config.suggest_issue_url,
            suggest_pr_url: config.suggest_pr_url,
            doc_comment_form: config.doc_comment_form,
            include_plain_comments: config.include_plain_comments,
            plain_comment_form: config.plain_comment_form,
        }
    }

    /// The forge whose path layout to use: the explicit `forge` if set,
    /// otherwise one detected from the repository's host.
    pub open spec fn spec_effective_forge(&self) -> Option<Forge> {
        match self.forge {
            Some(f) => Some(f),
            None => match self.repo_web_base {
                Some(base) => spec_detect(base@),
                None => None,
            },
        }
    }

    /// The link for `number` under the layout `path_of` picks, when a
    /// repository and a forge are both known.
    pub open spec fn spec_issue_url(&self, number: Seq<char>) -> Option<Seq<char>> {
        match (self.repo_web_base, self.spec_effective_forge()) {
            (Some(base), Some(forge)) => Some(spec_join_url(base@, spec_issue_path(forge), number)),
            _ => None,
        }
    }

    pub open spec fn spec_pr_url(&self, number: Seq<char>) -> Option<Seq<char>> {
        match (self.repo_web_base, self.spec_effective_forge()) {
            (Some(base), Some(forge)) => Some(spec_join_url(base@, spec_pr_path(forge), number)),
            _ => None,
        }
    }

    /// The forge whose path layout to use: the explicit `forge` if
    /// set, otherwise one detected from the repository's host. `None`
    /// when neither yields a recognised forge — there is no fallback.
    pub fn effective_forge(&self) -> (r: Option<Forge>)
        ensures
            r == self.spec_effective_forge(),
    {
        match self.forge {
            Some(f) => Some(f),
            None => match &self.repo_web_base {
                Some(base) => Forge::detect(base.as_str()),
                None => None,
            },
        }
    }

    /// Suggested issue URL for `number`. `None` (so: help-only) unless
    /// `repository` is set and a forge is known.
    pub fn issue_url(&self, number: &str) -> (r: Option<String>)
        ensures
            opt_view(r) == self.spec_issue_url(number@),
    {
        let base = match &self.repo_web_base {
            Some(b) => b,
            None => return None,
        };
        let forge = match self.effective_forge() {
            Some(f) => f,
            None => return None,
        };
        Some(join_url(base.as_str(), forge.issue_path(), number))
    }

    /// Suggested pull-request URL for `number`; `None` exactly when
    /// [`Self::issue_url`] is.
    pub fn pr_url(&self, number: &str) -> (r: Option<String>)
        ensures
            opt_view(r) == self.spec_pr_url(number@),
    {
        let base = match &self.repo_web_base {
            Some(b) => b,
            None => return None,
        };
        let forge = match self.effective_forge() {
            Some(f) => f,
            None => return None,
        };
        Some(join_url(base.as_str(), forge.pr_path(), number))
    }

    /// Whether a bare `#NNN` reference can denote a pull request on the
    /// effective forge. False on GitLab, where `#NNN` is always an issue.
    pub fn hash_can_mean_pr(&self) -> (r: bool)
        ensures
            r == (self.spec_effective_forge() != Some(Forge::GitLab)),
    {
        match self.effective_forge() {
            Some(Forge::GitLab) => false,
            _ => true,
        }
    }
}

// ---------------------------------------------------------------------
// Rendering the autofix
// ---------------------------------------------------------------------

pub open spec fn spec_render_doc_suggestion(form: DocForm, token: Seq<char>, url: Seq<char>) -> Seq<char> {
    match form {
        DocForm::Inline => seq!['['] + token + "]("@ + url + seq![')'],
        DocForm::Reference => seq!['['] + token + seq![']'],
        DocForm::BareUrl => url,
        DocForm::BracketedUrl => seq!['<'] + url + seq!['>'],
    }
}

pub open spec fn spec_render_plain_suggestion(form: PlainForm, url: Seq<char>) -> Seq<char> {
    match form {
        PlainForm::BareUrl => url,
        PlainForm::BracketedUrl => seq!['<'] + url + seq!['>'],
    }
}

pub fn render_doc_suggestion(form: DocForm, token: &str, url: &str) -> (r: String)
    ensures
        r@ == spec_render_doc_suggestion(form, token@, url@),
{
    let mut out: Vec<char> = Vec::new();
    match form {
        DocForm::Inline => {
            out.push('[');
            push_str(&mut out, token);
            push_str(&mut out, "](");
            push_str(&mut out, url);
            out.push(')');
        },
        DocForm::Reference => {
            out.push('[');
            push_str(&mut out, token);
            out.push(']');
        },
        DocForm::BareUrl => {
            push_str(&mut out, url);
        },
        DocForm::BracketedUrl => {
            out.push('<');
            push_str(&mut out, url);
            out.push('>');
        },
    }
    assert(out@ =~= spec_render_doc_suggestion(form, token@, url@));
    string_of(out.as_slice())
}

pub fn render_plain_suggestion(form: PlainForm, url: &str) -> (r: String)
    ensures
        r@ == spec_render_plain_suggestion(form, url@),
{
    let mut out: Vec<char> = Vec::new();
    match form {
        PlainForm::BareUrl => {
            push_str(&mut out, url);
        },
        PlainForm::BracketedUrl => {
            out.push('<');
            push_str(&mut out, url);
            out.push('>');
        },
    }
    assert(out@ =~= spec_render_plain_suggestion(form, url@));
    string_of(out.as_slice())
}


// ---------------------------------------------------------------------
// Reporting one bare `#NNN`
// ---------------------------------------------------------------------

/// Where a `reference`-form `[#N]: URL` definition is appended: the doc
/// prefix (`///` / `//!`, with indentation) the new lines start with.
pub struct RefDefinitionSite {
    pub doc_prefix: String,
}

/// One bare `#NNN` finding, with everything the report needs.
pub struct IssueRefViolation {
    pub token: String,
    pub issue_url: Option<String>,
    pub pr_url: Option<String>,
    pub is_doc: bool,
    pub ref_site: Option<RefDefinitionSite>,
}

/// The crate-uniform rendering choices for the autofix.
#[derive(Clone, Copy)]
pub struct EmitOptions {
    pub suggest_issue: bool,
    pub suggest_pr: bool,
    /// Whether `suggest_pr_url` can produce a suggestion on the
    /// effective forge at all.
    pub hash_can_mean_pr: bool,
    pub doc_form: DocForm,
    pub plain_form: PlainForm,
}

pub open spec fn site_view(site: Option<RefDefinitionSite>) -> Option<Seq<char>> {
    match site {
        Some(s) => Some(s.doc_prefix@),
        None => None,
    }
}

impl BareIssueReference {
    /// The rendering choices for this configuration. On GitLab the PR
    /// suggestion never applies, whatever `suggest_pr_url` says.
    pub fn emit_options(&self) -> (r: EmitOptions)
        ensures
            r.suggest_issue == self.suggest_issue_url,
            r.suggest_pr == (self.suggest_pr_url && self.spec_effective_forge() != Some(Forge::GitLab)),
            r.hash_can_mean_pr == (self.spec_effective_forge() != Some(Forge::GitLab)),
            r.doc_form == self.doc_comment_form,
            r.plain_form == self.plain_comment_form,
    {
        let can = self.hash_can_mean_pr();
        EmitOptions {
            suggest_issue: self.suggest_issue_url,
            suggest_pr: self.suggest_pr_url && can,
            hash_can_mean_pr: can,
            doc_form: self.doc_comment_form,
            plain_form: self.plain_comment_form,
        }
    }

    /// The finding for a bare `#number`: its token and the links it may
    /// resolve to.
    pub fn violation(&self, number: &str, is_doc: bool, ref_site: Option<RefDefinitionSite>) -> (r:
        IssueRefViolation)
        ensures
            r.token@ == seq!['#'] + number@,
            opt_view(r.issue_url) == self.spec_issue_url(number@),
            opt_view(r.pr_url) == self.spec_pr_url(number@),
            r.is_doc == is_doc,
            site_view(r.ref_site) == site_view(ref_site),
    {
        let mut token: Vec<char> = Vec::new();
        token.push('#');
        push_str(&mut token, number);
        assert(token@ =~= seq!['#'] + number@);
        IssueRefViolation {
            token: string_of(token.as_slice()),
            issue_url: self.issue_url(number),
            pr_url: self.pr_url(number),
            is_doc,
            ref_site,
        }
    }
}

/// Where to append a `reference`-form definition: only in a `///` /
/// `//!` line doc block that does not already define the reference, and
/// only when the line's doc prefix is known.
pub fn reference_definition_site(
    is_line_doc_block: bool,
    rendered: &str,
    number: &str,
    doc_prefix: Option<String>,
) -> (r: Option<RefDefinitionSite>)
    ensures
        site_view(r) == if !is_line_doc_block || some_line_starts_with(
            rendered@,
            reference_label(number@),
        ) {
            None
        } else {
            opt_view(doc_prefix)
        },
{
    if !is_line_doc_block {
        return None;
    }
    if block_defines_reference(rendered, number) {
        return None;
    }
    match doc_prefix {
        Some(p) => Some(RefDefinitionSite { doc_prefix: p }),
        None => None,
    }
}

pub open spec fn headline(token: Seq<char>) -> Seq<char> {
    "ambiguous `"@ + token
        + "`; a bare `#NNN` could be an issue or pull request, a colour, or any other numbered item"@
}

pub open spec fn help_configure() -> Seq<char> {
    "set `repository` (and `forge`, if its host isn't a recognised service) in dylint.toml under `[\"perfectionist::bare_issue_reference\"]` to enable issue / PR link suggestions"@
}

pub open spec fn help_enable_knobs() -> Seq<char> {
    "enable `suggest_issue_url` and/or `suggest_pr_url` in dylint.toml under `[\"perfectionist::bare_issue_reference\"]` to get a link suggestion"@
}

pub open spec fn help_enable_issue_knob() -> Seq<char> {
    "enable `suggest_issue_url` in dylint.toml under `[\"perfectionist::bare_issue_reference\"]` to get a link suggestion; `suggest_pr_url` has no effect on GitLab, where a bare `#NNN` is always an issue (merge requests are written `!NNN`)"@
}

pub open spec fn help_backticks(token: Seq<char>) -> Seq<char> {
    "if `"@ + token + "` is not an issue or pull request, enclose it in backticks so it renders as code"@
}

pub open spec fn help_spelling() -> Seq<char> {
    "or refer to the numbered item with a spelling that has no leading `#`"@
}

/// The message of a link suggestion to the `target` ("issue" or
/// "pull request").
pub open spec fn spec_link_message(
    target: Seq<char>,
    is_doc: bool,
    doc_form: DocForm,
    plain_form: PlainForm,
    appends_definition: bool,
) -> Seq<char> {
    if is_doc && appends_definition {
        "use a reference-style markdown link to the "@ + target
            + " (its `[#N]: URL` definition is appended to the doc block)"@
    } else if is_doc {
        match doc_form {
            DocForm::Inline => "use an inline markdown link to the "@ + target,
            DocForm::Reference => "use a reference-style markdown link to the "@ + target
                + " (ensure a `[#N]: URL` definition exists in the doc block)"@,
            DocForm::BareUrl => "substitute the "@ + target + " URL"@,
            DocForm::BracketedUrl => "substitute the "@ + target + " URL wrapped in `<...>`"@,
        }
    } else {
        match plain_form {
            PlainForm::BareUrl => "substitute the "@ + target + " URL"@,
            PlainForm::BracketedUrl => "substitute the "@ + target + " URL wrapped in `<...>`"@,
        }
    }
}

/// One link suggestion. In a doc comment under the `reference` form
/// with a known definition site, the suggestion also appends the
/// `[#N]: URL` definition, after a blank doc line.
pub open spec fn spec_emit_one(
    token: Seq<char>,
    url: Seq<char>,
    target: Seq<char>,
    is_doc: bool,
    doc_form: DocForm,
    plain_form: PlainForm,
    ref_site: Option<Seq<char>>,
) -> SuggestionModel {
    let appends = doc_form == DocForm::Reference && ref_site is Some;
    SuggestionModel {
        message: spec_link_message(target, is_doc, doc_form, plain_form, appends),
        replacement: if is_doc && appends {
            spec_render_doc_suggestion(DocForm::Reference, token, url)
        } else if is_doc {
            spec_render_doc_suggestion(doc_form, token, url)
        } else {
            spec_render_plain_suggestion(plain_form, url)
        },
        appended: if is_doc && appends {
            let prefix = ref_site.unwrap();
            Some(seq!['\n'] + prefix + seq!['\n'] + prefix + " ["@ + token + "]: "@ + url)
        } else {
            None
        },
        applicability: Applicability::MaybeIncorrect,
    }
}

/// The parts of the report that depend on the configuration: a help
/// when no link can be suggested, else one suggestion per enabled
/// target.
pub open spec fn spec_link_parts(
    token: Seq<char>,
    issue_url: Option<Seq<char>>,
    pr_url: Option<Seq<char>>,
    is_doc: bool,
    ref_site: Option<Seq<char>>,
    o: EmitOptions,
) -> Seq<PartModel> {
    match issue_url {
        None => seq![PartModel::Help(help_configure())],
        Some(issue) => if !(o.suggest_issue || o.suggest_pr) {
            seq![
                PartModel::Help(
                    if o.hash_can_mean_pr {
                        help_enable_knobs()
                    } else {
                        help_enable_issue_knob()
                    },
                ),
            ]
        } else {
            (if o.suggest_issue {
                seq![
                    PartModel::Suggest(
                        spec_emit_one(token, issue, "issue"@, is_doc, o.doc_form, o.plain_form, ref_site),
                    ),
                ]
            } else {
                Seq::empty()
            }) + (if o.suggest_pr {
                seq![
                    PartModel::Suggest(
                        spec_emit_one(
                            token,
                            pr_url.unwrap(),
                            "pull request"@,
                            is_doc,
                            o.doc_form,
                            o.plain_form,
                            ref_site,
                        ),
                    ),
                ]
            } else {
                Seq::empty()
            })
        },
    }
}

/// The whole report for one bare `#NNN`.
pub open spec fn spec_emit_issue_ref(
    token: Seq<char>,
    issue_url: Option<Seq<char>>,
    pr_url: Option<Seq<char>>,
    is_doc: bool,
    ref_site: Option<Seq<char>>,
    o: EmitOptions,
) -> DiagnosticModel {
    DiagnosticModel {
        message: headline(token),
        parts: spec_link_parts(token, issue_url, pr_url, is_doc, ref_site, o) + seq![
            PartModel::Help(help_backticks(token)),
            PartModel::Help(help_spelling()),
        ],
    }
}

fn cat2(a: &str, b: &str) -> (r: String)
    ensures
        r@ == a@ + b@,
{
    let mut v: Vec<char> = Vec::new();
    push_str(&mut v, a);
    push_str(&mut v, b);
    string_of(v.as_slice())
}

fn cat3(a: &str, b: &str, c: &str) -> (r: String)
    ensures
        r@ == a@ + b@ + c@,
{
    let mut v: Vec<char> = Vec::new();
    push_str(&mut v, a);
    push_str(&mut v, b);
    push_str(&mut v, c);
    string_of(v.as_slice())
}

/// One issue-or-PR link suggestion (`target` is `"issue"` or
/// `"pull request"`). Every suggestion is `MaybeIncorrect`: a bare
/// `#NNN` is ambiguous.
pub fn emit_one(
    token: &str,
    url: &str,
    target: &str,
    is_doc: bool,
    doc_form: DocForm,
    plain_form: PlainForm,
    ref_site: Option<&RefDefinitionSite>,
) -> (r: Suggestion)
    ensures
        r@ == spec_emit_one(
            token@,
            url@,
            target@,
            is_doc,
            doc_form,
            plain_form,
            match ref_site {
                Some(s) => Some(s.doc_prefix@),
                None => None,
            },
        ),
{
    let appends = match (doc_form, ref_site) {
        (DocForm::Reference, Some(_)) => true,
        _ => false,
    };
    if is_doc && appends {
        let prefix = ref_site.unwrap().doc_prefix.as_str();
        let mut def: Vec<char> = Vec::new();
        def.push('\n');
        push_str(&mut def, prefix);
        def.push('\n');
        push_str(&mut def, prefix);
        push_str(&mut def, " [");
        push_str(&mut def, token);
        push_str(&mut def, "]: ");
        push_str(&mut def, url);
        assert(def@ =~= seq!['\n'] + prefix@ + seq!['\n'] + prefix@ + " ["@ + token@ + "]: "@ + url@);
        return Suggestion {
            message: cat3(
                "use a reference-style markdown link to the ",
                target,
                " (its `[#N]: URL` definition is appended to the doc block)",
            ),
            replacement: render_doc_suggestion(DocForm::Reference, token, url),
            appended: Some(string_of(def.as_slice())),
            applicability: Applicability::MaybeIncorrect,
        };
    }
    let (message, replacement) = if is_doc {
        let message = match doc_form {
            DocForm::Inline => cat2("use an inline markdown link to the ", target),
            DocForm::Reference => cat3(
                "use a reference-style markdown link to the ",
                target,
                " (ensure a `[#N]: URL` definition exists in the doc block)",
            ),
            DocForm::BareUrl => cat3("substitute the ", target, " URL"),
            DocForm::BracketedUrl => cat3("substitute the ", target, " URL wrapped in `<...>`"),
        };
        (message, render_doc_suggestion(doc_form, token, url))
    } else {
        let message = match plain_form {
            PlainForm::BareUrl => cat3("substitute the ", target, " URL"),
            PlainForm::BracketedUrl => cat3("substitute the ", target, " URL wrapped in `<...>`"),
        };
        (message, render_plain_suggestion(plain_form, url))
    };
    Suggestion { message, replacement, appended: None, applicability: Applicability::MaybeIncorrect }
}

/// The report for one bare `#NNN` finding: the suggestions the
/// configuration enables (or the help that explains how to enable
/// them), then the two disambiguations that apply whatever the config.
pub fn emit_issue_ref(violation: &IssueRefViolation, options: EmitOptions) -> (r: Diagnostic)
    requires
        violation.issue_url.is_some() ==> violation.pr_url.is_some(),
    ensures
        r@ == spec_emit_issue_ref(
            violation.token@,
            opt_view(violation.issue_url),
            opt_view(violation.pr_url),
            violation.is_doc,
            site_view(violation.ref_site),
            options,
        ),
{
    let token = violation.token.as_str();
    let ghost site = site_view(violation.ref_site);
    let site_ref: Option<&RefDefinitionSite> = match &violation.ref_site {
        Some(s) => Some(s),
        None => None,
    };
    let mut parts: Vec<Part> = Vec::new();
    match &violation.issue_url {
        None => {
            parts.push(Part::Help(help_configure_text()));
        },
        Some(issue_url) => {
            if !(options.suggest_issue || options.suggest_pr) {
                let help = if options.hash_can_mean_pr {
                    help_knobs_text()
                } else {
                    help_issue_knob_text()
                };
                parts.push(Part::Help(help));
            } else {
                if options.suggest_issue {
                    parts.push(
                        Part::Suggest(
                            emit_one(
                                token,
                                issue_url.as_str(),
                                "issue",
                                violation.is_doc,
                                options.doc_form,
                                options.plain_form,
                                site_ref,
                            ),
                        ),
                    );
                }
                if options.suggest_pr {
                    let pr_url = match &violation.pr_url {
                        Some(u) => u,
                        None => issue_url,
                    };
                    parts.push(
                        Part::Suggest(
                            emit_one(
                                token,
                                pr_url.as_str(),
                                "pull request",
                                violation.is_doc,
                                options.doc_form,
                                options.plain_form,
                                site_ref,
                            ),
                        ),
                    );
                }
            }
        },
    }
    let ghost link_parts = parts@.map_values(|p: Part| p@);
    parts.push(
        Part::Help(
            cat3(
                "if `",
                token,
                "` is not an issue or pull request, enclose it in backticks so it renders as code",
            ),
        ),
    );
    parts.push(Part::Help(help_spelling_text()));
    let r = Diagnostic {
        message: cat3(
            "ambiguous `",
            token,
            "`; a bare `#NNN` could be an issue or pull request, a colour, or any other numbered item",
        ),
        parts,
    };
    assert(r@.parts =~= spec_link_parts(
        violation.token@,
        opt_view(violation.issue_url),
        opt_view(violation.pr_url),
        violation.is_doc,
        site,
        options,
    ) + seq![PartModel::Help(help_backticks(violation.token@)), PartModel::Help(help_spelling())]);
    r
}

fn help_configure_text() -> (r: String)
    ensures
        r@ == help_configure(),
{
    "set `repository` (and `forge`, if its host isn't a recognised service) in dylint.toml under `[\"perfectionist::bare_issue_reference\"]` to enable issue / PR link suggestions".to_owned()
}

fn help_knobs_text() -> (r: String)
    ensures
        r@ == help_enable_knobs(),
{
    "enable `suggest_issue_url` and/or `suggest_pr_url` in dylint.toml under `[\"perfectionist::bare_issue_reference\"]` to get a link suggestion".to_owned()
}

fn help_issue_knob_text() -> (r: String)
    ensures
        r@ == help_enable_issue_knob(),
{
    "enable `suggest_issue_url` in dylint.toml under `[\"perfectionist::bare_issue_reference\"]` to get a link suggestion; `suggest_pr_url` has no effect on GitLab, where a bare `#NNN` is always an issue (merge requests are written `!NNN`)".to_owned()
}

fn help_spelling_text() -> (r: String)
    ensures
        r@ == help_spelling(),
{
    "or refer to the numbered item with a spelling that has no leading `#`".to_owned()
}

/// One source line of a rendered doc block: where its text starts in
/// the rendered block and how long it is there, and the byte offset in
/// the source file where its content starts.
pub struct DocLine {
    pub rendered_start: usize,
    pub rendered_len: usize,
    pub source_offset: usize,
}

/// `i` is the first line of `lines` whose rendered text holds `pos`.
pub open spec fn first_line_holding(lines: Seq<DocLine>, pos: int, i: int) -> bool {
    &&& 0 <= i < lines.len()
    &&& lines[i].rendered_start <= pos < lines[i].rendered_start + lines[i].rendered_len
    &&& forall|j: int| 0 <= j < i ==> !(#[trigger] lines[j].rendered_start <= pos < lines[j].rendered_start + lines[j].rendered_len)
}

/// The prefix of the last line of `head`, the source text before a
/// line's content: from just past the last `\n` (or the start), with
/// trailing spaces dropped.
pub open spec fn line_prefix_spec(head: Seq<char>) -> Seq<char> {
    trim_end_in(head.subrange(last_in(head, seq!['\n']) + 1, head.len() as int), seq![' '])
}

/// Whether the rendered text of `line` holds `pos`.
fn line_holds(line: &DocLine, pos: usize) -> (r: bool)
    ensures
        r == (line.rendered_start <= pos < line.rendered_start + line.rendered_len),
{
    pos >= line.rendered_start && pos - line.rendered_start < line.rendered_len
}

/// The `///` / `//!` prefix, with its indentation and without the
/// content space, of the source line of `lines` holding `rendered_pos`;
/// the appended definition lines reuse it to stay in the same doc block.
/// `None` when no line holds the position, the source text is not at
/// hand, or the line's content offset is not a character boundary of it.
pub fn doc_line_prefix(lines: &[DocLine], src: Option<&str>, rendered_pos: usize) -> (r: Option<String>)
    ensures
        match r {
            Some(p) => src is Some && exists|i: int, h: Seq<char>|
                #![trigger first_line_holding(lines@, rendered_pos as int, i), line_prefix_spec(h)]
                first_line_holding(lines@, rendered_pos as int, i)
                    && is_char_boundary(src->0.spec_bytes(), lines@[i].source_offset as int)
                    && encode_utf8(h) == src->0.spec_bytes().subrange(0, lines@[i].source_offset as int)
                    && p@ == line_prefix_spec(h),
            None => forall|i: int|
                #[trigger] first_line_holding(lines@, rendered_pos as int, i) ==> (src is None || !is_char_boundary(
                    src->0.spec_bytes(),
                    lines@[i].source_offset as int,
                )),
        },
{
    let mut i: usize = 0;
    while i < lines.len() && !line_holds(&lines[i], rendered_pos)
        invariant
            i <= lines@.len(),
            forall|j: int| 0 <= j < i ==> !(#[trigger] lines@[j].rendered_start <= rendered_pos < lines@[j].rendered_start + lines@[j].rendered_len),
        decreases lines@.len() - i,
    {
        i = i + 1;
    }
    if i == lines.len() {
        return None;
    }
    assert(first_line_holding(lines@, rendered_pos as int, i as int));
    let s = match src {
        Some(s) => s,
        None => {
            return None;
        },
    };
    let offset = lines[i].source_offset;
    if !s.is_char_boundary(offset) {
        return None;
    }
    let (head, _) = s.split_at(offset);
    let chars = chars_of(head);
    let newline = ['\n'];
    let space = [' '];
    proof {
        lemma_last_in(chars@, newline@);
    }
    let start = match rfind_in(chars.as_slice(), &newline) {
        Some(k) => {
            assert(k < chars.len());
            k + 1
        },
        None => 0,
    };
    let line = &chars.as_slice()[start..chars.len()];
    let keep = count_end_chars_in(line, &space);
    let prefix = string_of(&line[0..keep]);
    proof {
        assert(newline@ =~= seq!['\n']);
        assert(space@ =~= seq![' ']);
        assert(line@ =~= chars@.subrange(last_in(chars@, newline@) + 1, chars@.len() as int));
        assert(line@.subrange(0, keep as int) =~= line@.take(keep as int));
        assert(encode_utf8(head@) == head.spec_bytes());
        assert(first_line_holding(lines@, rendered_pos as int, i as int) && encode_utf8(head@) == s.spec_bytes().subrange(0, lines@[i as int].source_offset as int) && prefix@ == line_prefix_spec(head@));
    }
    Some(prefix)
}

/// A byte that continues a word: an ASCII letter or digit, or `_`.
pub open spec fn is_word_byte(b: u8) -> bool {
    crate::bare_email::byte_alnum(b) || b == 0x5f
}

/// A byte before `#` that disqualifies it: a word byte (`#NNN` inside a
/// larger identifier), `[` (an existing link label) or a backtick (code).
pub open spec fn is_ref_guard_byte(b: u8) -> bool {
    is_word_byte(b) || b == 0x5b || b == 0x60
}

/// Where the run of ASCII digits starting at `i` ends.
pub open spec fn digits_end(s: Seq<u8>, i: int) -> int
    decreases s.len() - i,
{
    if 0 <= i < s.len() && 0x30 <= s[i] <= 0x39 {
        digits_end(s, i + 1)
    } else {
        i
    }
}

/// Every bare `#NNN` of the rendered text `s` from `index` on, as its
/// position, its end and its number: a `#` not after a guard byte,
/// followed by at least one digit and then a word boundary, not the
/// fragment of a URL (`fragments`, the positions of such `#`s) and not
/// inside a `skips` region.
pub open spec fn spec_scan_refs(
    s: Seq<u8>,
    skips: Seq<(usize, usize)>,
    fragments: Seq<usize>,
    index: int,
) -> Seq<(usize, usize, Seq<char>)>
    decreases s.len() - index,
{
    if index < 0 || index >= s.len() {
        Seq::empty()
    } else if s[index] != 0x23 {
        spec_scan_refs(s, skips, fragments, index + 1)
    } else if index > 0 && is_ref_guard_byte(s[index - 1]) {
        spec_scan_refs(s, skips, fragments, index + 1)
    } else {
        let end = digits_end(s, index + 1);
        proof {
            lemma_digits_end(s, index + 1);
        }
        if end <= index + 1 {
            spec_scan_refs(s, skips, fragments, index + 1)
        } else if end < s.len() && is_word_byte(s[end]) {
            spec_scan_refs(s, skips, fragments, end)
        } else if fragments.contains(index as usize) || crate::bare_email::in_skip(skips, index) {
            spec_scan_refs(s, skips, fragments, end)
        } else {
            seq![(index as usize, end as usize, crate::bare_email::ascii_chars(s.subrange(index + 1, end)))]
                + spec_scan_refs(s, skips, fragments, end)
        }
    }
}

/// A run of digits ends within the text.
pub proof fn lemma_digits_end(s: Seq<u8>, i: int)
    requires
        0 <= i <= s.len(),
    ensures
        i <= digits_end(s, i) <= s.len(),
    decreases s.len() - i,
{
    if i < s.len() && 0x30 <= s[i] <= 0x39 {
        lemma_digits_end(s, i + 1);
    }
}

/// Whether `list` holds `x`.
fn holds_position(list: &[usize], x: usize) -> (r: bool)
    ensures
        r == list@.contains(x),
{
    let mut k: usize = 0;
    while k < list.len()
        invariant
            k <= list@.len(),
            forall|j: int| 0 <= j < k ==> list@[j] != x,
        decreases list@.len() - k,
    {
        if list[k] == x {
            assert(list@[k as int] == x);
            return true;
        }
        k = k + 1;
    }
    false
}

fn word_byte(b: u8) -> (r: bool)
    ensures
        r == is_word_byte(b),
{
    crate::bare_email::is_ascii_alnum_byte(b) || b == 0x5f
}

impl BareIssueReference {
    /// Every bare `#NNN` in the rendered comment `text`, as its byte
    /// position, its end and its number. `skips` holds the markdown
    /// regions left alone; `url_fragments` the positions of the `#`s
    /// that end a URL (`https://example.com/page#123`), which are no
    /// references.
    pub fn scan(&self, text: &str, skips: &[(usize, usize)], url_fragments: &[usize]) -> (r: Vec<(usize, usize, String)>)
        ensures
            r@.map_values(|p: (usize, usize, String)| (p.0, p.1, p.2@)) == spec_scan_refs(
                text.spec_bytes(),
                skips@,
                url_fragments@,
                0,
            ),
    {
        let bytes = text.as_bytes();
        let n = bytes.len();
        let mut out: Vec<(usize, usize, String)> = Vec::new();
        let mut index: usize = 0;
        while index < n
            invariant
                n == bytes@.len(),
                bytes@ == text.spec_bytes(),
                index <= n,
                out@.map_values(|p: (usize, usize, String)| (p.0, p.1, p.2@)) + spec_scan_refs(
                    bytes@,
                    skips@,
                    url_fragments@,
                    index as int,
                ) == spec_scan_refs(bytes@, skips@, url_fragments@, 0),
            decreases n - index,
        {
            let ghost before = out@.map_values(|p: (usize, usize, String)| (p.0, p.1, p.2@));
            if bytes[index] != 0x23u8 {
                index = index + 1;
                continue;
            }
            if index > 0 && (word_byte(bytes[index - 1]) || bytes[index - 1] == 0x5bu8 || bytes[index - 1] == 0x60u8) {
                index = index + 1;
                continue;
            }
            let mut end: usize = index + 1;
            proof {
                lemma_digits_end(bytes@, index + 1);
            }
            while end < n && 0x30u8 <= bytes[end] && bytes[end] <= 0x39u8
                invariant
                    n == bytes@.len(),
                    index + 1 <= end <= n,
                    digits_end(bytes@, end as int) == digits_end(bytes@, index + 1),
                decreases n - end,
            {
                end = end + 1;
            }
            if end == index + 1 {
                index = index + 1;
                continue;
            }
            if end < n && word_byte(bytes[end]) {
                index = end;
                continue;
            }
            if holds_position(url_fragments, index) || crate::bare_email::position_in_skip(skips, index) {
                index = end;
                continue;
            }
            let mut number: Vec<char> = Vec::new();
            let mut k: usize = index + 1;
            while k < end
                invariant
                    index + 1 <= k <= end <= n,
                    n == bytes@.len(),
                    number@ == crate::bare_email::ascii_chars(bytes@.subrange(index + 1, k as int)),
                decreases end - k,
            {
                number.push(bytes[k] as char);
                assert(crate::bare_email::ascii_chars(bytes@.subrange(index + 1, k + 1)) =~= crate::bare_email::ascii_chars(
                    bytes@.subrange(index + 1, k as int),
                ).push(bytes@[k as int] as char));
                k = k + 1;
            }
            let item = (index, end, string_of(number.as_slice()));
            out.push(item);
            proof {
                let entry = (index, end, number@);
                assert(out@.map_values(|p: (usize, usize, String)| (p.0, p.1, p.2@)) =~= before.push(entry));
                assert(before.push(entry) + spec_scan_refs(bytes@, skips@, url_fragments@, end as int) =~= before + (
                seq![entry] + spec_scan_refs(bytes@, skips@, url_fragments@, end as int)));
            }
            index = end;
        }
        proof {
            let done = out@.map_values(|p: (usize, usize, String)| (p.0, p.1, p.2@));
            assert(done + Seq::<(usize, usize, Seq<char>)>::empty() =~= done);
        }
        out
    }
}

} // verus!
