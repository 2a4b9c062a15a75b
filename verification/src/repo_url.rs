//! Parse a repository URL — in any form a user is likely to clone or
//! paste — into the canonical web base `https://{host}/{owner}/{repo}`
//! that the issue-reference rule builds issue / PR links from.
//!
//! Three input shapes are accepted:
//!
//! * an HTTP(S) URL — `https://host/owner/repo[.git]`
//! * an `ssh://` URL — `ssh://[user@]host[:port]/owner/repo[.git]`
//! * the scp-like shorthand — `[user@]host:owner/repo[.git]`
//!
//! The `git@` userinfo, any `:port` (except a web port), an optional
//! `.git` suffix, and surrounding slashes are all dropped. An HTTP(S)
//! input keeps its own scheme; the SSH forms map to `https`.
use crate::text::{
    lower_seq, chars_of, contains_char, count_end_in, count_end_ws, count_start_in, count_start_ws, eq_ci,
    eq_ignore_case, find_in, find_sub, first_in, first_sub, last_in, lemma_first_in, lemma_last_in,
    push_all, push_str, rfind_in, slice_eq, string_of, trim_end_in, trim_start_in, trim_ws,
};
use vstd::prelude::*;

verus! {

/// How the authority is separated from the path: `/` for the URL
/// forms, `:` for the scp-like shorthand.
#[derive(Clone, Copy)]
pub enum Sep {
    Slash,
    Colon,
}

/// The separator character of `sep`.
pub open spec fn sep_char(sep: Sep) -> char {
    match sep {
        Sep::Slash => '/',
        Sep::Colon => ':',
    }
}

/// A recognised transport prefix stripped from the input.
pub struct Transport<'a> {
    /// Web scheme to emit (`http`/`https`).
    pub scheme: &'static str,
    /// The remaining `authority<sep>path`.
    pub rest: &'a [char],
    /// Separator between authority and path.
    pub sep: Sep,
    /// Whether the authority's `:port` is a web port to keep: true only
    /// for `http(s)://` inputs.
    pub keep_port: bool,
}

/// `input` without `prefix`, matched ASCII-case-insensitively.
pub open spec fn spec_strip_prefix_ci(input: Seq<char>, prefix: Seq<char>) -> Option<Seq<char>> {
    if prefix.len() <= input.len() && eq_ci(input.take(prefix.len() as int), prefix) {
        Some(input.skip(prefix.len() as int))
    } else {
        None
    }
}

/// The scp-like shorthand `[user@]host:path`: no `://`, and a `:` that
/// comes before any `/`.
pub open spec fn spec_is_scp_like(input: Seq<char>) -> bool {
    let colon = first_in(input, seq![':']);
    let slash = first_in(input, seq!['/']);
    &&& first_sub(input, "://"@) == -1
    &&& colon >= 0
    &&& (slash == -1 || colon < slash)
}

/// The transport an input carries: `(scheme, rest, separator, keep_port)`.
pub open spec fn spec_take_transport(input: Seq<char>) -> Option<(Seq<char>, Seq<char>, Sep, bool)> {
    if let Some(rest) = spec_strip_prefix_ci(input, "https://"@) {
        Some(("https"@, rest, Sep::Slash, true))
    } else if let Some(rest) = spec_strip_prefix_ci(input, "http://"@) {
        Some(("http"@, rest, Sep::Slash, true))
    } else if let Some(rest) = spec_strip_prefix_ci(input, "ssh://"@) {
        Some(("https"@, rest, Sep::Slash, false))
    } else if spec_is_scp_like(input) {
        Some(("https"@, input, Sep::Colon, false))
    } else {
        None
    }
}

/// `str::split_once` on one character.
pub open spec fn spec_split_once(input: Seq<char>, c: char) -> Option<(Seq<char>, Seq<char>)> {
    let i = first_in(input, seq![c]);
    if i < 0 {
        None
    } else {
        Some((input.take(i), input.skip(i + 1)))
    }
}

/// The host of an authority `[user@]host[:port]`: everything after the
/// last `@`, with the `:port` dropped unless `keep_port`.
pub open spec fn spec_take_host(authority: Seq<char>, keep_port: bool) -> Seq<char> {
    let at = last_in(authority, seq!['@']);
    let after_user = if at < 0 {
        authority
    } else {
        authority.skip(at + 1)
    };
    let colon = first_in(after_user, seq![':']);
    if keep_port || colon < 0 {
        after_user
    } else {
        after_user.take(colon)
    }
}

/// `s` with one trailing `suffix` removed, when present.
pub open spec fn strip_suffix_once(s: Seq<char>, suffix: Seq<char>) -> Seq<char> {
    if suffix.len() <= s.len() && s.skip(s.len() - suffix.len()) == suffix {
        s.take(s.len() - suffix.len())
    } else {
        s
    }
}

/// The `owner/repo` path: surrounding slashes and one trailing `.git`
/// dropped; at least two segments required.
pub open spec fn spec_take_repo_path(path: Seq<char>) -> Option<Seq<char>> {
    let trimmed = trim_end_in(trim_start_in(path, seq!['/']), seq!['/']);
    let stripped = trim_end_in(strip_suffix_once(trimmed, ".git"@), seq!['/']);
    if stripped.contains('/') {
        Some(stripped)
    } else {
        None
    }
}

/// The input with its `?query` / `#fragment` tail dropped, after
/// trimming surrounding whitespace.
pub open spec fn spec_without_query(input: Seq<char>) -> Seq<char> {
    let t = trim_ws(input);
    let q = first_in(t, seq!['?', '#']);
    if q < 0 {
        t
    } else {
        t.take(q)
    }
}

/// The canonical web base of a repository URL, or `None` when no host
/// and `owner/repo` path can be extracted.
pub open spec fn spec_normalize(input: Seq<char>) -> Option<Seq<char>> {
    match spec_take_transport(spec_without_query(input)) {
        None => None,
        Some((scheme, rest, sep, keep_port)) => match spec_split_once(rest, sep_char(sep)) {
            None => None,
            Some((authority, path)) => {
                let host = spec_take_host(authority, keep_port);
                match spec_take_repo_path(path) {
                    None => None,
                    Some(repo) => if host.len() == 0 || host[0] == ':' {
                        None
                    } else {
                        Some(scheme + "://"@ + host + seq!['/'] + repo)
                    },
                }
            },
        },
    }
}

/// No character of `s` is in `set`.
pub open spec fn none_in(s: Seq<char>, set: Seq<char>) -> bool {
    forall|i: int| 0 <= i < s.len() ==> !set.contains(#[trigger] s[i])
}

/// `trim_start_in` drops a leading run: what stays is a suffix that, if
/// anything is left, starts outside `set`.
proof fn lemma_trim_start_in_shape(s: Seq<char>, set: Seq<char>) -> (k: int)
    ensures
        0 <= k <= s.len(),
        trim_start_in(s, set) == s.skip(k),
        k < s.len() ==> !set.contains(s[k]),
    decreases s.len(),
{
    if s.len() > 0 && set.contains(s[0]) {
        let k1 = lemma_trim_start_in_shape(s.drop_first(), set);
        assert(s.drop_first().skip(k1) =~= s.skip(k1 + 1));
        k1 + 1
    } else {
        assert(s.skip(0) =~= s);
        0
    }
}

/// `trim_end_in` drops a trailing run: what stays is a prefix that, if
/// anything is left, ends outside `set`.
proof fn lemma_trim_end_in_shape(s: Seq<char>, set: Seq<char>) -> (k: int)
    ensures
        0 <= k <= s.len(),
        trim_end_in(s, set) == s.take(k),
        k > 0 ==> !set.contains(s[k - 1]),
    decreases s.len(),
{
    if s.len() > 0 && set.contains(s.last()) {
        let k1 = lemma_trim_end_in_shape(s.drop_last(), set);
        assert(s.drop_last().take(k1) =~= s.take(k1));
        k1
    } else {
        assert(s.take(s.len() as int) =~= s);
        s.len() as int
    }
}

/// A subrange keeps `none_in`.
proof fn lemma_none_in_subrange(s: Seq<char>, set: Seq<char>, a: int, b: int)
    requires
        none_in(s, set),
        0 <= a <= b <= s.len(),
    ensures
        none_in(s.subrange(a, b), set),
{
    assert forall|i: int| 0 <= i < b - a implies !set.contains(#[trigger] s.subrange(a, b)[i]) by {
        assert(s.subrange(a, b)[i] == s[a + i]);
    }
}

/// What is known of the `owner/repo` path taken from `path`.
proof fn lemma_repo_shape(path: Seq<char>)
    requires
        spec_take_repo_path(path) is Some,
        none_in(path, seq!['?', '#']),
    ensures
        ({
            let repo = spec_take_repo_path(path)->0;
            &&& none_in(repo, seq!['?', '#'])
            &&& repo.contains('/')
            &&& repo.len() > 0 && repo[0] != '/' && repo.last() != '/'
        }),
{
    reveal_strlit(".git");
    let ts = trim_start_in(path, seq!['/']);
    let k1 = lemma_trim_start_in_shape(path, seq!['/']);
    let trimmed = trim_end_in(ts, seq!['/']);
    let k2 = lemma_trim_end_in_shape(ts, seq!['/']);
    let sg = strip_suffix_once(trimmed, ".git"@);
    let k3: int = if 4 <= trimmed.len() && trimmed.skip(trimmed.len() - 4) == ".git"@ {
        trimmed.len() - 4
    } else {
        trimmed.len() as int
    };
    assert(sg =~= trimmed.take(k3));
    let repo = trim_end_in(sg, seq!['/']);
    let k4 = lemma_trim_end_in_shape(sg, seq!['/']);
    assert(repo =~= path.subrange(k1, k1 + k4));
    lemma_none_in_subrange(path, seq!['?', '#'], k1, k1 + k4);
    assert(spec_take_repo_path(path)->0 == repo);
    assert(repo.len() > 0);
    assert(ts[0] == path[k1]);
    assert(repo[0] == ts[0]);
    assert(repo.last() == sg[k4 - 1]);
    assert(seq!['/'][0] == '/');
    assert(repo[0] != '/');
    assert(repo.last() != '/');
    assert(none_in(repo, seq!['?', '#']));
}

/// What is known of the scheme, the host and the path an input free of
/// `?` and `#` is cut into.
proof fn lemma_host_shape(w: Seq<char>)
    requires
        none_in(w, seq!['?', '#']),
        spec_take_transport(w) is Some,
        spec_split_once((spec_take_transport(w)->0).1, sep_char((spec_take_transport(w)->0).2)) is Some,
    ensures
        ({
            let (scheme, rest, sep, keep_port) = spec_take_transport(w)->0;
            let (authority, path) = spec_split_once(rest, sep_char(sep))->0;
            let host = spec_take_host(authority, keep_port);
            &&& scheme == "https"@ || scheme == "http"@
            &&& none_in(path, seq!['?', '#'])
            &&& none_in(host, seq!['?', '#']) && none_in(host, seq!['/']) && none_in(host, seq!['@'])
        }),
{
    let (scheme, rest, sep, keep_port) = spec_take_transport(w)->0;
    let c = sep_char(sep);
    let rs: int = w.len() - rest.len();
    assert(0 <= rs <= w.len() && rest =~= w.subrange(rs, w.len() as int)) by {
        if spec_strip_prefix_ci(w, "https://"@) is Some {
        } else if spec_strip_prefix_ci(w, "http://"@) is Some {
        } else if spec_strip_prefix_ci(w, "ssh://"@) is Some {
        } else {
        }
    }
    lemma_none_in_subrange(w, seq!['?', '#'], rs, w.len() as int);
    let i = first_in(rest, seq![c]);
    lemma_first_in(rest, seq![c]);
    let authority = rest.take(i);
    let path = rest.skip(i + 1);
    assert(authority =~= rest.subrange(0, i));
    assert(path =~= rest.subrange(i + 1, rest.len() as int));
    lemma_none_in_subrange(rest, seq!['?', '#'], 0, i);
    lemma_none_in_subrange(rest, seq!['?', '#'], i + 1, rest.len() as int);
    assert(none_in(authority, seq!['/'])) by {
        if sep is Colon {
            lemma_first_in(w, seq!['/']);
        }
        assert forall|j: int| 0 <= j < authority.len() implies !seq!['/'].contains(#[trigger] authority[j]) by {
            assert(authority[j] == rest[j]);
        }
    }
    let at = last_in(authority, seq!['@']);
    lemma_last_in(authority, seq!['@']);
    let ab: int = if at < 0 { 0 } else { at + 1 };
    let after_user = authority.subrange(ab, authority.len() as int);
    assert(after_user =~= if at < 0 { authority } else { authority.skip(at + 1) });
    lemma_none_in_subrange(authority, seq!['?', '#'], ab, authority.len() as int);
    lemma_none_in_subrange(authority, seq!['/'], ab, authority.len() as int);
    assert(none_in(after_user, seq!['@'])) by {
        assert forall|j: int| 0 <= j < after_user.len() implies !seq!['@'].contains(#[trigger] after_user[j]) by {
            assert(after_user[j] == authority[ab + j]);
        }
    }
    let colon = first_in(after_user, seq![':']);
    lemma_first_in(after_user, seq![':']);
    let host = spec_take_host(authority, keep_port);
    let hb: int = if keep_port || colon < 0 { after_user.len() as int } else { colon };
    assert(host =~= after_user.subrange(0, hb));
    lemma_none_in_subrange(after_user, seq!['?', '#'], 0, hb);
    lemma_none_in_subrange(after_user, seq!['/'], 0, hb);
    lemma_none_in_subrange(after_user, seq!['@'], 0, hb);
}

/// The input with its query dropped holds no `?` or `#`.
proof fn lemma_without_query(input: Seq<char>)
    ensures
        none_in(spec_without_query(input), seq!['?', '#']),
{
    let t = trim_ws(input);
    lemma_first_in(t, seq!['?', '#']);
    let w = spec_without_query(input);
    assert forall|i: int| 0 <= i < w.len() implies !seq!['?', '#'].contains(#[trigger] w[i]) by {
        assert(w[i] == t[i]);
    }
}

/// The first `/` of `host + "/" + repo`, for a host without one, is the
/// one after the host.
proof fn lemma_first_slash(host: Seq<char>, repo: Seq<char>)
    requires
        none_in(host, seq!['/']),
    ensures
        first_in(host + seq!['/'] + repo, seq!['/']) == host.len(),
{
    let rest = host + seq!['/'] + repo;
    lemma_first_in(rest, seq!['/']);
    let f = first_in(rest, seq!['/']);
    assert(rest[host.len() as int] == '/');
    assert(seq!['/'].contains(rest[host.len() as int]));
    if f < host.len() {
        assert(rest[f] == host[f]);
    }
}

/// Law: a normalised base normalises to itself — unless it keeps a
/// `.git` ending (an input ending in `.git.git` loses only one) or
/// surrounding whitespace (kept from before a `?query`), which a second
/// pass would drop.
pub proof fn lemma_normalized_base_is_fixed(input: Seq<char>, base: Seq<char>)
    requires
        spec_normalize(input) == Some(base),
        trim_ws(base) == base,
        !(base.len() >= 4 && base.skip(base.len() - 4) == ".git"@),
    ensures
        spec_normalize(base) == Some(base),
{
    reveal_strlit("https://");
    reveal_strlit("http://");
    reveal_strlit("ssh://");
    reveal_strlit("https");
    reveal_strlit("http");
    reveal_strlit("://");
    reveal_strlit(".git");
    let w = spec_without_query(input);
    lemma_without_query(input);
    lemma_host_shape(w);
    let (scheme, rest, sep, keep_port) = spec_take_transport(w)->0;
    let (authority, path) = spec_split_once(rest, sep_char(sep))->0;
    let host = spec_take_host(authority, keep_port);
    let repo = spec_take_repo_path(path)->0;
    lemma_repo_shape(path);
    let tail = host + seq!['/'] + repo;
    assert(base =~= scheme + "://"@ + tail);
    let sl = scheme.len() + 3;
    // No `?` or `#` anywhere in the base.
    assert(none_in(base, seq!['?', '#'])) by {
        assert forall|i: int| 0 <= i < base.len() implies !seq!['?', '#'].contains(#[trigger] base[i]) by {
            if i >= sl + host.len() + 1 {
                assert(base[i] == repo[i - sl - host.len() - 1]);
            } else if i >= sl && i < sl + host.len() {
                assert(base[i] == host[i - sl]);
            }
        }
    }
    lemma_first_in(base, seq!['?', '#']);
    assert(spec_without_query(base) == base);
    // The transport is the base's own scheme.
    assert(spec_take_transport(base) == Some((scheme, tail, Sep::Slash, true))) by {
        if scheme == "https"@ {
            assert(base.take(8) =~= "https://"@);
            assert(base.skip(8) =~= tail);
        } else {
            assert(lower_seq(base.take(8))[4] == ':');
            assert(lower_seq("https://"@)[4] == 's');
            assert(base.take(7) =~= "http://"@);
            assert(base.skip(7) =~= tail);
        }
    }
    lemma_first_slash(host, repo);
    assert(tail.take(host.len() as int) =~= host);
    assert(tail.skip(host.len() as int + 1) =~= repo);
    lemma_last_in(host, seq!['@']);
    if last_in(host, seq!['@']) >= 0 {
        assert(!seq!['@'].contains(host[last_in(host, seq!['@'])]));
    }
    assert(spec_take_host(host, true) == host);
    // The repository path is already bare.
    assert(trim_start_in(repo, seq!['/']) == repo);
    assert(trim_end_in(repo, seq!['/']) == repo);
    assert(strip_suffix_once(repo, ".git"@) == repo) by {
        if 4 <= repo.len() && repo.skip(repo.len() - 4) == ".git"@ {
            assert(base.skip(base.len() - 4) =~= repo.skip(repo.len() - 4));
        }
    }
    assert(spec_take_repo_path(repo) == Some(repo));
}

/// Parse `input` into the canonical web base `https://host/owner/repo`
/// (the scheme is preserved for an HTTP(S) input). Returns `None` when
/// no host and `owner/repo` path can be extracted.
pub fn normalize(input: &str) -> (r: Option<String>)
    ensures
        match r {
            Some(s) => spec_normalize(input@) == Some(s@),
            None => spec_normalize(input@) is None,
        },
{
    let all = chars_of(input);
    let start = count_start_ws(all.as_slice());
    let trimmed_start = &all[start..all.len()];
    let end = count_end_ws(trimmed_start);
    let trimmed = &trimmed_start[0..end];
    let query_chars = vec!['?', '#'];
    let head = match find_in(trimmed, query_chars.as_slice()) {
        Some(q) => &trimmed[0..q],
        None => trimmed,
    };
    proof {
        assert(trimmed@ == trim_ws(input@));
        assert(query_chars@ =~= seq!['?', '#']);
        assert(head@ == spec_without_query(input@));
    }
    let transport = take_transport(head)?;
    let (authority, path) = split_once_char(transport.rest, transport.sep)?;
    let host = take_host(authority, transport.keep_port);
    let path = take_repo_path(path)?;
    if host.len() == 0 || host[0] == ':' {
        return None;
    }
    let mut out: Vec<char> = Vec::new();
    push_str(&mut out, transport.scheme);
    push_str(&mut out, "://");
    push_all(&mut out, host);
    out.push('/');
    push_all(&mut out, path);
    proof {
        assert(out@ =~= transport.scheme@ + "://"@ + host@ + seq!['/'] + path@);
    }
    Some(string_of(out.as_slice()))
}

/// Strip a recognised transport prefix. The scheme is matched
/// case-insensitively (RFC 3986 §3.1). The scp-like form has no prefix
/// to strip, so the whole string is handed back for the colon split.
pub fn take_transport(input: &[char]) -> (r: Option<Transport<'_>>)
    ensures
        match r {
            Some(t) => spec_take_transport(input@) == Some((t.scheme@, t.rest@, t.sep, t.keep_port)),
            None => spec_take_transport(input@) is None,
        },
{
    let https = chars_of("https://");
    let http = chars_of("http://");
    let ssh = chars_of("ssh://");
    if let Some(rest) = strip_prefix_ci(input, https.as_slice()) {
        Some(Transport { scheme: "https", rest, sep: Sep::Slash, keep_port: true })
    } else if let Some(rest) = strip_prefix_ci(input, http.as_slice()) {
        Some(Transport { scheme: "http", rest, sep: Sep::Slash, keep_port: true })
    } else if let Some(rest) = strip_prefix_ci(input, ssh.as_slice()) {
        Some(Transport { scheme: "https", rest, sep: Sep::Slash, keep_port: false })
    } else if is_scp_like(input) {
        Some(Transport { scheme: "https", rest: input, sep: Sep::Colon, keep_port: false })
    } else {
        None
    }
}

/// `str::strip_prefix`, but matching `prefix` case-insensitively.
pub fn strip_prefix_ci<'a>(input: &'a [char], prefix: &[char]) -> (r: Option<&'a [char]>)
    ensures
        match r {
            Some(rest) => spec_strip_prefix_ci(input@, prefix@) == Some(rest@),
            None => spec_strip_prefix_ci(input@, prefix@) is None,
        },
{
    if prefix.len() > input.len() {
        return None;
    }
    let head = &input[0..prefix.len()];
    assert(head@ == input@.take(prefix@.len() as int));
    if eq_ignore_case(head, prefix) {
        let rest = &input[prefix.len()..input.len()];
        assert(rest@ =~= input@.skip(prefix@.len() as int));
        Some(rest)
    } else {
        None
    }
}

/// Whether `input` is the scp-like shorthand `[user@]host:path`: it
/// carries no `://` scheme and its first `:` comes before any `/`
/// (git's own rule for recognising this form).
pub fn is_scp_like(input: &[char]) -> (r: bool)
    ensures
        r == spec_is_scp_like(input@),
{
    let scheme_sep = chars_of("://");
    if find_sub(input, scheme_sep.as_slice()).is_some() {
        return false;
    }
    let colon_set = vec![':'];
    let slash_set = vec!['/'];
    proof {
        assert(colon_set@ =~= seq![':']);
        assert(slash_set@ =~= seq!['/']);
    }
    match (find_in(input, colon_set.as_slice()), find_in(input, slash_set.as_slice())) {
        (Some(colon), Some(slash)) => colon < slash,
        (Some(_), None) => true,
        _ => false,
    }
}

/// Split `input` once on the separator character, returning the part
/// before and after it. `None` when the separator is absent (a URL
/// with no path).
pub fn split_once_char(input: &[char], sep: Sep) -> (r: Option<(&[char], &[char])>)
    ensures
        match r {
            Some((a, b)) => spec_split_once(input@, sep_char(sep)) == Some((a@, b@)),
            None => spec_split_once(input@, sep_char(sep)) is None,
        },
{
    let delim = match sep {
        Sep::Slash => '/',
        Sep::Colon => ':',
    };
    let set = vec![delim];
    assert(set@ =~= seq![sep_char(sep)]);
    let n = input.len();
    match find_in(input, set.as_slice()) {
        Some(i) => {
            proof {
                lemma_first_in(input@, set@);
            }
            let before = &input[0..i];
            let after = &input[i + 1..n];
            assert(before@ =~= input@.take(i as int));
            assert(after@ =~= input@.skip(i + 1));
            Some((before, after))
        },
        None => None,
    }
}

/// Take the host (with its port when `keep_port`) out of an authority
/// component `[user@]host[:port]`, always dropping the userinfo before
/// any `@`.
pub fn take_host(authority: &[char], keep_port: bool) -> (r: &[char])
    ensures
        r@ == spec_take_host(authority@, keep_port),
{
    let at_set = vec!['@'];
    assert(at_set@ =~= seq!['@']);
    let n = authority.len();
    let after_user = match rfind_in(authority, at_set.as_slice()) {
        Some(at) => {
            proof {
                lemma_last_in(authority@, at_set@);
            }
            let s = &authority[at + 1..n];
            assert(s@ =~= authority@.skip(at + 1));
            s
        },
        None => authority,
    };
    if keep_port {
        return after_user;
    }
    let colon_set = vec![':'];
    assert(colon_set@ =~= seq![':']);
    match find_in(after_user, colon_set.as_slice()) {
        Some(colon) => {
            proof {
                lemma_first_in(after_user@, colon_set@);
            }
            let s = &after_user[0..colon];
            assert(s@ =~= after_user@.take(colon as int));
            s
        },
        None => after_user,
    }
}

/// Take the `owner/repo` path: drop the surrounding slashes and a
/// single trailing `.git`. Requires at least two segments, so a lone
/// `owner` with no repository yields `None`.
pub fn take_repo_path(path: &[char]) -> (r: Option<&[char]>)
    ensures
        match r {
            Some(p) => spec_take_repo_path(path@) == Some(p@),
            None => spec_take_repo_path(path@) is None,
        },
{
    let slash = vec!['/'];
    assert(slash@ =~= seq!['/']);
    let s = count_start_in(path, slash.as_slice());
    let p1 = &path[s..path.len()];
    let e = count_end_in(p1, slash.as_slice());
    let p2 = &p1[0..e];
    assert(p2@ == trim_end_in(trim_start_in(path@, seq!['/']), seq!['/']));
    let dot_git = chars_of(".git");
    let p3 = if dot_git.len() <= p2.len() && slice_eq(&p2[p2.len() - dot_git.len()..p2.len()], dot_git.as_slice()) {
        &p2[0..p2.len() - dot_git.len()]
    } else {
        p2
    };
    proof {
        if dot_git@.len() <= p2@.len() {
            assert(p2@.subrange(p2@.len() - dot_git@.len(), p2@.len() as int) =~= p2@.skip(p2@.len() - dot_git@.len()));
            assert(p2@.subrange(0, p2@.len() - dot_git@.len()) =~= p2@.take(p2@.len() - dot_git@.len()));
        }
        assert(p3@ == strip_suffix_once(p2@, ".git"@));
    }
    let e2 = count_end_in(p3, slash.as_slice());
    let p4 = &p3[0..e2];
    assert(p4@ =~= p3@.take(e2 as int));
    if contains_char(p4, '/') {
        Some(p4)
    } else {
        None
    }
}

} // verus!
