//! The `bare_url` rule's configuration and decisions: which URLs are
//! exempt by host, and what a bare URL is answered with — a rewrite into
//! the `<...>` autolink form.
use vstd::prelude::*;
use crate::common::{resolve_string_set, unignored};
use crate::diagnostic::{Applicability, Diagnostic, DiagnosticModel, Part, PartModel, Suggestion, SuggestionModel};
use crate::ordering::{canon, views};
use crate::text::{chars_of, eq_ci, eq_ignore_case, find_in, find_sub, first_in, first_sub, lemma_first_sub, push_str, string_of};

verus! {

pub struct Config {
    /// Scan `///` and `//!` doc comments; on by default.
    pub scan_doc_comments: bool,
    /// Scan plain `//` and `/* */` comments; on by default.
    pub scan_regular_comments: bool,
    /// Characters that may end a URL without making the autolink's
    /// extent ambiguous.
    pub safe_trailing_chars: Vec<char>,
    /// Hosts whose URLs are never reported.
    pub skip_hosts: Vec<String>,
}

pub open spec fn default_safe_trailing() -> Seq<char> {
    seq!['/', '_', '-', '=', '&', '+']
}

impl Default for Config {
    fn default() -> (c: Self)
        ensures
            c.scan_doc_comments,
            c.scan_regular_comments,
            c.safe_trailing_chars@ == default_safe_trailing(),
            views(c.skip_hosts@) == seq!["localhost"@],
    {
        let safe = vec!['/', '_', '-', '=', '&', '+'];
        assert(safe@ =~= default_safe_trailing());
        let hosts = vec!["localhost".to_owned()];
        assert(views(hosts@) =~= seq!["localhost"@]);
        Config { scan_doc_comments: true, scan_regular_comments: true, safe_trailing_chars: safe, skip_hosts: hosts }
    }
}

pub struct BareUrl {
    scan_doc_comments: bool,
    scan_regular_comments: bool,
    safe_trailing_chars: Vec<char>,
    skip_hosts: Vec<String>,
}

/// The host part of a URL: after the first `://` (or from the start when
/// there is none) up to the first `/`, `?`, `#` or `:`.
pub open spec fn url_host(url: Seq<char>) -> Seq<char> {
    let at = first_sub(url, "://"@);
    let rest = if at < 0 { url } else { url.skip(at + 3) };
    let end = first_in(rest, seq!['/', '?', '#', ':']);
    if end < 0 { rest } else { rest.take(end) }
}

pub open spec fn report_spec(url: Seq<char>, safe_end: bool) -> DiagnosticModel {
    DiagnosticModel {
        message: "bare URL `"@ + url + "`; wrap in `<...>` or use a labelled markdown link"@,
        parts: seq![PartModel::Suggest(SuggestionModel {
            message: "wrap in `<...>` for portable autolink syntax"@,
            replacement: seq!['<'] + url + seq!['>'],
            appended: None,
            applicability: if safe_end { Applicability::MachineApplicable } else { Applicability::MaybeIncorrect },
        })],
    }
}

impl BareUrl {
    pub closed spec fn hosts(&self) -> Seq<Seq<char>> {
        views(self.skip_hosts@)
    }

    pub closed spec fn scans(&self) -> (bool, bool) {
        (self.scan_doc_comments, self.scan_regular_comments)
    }

    pub closed spec fn safe_chars(&self) -> Seq<char> {
        self.safe_trailing_chars@
    }

    /// The rule for `config`; the skip hosts are held as a set.
    pub fn new(config: Config) -> (r: Self)
        ensures
            r.scans() == (config.scan_doc_comments, config.scan_regular_comments),
            r.safe_chars() == config.safe_trailing_chars@,
            r.hosts() == canon(views(config.skip_hosts@), false),
    {
        let none: Vec<String> = Vec::new();
        let hosts = resolve_string_set(&config.skip_hosts, &none, &none);
        proof {
            lemma_unignored_none(views(config.skip_hosts@) + views(none@), views(none@));
            assert(views(config.skip_hosts@) + views(none@) =~= views(config.skip_hosts@));
        }
        BareUrl {
            scan_doc_comments: config.scan_doc_comments,
            scan_regular_comments: config.scan_regular_comments,
            safe_trailing_chars: config.safe_trailing_chars,
            skip_hosts: hosts,
        }
    }

    /// Whether the URL's host is one of the skip hosts, compared
    /// ASCII-case-insensitively as RFC 3986 has hosts compared.
    pub fn host_is_skipped(&self, url: &str) -> (r: bool)
        ensures
            r == exists|k: int| 0 <= k < self.hosts().len() && eq_ci(#[trigger] self.hosts()[k], url_host(url@)),
    {
        let u = chars_of(url);
        let n = u.len();
        proof {
            reveal_strlit("://");
        }
        let sep = chars_of("://");
        let rest: &[char] = match find_sub(u.as_slice(), sep.as_slice()) {
            Some(at) => {
                proof {
                    lemma_first_sub(u@, "://"@);
                    assert("://"@.len() == 3);
                    assert(sep@ == "://"@);
                    assert(at + 3 <= u@.len());
                }
                let r = &u.as_slice()[at + 3..n];
                assert(r@ =~= u@.skip(at + 3));
                r
            },
            None => u.as_slice(),
        };
        let stops = vec!['/', '?', '#', ':'];
        assert(stops@ =~= seq!['/', '?', '#', ':']);
        let host: &[char] = match find_in(rest, stops.as_slice()) {
            Some(end) => {
                let h = &rest[0..end];
                assert(h@ =~= rest@.take(end as int));
                h
            },
            None => rest,
        };
        assert(host@ == url_host(url@));
        let mut k: usize = 0;
        while k < self.skip_hosts.len()
            invariant
                k <= self.skip_hosts@.len(),
                host@ == url_host(url@),
                forall|j: int| 0 <= j < k ==> !eq_ci(#[trigger] self.hosts()[j], url_host(url@)),
            decreases self.skip_hosts@.len() - k,
        {
            let s = chars_of(self.skip_hosts[k].as_str());
            assert(self.hosts()[k as int] == s@);
            if eq_ignore_case(s.as_slice(), host) {
                return true;
            }
            k = k + 1;
        }
        false
    }

    /// The report for a bare URL: wrap it in `<...>`. When the URL ends
    /// in a character that leaves its extent ambiguous (`safe_end`
    /// false), the rewrite is `MaybeIncorrect`.
    pub fn report(&self, url: &str, safe_end: bool) -> (d: Diagnostic)
        ensures
            d@ == report_spec(url@, safe_end),
    {
        let mut message: Vec<char> = Vec::new();
        push_str(&mut message, "bare URL `");
        push_str(&mut message, url);
        push_str(&mut message, "`; wrap in `<...>` or use a labelled markdown link");
        let mut replacement: Vec<char> = Vec::new();
        replacement.push('<');
        push_str(&mut replacement, url);
        replacement.push('>');
        let d = Diagnostic {
            message: string_of(message.as_slice()),
            parts: vec![Part::Suggest(Suggestion {
                message: "wrap in `<...>` for portable autolink syntax".to_owned(),
                replacement: string_of(replacement.as_slice()),
                appended: None,
                applicability: if safe_end { Applicability::MachineApplicable } else { Applicability::MaybeIncorrect },
            })],
        };
        assert(d@.message =~= report_spec(url@, safe_end).message);
        assert(replacement@ =~= seq!['<'] + url@ + seq!['>']);
        assert(d@.parts =~= report_spec(url@, safe_end).parts);
        d
    }
}

proof fn lemma_unignored_none(s: Seq<Seq<char>>, none: Seq<Seq<char>>)
    requires
        none.len() == 0,
    ensures
        unignored(s, none) == s,
    decreases s.len(),
{
    if s.len() > 0 {
        lemma_unignored_none(s.drop_last(), none);
        assert(!none.contains(s.last()));
        assert(s.drop_last().push(s.last()) =~= s);
    }
}

} // verus!
