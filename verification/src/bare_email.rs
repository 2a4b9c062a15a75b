//! The `bare_email` rule: finding `local@domain.tld` addresses in
//! comment text and the wrapped forms the autofix offers for them.
use crate::diagnostic::{Applicability, Diagnostic, DiagnosticModel, Part, PartModel, Suggestion, SuggestionModel};
use crate::text::{eq_ci, eq_ignore_case, push_all, push_str, string_of};
use vstd::prelude::*;
use vstd::string::StringSliceAdditionalSpecFns;

verus! {

/// Required form for compliant email addresses.
#[derive(Debug, Clone, Copy, PartialEq, Eq, Structural)]
pub enum Style {
    /// Wrap the address with `<` and `>`.
    AngleBrackets,
    /// Prefix the address with `mailto:`.
    Mailto,
    /// Combine both — `<mailto:user@example.com>`.
    Both,
    /// Accept any of the three wrapped forms; two suggestions.
    Either,
    /// Forbid email addresses outright — no autofix, a help note.
    Forbid,
}

// ---------------------------------------------------------------------
// The address grammar, on bytes
// ---------------------------------------------------------------------

pub open spec fn byte_alpha(b: u8) -> bool {
    (0x61 <= b && b <= 0x7a) || (0x41 <= b && b <= 0x5a)
}

pub open spec fn byte_alnum(b: u8) -> bool {
    byte_alpha(b) || (0x30 <= b && b <= 0x39)
}

/// A byte that may appear in a local part: an ASCII letter or digit,
/// or one of `.`, `_`, `%`, `+`, `-`.
pub open spec fn is_local_byte(b: u8) -> bool {
    byte_alnum(b) || b == 0x2e || b == 0x5f || b == 0x25 || b == 0x2b || b == 0x2d
}

/// Length of the longest prefix of `s` made of local-part bytes.
pub open spec fn local_len(s: Seq<u8>) -> nat
    decreases s.len(),
{
    if s.len() > 0 && is_local_byte(s[0]) {
        1 + local_len(s.drop_first())
    } else {
        0
    }
}

/// Whether the byte at `i` continues a domain: a letter, digit or `-`,
/// or a `.` directly followed by a letter or digit.
pub open spec fn continues_domain(s: Seq<u8>, i: int) -> bool {
    ||| byte_alnum(s[i])
    ||| s[i] == 0x2d
    ||| (s[i] == 0x2e && i + 1 < s.len() && byte_alnum(s[i + 1]))
}

/// The first index at or after `i` where the domain stops.
pub open spec fn domain_end_from(s: Seq<u8>, i: int) -> int
    decreases s.len() - i,
{
    if i < 0 || i >= s.len() {
        i
    } else if continues_domain(s, i) {
        domain_end_from(s, i + 1)
    } else {
        i
    }
}

/// The last `.` strictly before `end`, or `-1`.
pub open spec fn last_dot_before(s: Seq<u8>, end: int) -> int
    decreases end,
{
    if end <= 0 {
        -1
    } else if s[end - 1] == 0x2e {
        end - 1
    } else {
        last_dot_before(s, end - 1)
    }
}

/// The length of the domain at the start of `s`: labels of letters,
/// digits and `-` separated by `.`, ending in a top-level domain of two
/// or more ASCII letters that ends at a word boundary.
pub open spec fn spec_take_domain(s: Seq<u8>) -> Option<nat> {
    let end = domain_end_from(s, 0);
    let dot = last_dot_before(s, end);
    if s.len() == 0 || dot < 0 || dot + 1 >= end || end - (dot + 1) < 2 {
        None
    } else if !(forall|k: int| dot + 1 <= k < end ==> byte_alpha(#[trigger] s[k])) {
        None
    } else if end < s.len() && (byte_alnum(s[end]) || s[end] == 0x5f) {
        None
    } else {
        Some(end as nat)
    }
}

/// `(local part length, total length)` of the address at the start of
/// `s`.
pub open spec fn spec_take_email(s: Seq<u8>) -> Option<(nat, nat)> {
    let local = local_len(s);
    if local == 0 || local >= s.len() || s[local as int] != 0x40 {
        None
    } else {
        match spec_take_domain(s.skip(local + 1 as int)) {
            None => None,
            Some(domain) => if domain == 0 {
                None
            } else {
                Some((local, local + 1 + domain))
            },
        }
    }
}

pub fn is_ascii_alpha_byte(b: u8) -> (r: bool)
    ensures
        r == byte_alpha(b),
{
    (0x61 <= b && b <= 0x7a) || (0x41 <= b && b <= 0x5a)
}

pub fn is_ascii_alnum_byte(b: u8) -> (r: bool)
    ensures
        r == byte_alnum(b),
{
    is_ascii_alpha_byte(b) || (0x30 <= b && b <= 0x39)
}

fn local_byte(b: u8) -> (r: bool)
    ensures
        r == is_local_byte(b),
{
    is_ascii_alnum_byte(b) || b == 0x2e || b == 0x5f || b == 0x25 || b == 0x2b || b == 0x2d
}

proof fn lemma_local_len(s: Seq<u8>, i: int)
    requires
        0 <= i <= s.len(),
        forall|j: int| 0 <= j < i ==> is_local_byte(#[trigger] s[j]),
        i == s.len() || !is_local_byte(s[i]),
    ensures
        local_len(s) == i,
    decreases i,
{
    if i > 0 {
        let t = s.drop_first();
        assert forall|j: int| 0 <= j < i - 1 implies is_local_byte(#[trigger] t[j]) by {
            assert(t[j] == s[j + 1]);
        }
        if i < s.len() {
            assert(t[i - 1] == s[i]);
        }
        lemma_local_len(t, i - 1);
    }
}

/// Consume the local part: one or more ASCII letters, ASCII digits, or
/// any of `.`, `_`, `%`, `+`, `-`. Returns its byte length.
pub fn take_local_part(input: &str) -> (r: usize)
    ensures
        r == local_len(input.spec_bytes()),
{
    let bytes = input.as_bytes();
    assert(bytes@.skip(0) =~= bytes@);
    local_part_len(bytes, 0)
}

/// Length of the local part starting at `start`.
fn local_part_len(bytes: &[u8], start: usize) -> (r: usize)
    requires
        start <= bytes@.len(),
    ensures
        r == local_len(bytes@.skip(start as int)),
        start + r <= bytes@.len(),
{
    let ghost s = bytes@.skip(start as int);
    let n = bytes.len();
    let mut index: usize = start;
    while index < n && local_byte(bytes[index])
        invariant
            n == bytes@.len(),
            start <= index <= n,
            s == bytes@.skip(start as int),
            forall|j: int| 0 <= j < index - start ==> is_local_byte(#[trigger] s[j]),
        decreases n - index,
    {
        assert(s[index - start] == bytes@[index as int]);
        index = index + 1;
    }
    proof {
        if index < n {
            assert(s[index - start] == bytes@[index as int]);
        }
        lemma_local_len(s, index - start);
    }
    index - start
}

proof fn lemma_domain_end(s: Seq<u8>, i: int, e: int)
    requires
        0 <= i <= e <= s.len(),
        forall|j: int| i <= j < e ==> continues_domain(s, j),
        e == s.len() || !continues_domain(s, e),
    ensures
        domain_end_from(s, i) == e,
    decreases e - i,
{
    if i < e {
        lemma_domain_end(s, i + 1, e);
    }
}

proof fn lemma_last_dot(s: Seq<u8>, end: int, d: int)
    requires
        0 <= end <= s.len(),
        -1 <= d < end,
        d >= 0 ==> s[d] == 0x2e,
        forall|j: int| d < j < end ==> s[j] != 0x2e,
    ensures
        last_dot_before(s, end) == d,
    decreases end,
{
    if end > 0 && s[end - 1] != 0x2e {
        lemma_last_dot(s, end - 1, d);
    }
}

/// Whether the byte at `i` continues a domain.
fn continues_at(bytes: &[u8], i: usize) -> (r: bool)
    requires
        i < bytes@.len(),
    ensures
        r == continues_domain(bytes@, i as int),
{
    let b = bytes[i];
    is_ascii_alnum_byte(b) || b == 0x2d || (b == 0x2e && i + 1 < bytes.len() && is_ascii_alnum_byte(
        bytes[i + 1],
    ))
}

/// `continues_domain` read on a suffix of `s` agrees with `s` itself.
proof fn lemma_shift(s: Seq<u8>, start: int, j: int)
    requires
        0 <= start,
        0 <= j,
        start + j < s.len(),
    ensures
        continues_domain(s.skip(start), j) == continues_domain(s, start + j),
        s.skip(start)[j] == s[start + j],
{
    let t = s.skip(start);
    assert(t[j] == s[start + j]);
    if j + 1 < t.len() {
        assert(t[j + 1] == s[start + j + 1]);
    }
}

/// Consume the domain of `bytes[start..]`: labels of ASCII letters /
/// digits / `-`, separated by `.`, ending in a TLD of two or more ASCII
/// letters. The TLD must end at a word boundary. A `.` is only consumed
/// when followed by an alphanumeric byte, so a sentence period after
/// the address is left alone.
fn domain_len(bytes: &[u8], start: usize) -> (r: Option<usize>)
    requires
        start <= bytes@.len(),
    ensures
        match r {
            Some(n) => spec_take_domain(bytes@.skip(start as int)) == Some(n as nat) && start + n
                <= bytes@.len(),
            None => spec_take_domain(bytes@.skip(start as int)) is None,
        },
{
    let ghost s = bytes@.skip(start as int);
    let n = bytes.len();
    if start == n {
        return None;
    }
    let mut index: usize = start;
    let mut last_dot: Option<usize> = None;
    while index < n && continues_at(bytes, index)
        invariant
            n == bytes@.len(),
            start < n,
            start <= index <= n,
            s == bytes@.skip(start as int),
            forall|j: int| 0 <= j < index - start ==> continues_domain(s, j),
            match last_dot {
                Some(d) => start <= d < index && s[d - start] == 0x2e && forall|j: int|
                    d - start < j < index - start ==> s[j] != 0x2e,
                None => forall|j: int| 0 <= j < index - start ==> s[j] != 0x2e,
            },
        decreases n - index,
    {
        proof {
            lemma_shift(bytes@, start as int, index - start);
        }
        if bytes[index] == 0x2e {
            last_dot = Some(index);
        }
        index = index + 1;
    }
    proof {
        if index < n {
            lemma_shift(bytes@, start as int, index - start);
        }
        lemma_domain_end(s, 0, index - start);
        let d: int = match last_dot {
            Some(d) => d - start,
            None => -1,
        };
        lemma_last_dot(s, index - start, d);
    }
    let dot = match last_dot {
        Some(d) => d,
        None => return None,
    };
    if dot + 1 >= index {
        return None;
    }
    if index - (dot + 1) < 2 {
        return None;
    }
    let mut k: usize = dot + 1;
    while k < index
        invariant
            n == bytes@.len(),
            s == bytes@.skip(start as int),
            s.len() > 0,
            domain_end_from(s, 0) == index - start,
            last_dot_before(s, index - start) == dot - start,
            start <= dot < k <= index <= n,
            forall|j: int| dot + 1 - start <= j < k - start ==> byte_alpha(#[trigger] s[j]),
        decreases index - k,
    {
        if !is_ascii_alpha_byte(bytes[k]) {
            assert(s[k - start] == bytes@[k as int]);
            return None;
        }
        assert(s[k - start] == bytes@[k as int]);
        k = k + 1;
    }
    if index < n {
        let next = bytes[index];
        assert(s[index - start] == next);
        if is_ascii_alnum_byte(next) || next == 0x5f {
            return None;
        }
    }
    Some(index - start)
}

/// Consume the domain at the start of `input`; see [`spec_take_domain`].
pub fn take_domain(input: &str) -> (r: Option<usize>)
    ensures
        match r {
            Some(n) => spec_take_domain(input.spec_bytes()) == Some(n as nat),
            None => spec_take_domain(input.spec_bytes()) is None,
        },
{
    let bytes = input.as_bytes();
    assert(bytes@.skip(0) =~= bytes@);
    domain_len(bytes, 0)
}

/// The address at `bytes[start..]`, as `(local part length, total
/// length)`.
fn email_at(bytes: &[u8], start: usize) -> (r: Option<(usize, usize)>)
    requires
        start <= bytes@.len(),
    ensures
        match r {
            Some((l, t)) => spec_take_email(bytes@.skip(start as int)) == Some((l as nat, t as nat))
                && start + t <= bytes@.len(),
            None => spec_take_email(bytes@.skip(start as int)) is None,
        },
{
    let ghost s = bytes@.skip(start as int);
    let local = local_part_len(bytes, start);
    if local == 0 {
        return None;
    }
    if local >= bytes.len() - start || bytes[start + local] != 0x40 {
        return None;
    }
    assert(s[local as int] == bytes@[start + local]);
    let domain_start = start + local + 1;
    assert(bytes@.skip(domain_start as int) =~= s.skip(local + 1));
    let domain = match domain_len(bytes, domain_start) {
        Some(d) => d,
        None => return None,
    };
    if domain == 0 {
        return None;
    }
    Some((local, local + 1 + domain))
}

/// Take an email address from the start of `input`. Returns
/// `(local_part_byte_len, total_byte_len)` on success, or `None` if the
/// start of `input` doesn't match the `local@domain.<2+ ASCII letters>`
/// shape.
pub fn take_email(input: &str) -> (r: Option<(usize, usize)>)
    ensures
        match r {
            Some((l, t)) => spec_take_email(input.spec_bytes()) == Some((l as nat, t as nat)),
            None => spec_take_email(input.spec_bytes()) is None,
        },
{
    let bytes = input.as_bytes();
    assert(bytes@.skip(0) =~= bytes@);
    email_at(bytes, 0)
}


// ---------------------------------------------------------------------
// The rule
// ---------------------------------------------------------------------

/// The rule's configuration, as read from `dylint.toml`.
pub struct Config {
    pub style: Style,
    pub scan_doc_comments: bool,
    pub scan_regular_comments: bool,
    /// Skip these exact addresses.
    pub skip_addresses: Vec<String>,
    /// Skip addresses whose domain equals any of these (ASCII
    /// case-insensitively).
    pub skip_domains: Vec<String>,
}

impl Default for Config {
    fn default() -> (r: Self)
        ensures
            r.style == Style::Either,
            r.scan_doc_comments,
            r.scan_regular_comments,
            r.skip_addresses@.len() == 0,
            r.skip_domains@.len() == 0,
    {
        Config {
            style: Style::Either,
            scan_doc_comments: true,
            scan_regular_comments: true,
            skip_addresses: Vec::new(),
            skip_domains: Vec::new(),
        }
    }
}

pub struct BareEmail {
    pub style: Style,
    pub scan_doc_comments: bool,
    pub scan_regular_comments: bool,
    pub skip_addresses: Vec<String>,
    pub skip_domains: Vec<String>,
}

/// Bytes read as the (ASCII) characters they encode.
pub open spec fn ascii_chars(s: Seq<u8>) -> Seq<char> {
    s.map_values(|b: u8| b as char)
}

/// Whether `pos` lies inside one of the half-open `skips` ranges.
pub open spec fn in_skip(skips: Seq<(usize, usize)>, pos: int) -> bool {
    exists|k: int| 0 <= k < skips.len() && skips[k].0 <= pos < #[trigger] skips[k].1
}

/// A byte before a candidate that disqualifies it: a word character,
/// `<` (autolink), `:` (`mailto:`), `/` (URL user-info), `.` or a
/// backtick (code).
pub open spec fn is_guard_byte(b: u8) -> bool {
    byte_alnum(b) || b == 0x5f || b == 0x2e || b == 0x3c || b == 0x3a || b == 0x2f || b == 0x60
}

impl BareEmail {
    pub fn new(config: Config) -> (r: Self)
        ensures
            r.style == config.style,
            r.scan_doc_comments == config.scan_doc_comments,
            r.scan_regular_comments == config.scan_regular_comments,
            r.skip_addresses@ == config.skip_addresses@,
            r.skip_domains@ == config.skip_domains@,
    {
        BareEmail {
            style: config.style,
            scan_doc_comments: config.scan_doc_comments,
            scan_regular_comments: config.scan_regular_comments,
            skip_addresses: config.skip_addresses,
            skip_domains: config.skip_domains,
        }
    }

    /// Whether comments of this kind are scanned at all.
    pub fn scans(&self, is_doc: bool) -> (r: bool)
        ensures
            r == if is_doc {
                self.scan_doc_comments
            } else {
                self.scan_regular_comments
            },
    {
        if is_doc {
            self.scan_doc_comments
        } else {
            self.scan_regular_comments
        }
    }

    /// Whether the address is exempted by `skip_addresses` or, by its
    /// domain, by `skip_domains`.
    pub open spec fn spec_skipped(&self, address: Seq<char>, domain: Seq<char>) -> bool {
        ||| exists|k: int| 0 <= k < self.skip_addresses@.len() && #[trigger] self.skip_addresses@[k]@ == address
        ||| exists|k: int| 0 <= k < self.skip_domains@.len() && eq_ci(#[trigger] self.skip_domains@[k]@, domain)
    }

    /// The addresses reported from position `index` on, as
    /// `(byte position, address)`: a candidate must start with a
    /// local-part byte, parse as an address, not be preceded by a guard
    /// byte (then the scan resumes after its local part), and lie outside
    /// the skip regions and the configured exemptions (then the scan
    /// resumes after it).
    pub open spec fn spec_scan(&self, s: Seq<u8>, skips: Seq<(usize, usize)>, index: int) -> Seq<(usize, Seq<char>)>
        decreases s.len() - index,
    {
        if index < 0 || index >= s.len() {
            Seq::empty()
        } else if !is_local_byte(s[index]) {
            self.spec_scan(s, skips, index + 1)
        } else {
            match spec_take_email(s.skip(index)) {
                None => self.spec_scan(s, skips, index + 1),
                Some((l, t)) => {
                    let address = ascii_chars(s.subrange(index, index + t));
                    let domain = ascii_chars(s.subrange(index + l + 1, index + t));
                    if t == 0 || index + t > s.len() || l > t {
                        self.spec_scan(s, skips, index + 1)
                    } else if index > 0 && is_guard_byte(s[index - 1]) {
                        self.spec_scan(s, skips, index + if l > 1 { l as int } else { 1 })
                    } else if in_skip(skips, index) || self.spec_skipped(address, domain) {
                        self.spec_scan(s, skips, index + t)
                    } else {
                        seq![(index as usize, address)] + self.spec_scan(s, skips, index + t)
                    }
                },
            }
        }
    }

    fn skipped(&self, address: &[char], domain: &[char]) -> (r: bool)
        ensures
            r == self.spec_skipped(address@, domain@),
    {
        let mut i: usize = 0;
        while i < self.skip_addresses.len()
            invariant
                i <= self.skip_addresses@.len(),
                forall|k: int| 0 <= k < i ==> #[trigger] self.skip_addresses@[k]@ != address@,
            decreases self.skip_addresses@.len() - i,
        {
            let candidate = crate::text::chars_of(self.skip_addresses[i].as_str());
            if crate::text::slice_eq(candidate.as_slice(), address) {
                return true;
            }
            i = i + 1;
        }
        let mut j: usize = 0;
        while j < self.skip_domains.len()
            invariant
                j <= self.skip_domains@.len(),
                forall|k: int| 0 <= k < self.skip_addresses@.len() ==> #[trigger] self.skip_addresses@[k]@ != address@,
                forall|k: int| 0 <= k < j ==> !eq_ci(#[trigger] self.skip_domains@[k]@, domain@),
            decreases self.skip_domains@.len() - j,
        {
            let candidate = crate::text::chars_of(self.skip_domains[j].as_str());
            if eq_ignore_case(candidate.as_slice(), domain) {
                return true;
            }
            j = j + 1;
        }
        false
    }

    /// Every bare address in the rendered comment `text`, as
    /// `(byte position, address)`, outside the markdown `skips` regions.
    pub fn scan(&self, text: &str, skips: &[(usize, usize)]) -> (r: Vec<(usize, String)>)
        ensures
            r@.map_values(|p: (usize, String)| (p.0, p.1@)) == self.spec_scan(text.spec_bytes(), skips@, 0),
    {
        let bytes = text.as_bytes();
        let n = bytes.len();
        let mut out: Vec<(usize, String)> = Vec::new();
        let mut index: usize = 0;
        while index < n
            invariant
                n == bytes@.len(),
                bytes@ == text.spec_bytes(),
                index <= n,
                out@.map_values(|p: (usize, String)| (p.0, p.1@)) + self.spec_scan(bytes@, skips@, index as int)
                    == self.spec_scan(bytes@, skips@, 0),
            decreases n - index,
        {
            let ghost before = out@.map_values(|p: (usize, String)| (p.0, p.1@));
            if !local_byte(bytes[index]) {
                index = index + 1;
                continue;
            }
            let (local, total) = match email_at(bytes, index) {
                Some(m) => m,
                None => {
                    index = index + 1;
                    continue;
                },
            };
            if total == 0 || local > total {
                index = index + 1;
                continue;
            }
            let address = ascii_slice(bytes, index, index + total);
            let domain = ascii_slice(bytes, index + local + 1, index + total);
            if index > 0 && guard_byte(bytes[index - 1]) {
                index = index + if local > 1 { local } else { 1 };
                continue;
            }
            if position_in_skip(skips, index) || self.skipped(address.as_slice(), domain.as_slice()) {
                index = index + total;
                continue;
            }
            out.push((index, string_of(address.as_slice())));
            proof {
                assert(out@.map_values(|p: (usize, String)| (p.0, p.1@)) =~= before.push((index, address@)));
                assert(before.push((index, address@)) + self.spec_scan(bytes@, skips@, index + total) =~= before + (seq![(index, address@)] + self.spec_scan(bytes@, skips@, index + total)));
            }
            index = index + total;
        }
        proof {
            let done = out@.map_values(|p: (usize, String)| (p.0, p.1@));
            assert(done + Seq::<(usize, Seq<char>)>::empty() =~= done);
        }
        out
    }
}

fn guard_byte(b: u8) -> (r: bool)
    ensures
        r == is_guard_byte(b),
{
    is_ascii_alnum_byte(b) || b == 0x5f || b == 0x2e || b == 0x3c || b == 0x3a || b == 0x2f || b == 0x60
}

/// The characters of the ASCII bytes `bytes[from..to]`.
fn ascii_slice(bytes: &[u8], from: usize, to: usize) -> (r: Vec<char>)
    requires
        from <= to <= bytes@.len(),
    ensures
        r@ == ascii_chars(bytes@.subrange(from as int, to as int)),
{
    let mut r: Vec<char> = Vec::new();
    let mut i: usize = from;
    while i < to
        invariant
            from <= i <= to <= bytes@.len(),
            r@ == ascii_chars(bytes@.subrange(from as int, i as int)),
        decreases to - i,
    {
        r.push(bytes[i] as char);
        assert(ascii_chars(bytes@.subrange(from as int, i + 1)) =~= ascii_chars(bytes@.subrange(from as int, i as int)).push(bytes@[i as int] as char));
        i = i + 1;
    }
    r
}

/// Whether `pos` lies inside one of the half-open `skips` ranges.
pub fn position_in_skip(skips: &[(usize, usize)], pos: usize) -> (r: bool)
    ensures
        r == in_skip(skips@, pos as int),
{
    let mut k: usize = 0;
    while k < skips.len()
        invariant
            k <= skips@.len(),
            forall|j: int| 0 <= j < k ==> !(skips@[j].0 <= pos < #[trigger] skips@[j].1),
        decreases skips@.len() - k,
    {
        let (lo, hi) = skips[k];
        if lo <= pos && pos < hi {
            assert(skips@[k as int].0 <= pos < skips@[k as int].1);
            return true;
        }
        k = k + 1;
    }
    false
}

/// What one reported entry must satisfy: its address is none of the
/// configured `skip_addresses`, it does not start inside a skip region,
/// and the part after one of its `@` signs is none of the configured
/// `skip_domains`.
spec fn reported_entry_ok(rule: &BareEmail, skips: Seq<(usize, usize)>, e: (usize, Seq<char>)) -> bool {
    &&& forall|j: int| 0 <= j < rule.skip_addresses@.len() ==> #[trigger] rule.skip_addresses@[j]@ != e.1
    &&& !in_skip(skips, e.0 as int)
    &&& forall|p: int, j: int|
        #![trigger e.1[p], rule.skip_domains@[j]]
        0 <= p < e.1.len() && e.1[p] == '@' && 0 <= j < rule.skip_domains@.len()
            ==> !eq_ci(rule.skip_domains@[j]@, e.1.skip(p + 1))
}

proof fn lemma_local_prefix(s: Seq<u8>, q: int)
    requires
        0 <= q < local_len(s),
    ensures
        q < s.len(),
        is_local_byte(s[q]),
    decreases s.len(),
{
    assert(s.len() > 0 && is_local_byte(s[0]));
    if q > 0 {
        lemma_local_prefix(s.drop_first(), q - 1);
        assert(s.drop_first()[q - 1] == s[q]);
    }
}

proof fn lemma_domain_bytes(s: Seq<u8>, i: int, q: int)
    requires
        0 <= i <= q < domain_end_from(s, i),
    ensures
        continues_domain(s, q),
    decreases s.len() - i,
{
    if i < q {
        lemma_domain_bytes(s, i + 1, q);
    }
}

proof fn lemma_scan_entries_ok(rule: &BareEmail, s: Seq<u8>, skips: Seq<(usize, usize)>, index: int)
    requires
        s.len() <= usize::MAX,
    ensures
        forall|k: int| 0 <= k < rule.spec_scan(s, skips, index).len()
            ==> reported_entry_ok(rule, skips, #[trigger] rule.spec_scan(s, skips, index)[k]),
    decreases s.len() - index,
{
    if index < 0 || index >= s.len() {
    } else if !is_local_byte(s[index]) {
        lemma_scan_entries_ok(rule, s, skips, index + 1);
        assert(rule.spec_scan(s, skips, index) == rule.spec_scan(s, skips, index + 1));
    } else {
        match spec_take_email(s.skip(index)) {
            None => {
                lemma_scan_entries_ok(rule, s, skips, index + 1);
                assert(rule.spec_scan(s, skips, index) == rule.spec_scan(s, skips, index + 1));
            },
            Some((l, t)) => {
                let address = ascii_chars(s.subrange(index, index + t));
                let domain = ascii_chars(s.subrange(index + l + 1, index + t));
                if t == 0 || index + t > s.len() || l > t {
                    lemma_scan_entries_ok(rule, s, skips, index + 1);
                    assert(rule.spec_scan(s, skips, index) == rule.spec_scan(s, skips, index + 1));
                } else if index > 0 && is_guard_byte(s[index - 1]) {
                    let next = index + if l > 1 { l as int } else { 1 };
                    lemma_scan_entries_ok(rule, s, skips, next);
                    assert(rule.spec_scan(s, skips, index) == rule.spec_scan(s, skips, next));
                } else if in_skip(skips, index) || rule.spec_skipped(address, domain) {
                    lemma_scan_entries_ok(rule, s, skips, index + t);
                    assert(rule.spec_scan(s, skips, index) == rule.spec_scan(s, skips, index + t));
                } else {
                    lemma_scan_entries_ok(rule, s, skips, index + t);
                    let rest = rule.spec_scan(s, skips, index + t);
                    let r = rule.spec_scan(s, skips, index);
                    assert(r == seq![(index as usize, address)] + rest);
                    assert(s.skip(index)[l as int] == 0x40u8);
                    assert(address[l as int] == '@');
                    assert(address.skip(l + 1 as int) =~= domain);
                    assert(forall|j: int| 0 <= j < rule.skip_addresses@.len() ==> #[trigger] rule.skip_addresses@[j]@ != address);
                    assert(!in_skip(skips, (index as usize) as int));
                    assert(forall|j: int| 0 <= j < rule.skip_domains@.len() ==> !eq_ci(#[trigger] rule.skip_domains@[j]@, address.skip(l + 1 as int)));
                    assert(0 <= l < address.len());
                    let e = (index as usize, address);
                    let tail = s.skip(index);
                    assert forall|p: int| 0 <= p < address.len() && address[p] == '@' implies p == l by {
                        assert(address[p] == (tail[p] as char));
                        if p < l {
                            lemma_local_prefix(tail, p);
                        } else if p > l {
                            let ds = tail.skip(l + 1 as int);
                            lemma_domain_bytes(ds, 0, p - l - 1);
                            assert(ds[p - l - 1] == tail[p]);
                        }
                    }
                    assert(reported_entry_ok(rule, skips, e));
                    assert forall|k: int| 0 <= k < r.len() implies reported_entry_ok(rule, skips, #[trigger] r[k]) by {
                        if k > 0 {
                            assert(r[k] == rest[k - 1]);
                        }
                    }
                }
            },
        }
    }
}

/// `scan` never reports an exempt address: no reported address is one
/// of the configured `skip_addresses`, none starts inside a skip region,
/// and the domain after its `@` is none of the configured
/// `skip_domains` (compared without regard to ASCII case).
pub proof fn lemma_scan_reports_no_exempt_address(rule: &BareEmail, s: Seq<u8>, skips: Seq<(usize, usize)>)
    requires
        s.len() <= usize::MAX,
    ensures
        forall|k: int, j: int|
            #![trigger rule.spec_scan(s, skips, 0)[k], rule.skip_addresses@[j]]
            0 <= k < rule.spec_scan(s, skips, 0).len() && 0 <= j < rule.skip_addresses@.len()
                ==> rule.spec_scan(s, skips, 0)[k].1 != rule.skip_addresses@[j]@,
        forall|k: int| 0 <= k < rule.spec_scan(s, skips, 0).len()
            ==> !in_skip(skips, #[trigger] rule.spec_scan(s, skips, 0)[k].0 as int),
        forall|k: int, p: int, j: int|
            #![trigger rule.spec_scan(s, skips, 0)[k].1[p], rule.skip_domains@[j]]
            0 <= k < rule.spec_scan(s, skips, 0).len() && 0 <= p < rule.spec_scan(s, skips, 0)[k].1.len()
                && rule.spec_scan(s, skips, 0)[k].1[p] == '@' && 0 <= j < rule.skip_domains@.len()
                ==> !eq_ci(rule.skip_domains@[j]@, rule.spec_scan(s, skips, 0)[k].1.skip(p + 1)),
{
    lemma_scan_entries_ok(rule, s, skips, 0);
    assert forall|k: int| 0 <= k < rule.spec_scan(s, skips, 0).len()
        implies reported_entry_ok(rule, skips, #[trigger] rule.spec_scan(s, skips, 0)[k]) by {}
}

pub open spec fn spec_emit_email(style: Style, address: Seq<char>) -> DiagnosticModel {
    let angle = seq!['<'] + address + seq!['>'];
    let mailto = "mailto:"@ + address;
    DiagnosticModel {
        message: "bare email address `"@ + address + seq!['`'],
        parts: match style {
            Style::AngleBrackets => seq![PartModel::Suggest(SuggestionModel { message: "wrap in `<...>`"@, replacement: angle, appended: None, applicability: Applicability::MachineApplicable })],
            Style::Mailto => seq![PartModel::Suggest(SuggestionModel { message: "prefix with `mailto:`"@, replacement: mailto, appended: None, applicability: Applicability::MachineApplicable })],
            Style::Both => seq![PartModel::Suggest(SuggestionModel { message: "wrap in `<mailto:...>`"@, replacement: seq!['<'] + mailto + seq!['>'], appended: None, applicability: Applicability::MachineApplicable })],
            Style::Either => seq![
                PartModel::Suggest(SuggestionModel { message: "wrap in `<...>`"@, replacement: angle, appended: None, applicability: Applicability::MaybeIncorrect }),
                PartModel::Suggest(SuggestionModel { message: "or prefix with `mailto:`"@, replacement: mailto, appended: None, applicability: Applicability::MaybeIncorrect }),
            ],
            Style::Forbid => seq![PartModel::Help("move the email out of source \u{2014} e.g. into a CONTRIBUTING.md or SECURITY.md \u{2014} or remove it entirely"@)],
        },
    }
}

fn suggestion(message: &str, replacement: Vec<char>, applicability: Applicability) -> (r: Part)
    ensures
        r@ == PartModel::Suggest(SuggestionModel { message: message@, replacement: replacement@, appended: None, applicability }),
{
    Part::Suggest(Suggestion { message: message.to_owned(), replacement: string_of(replacement.as_slice()), appended: None, applicability })
}

/// The report for one bare address, with the suggestion(s) the
/// configured `style` calls for.
pub fn emit_email(style: Style, address: &str) -> (r: Diagnostic)
    ensures
        r@ == spec_emit_email(style, address@),
{
    let mut angle: Vec<char> = Vec::new();
    angle.push('<');
    push_str(&mut angle, address);
    angle.push('>');
    let mut mailto: Vec<char> = Vec::new();
    push_str(&mut mailto, "mailto:");
    push_str(&mut mailto, address);
    let mut both: Vec<char> = Vec::new();
    both.push('<');
    push_all(&mut both, mailto.as_slice());
    both.push('>');
    let mut message: Vec<char> = Vec::new();
    push_str(&mut message, "bare email address `");
    push_str(&mut message, address);
    message.push('`');
    let mut parts: Vec<Part> = Vec::new();
    match style {
        Style::AngleBrackets => {
            parts.push(suggestion("wrap in `<...>`", angle, Applicability::MachineApplicable));
        },
        Style::Mailto => {
            parts.push(suggestion("prefix with `mailto:`", mailto, Applicability::MachineApplicable));
        },
        Style::Both => {
            parts.push(suggestion("wrap in `<mailto:...>`", both, Applicability::MachineApplicable));
        },
        Style::Either => {
            parts.push(suggestion("wrap in `<...>`", angle, Applicability::MaybeIncorrect));
            parts.push(suggestion("or prefix with `mailto:`", mailto, Applicability::MaybeIncorrect));
        },
        Style::Forbid => {
            parts.push(Part::Help("move the email out of source \u{2014} e.g. into a CONTRIBUTING.md or SECURITY.md \u{2014} or remove it entirely".to_owned()));
        },
    }
    let r = Diagnostic { message: string_of(message.as_slice()), parts };
    assert(r@.message =~= "bare email address `"@ + address@ + seq!['`']);
    assert(angle@ =~= seq!['<'] + address@ + seq!['>']);
    assert(mailto@ =~= "mailto:"@ + address@);
    assert(both@ =~= seq!['<'] + ("mailto:"@ + address@) + seq!['>']);
    assert(r@.parts =~= spec_emit_email(style, address@).parts);
    r
}

} // verus!
