//! The `bare_identifier_reference` rule: which backticked code spans in
//! a doc comment hold a single Rust identifier, and how such a name
//! resolves in the documented item's scope.
use crate::text::{chars_of, count_start_ws, is_alnum, is_alpha, string_of, trim_start_ws, trim_ws};
use vstd::prelude::*;
use vstd::string::StringSliceAdditionalSpecFns;
use vstd::utf8::{decode_utf8, encode_utf8_decode_utf8, is_char_boundary};

verus! {

// ---------------------------------------------------------------------
// Identifier extraction
// ---------------------------------------------------------------------

/// The number of leading backticks of `s`.
pub open spec fn fence_len(s: Seq<char>) -> nat
    decreases s.len(),
{
    if s.len() > 0 && s[0] == '`' {
        1 + fence_len(s.drop_first())
    } else {
        0
    }
}

/// The body between matching backtick fences, or `None` when `s` is not
/// fence-delimited.
pub open spec fn spec_strip_code_fences(s: Seq<char>) -> Option<Seq<char>> {
    let f = fence_len(s);
    if f == 0 || s.len() < 2 * f {
        None
    } else if exists|k: int| s.len() - f <= k < s.len() && #[trigger] s[k] != '`' {
        None
    } else {
        Some(s.subrange(f as int, s.len() - f))
    }
}

/// CommonMark strips one space from each end of a code-span body when
/// both ends carry one and the body is not all whitespace.
pub open spec fn spec_strip_one_padding_space(body: Seq<char>) -> Seq<char> {
    if body.len() >= 2 && body[0] == ' ' && body.last() == ' ' && trim_ws(body).len() != 0 {
        body.subrange(1, body.len() - 1)
    } else {
        body
    }
}

/// Exactly one plain ASCII Rust identifier, and not only underscores.
pub open spec fn spec_is_plain_ident(text: Seq<char>) -> bool {
    &&& text.len() > 0
    &&& (is_alpha(text[0]) || text[0] == '_')
    &&& forall|k: int| 1 <= k < text.len() ==> is_alnum(#[trigger] text[k]) || text[k] == '_'
    &&& exists|k: int| 0 <= k < text.len() && #[trigger] text[k] != '_'
}

/// The identifier a code span's source text holds, if it holds one.
pub open spec fn spec_take_backticked_ident(code_span: Seq<char>) -> Option<Seq<char>> {
    if code_span.contains('\n') {
        None
    } else {
        match spec_strip_code_fences(code_span) {
            None => None,
            Some(body) => {
                let body = spec_strip_one_padding_space(body);
                if spec_is_plain_ident(body) {
                    Some(body)
                } else {
                    None
                }
            },
        }
    }
}

proof fn lemma_fence_len(s: Seq<char>, i: int)
    requires
        0 <= i <= s.len(),
        forall|j: int| 0 <= j < i ==> #[trigger] s[j] == '`',
        i == s.len() || s[i] != '`',
    ensures
        fence_len(s) == i,
    decreases i,
{
    if i > 0 {
        let t = s.drop_first();
        assert forall|j: int| 0 <= j < i - 1 implies #[trigger] t[j] == '`' by {
            assert(t[j] == s[j + 1]);
        }
        if i < s.len() {
            assert(t[i - 1] == s[i]);
        }
        lemma_fence_len(t, i - 1);
    }
}

/// A run of `n` backticks.
pub open spec fn backticks(n: nat) -> Seq<char> {
    Seq::new(n, |i: int| '`')
}

/// Law: a body that does not open with a backtick, between two fences of
/// the same length, any length, comes back out whole.
pub proof fn lemma_fenced_body(n: nat, body: Seq<char>)
    requires
        n >= 1,
        body.len() > 0,
        body[0] != '`',
    ensures
        spec_strip_code_fences(backticks(n) + body + backticks(n)) == Some(body),
{
    let s = backticks(n) + body + backticks(n);
    assert forall|j: int| 0 <= j < n implies #[trigger] s[j] == '`' by {}
    assert(s[n as int] == body[0]);
    lemma_fence_len(s, n as int);
    assert forall|k: int| s.len() - n <= k < s.len() implies #[trigger] s[k] == '`' by {}
    assert(s.subrange(n as int, s.len() - n) =~= body);
}

/// Strip the matching opening and closing backtick fences from a code
/// span's source text, returning the inner body. `None` if the text is
/// not fence-delimited.
pub fn strip_code_fences(code_span: &[char]) -> (r: Option<&[char]>)
    ensures
        match r {
            Some(b) => spec_strip_code_fences(code_span@) == Some(b@),
            None => spec_strip_code_fences(code_span@) is None,
        },
{
    let n = code_span.len();
    let mut fence: usize = 0;
    while fence < n && code_span[fence] == '`'
        invariant
            n == code_span@.len(),
            fence <= n,
            forall|j: int| 0 <= j < fence ==> #[trigger] code_span@[j] == '`',
        decreases n - fence,
    {
        fence = fence + 1;
    }
    proof {
        lemma_fence_len(code_span@, fence as int);
    }
    if fence == 0 || n / 2 < fence {
        return None;
    }
    let mut k: usize = n - fence;
    while k < n
        invariant
            n == code_span@.len(),
            fence_len(code_span@) == fence,
            fence > 0,
            2 * fence <= n,
            n - fence <= k <= n,
            forall|j: int| n - fence <= j < k ==> #[trigger] code_span@[j] == '`',
        decreases n - k,
    {
        if code_span[k] != '`' {
            return None;
        }
        k = k + 1;
    }
    let body = &code_span[fence..n - fence];
    Some(body)
}

/// Strip the single CommonMark padding space from each end of a code
/// span's body — only when both ends carry one and the body is not all
/// whitespace.
pub fn strip_one_padding_space(body: &[char]) -> (r: &[char])
    ensures
        r@ == spec_strip_one_padding_space(body@),
{
    let n = body.len();
    if n >= 2 && body[0] == ' ' && body[n - 1] == ' ' {
        let lead = count_start_ws(body);
        // All whitespace exactly when trimming the start consumes it all.
        proof {
            lemma_trim_empty(body@, lead as int);
        }
        if lead < n {
            return &body[1..n - 1];
        }
    }
    body
}

/// `trim_ws(s)` is empty exactly when trimming the start consumes all of
/// `s`.
proof fn lemma_trim_empty(s: Seq<char>, lead: int)
    requires
        0 <= lead <= s.len(),
        s.skip(lead) == trim_start_ws(s),
    ensures
        (trim_ws(s).len() == 0) == (lead == s.len()),
{
    crate::text::lemma_trim_start_ws_shape(s);
    crate::text::lemma_trim_end_ws_shape(trim_start_ws(s));
}

/// Whether `text` is exactly one plain (ASCII) Rust identifier. The bare
/// wildcard `_` (and runs of underscores) name nothing linkable.
pub fn is_plain_ident_chars(text: &[char]) -> (r: bool)
    ensures
        r == spec_is_plain_ident(text@),
{
    let n = text.len();
    if n == 0 {
        return false;
    }
    let first = text[0];
    if !(crate::text::char_is_alpha(first) || first == '_') {
        return false;
    }
    let mut k: usize = 1;
    let mut seen_other = first != '_';
    while k < n
        invariant
            n == text@.len(),
            1 <= k <= n,
            forall|j: int| 1 <= j < k ==> is_alnum(#[trigger] text@[j]) || text@[j] == '_',
            seen_other == exists|j: int| 0 <= j < k && #[trigger] text@[j] != '_',
        decreases n - k,
    {
        let c = text[k];
        if !(crate::text::char_is_alnum(c) || c == '_') {
            return false;
        }
        if c != '_' {
            seen_other = true;
        }
        k = k + 1;
    }
    seen_other
}

/// Whether `text` is exactly one plain (ASCII) Rust identifier.
pub fn is_plain_ident(text: &str) -> (r: bool)
    ensures
        r == spec_is_plain_ident(text@),
{
    is_plain_ident_chars(chars_of(text).as_slice())
}

/// Pull a single Rust identifier out of a code span's source text
/// (`` `Foo` ``, `` `` Foo `` ``, ...). `None` when the body is empty,
/// holds more than one token, spans a line break, or is not a plain
/// identifier.
pub fn take_backticked_ident(code_span: &str) -> (r: Option<String>)
    ensures
        match r {
            Some(s) => spec_take_backticked_ident(code_span@) == Some(s@),
            None => spec_take_backticked_ident(code_span@) is None,
        },
{
    let chars = chars_of(code_span);
    if crate::text::contains_char(chars.as_slice(), '\n') {
        return None;
    }
    let body = match strip_code_fences(chars.as_slice()) {
        Some(b) => b,
        None => return None,
    };
    let body = strip_one_padding_space(body);
    if !is_plain_ident_chars(body) {
        return None;
    }
    Some(string_of(body))
}

/// One intra-doc-link candidate: a bare code span whose body is a single
/// Rust identifier.
pub struct Candidate {
    /// Byte range in the rendered text covering the whole code span,
    /// backtick fences included.
    pub start: usize,
    pub end: usize,
    /// The extracted identifier.
    pub ident: String,
}

/// Whether `(start, end)` is a byte range of `bytes` that starts and ends
/// on character boundaries.
pub open spec fn valid_range(bytes: Seq<u8>, range: (usize, usize)) -> bool {
    &&& range.0 <= range.1 <= bytes.len()
    &&& is_char_boundary(bytes, range.0 as int)
    &&& is_char_boundary(bytes, range.1 as int)
}

/// The candidates among the code spans the markdown scanner found:
/// those whose text holds a single identifier, in scanner order.
pub open spec fn spec_collect_candidates(bytes: Seq<u8>, spans: Seq<(usize, usize)>) -> Seq<(usize, usize, Seq<char>)>
    decreases spans.len(),
{
    if spans.len() == 0 {
        Seq::empty()
    } else {
        let prev = spec_collect_candidates(bytes, spans.drop_last());
        let span = spans.last();
        match spec_take_backticked_ident(decode_utf8(bytes.subrange(span.0 as int, span.1 as int))) {
            Some(ident) => prev.push((span.0, span.1, ident)),
            None => prev,
        }
    }
}

/// Every intra-doc-link candidate among `code_spans`, the byte ranges of
/// the bare code spans the markdown scanner found in `rendered`.
pub fn collect_candidates(rendered: &str, code_spans: &[(usize, usize)]) -> (r: Vec<Candidate>)
    requires
        forall|k: int| 0 <= k < code_spans@.len() ==> valid_range(rendered.spec_bytes(), #[trigger] code_spans@[k]),
    ensures
        r@.map_values(|c: Candidate| (c.start, c.end, c.ident@)) == spec_collect_candidates(
            rendered.spec_bytes(),
            code_spans@,
        ),
{
    let mut out: Vec<Candidate> = Vec::new();
    let mut k: usize = 0;
    while k < code_spans.len()
        invariant
            k <= code_spans@.len(),
            forall|j: int| 0 <= j < code_spans@.len() ==> valid_range(rendered.spec_bytes(), #[trigger] code_spans@[j]),
            out@.map_values(|c: Candidate| (c.start, c.end, c.ident@)) == spec_collect_candidates(
                rendered.spec_bytes(),
                code_spans@.take(k as int),
            ),
        decreases code_spans@.len() - k,
    {
        let (start, end) = code_spans[k];
        assert(valid_range(rendered.spec_bytes(), code_spans@[k as int]));
        proof {
            vstd::utf8::encode_utf8_valid_utf8(rendered@);
        }
        let (_, tail) = rendered.split_at(start);
        proof {
            assert(tail.spec_bytes() =~= rendered.spec_bytes().subrange(start as int, rendered.spec_bytes().len() as int));
            assert(is_char_boundary(tail.spec_bytes(), end - start)) by {
                crate::text::lemma_char_boundary_shift(rendered.spec_bytes(), start as int, end as int);
            }
        }
        let (text, _) = tail.split_at(end - start);
        proof {
            assert(text.spec_bytes() =~= rendered.spec_bytes().subrange(start as int, end as int));
            encode_utf8_decode_utf8(text@);
        }
        let ghost before = out@.map_values(|c: Candidate| (c.start, c.end, c.ident@));
        let found = take_backticked_ident(text);
        proof {
            assert(code_spans@.take(k + 1).drop_last() =~= code_spans@.take(k as int));
            assert(code_spans@.take(k + 1).last() == code_spans@[k as int]);
        }
        match found {
            Some(ident) => {
                out.push(Candidate { start, end, ident });
                assert(out@.map_values(|c: Candidate| (c.start, c.end, c.ident@)) =~= before.push((start, end, out@.last().ident@)));
            },
            None => {},
        }
        k = k + 1;
    }
    assert(code_spans@.take(code_spans@.len() as int) =~= code_spans@);
    out
}

// ---------------------------------------------------------------------
// Resolution
// ---------------------------------------------------------------------

/// The rustdoc disambiguator prefix the ambiguity help suggests.
#[derive(Debug, Clone, Copy, PartialEq, Eq, Structural)]
pub enum DisambiguatorPrefix {
    Type,
    Value,
    Macro,
}

impl DisambiguatorPrefix {
    pub fn as_str(self) -> (r: &'static str)
        ensures
            r@ == match self {
                DisambiguatorPrefix::Type => "type@"@,
                DisambiguatorPrefix::Value => "value@"@,
                DisambiguatorPrefix::Macro => "macro@"@,
            },
    {
        match self {
            DisambiguatorPrefix::Type => "type@",
            DisambiguatorPrefix::Value => "value@",
            DisambiguatorPrefix::Macro => "macro@",
        }
    }

    /// The prefix for the first present namespace, in rustdoc's type →
    /// value → macro precedence. `mask` is `[type, value, macro]`.
    pub fn from_mask(mask: [bool; 3]) -> (r: Option<Self>)
        ensures
            r == if mask[0] {
                Some(DisambiguatorPrefix::Type)
            } else if mask[1] {
                Some(DisambiguatorPrefix::Value)
            } else if mask[2] {
                Some(DisambiguatorPrefix::Macro)
            } else {
                None
            },
    {
        if mask[0] {
            Some(DisambiguatorPrefix::Type)
        } else if mask[1] {
            Some(DisambiguatorPrefix::Value)
        } else if mask[2] {
            Some(DisambiguatorPrefix::Macro)
        } else {
            None
        }
    }
}

/// Where a resolved candidate's target lives relative to the documented
/// item's module and crate.
#[derive(Debug, Clone, Copy, PartialEq, Eq, Structural)]
pub enum Reach {
    /// Defined directly in the documenting item's own module.
    LocalDefinition,
    /// Defined within that module's own subtree.
    InternalImport,
    /// Defined elsewhere in the current crate.
    CrateElsewhere,
    /// Defined in a third-party dependency.
    ThirdPartyCrate,
    /// Defined in `std`, `core`, `alloc`, `proc_macro` or `test`.
    StandardLibrary,
}

impl Reach {
    /// Whether the target lives in the current crate (first-party).
    pub fn is_in_current_crate(self) -> (r: bool)
        ensures
            r == (self == Reach::LocalDefinition || self == Reach::InternalImport || self
                == Reach::CrateElsewhere),
    {
        match self {
            Reach::LocalDefinition | Reach::InternalImport | Reach::CrateElsewhere => true,
            _ => false,
        }
    }
}

/// How far from the documenting item a referenced name may resolve for
/// the rule to check it.
#[derive(Debug, Clone, Copy, PartialEq, Eq, Structural)]
pub enum ReferenceScope {
    OwnModule,
    ModuleTree,
    Crate,
    ThirdParty,
    Anywhere,
}

/// Where the target of a name is defined.
pub enum TargetOrigin {
    /// In another crate; `is_std` for a standard / built-in library.
    External { is_std: bool },
    /// In the current crate: the chain of modules from the defining
    /// module outwards to the crate root (empty when the target has no
    /// parent).
    Local { ancestry: Vec<u64> },
}

/// Classify where a target lives relative to the `scope` module, by
/// the defining module's position in the module tree.
pub fn import_reach(origin: &TargetOrigin, scope: u64) -> (r: Reach)
    ensures
        r == match origin {
            TargetOrigin::External { is_std } => if *is_std {
                Reach::StandardLibrary
            } else {
                Reach::ThirdPartyCrate
            },
            TargetOrigin::Local { ancestry } => if ancestry@.len() == 0 {
                Reach::CrateElsewhere
            } else if ancestry@[0] == scope {
                Reach::LocalDefinition
            } else if ancestry@.contains(scope) {
                Reach::InternalImport
            } else {
                Reach::CrateElsewhere
            },
        },
{
    match origin {
        TargetOrigin::External { is_std } => if *is_std {
            Reach::StandardLibrary
        } else {
            Reach::ThirdPartyCrate
        },
        TargetOrigin::Local { ancestry } => {
            if ancestry.len() == 0 {
                return Reach::CrateElsewhere;
            }
            if ancestry[0] == scope {
                return Reach::LocalDefinition;
            }
            if contains_module(ancestry.as_slice(), scope) {
                Reach::InternalImport
            } else {
                Reach::CrateElsewhere
            }
        },
    }
}

fn contains_module(ancestry: &[u64], scope: u64) -> (r: bool)
    ensures
        r == ancestry@.contains(scope),
{
    let mut k: usize = 0;
    while k < ancestry.len()
        invariant
            k <= ancestry@.len(),
            forall|j: int| 0 <= j < k ==> ancestry@[j] != scope,
        decreases ancestry@.len() - k,
    {
        if ancestry[k] == scope {
            assert(ancestry@[k as int] == scope);
            return true;
        }
        k = k + 1;
    }
    false
}


/// A rustdoc namespace.
#[derive(Debug, Clone, Copy, PartialEq, Eq, Structural)]
pub enum Namespace {
    Type,
    Value,
    Macro,
}

pub open spec fn slot(ns: Namespace) -> int {
    match ns {
        Namespace::Type => 0,
        Namespace::Value => 1,
        Namespace::Macro => 2,
    }
}

fn slot_of(ns: Namespace) -> (r: usize)
    ensures
        r == slot(ns),
{
    match ns {
        Namespace::Type => 0,
        Namespace::Value => 1,
        Namespace::Macro => 2,
    }
}

/// One same-name child of the documented item's scope module.
#[derive(Clone, Copy)]
pub struct ScopeChild {
    /// The child's namespace; `None` for a constructor (which shares
    /// its type's identity) or a namespace-less resolution.
    pub ns: Option<Namespace>,
    pub reach: Reach,
    /// A local item that is not publicly reachable.
    pub target_private: bool,
}

/// How a candidate identifier resolves in the documented item's scope.
#[derive(Debug, Clone, Copy, PartialEq, Eq, Structural)]
pub enum Resolution {
    /// Resolves in exactly one namespace: a plain link is unambiguous.
    Unique,
    /// Exists in more than one namespace; the prefix to suggest.
    Ambiguous(DisambiguatorPrefix),
}

/// Whether `reference_scope` drops a target at this reach.
pub open spec fn ignored_by_policy(scope: ReferenceScope, reach: Reach) -> bool {
    match scope {
        ReferenceScope::OwnModule => reach != Reach::LocalDefinition,
        ReferenceScope::ModuleTree => !(reach == Reach::LocalDefinition || reach == Reach::InternalImport),
        ReferenceScope::Crate => !(reach == Reach::LocalDefinition || reach == Reach::InternalImport
            || reach == Reach::CrateElsewhere),
        ReferenceScope::ThirdParty => reach == Reach::StandardLibrary,
        ReferenceScope::Anywhere => false,
    }
}

/// Whether the rule is willing to point a link at `child`.
pub open spec fn eligible(scope: ReferenceScope, documented_public: bool, child: ScopeChild) -> bool {
    !ignored_by_policy(scope, child.reach) && !(documented_public && child.target_private)
}

/// Whether some child occupies namespace `slot` (rustdoc's view).
pub open spec fn ns_present(children: Seq<ScopeChild>, ns: Namespace) -> bool {
    exists|k: int| 0 <= k < children.len() && #[trigger] children[k].ns == Some(ns)
}

/// Whether some eligible child occupies namespace `slot`.
pub open spec fn eligible_ns_present(
    scope: ReferenceScope,
    documented_public: bool,
    children: Seq<ScopeChild>,
    ns: Namespace,
) -> bool {
    exists|k: int|
        0 <= k < children.len() && #[trigger] children[k].ns == Some(ns) && eligible(
            scope,
            documented_public,
            children[k],
        )
}

pub open spec fn first_present(mask: [bool; 3]) -> Option<DisambiguatorPrefix> {
    if mask[0] {
        Some(DisambiguatorPrefix::Type)
    } else if mask[1] {
        Some(DisambiguatorPrefix::Value)
    } else if mask[2] {
        Some(DisambiguatorPrefix::Macro)
    } else {
        None
    }
}

/// The resolution of a name given its same-name scope children: `None`
/// when no child is eligible; ambiguous when rustdoc sees the name in
/// more than one namespace (the suggested prefix preferring a namespace
/// with an eligible target); unique otherwise.
pub open spec fn spec_resolve(
    scope: ReferenceScope,
    documented_public: bool,
    children: Seq<ScopeChild>,
) -> Option<Resolution> {
    let ns = [
        ns_present(children, Namespace::Type),
        ns_present(children, Namespace::Value),
        ns_present(children, Namespace::Macro),
    ];
    let elig = [
        eligible_ns_present(scope, documented_public, children, Namespace::Type),
        eligible_ns_present(scope, documented_public, children, Namespace::Value),
        eligible_ns_present(scope, documented_public, children, Namespace::Macro),
    ];
    let distinct = (if ns[0] { 1int } else { 0 }) + (if ns[1] { 1int } else { 0 }) + (if ns[2] { 1int } else { 0 });
    if !(exists|k: int| 0 <= k < children.len() && eligible(scope, documented_public, #[trigger] children[k])) {
        None
    } else if distinct > 1 {
        let mask = if elig[0] || elig[1] || elig[2] { elig } else { ns };
        match first_present(mask) {
            Some(p) => Some(Resolution::Ambiguous(p)),
            None => None,
        }
    } else {
        Some(Resolution::Unique)
    }
}

/// Whether a target at `reach` is dropped by the `reference_scope`
/// policy.
pub fn is_ignored_by_policy(scope: ReferenceScope, reach: Reach) -> (r: bool)
    ensures
        r == ignored_by_policy(scope, reach),
{
    match scope {
        ReferenceScope::OwnModule => !matches!(reach, Reach::LocalDefinition),
        ReferenceScope::ModuleTree => !matches!(reach, Reach::LocalDefinition | Reach::InternalImport),
        ReferenceScope::Crate => !reach.is_in_current_crate(),
        ReferenceScope::ThirdParty => matches!(reach, Reach::StandardLibrary),
        ReferenceScope::Anywhere => false,
    }
}

/// Resolve a name against the same-name children of the documented
/// item's scope module. Ambiguity is judged across every child (rustdoc's
/// view); eligibility applies the rule's `reference_scope` policy and
/// the public-references-private exemption.
pub fn resolve_in_scope(scope: ReferenceScope, documented_public: bool, children: &[ScopeChild]) -> (r:
    Option<Resolution>)
    ensures
        r == spec_resolve(scope, documented_public, children@),
{
    let mut namespaces = [false, false, false];
    let mut eligible_namespaces = [false, false, false];
    let mut has_eligible_target = false;
    let mut k: usize = 0;
    while k < children.len()
        invariant
            k <= children@.len(),
            forall|n: Namespace| #[trigger] namespaces[slot(n)] == exists|j: int|
                0 <= j < k && #[trigger] children@[j].ns == Some(n),
            forall|n: Namespace| #[trigger] eligible_namespaces[slot(n)] == exists|j: int|
                0 <= j < k && #[trigger] children@[j].ns == Some(n) && eligible(scope, documented_public, children@[j]),
            has_eligible_target == exists|j: int| 0 <= j < k && eligible(scope, documented_public, #[trigger] children@[j]),
        decreases children@.len() - k,
    {
        let child = children[k];
        if let Some(ns) = child.ns {
            namespaces[slot_of(ns)] = true;
        }
        let ignored = is_ignored_by_policy(scope, child.reach);
        if !ignored && !(documented_public && child.target_private) {
            has_eligible_target = true;
            if let Some(ns) = child.ns {
                eligible_namespaces[slot_of(ns)] = true;
            }
        }
        proof {
            assert forall|n: Namespace| #[trigger] namespaces[slot(n)] == exists|j: int|
                0 <= j < k + 1 && #[trigger] children@[j].ns == Some(n) by {
                if child.ns == Some(n) {
                    assert(children@[k as int].ns == Some(n));
                }
            }
            assert forall|n: Namespace| #[trigger] eligible_namespaces[slot(n)] == exists|j: int|
                0 <= j < k + 1 && #[trigger] children@[j].ns == Some(n) && eligible(scope, documented_public, children@[j]) by {
                if child.ns == Some(n) && eligible(scope, documented_public, child) {
                    assert(children@[k as int].ns == Some(n));
                }
            }
        }
        k = k + 1;
    }
    proof {
        assert(namespaces[slot(Namespace::Type)] == ns_present(children@, Namespace::Type));
        assert(namespaces[slot(Namespace::Value)] == ns_present(children@, Namespace::Value));
        assert(namespaces[slot(Namespace::Macro)] == ns_present(children@, Namespace::Macro));
        assert(eligible_namespaces[slot(Namespace::Type)] == eligible_ns_present(scope, documented_public, children@, Namespace::Type));
        assert(eligible_namespaces[slot(Namespace::Value)] == eligible_ns_present(scope, documented_public, children@, Namespace::Value));
        assert(eligible_namespaces[slot(Namespace::Macro)] == eligible_ns_present(scope, documented_public, children@, Namespace::Macro));
    }
    if !has_eligible_target {
        return None;
    }
    let distinct: usize = (if namespaces[0] { 1 } else { 0 }) + (if namespaces[1] { 1 } else { 0 }) + (if namespaces[2] { 1 } else { 0 });
    if distinct > 1 {
        let prefix_set = if eligible_namespaces[0] || eligible_namespaces[1] || eligible_namespaces[2] {
            eligible_namespaces
        } else {
            namespaces
        };
        match DisambiguatorPrefix::from_mask(prefix_set) {
            Some(p) => Some(Resolution::Ambiguous(p)),
            None => None,
        }
    } else {
        Some(Resolution::Unique)
    }
}

} // verus!
