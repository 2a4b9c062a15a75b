//! The `avoidable_string_escapes` rule's configuration and decisions: a
//! cooked string literal whose escapes a raw string would avoid is
//! rewritten to the raw form, once per source range.
use vstd::prelude::*;
use crate::ordering::views;

verus! {

/// The escapes a raw string makes unnecessary and that decode to their
/// own second character: `\"`, `\\` and `\'`.
pub open spec fn supported_escapes() -> Seq<Seq<char>> {
    seq![seq!['\\', '"'], seq!['\\', '\\'], seq!['\\', '\'']]
}

pub struct Config {
    /// How many eliminable escapes a literal needs before it is
    /// reported; at least one.
    pub min_escapes_to_trigger: usize,
    /// The escapes counted as eliminable.
    pub eligible_escapes: Vec<String>,
}

impl Default for Config {
    fn default() -> (c: Self)
        ensures
            c.min_escapes_to_trigger == 1,
            views(c.eligible_escapes@) == supported_escapes(),
    {
        let mut eligible: Vec<String> = Vec::new();
        eligible.push(crate::text::string_of(vec!['\\', '"'].as_slice()));
        eligible.push(crate::text::string_of(vec!['\\', '\\'].as_slice()));
        eligible.push(crate::text::string_of(vec!['\\', '\''].as_slice()));
        assert(views(eligible@) =~= supported_escapes());
        Config { min_escapes_to_trigger: 1, eligible_escapes: eligible }
    }
}

pub struct AvoidableStringEscapes {
    min_escapes_to_trigger: usize,
    eligible_escapes: Vec<String>,
}

/// Whether a configured entry is one of the supported escapes. Any
/// other escape (`\n`, `\u{...}`, ...) does not decode to its own second
/// character, so a rewrite built on it could corrupt the literal.
pub fn is_supported_eligible_entry(entry: &String) -> (r: bool)
    ensures
        r == supported_escapes().contains(entry@),
{
    let c = crate::text::chars_of(entry.as_str());
    let r = c.len() == 2 && c[0] == '\\' && (c[1] == '"' || c[1] == '\\' || c[1] == '\'');
    proof {
        if c@.len() == 2 {
            assert(c@ == seq![c@[0], c@[1]]);
        }
        if supported_escapes().contains(entry@) {
            let k = choose|k: int| 0 <= k < 3 && supported_escapes()[k] == entry@;
            assert(supported_escapes()[k].len() == 2);
        }
        if r {
            if c@[1] == '"' {
                assert(supported_escapes()[0] == entry@);
            } else if c@[1] == '\\' {
                assert(supported_escapes()[1] == entry@);
            } else {
                assert(supported_escapes()[2] == entry@);
            }
        }
    }
    r
}

/// The supported entries of `entries`, in order.
pub open spec fn supported_only(entries: Seq<Seq<char>>) -> Seq<Seq<char>>
    decreases entries.len(),
{
    if entries.len() == 0 {
        Seq::empty()
    } else if supported_escapes().contains(entries.last()) {
        supported_only(entries.drop_last()).push(entries.last())
    } else {
        supported_only(entries.drop_last())
    }
}

impl AvoidableStringEscapes {
    pub closed spec fn min(&self) -> usize {
        self.min_escapes_to_trigger
    }

    pub closed spec fn eligible(&self) -> Seq<Seq<char>> {
        views(self.eligible_escapes@)
    }

    /// The rule for `config`, keeping only the supported eligible
    /// escapes: a stray entry is dropped rather than taking the rule
    /// offline.
    pub fn new(config: Config) -> (r: Self)
        requires
            config.min_escapes_to_trigger > 0,
        ensures
            r.min() == config.min_escapes_to_trigger,
            r.eligible() == supported_only(views(config.eligible_escapes@)),
    {
        let mut kept: Vec<String> = Vec::new();
        let ghost all = views(config.eligible_escapes@);
        let mut k: usize = 0;
        while k < config.eligible_escapes.len()
            invariant
                k <= config.eligible_escapes@.len(),
                all == views(config.eligible_escapes@),
                views(kept@) == supported_only(all.take(k as int)),
            decreases config.eligible_escapes@.len() - k,
        {
            let e = &config.eligible_escapes[k];
            assert(all.take(k + 1).drop_last() =~= all.take(k as int));
            assert(all.take(k + 1).last() == e@);
            if is_supported_eligible_entry(e) {
                let ghost before = kept@;
                kept.push(e.clone());
                assert(views(kept@) =~= views(before).push(e@));
            }
            k = k + 1;
        }
        assert(all.take(all.len() as int) =~= all);
        AvoidableStringEscapes { min_escapes_to_trigger: config.min_escapes_to_trigger, eligible_escapes: kept }
    }

    /// Whether a literal with `eliminable` eliminable escapes is
    /// reported: at least the configured minimum, which is never zero,
    /// so a literal with nothing to gain is never rewritten.
    pub fn triggers(&self, eliminable: usize) -> (r: bool)
        ensures
            r == (eliminable >= self.min()),
    {
        eliminable >= self.min_escapes_to_trigger
    }
}

/// The body of a cooked string literal's source text: the text between
/// the opening and closing `"`, when it has both.
pub fn literal_body(snippet: &str) -> (r: Option<Vec<char>>)
    ensures
        match r {
            Some(b) => snippet@.len() >= 2 && snippet@[0] == '"' && snippet@.last() == '"'
                && b@ == snippet@.subrange(1, snippet@.len() - 1),
            None => !(snippet@.len() >= 2 && snippet@[0] == '"' && snippet@.last() == '"'),
        },
{
    let c = crate::text::chars_of(snippet);
    let n = c.len();
    if n < 2 || c[0] != '"' || c[n - 1] != '"' {
        return None;
    }
    let mut b: Vec<char> = Vec::new();
    let mut k: usize = 1;
    while k < n - 1
        invariant
            1 <= k <= n - 1,
            n == c@.len(),
            b@ == c@.subrange(1, k as int),
        decreases n - 1 - k,
    {
        b.push(c[k]);
        assert(b@ =~= c@.subrange(1, k + 1));
        k = k + 1;
    }
    Some(b)
}

/// `kept` lists, in order, the positions of `pending` whose range is
/// not in `visited` and not held by an earlier entry.
pub open spec fn survivors(pending: Seq<(u32, u32)>, visited: Seq<(u32, u32)>, kept: Seq<usize>) -> bool {
    &&& forall|k: int| 0 <= k < kept.len() ==> (#[trigger] kept[k]) < pending.len()
    &&& forall|a: int, b: int| 0 <= a < b < kept.len() ==> (#[trigger] kept[a]) < (#[trigger] kept[b])
    &&& forall|i: int| 0 <= i < pending.len() ==> (kept.contains(i as usize) <==> (!visited.contains(
        #[trigger] pending[i],
    ) && forall|j: int| 0 <= j < i ==> pending[j] != pending[i]))
}

/// Law: no two surviving violations share a source range, so each
/// literal is reported once.
pub proof fn lemma_one_report_per_range(pending: Seq<(u32, u32)>, visited: Seq<(u32, u32)>, kept: Seq<usize>)
    requires
        survivors(pending, visited, kept),
    ensures
        forall|a: int, b: int| 0 <= a < b < kept.len() ==> pending[#[trigger] kept[a] as int] != pending[#[trigger] kept[b] as int],
{
    assert forall|a: int, b: int| 0 <= a < b < kept.len() implies pending[#[trigger] kept[a] as int] != pending[#[trigger] kept[b] as int] by {
        let i = kept[b] as int;
        assert(kept.contains(kept[b]));
        assert(kept[a] < kept[b]);
        assert(pending[i] == pending[i]);
    }
}

/// Which parked violations survive to be reported: one whose source
/// range a literal that reached the late pass already claimed
/// (`visited`) is dropped, and of several at one range only the first
/// is kept.
pub fn surviving(pending: &[(u32, u32)], visited: &[(u32, u32)]) -> (r: Vec<usize>)
    ensures
        survivors(pending@, visited@, r@),
{
    let mut out: Vec<usize> = Vec::new();
    let mut i: usize = 0;
    while i < pending.len()
        invariant
            i <= pending@.len(),
            forall|k: int| 0 <= k < out@.len() ==> (#[trigger] out@[k]) < i,
            forall|a: int, b: int| 0 <= a < b < out@.len() ==> (#[trigger] out@[a]) < (#[trigger] out@[b]),
            forall|m: int| 0 <= m < i ==> (out@.contains(m as usize) <==> (!visited@.contains(#[trigger] pending@[m])
                && forall|j: int| 0 <= j < m ==> pending@[j] != pending@[m])),
        decreases pending@.len() - i,
    {
        let range = pending[i];
        let mut seen = false;
        let mut v: usize = 0;
        while v < visited.len()
            invariant
                v <= visited@.len(),
                seen == exists|q: int| 0 <= q < v && visited@[q] == range,
            decreases visited@.len() - v,
        {
            if visited[v].0 == range.0 && visited[v].1 == range.1 {
                seen = true;
            }
            v = v + 1;
        }
        let mut dup = false;
        let mut j: usize = 0;
        while j < i
            invariant
                j <= i,
                i < pending@.len(),
                range == pending@[i as int],
                dup == exists|q: int| 0 <= q < j && pending@[q] == range,
            decreases i - j,
        {
            if pending[j].0 == range.0 && pending[j].1 == range.1 {
                dup = true;
            }
            j = j + 1;
        }
        let ghost old_out = out@;
        if !seen && !dup {
            out.push(i);
        }
        proof {
            assert forall|m: int| 0 <= m < i + 1 implies (out@.contains(m as usize) <==> (!visited@.contains(#[trigger] pending@[m])
                && forall|j: int| 0 <= j < m ==> pending@[j] != pending@[m])) by {
                if m < i {
                    if old_out.contains(m as usize) {
                        let q = choose|q: int| 0 <= q < old_out.len() && old_out[q] == m as usize;
                        assert(out@[q] == m as usize);
                    }
                    if out@.contains(m as usize) {
                        let q = choose|q: int| 0 <= q < out@.len() && out@[q] == m as usize;
                        if q < old_out.len() {
                            assert(old_out[q] == m as usize);
                        }
                    }
                } else {
                    if out@.contains(m as usize) {
                        let q = choose|q: int| 0 <= q < out@.len() && out@[q] == m as usize;
                        if q < old_out.len() {
                            assert(old_out[q] < i);
                        }
                    }
                    if !seen && !dup {
                        assert(out@[old_out.len() as int] == i);
                    }
                }
            }
        }
        i = i + 1;
    }
    out
}

} // verus!
