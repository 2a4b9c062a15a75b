//! The `derive_ordering` rule: a project-wide order for the trait names
//! inside one `#[derive(...)]` list — none (`preserve`, the default),
//! ASCII-case-insensitive alphabetical, or a configured prefix list first
//! and the rest alphabetical. Traits are matched by the final path
//! segment, so `serde::Deserialize` counts as `Deserialize`.
use vstd::prelude::*;
use vstd::utf8::encode_utf8;
use crate::utf8_order::{bytes_lt, lemma_char_order_is_byte_order};
use std::cmp::Ordering;
use crate::diagnostic::{Applicability, Diagnostic, DiagnosticModel, Part, PartModel, Suggestion, SuggestionModel};
use crate::ordering::{chars_lt, seq_lt, lemma_seq_lt_trichotomy, lemma_seq_lt_irreflexive, lemma_seq_lt_transitive, views};
use crate::text::{chars_of, find_sub, first_sub, lower_chars, lower_seq};
use crate::import_granularity::render::comma_join;

verus! {

#[derive(Debug, Clone, Copy, PartialEq, Eq, Structural)]
pub enum Style {
    /// No-op: the rule reports nothing.
    Preserve,
    /// Every trait name in ASCII-case-insensitive alphabetical order.
    Alphabetical,
    /// The configured `prefix` traits first, in the listed order; the
    /// rest alphabetically after.
    PrefixThenAlphabetical,
}

impl Default for Style {
    fn default() -> (s: Self)
        ensures
            s == Style::Preserve,
    {
        Style::Preserve
    }
}

/// The default `prefix` list: common standard-library derives first,
/// then the comparison-trait quartet, then `Hash`.
pub open spec fn default_prefix() -> Seq<Seq<char>> {
    seq![
        "Debug"@,
        "Default"@,
        "Clone"@,
        "Copy"@,
        "PartialEq"@,
        "Eq"@,
        "PartialOrd"@,
        "Ord"@,
        "Hash"@,
    ]
}

pub struct Config {
    /// Ordering policy; `preserve` by default, which reports nothing.
    pub style: Style,
    /// Trait names that go first under `prefix_then_alphabetical`, in
    /// order. Ignored under other styles.
    pub prefix: Vec<String>,
}

impl Default for Config {
    fn default() -> (c: Self)
        ensures
            c.style == Style::Preserve,
            views(c.prefix@) == default_prefix(),
    {
        let names = [
            "Debug",
            "Default",
            "Clone",
            "Copy",
            "PartialEq",
            "Eq",
            "PartialOrd",
            "Ord",
            "Hash",
        ];
        let mut prefix: Vec<String> = Vec::new();
        let mut i: usize = 0;
        while i < 9
            invariant
                i <= 9,
                names@ == seq![
                    "Debug",
                    "Default",
                    "Clone",
                    "Copy",
                    "PartialEq",
                    "Eq",
                    "PartialOrd",
                    "Ord",
                    "Hash",
                ],
                views(prefix@) == default_prefix().take(i as int),
            decreases 9 - i,
        {
            let ghost before = prefix@;
            let s = names[i].to_owned();
            prefix.push(s);
            assert(views(prefix@) =~= views(before).push(names@[i as int]@));
            assert(default_prefix().take(i + 1) =~= default_prefix().take(i as int).push(default_prefix()[i as int]));
            i = i + 1;
        }
        assert(default_prefix().take(9) =~= default_prefix());
        Config { style: Style::Preserve, prefix }
    }
}

/// One trait of a `#[derive(...)]` list.
pub struct DeriveEntry {
    /// The final segment of the entry's path: `serde::Deserialize` is
    /// `Deserialize`.
    pub final_name: String,
    /// The entry's full source text, when the source map gives it.
    pub snippet: Option<String>,
}

pub struct DeriveOrdering {
    style: Style,
    prefix: Vec<String>,
}

/// The final names of `entries`.
pub open spec fn names_of(entries: Seq<DeriveEntry>) -> Seq<Seq<char>> {
    entries.map_values(|e: DeriveEntry| e.final_name@)
}

/// The ASCII-case-insensitive order of two names, with the position
/// breaking ties: what a stable sort by that order leaves in place.
pub open spec fn idx_lt(names: Seq<Seq<char>>, a: int, b: int) -> bool {
    ||| seq_lt(lower_seq(names[a]), lower_seq(names[b]))
    ||| lower_seq(names[a]) == lower_seq(names[b]) && a < b
}

/// `r` lists distinct positions of `names` in ascending [`idx_lt`] order.
pub open spec fn sorted_positions(names: Seq<Seq<char>>, r: Seq<usize>) -> bool {
    &&& forall|k: int| 0 <= k < r.len() ==> (#[trigger] r[k]) < names.len()
    &&& forall|a: int, b: int| 0 <= a < b < r.len() ==> idx_lt(names, #[trigger] r[a] as int, #[trigger] r[b] as int)
}

/// The ASCII-case-insensitive comparison of `a` and `b`, byte by byte.
pub open spec fn ci_ordering(a: Seq<char>, b: Seq<char>) -> Ordering {
    if seq_lt(lower_seq(a), lower_seq(b)) {
        Ordering::Less
    } else if lower_seq(a) == lower_seq(b) {
        Ordering::Equal
    } else {
        Ordering::Greater
    }
}

/// Compares `left` and `right` in ASCII-case-insensitive alphabetical
/// order: each byte lowered, then compared as `str`'s `Ord` does.
/// Lowering ASCII bytes and lowering ASCII characters agree, and UTF-8
/// keeps code-point order, so this is the character-wise order of the
/// lowered texts.
pub fn ascii_ci_cmp(left: &str, right: &str) -> (r: Ordering)
    ensures
        r == ci_ordering(left@, right@),
{
    let l = lower_chars(chars_of(left).as_slice());
    let r = lower_chars(chars_of(right).as_slice());
    if chars_lt(l.as_slice(), r.as_slice()) {
        Ordering::Less
    } else if chars_lt(r.as_slice(), l.as_slice()) {
        proof {
            lemma_seq_lt_trichotomy(l@, r@);
        }
        Ordering::Greater
    } else {
        proof {
            lemma_seq_lt_trichotomy(l@, r@);
        }
        Ordering::Equal
    }
}

/// Law: [`ascii_ci_cmp`] is `str`'s order on the texts with their ASCII
/// letters lowered (`to_ascii_lowercase`): the byte-wise order of their
/// UTF-8 encodings.
pub proof fn lemma_case_blind_order_is_str_order(a: Seq<char>, b: Seq<char>)
    ensures
        ci_ordering(a, b) == if bytes_lt(encode_utf8(lower_seq(a)), encode_utf8(lower_seq(b))) {
            Ordering::Less
        } else if encode_utf8(lower_seq(a)) == encode_utf8(lower_seq(b)) {
            Ordering::Equal
        } else {
            Ordering::Greater
        },
{
    lemma_char_order_is_byte_order(lower_seq(a), lower_seq(b));
}

/// Whether `permutation` leaves every position in place.
pub fn is_identity(permutation: &[usize]) -> (r: bool)
    ensures
        r == forall|k: int| 0 <= k < permutation@.len() ==> #[trigger] permutation@[k] == k,
{
    let mut k: usize = 0;
    while k < permutation.len()
        invariant
            k <= permutation@.len(),
            forall|j: int| 0 <= j < k ==> #[trigger] permutation@[j] == j,
        decreases permutation@.len() - k,
    {
        if permutation[k] != k {
            return false;
        }
        k = k + 1;
    }
    true
}

/// The positions the configured prefix picks, in prefix order: for each
/// prefix name, the first position not yet picked whose name matches.
/// A prefix name with no such position is skipped.
pub open spec fn prefix_picks(names: Seq<Seq<char>>, prefix: Seq<Seq<char>>) -> Seq<usize>
    decreases prefix.len(),
{
    if prefix.len() == 0 {
        Seq::empty()
    } else {
        let before = prefix_picks(names, prefix.drop_last());
        let p = prefix.last();
        if exists|i: int| 0 <= i < names.len() && names[i] == p && !before.contains(i as usize) {
            let i = choose|i: int|
                0 <= i < names.len() && names[i] == p && !before.contains(i as usize) && forall|j: int|
                    0 <= j < i ==> !(names[j] == p && !before.contains(j as usize));
            before.push(i as usize)
        } else {
            before
        }
    }
}

/// The least position not in `picked` whose name is `p`, when there is
/// one.
proof fn lemma_least_unpicked(names: Seq<Seq<char>>, picked: Seq<usize>, p: Seq<char>)
    requires
        exists|i: int| 0 <= i < names.len() && names[i] == p && !picked.contains(i as usize),
    ensures
        exists|i: int|
            0 <= i < names.len() && names[i] == p && !picked.contains(i as usize) && forall|j: int|
                0 <= j < i ==> !(names[j] == p && !picked.contains(j as usize)),
    decreases names.len(),
{
    let w = choose|i: int| 0 <= i < names.len() && names[i] == p && !picked.contains(i as usize);
    lemma_least_below(names, picked, p, w);
}

proof fn lemma_least_below(names: Seq<Seq<char>>, picked: Seq<usize>, p: Seq<char>, w: int)
    requires
        0 <= w < names.len() && names[w] == p && !picked.contains(w as usize),
    ensures
        exists|i: int|
            0 <= i < names.len() && names[i] == p && !picked.contains(i as usize) && forall|j: int|
                0 <= j < i ==> !(names[j] == p && !picked.contains(j as usize)),
    decreases w,
{
    if exists|j: int| 0 <= j < w && names[j] == p && !picked.contains(j as usize) {
        let j = choose|j: int| 0 <= j < w && names[j] == p && !picked.contains(j as usize);
        lemma_least_below(names, picked, p, j);
    } else {
        assert(forall|j: int| 0 <= j < w ==> !(names[j] == p && !picked.contains(j as usize)));
    }
}

pub open spec fn identity(n: nat) -> Seq<usize> {
    Seq::new(n, |i: int| i as usize)
}

impl DeriveOrdering {
    pub closed spec fn style_of(&self) -> Style {
        self.style
    }

    pub closed spec fn prefix_of(&self) -> Seq<Seq<char>> {
        views(self.prefix@)
    }

    pub fn new(config: Config) -> (r: Self)
        ensures
            r.style_of() == config.style,
            r.prefix_of() == views(config.prefix@),
    {
        DeriveOrdering { style: config.style, prefix: config.prefix }
    }

    /// What [`Self::desired_order`] returns.
    pub open spec fn desired_ok(&self, names: Seq<Seq<char>>, r: Seq<usize>) -> bool {
        match self.style_of() {
            Style::Preserve => r == identity(names.len()),
            Style::Alphabetical => {
                &&& sorted_positions(names, r)
                &&& forall|i: usize| i < names.len() ==> #[trigger] r.contains(i)
            },
            Style::PrefixThenAlphabetical => {
                let picks = prefix_picks(names, self.prefix_of());
                &&& picks.len() <= r.len()
                &&& r.take(picks.len() as int) == picks
                &&& sorted_positions(names, r.skip(picks.len() as int))
                &&& forall|k: int| picks.len() <= k < r.len() ==> !picks.contains(#[trigger] r[k])
                &&& forall|i: usize| i < names.len() && !picks.contains(i) ==> #[trigger] r.skip(
                    picks.len() as int,
                ).contains(i)
            },
        }
    }

    /// A permutation of the positions of `entries` giving the order the
    /// style asks for; the identity when they are already in order. Ties
    /// keep their written order.
    pub fn desired_order(&self, entries: &[DeriveEntry]) -> (r: Vec<usize>)
        ensures
            self.desired_ok(names_of(entries@), r@),
    {
        let ghost names = names_of(entries@);
        let n = entries.len();
        match self.style {
            Style::Preserve => {
                let mut r: Vec<usize> = Vec::new();
                let mut i: usize = 0;
                while i < n
                    invariant
                        i <= n,
                        r@ == identity(i as nat),
                    decreases n - i,
                {
                    r.push(i);
                    assert(r@ =~= identity((i + 1) as nat));
                    i = i + 1;
                }
                assert(names.len() == n);
                r
            },
            Style::Alphabetical => {
                let mut all: Vec<usize> = Vec::new();
                let mut i: usize = 0;
                while i < n
                    invariant
                        i <= n,
                        all@ == identity(i as nat),
                    decreases n - i,
                {
                    all.push(i);
                    assert(all@ =~= identity((i + 1) as nat));
                    i = i + 1;
                }
                let r = sort_positions(entries, &all);
                proof {
                    assert forall|i: usize| i < names.len() implies #[trigger] r@.contains(i) by {
                        assert(all@[i as int] == i);
                        assert(all@.to_set().contains(i));
                        assert(r@.to_set().contains(i));
                    }
                }
                r
            },
            Style::PrefixThenAlphabetical => {
                let mut used: Vec<bool> = Vec::new();
                let mut i: usize = 0;
                while i < n
                    invariant
                        i <= n,
                        used@.len() == i,
                        forall|k: int| 0 <= k < i ==> !used@[k],
                    decreases n - i,
                {
                    used.push(false);
                    i = i + 1;
                }
                let mut order: Vec<usize> = Vec::new();
                let mut p: usize = 0;
                while p < self.prefix.len()
                    invariant
                        p <= self.prefix@.len(),
                        n == entries@.len(),
                        names == names_of(entries@),
                        used@.len() == n,
                        order@ == prefix_picks(names, views(self.prefix@).take(p as int)),
                        forall|k: int| 0 <= k < n ==> (used@[k] <==> order@.contains(k as usize)),
                    decreases self.prefix@.len() - p,
                {
                    let ghost before = order@;
                    let ghost pref = views(self.prefix@).take(p + 1);
                    assert(pref.drop_last() =~= views(self.prefix@).take(p as int));
                    assert(pref.last() == self.prefix@[p as int]@);
                    let mut idx: usize = 0;
                    while idx < n && !matches_unused(&used, entries, idx, &self.prefix[p])
                        invariant
                            idx <= n,
                            p < self.prefix@.len(),
                            n == entries@.len(),
                            names == names_of(entries@),
                            used@.len() == n,
                            forall|j: int| 0 <= j < idx ==> !(names[j] == self.prefix@[p as int]@ && !before.contains(j as usize)),
                            forall|k: int| 0 <= k < n ==> (used@[k] <==> before.contains(k as usize)),
                        decreases n - idx,
                    {
                        idx = idx + 1;
                    }
                    if idx < n {
                        proof {
                            assert(names[idx as int] == self.prefix@[p as int]@);
                            let c = choose|i: int|
                                0 <= i < names.len() && names[i] == pref.last() && !before.contains(i as usize) && forall|j: int|
                                    0 <= j < i ==> !(names[j] == pref.last() && !before.contains(j as usize));
                            lemma_least_unpicked(names, before, pref.last());
                            assert(c == idx);
                        }
                        order.push(idx);
                        used.set(idx, true);
                        proof {
                            assert forall|k: int| 0 <= k < n implies (used@[k] <==> order@.contains(k as usize)) by {
                                if k == idx {
                                    assert(order@[order@.len() - 1] == idx);
                                } else {
                                    if order@.contains(k as usize) {
                                        let j = choose|j: int| 0 <= j < order@.len() && order@[j] == k as usize;
                                        assert(j < before.len());
                                        assert(before[j] == k as usize);
                                    }
                                    if before.contains(k as usize) {
                                        let j = choose|j: int| 0 <= j < before.len() && before[j] == k as usize;
                                        assert(order@[j] == k as usize);
                                    }
                                }
                            }
                        }
                    } else {
                        assert(!(exists|i: int| 0 <= i < names.len() && names[i] == pref.last() && !before.contains(i as usize)));
                    }
                    p = p + 1;
                }
                assert(views(self.prefix@).take(self.prefix@.len() as int) =~= views(self.prefix@));
                let ghost picks = order@;
                let mut rest: Vec<usize> = Vec::new();
                let mut i: usize = 0;
                while i < n
                    invariant
                        i <= n,
                        used@.len() == n,
                        forall|k: int| 0 <= k < rest@.len() ==> (#[trigger] rest@[k]) < i && !used@[rest@[k] as int],
                        forall|a: int, b: int| 0 <= a < b < rest@.len() ==> (#[trigger] rest@[a]) < (#[trigger] rest@[b]),
                        forall|k: int| 0 <= k < i && !used@[k] ==> rest@.contains(k as usize),
                    decreases n - i,
                {
                    let ghost old_rest = rest@;
                    if !used[i] {
                        rest.push(i);
                        assert(rest@[rest@.len() - 1] == i);
                    }
                    proof {
                        assert forall|k: int| 0 <= k < i + 1 && !used@[k] implies rest@.contains(k as usize) by {
                            if k < i {
                                let j = choose|j: int| 0 <= j < old_rest.len() && old_rest[j] == k as usize;
                                assert(rest@[j] == k as usize);
                            }
                        }
                    }
                    i = i + 1;
                }
                let sorted = sort_positions(entries, &rest);
                let mut k: usize = 0;
                let ghost start = order@;
                while k < sorted.len()
                    invariant
                        k <= sorted@.len(),
                        order@ == start + sorted@.take(k as int),
                    decreases sorted@.len() - k,
                {
                    order.push(sorted[k]);
                    assert(order@ =~= start + sorted@.take(k + 1));
                    k = k + 1;
                }
                assert(sorted@.take(sorted@.len() as int) =~= sorted@);
                proof {
                    assert(order@.take(picks.len() as int) =~= picks);
                    assert(order@.skip(picks.len() as int) =~= sorted@);
                    assert forall|k: int| picks.len() <= k < order@.len() implies !picks.contains(#[trigger] order@[k]) by {
                        assert(sorted@[k - picks.len()] == order@[k]);
                        assert(sorted@.to_set().contains(order@[k]));
                        assert(rest@.to_set().contains(order@[k]));
                        let j = choose|j: int| 0 <= j < rest@.len() && rest@[j] == order@[k];
                        assert(!used@[rest@[j] as int]);
                    }
                    assert forall|i: usize| i < names.len() && !picks.contains(i) implies #[trigger] order@.skip(
                        picks.len() as int,
                    ).contains(i) by {
                        assert(!used@[i as int]);
                        assert(rest@.contains(i));
                        assert(rest@.to_set().contains(i));
                        assert(sorted@.to_set().contains(i));
                    }
                }
                order
            },
        }
    }

    pub open spec fn report_spec(&self, entries: Seq<DeriveEntry>, order: Seq<usize>, multiline: bool, replaced: Option<Seq<char>>) -> DiagnosticModel {
        DiagnosticModel {
            message: if self.style_of() == Style::Alphabetical {
                "derive list is not in ASCII-case-insensitive alphabetical order"@
            } else {
                "derive list does not match the configured `prefix_then_alphabetical` order"@
            },
            parts: seq![PartModel::Suggest(SuggestionModel {
                message: "reorder the derive list"@,
                replacement: comma_join(order.map_values(|i: usize| entry_text(entries[i as int]))),
                appended: None,
                applicability: if multiline || has_comment(replaced) {
                    Applicability::MaybeIncorrect
                } else {
                    Applicability::MachineApplicable
                },
            })],
        }
    }

    /// Checks one `#[derive(...)]` list. Nothing under `preserve`, for
    /// fewer than two entries, or when the list is already in order;
    /// otherwise a finding whose suggestion rewrites the list in the
    /// desired order, entries joined by `, `. The rewrite replaces the
    /// whole list on one line, so it is `MaybeIncorrect` when the list
    /// spans several lines (`multiline`) or `replaced`, its text, holds a
    /// comment.
    pub fn check_derive_list(&self, entries: &[DeriveEntry], multiline: bool, replaced: Option<&str>) -> (r: Option<Diagnostic>)
        ensures
            match r {
                None => self.style_of() == Style::Preserve || entries@.len() < 2 || exists|order: Seq<usize>|
                    self.desired_ok(names_of(entries@), order) && order == identity(entries@.len()),
                Some(d) => self.style_of() != Style::Preserve && entries@.len() >= 2 && exists|order: Seq<usize>|
                    self.desired_ok(names_of(entries@), order) && order != identity(entries@.len())
                        && d@ == self.report_spec(entries@, order, multiline, opt_text(replaced)),
            },
    {
        if self.style == Style::Preserve || entries.len() < 2 {
            return None;
        }
        let desired = self.desired_order(entries);
        proof {
            lemma_desired_covers(self, names_of(entries@), desired@);
        }
        if is_identity(desired.as_slice()) {
            proof {
                let n = entries@.len();
                let names = names_of(entries@);
                if desired@.len() > 0 {
                    assert(desired@[desired@.len() - 1] < n);
                }
                if n > 0 {
                    assert(desired@.contains((n - 1) as usize));
                    let j = choose|j: int| 0 <= j < desired@.len() && desired@[j] == (n - 1) as usize;
                    assert(desired@[j] == j);
                }
                assert(desired@.len() == n);
            }
            assert(desired@ =~= identity(entries@.len()));
            return None;
        }
        assert(desired@ != identity(entries@.len()));
        let ghost order = desired@;
        let mut text: Vec<String> = Vec::new();
        let mut k: usize = 0;
        while k < desired.len()
            invariant
                k <= desired@.len(),
                order == desired@,
                self.desired_ok(names_of(entries@), order),
                forall|j: int| 0 <= j < order.len() ==> #[trigger] order[j] < entries@.len(),
                views(text@) == order.take(k as int).map_values(|i: usize| entry_text(entries@[i as int])),
            decreases desired@.len() - k,
        {
            let i = desired[k];
            assert(order[k as int] < entries@.len());
            let piece = match &entries[i].snippet {
                Some(s) => s.clone(),
                None => entries[i].final_name.clone(),
            };
            let ghost before = text@;
            text.push(piece);
            assert(views(text@) =~= views(before).push(piece@));
            assert(order.take(k + 1).map_values(|i: usize| entry_text(entries@[i as int])) =~= order.take(k as int).map_values(|i: usize| entry_text(entries@[i as int])).push(entry_text(entries@[i as int])));
            k = k + 1;
        }
        assert(order.take(order.len() as int) =~= order);
        let joined = crate::import_granularity::render::join_with_comma(&text);
        let comment = match replaced {
            Some(t) => {
                let c = chars_of(t);
                let slash = vec!['/', '/'];
                let star = vec!['/', '*'];
                assert(slash@ =~= seq!['/', '/']);
                assert(star@ =~= seq!['/', '*']);
                find_sub(c.as_slice(), slash.as_slice()).is_some() || find_sub(c.as_slice(), star.as_slice()).is_some()
            },
            None => false,
        };
        let applicability = if multiline || comment {
            Applicability::MaybeIncorrect
        } else {
            Applicability::MachineApplicable
        };
        let message = if self.style == Style::Alphabetical {
            "derive list is not in ASCII-case-insensitive alphabetical order".to_owned()
        } else {
            "derive list does not match the configured `prefix_then_alphabetical` order".to_owned()
        };
        let d = Diagnostic {
            message,
            parts: vec![Part::Suggest(Suggestion {
                message: "reorder the derive list".to_owned(),
                replacement: joined,
                appended: None,
                applicability,
            })],
        };
        assert(d@.parts =~= self.report_spec(entries@, order, multiline, opt_text(replaced)).parts);
        Some(d)
    }
}

pub open spec fn entry_text(e: DeriveEntry) -> Seq<char> {
    match e.snippet {
        Some(s) => s@,
        None => e.final_name@,
    }
}

pub open spec fn has_comment(text: Option<Seq<char>>) -> bool {
    match text {
        Some(t) => first_sub(t, seq!['/', '/']) >= 0 || first_sub(t, seq!['/', '*']) >= 0,
        None => false,
    }
}

pub open spec fn opt_text(o: Option<&str>) -> Option<Seq<char>> {
    match o {
        Some(s) => Some(s@),
        None => None,
    }
}

proof fn lemma_desired_in_range(d: &DeriveOrdering, names: Seq<Seq<char>>, order: Seq<usize>, k: int)
    requires
        d.desired_ok(names, order),
        0 <= k < order.len(),
    ensures
        order[k] < names.len(),
{
    match d.style_of() {
        Style::Preserve => {},
        Style::Alphabetical => {},
        Style::PrefixThenAlphabetical => {
            let picks = prefix_picks(names, d.prefix_of());
            lemma_picks_in_range(names, d.prefix_of());
            if k < picks.len() {
                assert(order.take(picks.len() as int)[k] == order[k]);
            } else {
                assert(order.skip(picks.len() as int)[k - picks.len()] == order[k]);
            }
        },
    }
}

proof fn lemma_picks_in_range(names: Seq<Seq<char>>, prefix: Seq<Seq<char>>)
    ensures
        forall|k: int| 0 <= k < prefix_picks(names, prefix).len() ==> #[trigger] prefix_picks(names, prefix)[k] < names.len(),
    decreases prefix.len(),
{
    if prefix.len() > 0 {
        lemma_picks_in_range(names, prefix.drop_last());
        let before = prefix_picks(names, prefix.drop_last());
        let p = prefix.last();
        if exists|i: int| 0 <= i < names.len() && names[i] == p && !before.contains(i as usize) {
            lemma_least_unpicked(names, before, p);
        }
    }
}

/// What the desired order holds: positions of the list, each of them.
proof fn lemma_desired_covers(d: &DeriveOrdering, names: Seq<Seq<char>>, order: Seq<usize>)
    requires
        d.desired_ok(names, order),
    ensures
        forall|k: int| 0 <= k < order.len() ==> #[trigger] order[k] < names.len(),
        forall|i: usize| i < names.len() ==> #[trigger] order.contains(i),
{
    assert forall|k: int| 0 <= k < order.len() implies #[trigger] order[k] < names.len() by {
        lemma_desired_in_range(d, names, order, k);
    }
    match d.style_of() {
        Style::Preserve => {
            assert forall|i: usize| i < names.len() implies #[trigger] order.contains(i) by {
                assert(order[i as int] == i);
            }
        },
        Style::Alphabetical => {},
        Style::PrefixThenAlphabetical => {
            let picks = prefix_picks(names, d.prefix_of());
            assert forall|i: usize| i < names.len() implies #[trigger] order.contains(i) by {
                if picks.contains(i) {
                    let j = choose|j: int| 0 <= j < picks.len() && picks[j] == i;
                    assert(order.take(picks.len() as int)[j] == order[j]);
                } else {
                    let sk = order.skip(picks.len() as int);
                    assert(sk.contains(i));
                    let j = choose|j: int| 0 <= j < sk.len() && sk[j] == i;
                    assert(sk[j] == order[j + picks.len()]);
                    assert(order[j + picks.len()] == i as usize);
                }
            }
        },
    }
}

/// Whether position `idx` is not yet picked and carries the name `name`.
fn matches_unused(used: &Vec<bool>, entries: &[DeriveEntry], idx: usize, name: &String) -> (r: bool)
    requires
        idx < used@.len(),
        idx < entries@.len(),
    ensures
        r == (!used@[idx as int] && entries@[idx as int].final_name@ == name@),
{
    !used[idx] && entries[idx].final_name == *name
}

/// The positions `positions` reordered by [`idx_lt`] over the names of
/// `entries`: by ASCII-case-insensitive name, ties in position order.
fn sort_positions(entries: &[DeriveEntry], positions: &Vec<usize>) -> (r: Vec<usize>)
    requires
        forall|k: int| 0 <= k < positions@.len() ==> (#[trigger] positions@[k]) < entries@.len(),
        forall|a: int, b: int| 0 <= a < b < positions@.len() ==> (#[trigger] positions@[a]) != (#[trigger] positions@[b]),
    ensures
        r@.len() == positions@.len(),
        r@.to_set() == positions@.to_set(),
        sorted_positions(names_of(entries@), r@),
{
    let ghost names = names_of(entries@);
    let mut lowered: Vec<Vec<char>> = Vec::new();
    let mut i: usize = 0;
    while i < entries.len()
        invariant
            i <= entries@.len(),
            names == names_of(entries@),
            lowered@.len() == i,
            forall|k: int| 0 <= k < i ==> (#[trigger] lowered@[k])@ == lower_seq(names[k]),
        decreases entries@.len() - i,
    {
        lowered.push(lower_chars(chars_of(entries[i].final_name.as_str()).as_slice()));
        i = i + 1;
    }
    let mut out: Vec<usize> = Vec::new();
    let mut i: usize = 0;
    while i < positions.len()
        invariant
            i <= positions@.len(),
            names == names_of(entries@),
            lowered@.len() == entries@.len(),
            forall|k: int| 0 <= k < entries@.len() ==> (#[trigger] lowered@[k])@ == lower_seq(names[k]),
            forall|k: int| 0 <= k < positions@.len() ==> (#[trigger] positions@[k]) < entries@.len(),
            forall|a: int, b: int| 0 <= a < b < positions@.len() ==> (#[trigger] positions@[a]) != (#[trigger] positions@[b]),
            out@.len() == i,
            out@.to_set() == positions@.take(i as int).to_set(),
            sorted_positions(names, out@),
        decreases positions@.len() - i,
    {
        let x = positions[i];
        let ghost o = out@;
        let mut p: usize = 0;
        while p < out.len() && position_before(&lowered, out[p], x)
            invariant
                p <= out@.len(),
                o == out@,
                names == names_of(entries@),
                x < entries@.len(),
                lowered@.len() == entries@.len(),
                forall|k: int| 0 <= k < entries@.len() ==> (#[trigger] lowered@[k])@ == lower_seq(names[k]),
                sorted_positions(names, out@),
                forall|q: int| 0 <= q < p ==> idx_lt(names, #[trigger] o[q] as int, x as int),
            decreases out@.len() - p,
        {
            assert(o[p as int] < names.len());
            assert(lowered@[o[p as int] as int]@ == lower_seq(names[o[p as int] as int]));
            assert(lowered@[x as int]@ == lower_seq(names[x as int]));
            assert(idx_lt(names, o[p as int] as int, x as int));
            p = p + 1;
        }
        proof {
            if p < o.len() {
                assert(o[p as int] < names.len());
                assert(lowered@[o[p as int] as int]@ == lower_seq(names[o[p as int] as int]));
                assert(lowered@[x as int]@ == lower_seq(names[x as int]));
            }
            assert(!positions@.take(i as int).contains(x)) by {
                if positions@.take(i as int).contains(x) {
                    let j = choose|j: int| 0 <= j < i && positions@.take(i as int)[j] == x;
                    assert(positions@[j] == positions@[i as int]);
                }
            }
            assert(!o.contains(x)) by {
                if o.contains(x) {
                    let j = choose|j: int| 0 <= j < o.len() && o[j] == x;
                    assert(o.to_set().contains(x));
                }
            }
            if p < o.len() {
                assert(!idx_lt(names, o[p as int] as int, x as int));
                assert(o[p as int] != x);
                lemma_idx_total(names, o[p as int] as int, x as int);
            }
        }
        out.insert(p, x);
        proof {
            let nn = out@;
            assert(nn =~= o.insert(p as int, x));
            assert forall|a: int, b: int| 0 <= a < b < nn.len() implies idx_lt(names, #[trigger] nn[a] as int, #[trigger] nn[b] as int) by {
                if b < p {
                    assert(nn[a] == o[a] && nn[b] == o[b]);
                } else if b == p {
                    assert(nn[a] == o[a]);
                } else if a == p {
                    assert(nn[b] == o[b - 1]);
                    if b - 1 > p {
                        lemma_idx_transitive(names, x as int, o[p as int] as int, o[b - 1] as int);
                    }
                } else if a < p {
                    assert(nn[a] == o[a] && nn[b] == o[b - 1]);
                    if b - 1 > p {
                        lemma_idx_transitive(names, x as int, o[p as int] as int, o[b - 1] as int);
                    }
                    lemma_idx_transitive(names, o[a] as int, x as int, o[b - 1] as int);
                } else {
                    assert(nn[a] == o[a - 1] && nn[b] == o[b - 1]);
                }
            }
            assert forall|k: int| 0 <= k < nn.len() implies (#[trigger] nn[k]) < names.len() by {
                if k < p {
                    assert(nn[k] == o[k]);
                } else if k > p {
                    assert(nn[k] == o[k - 1]);
                }
            }
            let pt1 = positions@.take(i + 1);
            let pt0 = positions@.take(i as int);
            assert(pt1 =~= pt0.push(x));
            assert(nn.to_set() =~= pt1.to_set()) by {
                assert forall|y: usize| nn.to_set().contains(y) implies pt1.to_set().contains(y) by {
                    let k = choose|k: int| 0 <= k < nn.len() && nn[k] == y;
                    if k == p {
                        assert(pt1[i as int] == y);
                    } else {
                        let kk = if k < p { k } else { k - 1 };
                        assert(o[kk] == y);
                        assert(o.to_set().contains(y));
                        let j = choose|j: int| 0 <= j < i && pt0[j] == y;
                        assert(pt1[j] == y);
                    }
                }
                assert forall|y: usize| pt1.to_set().contains(y) implies nn.to_set().contains(y) by {
                    let j = choose|j: int| 0 <= j < i + 1 && pt1[j] == y;
                    if j == i {
                        assert(nn[p as int] == y);
                    } else {
                        assert(pt0[j] == y);
                        assert(o.to_set().contains(y));
                        let k = choose|k: int| 0 <= k < o.len() && o[k] == y;
                        if k < p {
                            assert(nn[k] == y);
                        } else {
                            assert(nn[k + 1] == y);
                        }
                    }
                }
            }
        }
        i = i + 1;
    }
    assert(positions@.take(positions@.len() as int) =~= positions@);
    out
}

/// Whether position `a` sorts before position `b` by [`idx_lt`].
fn position_before(lowered: &Vec<Vec<char>>, a: usize, b: usize) -> (r: bool)
    requires
        a < lowered@.len(),
        b < lowered@.len(),
    ensures
        r == (seq_lt(lowered@[a as int]@, lowered@[b as int]@) || (lowered@[a as int]@ == lowered@[b as int]@ && a < b)),
{
    if chars_lt(lowered[a].as_slice(), lowered[b].as_slice()) {
        return true;
    }
    if chars_lt(lowered[b].as_slice(), lowered[a].as_slice()) {
        proof {
            lemma_seq_lt_trichotomy(lowered@[a as int]@, lowered@[b as int]@);
        }
        return false;
    }
    proof {
        lemma_seq_lt_trichotomy(lowered@[a as int]@, lowered@[b as int]@);
    }
    a < b
}

proof fn lemma_idx_total(names: Seq<Seq<char>>, a: int, b: int)
    requires
        a != b,
    ensures
        idx_lt(names, a, b) || idx_lt(names, b, a),
        !(idx_lt(names, a, b) && idx_lt(names, b, a)),
{
    lemma_seq_lt_trichotomy(lower_seq(names[a]), lower_seq(names[b]));
}

proof fn lemma_idx_transitive(names: Seq<Seq<char>>, a: int, b: int, c: int)
    requires
        idx_lt(names, a, b),
        idx_lt(names, b, c),
    ensures
        idx_lt(names, a, c),
{
    let (la, lb, lc) = (lower_seq(names[a]), lower_seq(names[b]), lower_seq(names[c]));
    if seq_lt(la, lb) && seq_lt(lb, lc) {
        lemma_seq_lt_transitive(la, lb, lc);
    }
}

/// The positions the prefix picks are distinct.
proof fn lemma_picks_distinct(names: Seq<Seq<char>>, prefix: Seq<Seq<char>>)
    ensures
        forall|a: int, b: int|
            0 <= a < b < prefix_picks(names, prefix).len() ==> #[trigger] prefix_picks(names, prefix)[a]
                != #[trigger] prefix_picks(names, prefix)[b],
    decreases prefix.len(),
{
    if prefix.len() > 0 {
        lemma_picks_distinct(names, prefix.drop_last());
        let before = prefix_picks(names, prefix.drop_last());
        let p = prefix.last();
        if exists|i: int| 0 <= i < names.len() && names[i] == p && !before.contains(i as usize) {
            lemma_least_unpicked(names, before, p);
            let picks = prefix_picks(names, prefix);
            assert forall|a: int, b: int| 0 <= a < b < picks.len() implies #[trigger] picks[a] != #[trigger] picks[b] by {
                if b == before.len() {
                    assert(picks[a] == before[a]);
                }
            }
        }
    }
}

/// The least unpicked position of the rewritten list named `p` is `m`,
/// when `order` puts there a position named `p`.
proof fn lemma_repick_found(names: Seq<Seq<char>>, order: Seq<usize>, m: int, p: Seq<char>)
    requires
        0 <= m < order.len() <= usize::MAX,
        names[order[m] as int] == p,
    ensures
        exists|i: int| 0 <= i < reordered(names, order).len() && reordered(names, order)[i] == p && !identity(m as nat).contains(i as usize),
        forall|c: int|
            0 <= c < reordered(names, order).len() && reordered(names, order)[c] == p && !identity(m as nat).contains(c as usize)
                && (forall|j: int| 0 <= j < c ==> !(reordered(names, order)[j] == p && !identity(m as nat).contains(j as usize))) ==> c == m,
{
    let n2 = reordered(names, order);
    let id_m = identity(m as nat);
    assert(n2.len() == order.len());
    assert(n2[m] == p);
    assert(!id_m.contains(m as usize)) by {
        if id_m.contains(m as usize) {
            let k = choose|k: int| 0 <= k < id_m.len() && id_m[k] == m as usize;
            assert(id_m[k] == k as usize);
        }
    }
    assert forall|c: int|
        0 <= c < n2.len() && n2[c] == p && !id_m.contains(c as usize)
            && (forall|j: int| 0 <= j < c ==> !(n2[j] == p && !id_m.contains(j as usize))) implies c == m by {
        if c < m {
            assert(id_m[c] == c as usize);
        } else if c > m {
            assert(!(n2[m] == p && !id_m.contains(m as usize)));
        }
    }
}

/// No unpicked position of the rewritten list is named `p` when no
/// unpicked position of the list is.
proof fn lemma_repick_skipped(names: Seq<Seq<char>>, order: Seq<usize>, before: Seq<usize>, p: Seq<char>)
    requires
        before.len() <= order.len() <= usize::MAX,
        forall|k: int| 0 <= k < before.len() ==> #[trigger] order[k] == before[k],
        forall|k: int| 0 <= k < order.len() ==> #[trigger] order[k] < names.len(),
        forall|a: int, b: int| 0 <= a < b < order.len() ==> #[trigger] order[a] != #[trigger] order[b],
        !exists|i: int| 0 <= i < names.len() && names[i] == p && !before.contains(i as usize),
    ensures
        !exists|i: int| 0 <= i < reordered(names, order).len() && reordered(names, order)[i] == p
            && !identity(before.len()).contains(i as usize),
{
    let n2 = reordered(names, order);
    let m = before.len();
    let id_m = identity(m);
    assert forall|i: int| 0 <= i < n2.len() && n2[i] == p implies id_m.contains(i as usize) by {
        if i >= m {
            if before.contains(order[i]) {
                let j = choose|j: int| 0 <= j < before.len() && before[j] == order[i];
                assert(order[j] == order[i]);
            }
            assert(names[order[i] as int] == p);
            assert(false);
        } else {
            assert(id_m[i] == i as usize);
        }
    }
}

/// Picking again, in the rewritten list, with the names of a prefix
/// whose picks open `order`: the picks are the first positions, in
/// turn.
#[verifier::rlimit(50)]
proof fn lemma_repick(names: Seq<Seq<char>>, order: Seq<usize>, prefix: Seq<Seq<char>>, full: Seq<usize>)
    requires
        full.len() <= order.len() <= usize::MAX,
        names.len() <= usize::MAX,
        order.take(full.len() as int) == full,
        prefix_picks(names, prefix).len() <= full.len(),
        full.take(prefix_picks(names, prefix).len() as int) == prefix_picks(names, prefix),
        forall|k: int| 0 <= k < order.len() ==> #[trigger] order[k] < names.len(),
        forall|a: int, b: int| 0 <= a < b < order.len() ==> #[trigger] order[a] != #[trigger] order[b],
    ensures
        prefix_picks(reordered(names, order), prefix) == identity(prefix_picks(names, prefix).len()),
    decreases prefix.len(),
{
    let n2 = reordered(names, order);
    if prefix.len() == 0 {
        assert(identity(0) =~= Seq::<usize>::empty());
    } else {
        let before = prefix_picks(names, prefix.drop_last());
        let picks = prefix_picks(names, prefix);
        let p = prefix.last();
        let m = before.len();
        let found = exists|i: int| 0 <= i < names.len() && names[i] == p && !before.contains(i as usize);
        if found {
            assert(picks.take(m as int) =~= before);
        } else {
            assert(picks == before);
        }
        assert(full.take(m as int) =~= before) by {
            assert(full.take(picks.len() as int).take(m as int) =~= full.take(m as int));
        }
        lemma_repick(names, order, prefix.drop_last(), full);
        let id_m = identity(m);
        assert forall|k: int| 0 <= k < m implies #[trigger] order[k] == before[k] by {
            assert(order.take(full.len() as int)[k] == order[k]);
            assert(full.take(m as int)[k] == full[k]);
        }
        if found {
            let w = choose|i: int|
                0 <= i < names.len() && names[i] == p && !before.contains(i as usize) && forall|j: int|
                    0 <= j < i ==> !(names[j] == p && !before.contains(j as usize));
            lemma_least_unpicked(names, before, p);
            assert(picks == before.push(w as usize));
            assert(order[m as int] == w as usize) by {
                assert(full.take(picks.len() as int)[m as int] == full[m as int]);
                assert(order.take(full.len() as int)[m as int] == order[m as int]);
            }
            lemma_repick_found(names, order, m as int, p);
            lemma_least_unpicked(n2, id_m, p);
            assert(prefix_picks(n2, prefix) == id_m.push(m as usize));
            assert(id_m.push(m as usize) =~= identity(m + 1));
        } else {
            lemma_repick_skipped(names, order, before, p);
        }
    }
}

/// The names of a list in the order `order` gives.
pub open spec fn reordered(names: Seq<Seq<char>>, order: Seq<usize>) -> Seq<Seq<char>> {
    order.map_values(|i: usize| names[i as int])
}

/// Law: under `alphabetical` style, a derive list rewritten in the order
/// the rule suggests is already in order — checking it again finds the
/// identity order, so the rule reports it no more.
pub proof fn lemma_alphabetical_fix_is_stable(d: &DeriveOrdering, names: Seq<Seq<char>>, order: Seq<usize>, again: Seq<usize>)
    requires
        d.style_of() == Style::Alphabetical,
        d.desired_ok(names, order),
        d.desired_ok(reordered(names, order), again),
        order.len() <= usize::MAX,
    ensures
        again == identity(order.len()),
{
    let n2 = reordered(names, order);
    let m = order.len();
    let id = identity(m);
    let lt = |a: usize, b: usize| idx_lt(n2, a as int, b as int);
    assert forall|a: int, b: int| 0 <= a < b < id.len() implies lt(#[trigger] id[a], #[trigger] id[b]) by {
        assert(id[a] as int == a && id[b] as int == b);
        assert(idx_lt(names, order[a] as int, order[b] as int));
        assert(n2[a] == names[order[a] as int] && n2[b] == names[order[b] as int]);
    }
    assert forall|a: usize, b: usize| #[trigger] lt(a, b) implies !lt(b, a) by {
        if a != b {
            lemma_idx_total(n2, a as int, b as int);
        } else {
            lemma_seq_lt_irreflexive(lower_seq(n2[a as int]));
        }
    }
    assert forall|a: usize, b: usize| a != b implies #[trigger] lt(a, b) || lt(b, a) by {
        lemma_idx_total(n2, a as int, b as int);
    }
    assert forall|a: int, b: int| 0 <= a < b < again.len() implies lt(#[trigger] again[a], #[trigger] again[b]) by {}
    assert forall|v: usize| again.to_set().contains(v) <==> id.to_set().contains(v) by {
        if again.to_set().contains(v) {
            let k = choose|k: int| 0 <= k < again.len() && again[k] == v;
            assert(v < n2.len());
            assert(id[v as int] == v);
        }
        if id.to_set().contains(v) {
            let k = choose|k: int| 0 <= k < id.len() && id[k] == v;
            assert(v < n2.len());
            assert(again.contains(v));
        }
    }
    assert(again.to_set() =~= id.to_set());
    crate::ordering::lemma_sorted_unique_by(again, id, lt);
}

/// An order the prefix style asks for lists each position once.
proof fn lemma_prefix_order_distinct(d: &DeriveOrdering, names: Seq<Seq<char>>, order: Seq<usize>)
    requires
        d.style_of() == Style::PrefixThenAlphabetical,
        d.desired_ok(names, order),
    ensures
        forall|a: int, b: int| 0 <= a < b < order.len() ==> #[trigger] order[a] != #[trigger] order[b],
{
    let picks = prefix_picks(names, d.prefix_of());
    let m = picks.len() as int;
    let tail = order.skip(m);
    lemma_picks_distinct(names, d.prefix_of());
    assert forall|a: int, b: int| 0 <= a < b < order.len() implies #[trigger] order[a] != #[trigger] order[b] by {
        if b < m {
            assert(order.take(m)[a] == order[a] && order.take(m)[b] == order[b]);
        } else if a < m {
            assert(order.take(m)[a] == order[a]);
            assert(picks.contains(order[a]));
        } else {
            assert(tail[a - m] == order[a] && tail[b - m] == order[b]);
            assert(idx_lt(names, tail[a - m] as int, tail[b - m] as int));
            lemma_seq_lt_irreflexive(lower_seq(names[order[a] as int]));
        }
    }
}

/// Law: under `prefix_then_alphabetical` style, a derive list rewritten
/// in the order the rule suggests is already in order — checking it
/// again finds the identity order, so the rule reports it no more.
#[verifier::rlimit(30)]
pub proof fn lemma_prefix_fix_is_stable(d: &DeriveOrdering, names: Seq<Seq<char>>, order: Seq<usize>, again: Seq<usize>)
    requires
        d.style_of() == Style::PrefixThenAlphabetical,
        d.desired_ok(names, order),
        d.desired_ok(reordered(names, order), again),
        order.len() <= usize::MAX,
        names.len() <= usize::MAX,
    ensures
        again == identity(order.len()),
{
    let prefix = d.prefix_of();
    let picks = prefix_picks(names, prefix);
    let m = picks.len();
    let n2 = reordered(names, order);
    let len = order.len();
    lemma_desired_covers(d, names, order);
    lemma_prefix_order_distinct(d, names, order);
    assert(picks.take(m as int) =~= picks);
    lemma_repick(names, order, prefix, picks);
    let id_m = identity(m);
    assert(prefix_picks(n2, prefix) == id_m);
    let t2 = again.skip(m as int);
    let id_tail = Seq::new((len - m) as nat, |i: int| (m + i) as usize);
    let lt = |a: usize, b: usize| idx_lt(n2, a as int, b as int);
    let tail = order.skip(m as int);
    assert forall|a: int, b: int| 0 <= a < b < id_tail.len() implies lt(#[trigger] id_tail[a], #[trigger] id_tail[b]) by {
        assert(id_tail[a] as int == m + a && id_tail[b] as int == m + b);
        assert(tail[a] == order[m + a] && tail[b] == order[m + b]);
        assert(idx_lt(names, tail[a] as int, tail[b] as int));
        assert(n2[m + a] == names[order[m + a] as int] && n2[m + b] == names[order[m + b] as int]);
    }
    assert forall|a: usize, b: usize| #[trigger] lt(a, b) implies !lt(b, a) by {
        if a != b {
            lemma_idx_total(n2, a as int, b as int);
        } else {
            lemma_seq_lt_irreflexive(lower_seq(n2[a as int]));
        }
    }
    assert forall|a: usize, b: usize| a != b implies #[trigger] lt(a, b) || lt(b, a) by {
        lemma_idx_total(n2, a as int, b as int);
    }
    assert forall|a: int, b: int| 0 <= a < b < t2.len() implies lt(#[trigger] t2[a], #[trigger] t2[b]) by {}
    assert forall|v: usize| t2.to_set().contains(v) <==> id_tail.to_set().contains(v) by {
        if t2.to_set().contains(v) {
            let k = choose|k: int| 0 <= k < t2.len() && t2[k] == v;
            assert(t2[k] == again[k + m]);
            if v < m {
                assert(id_m[v as int] == v);
            }
            assert(id_tail[v - m] == v);
        }
        if id_tail.to_set().contains(v) {
            let k = choose|k: int| 0 <= k < id_tail.len() && id_tail[k] == v;
            assert(v as int == m + k);
            assert(!id_m.contains(v)) by {
                if id_m.contains(v) {
                    let j = choose|j: int| 0 <= j < id_m.len() && id_m[j] == v;
                    assert(id_m[j] == j as usize);
                }
            }
            assert(t2.contains(v));
        }
    }
    assert(t2.to_set() =~= id_tail.to_set());
    crate::ordering::lemma_sorted_unique_by(t2, id_tail, lt);
    assert(again =~= again.take(m as int) + t2);
    assert(identity(len) =~= id_m + id_tail);
}

} // verus!
