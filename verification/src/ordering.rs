//! Orders on text and the sorted, duplicate-free arrangement of a list of
//! strings under one of them. Rendering a `use` statement sorts its
//! brace entries by a grouping key and its statements by plain string
//! order; both end in a strictly ascending list, which is unique for a
//! given set of strings.
use vstd::prelude::*;
use crate::text::{chars_of, lower_chars, lower_seq};
use vstd::relations::{sorted_by, total_ordering};

verus! {

/// `a` sorts strictly before `b` under `str`'s `Ord`. That order compares
/// UTF-8 bytes, and UTF-8 keeps the order of code points, so it is the
/// lexicographic order on characters: the first differing character
/// decides, and a proper prefix sorts first.
pub open spec fn seq_lt(a: Seq<char>, b: Seq<char>) -> bool
    decreases a.len(),
{
    if a.len() == 0 {
        b.len() > 0
    } else if b.len() == 0 {
        false
    } else if a[0] != b[0] {
        a[0] < b[0]
    } else {
        seq_lt(a.drop_first(), b.drop_first())
    }
}

/// No string sorts before itself.
pub proof fn lemma_seq_lt_irreflexive(a: Seq<char>)
    ensures
        !seq_lt(a, a),
    decreases a.len(),
{
    if a.len() > 0 {
        lemma_seq_lt_irreflexive(a.drop_first());
    }
}

/// Any two strings are equal or one sorts before the other, and never
/// both ways.
pub proof fn lemma_seq_lt_trichotomy(a: Seq<char>, b: Seq<char>)
    ensures
        seq_lt(a, b) || a == b || seq_lt(b, a),
        !(seq_lt(a, b) && seq_lt(b, a)),
    decreases a.len(),
{
    if a.len() > 0 && b.len() > 0 {
        if a[0] == b[0] {
            lemma_seq_lt_trichotomy(a.drop_first(), b.drop_first());
            if a.drop_first() == b.drop_first() {
                assert(a =~= seq![a[0]] + a.drop_first());
                assert(b =~= seq![b[0]] + b.drop_first());
            }
        }
    } else if a.len() == 0 && b.len() == 0 {
        assert(a =~= b);
    }
}

pub proof fn lemma_seq_lt_transitive(a: Seq<char>, b: Seq<char>, c: Seq<char>)
    requires
        seq_lt(a, b),
        seq_lt(b, c),
    ensures
        seq_lt(a, c),
    decreases a.len(),
{
    if a.len() > 0 && b.len() > 0 && c.len() > 0 {
        if a[0] == b[0] && b[0] == c[0] {
            lemma_seq_lt_transitive(a.drop_first(), b.drop_first(), c.drop_first());
        }
    }
}

/// Which of the three sections of a brace list an entry belongs to:
/// `self` (possibly renamed) first, then names, then the glob `*`.
pub open spec fn entry_group(e: Seq<char>) -> u8 {
    if e == seq!['s', 'e', 'l', 'f'] || (e.len() >= 5 && e.take(5) == seq![
        's',
        'e',
        'l',
        'f',
        ' ',
    ]) {
        0
    } else if e == seq!['*'] {
        2
    } else {
        1
    }
}

/// The order of brace entries: by section, then case-insensitively, then
/// by the exact text, so that distinct entries never tie.
pub open spec fn key_lt(a: Seq<char>, b: Seq<char>) -> bool {
    ||| entry_group(a) < entry_group(b)
    ||| entry_group(a) == entry_group(b) && seq_lt(lower_seq(a), lower_seq(b))
    ||| entry_group(a) == entry_group(b) && lower_seq(a) == lower_seq(b) && seq_lt(a, b)
}

/// The order in use: the brace-entry key when `by_key`, else plain
/// string order.
pub open spec fn ord_lt(by_key: bool, a: Seq<char>, b: Seq<char>) -> bool {
    if by_key {
        key_lt(a, b)
    } else {
        seq_lt(a, b)
    }
}

pub proof fn lemma_ord_total(by_key: bool, a: Seq<char>, b: Seq<char>)
    ensures
        ord_lt(by_key, a, b) || a == b || ord_lt(by_key, b, a),
        !ord_lt(by_key, a, a),
        !(ord_lt(by_key, a, b) && ord_lt(by_key, b, a)),
{
    lemma_seq_lt_trichotomy(a, b);
    lemma_seq_lt_irreflexive(a);
    lemma_seq_lt_trichotomy(lower_seq(a), lower_seq(b));
    lemma_seq_lt_irreflexive(lower_seq(a));
}

pub proof fn lemma_ord_transitive(by_key: bool, a: Seq<char>, b: Seq<char>, c: Seq<char>)
    requires
        ord_lt(by_key, a, b),
        ord_lt(by_key, b, c),
    ensures
        ord_lt(by_key, a, c),
{
    if by_key {
        let (la, lb, lc) = (lower_seq(a), lower_seq(b), lower_seq(c));
        if entry_group(a) == entry_group(b) && entry_group(b) == entry_group(c) {
            if seq_lt(la, lb) && seq_lt(lb, lc) {
                lemma_seq_lt_transitive(la, lb, lc);
            } else if seq_lt(la, lb) || seq_lt(lb, lc) {
            } else {
                lemma_seq_lt_transitive(a, b, c);
            }
        }
    } else {
        lemma_seq_lt_transitive(a, b, c);
    }
}

/// Every element sorts strictly before every later one.
pub open spec fn strictly_sorted(s: Seq<Seq<char>>, by_key: bool) -> bool {
    forall|i: int, j: int| 0 <= i < j < s.len() ==> ord_lt(by_key, #[trigger] s[i], #[trigger] s[j])
}

/// The strictly ascending arrangement of the elements of `set`.
pub open spec fn arrangement(set: Set<Seq<char>>, by_key: bool) -> Seq<Seq<char>> {
    choose|r: Seq<Seq<char>>| strictly_sorted(r, by_key) && r.to_set() == set
}

/// The strictly ascending arrangement of the distinct elements of `s`.
pub open spec fn canon(s: Seq<Seq<char>>, by_key: bool) -> Seq<Seq<char>> {
    arrangement(s.to_set(), by_key)
}

/// The text of each string.
pub open spec fn views(v: Seq<String>) -> Seq<Seq<char>> {
    v.map_values(|s: String| s@)
}

pub proof fn lemma_push_to_set<A>(s: Seq<A>, x: A)
    ensures
        s.push(x).to_set() == s.to_set().insert(x),
{
    assert forall|y: A| s.push(x).to_set().contains(y) implies s.to_set().insert(x).contains(
        y,
    ) by {
        let k = choose|k: int| 0 <= k < s.len() + 1 && s.push(x)[k] == y;
        if k < s.len() {
            assert(s[k] == y);
        }
    }
    assert forall|y: A| s.to_set().insert(x).contains(y) implies s.push(x).to_set().contains(
        y,
    ) by {
        if y == x {
            assert(s.push(x)[s.len() as int] == y);
        } else {
            let k = choose|k: int| 0 <= k < s.len() && s[k] == y;
            assert(s.push(x)[k] == y);
        }
    }
    assert(s.push(x).to_set() =~= s.to_set().insert(x));
}

/// Two strictly ascending lists with the same elements are the same
/// list.
pub proof fn lemma_sorted_unique(r1: Seq<Seq<char>>, r2: Seq<Seq<char>>, by_key: bool)
    requires
        strictly_sorted(r1, by_key),
        strictly_sorted(r2, by_key),
        r1.to_set() == r2.to_set(),
    ensures
        r1 == r2,
    decreases r1.len(),
{
    if r1.len() == 0 {
        if r2.len() > 0 {
            assert(r2.to_set().contains(r2[0]));
            assert(r1.to_set().contains(r2[0]));
        }
        assert(r1 =~= r2);
    } else {
        assert(r1.to_set().contains(r1[0]));
        assert(r2.to_set().contains(r1[0]));
        let k = choose|k: int| 0 <= k < r2.len() && r2[k] == r1[0];
        assert(r2.to_set().contains(r2[0]));
        assert(r1.to_set().contains(r2[0]));
        let m = choose|m: int| 0 <= m < r1.len() && r1[m] == r2[0];
        lemma_ord_total(by_key, r1[0], r2[0]);
        if k > 0 {
            assert(ord_lt(by_key, r2[0], r2[k]));
            if m > 0 {
                assert(ord_lt(by_key, r1[0], r1[m]));
            }
        }
        assert(r1[0] == r2[0]);
        let (t1, t2) = (r1.drop_first(), r2.drop_first());
        assert forall|x: Seq<char>| t1.to_set().contains(x) implies t2.to_set().contains(x) by {
            let i = choose|i: int| 0 <= i < t1.len() && t1[i] == x;
            assert(r1[i + 1] == x);
            assert(ord_lt(by_key, r1[0], r1[i + 1]));
            lemma_ord_total(by_key, x, x);
            assert(r2.to_set().contains(x));
            let j = choose|j: int| 0 <= j < r2.len() && r2[j] == x;
            assert(j != 0);
            assert(t2[j - 1] == x);
        }
        assert forall|x: Seq<char>| t2.to_set().contains(x) implies t1.to_set().contains(x) by {
            let i = choose|i: int| 0 <= i < t2.len() && t2[i] == x;
            assert(r2[i + 1] == x);
            assert(ord_lt(by_key, r2[0], r2[i + 1]));
            lemma_ord_total(by_key, x, x);
            assert(r1.to_set().contains(x));
            let j = choose|j: int| 0 <= j < r1.len() && r1[j] == x;
            assert(j != 0);
            assert(t1[j - 1] == x);
        }
        assert(t1.to_set() =~= t2.to_set());
        assert(strictly_sorted(t1, by_key)) by {
            assert forall|i: int, j: int| 0 <= i < j < t1.len() implies ord_lt(
                by_key,
                #[trigger] t1[i],
                #[trigger] t1[j],
            ) by {
                assert(r1[i + 1] == t1[i] && r1[j + 1] == t1[j]);
            }
        }
        assert(strictly_sorted(t2, by_key)) by {
            assert forall|i: int, j: int| 0 <= i < j < t2.len() implies ord_lt(
                by_key,
                #[trigger] t2[i],
                #[trigger] t2[j],
            ) by {
                assert(r2[i + 1] == t2[i] && r2[j + 1] == t2[j]);
            }
        }
        lemma_sorted_unique(t1, t2, by_key);
        assert(r1 =~= seq![r1[0]] + t1);
        assert(r2 =~= seq![r2[0]] + t2);
    }
}

/// A strictly ascending list with the elements of `s` is its canonical
/// arrangement.
pub proof fn lemma_is_canon(r: Seq<Seq<char>>, s: Seq<Seq<char>>, by_key: bool)
    requires
        strictly_sorted(r, by_key),
        r.to_set() == s.to_set(),
    ensures
        r == canon(s, by_key),
{
    let c = canon(s, by_key);
    assert(strictly_sorted(c, by_key) && c.to_set() == s.to_set());
    lemma_sorted_unique(r, c, by_key);
}

/// Whether `a` sorts before `b` under `str`'s `Ord`.
pub fn chars_lt(a: &[char], b: &[char]) -> (r: bool)
    ensures
        r == seq_lt(a@, b@),
{
    let mut i: usize = 0;
    assert(a@.skip(0) =~= a@ && b@.skip(0) =~= b@);
    while i < a.len() && i < b.len()
        invariant
            i <= a@.len(),
            i <= b@.len(),
            seq_lt(a@, b@) == seq_lt(a@.skip(i as int), b@.skip(i as int)),
        decreases a@.len() - i,
    {
        if a[i] != b[i] {
            let r = a[i] < b[i];
            assert(a@.skip(i as int)[0] == a@[i as int]);
            assert(b@.skip(i as int)[0] == b@[i as int]);
            return r;
        }
        assert(a@.skip(i as int).drop_first() =~= a@.skip(i + 1));
        assert(b@.skip(i as int).drop_first() =~= b@.skip(i + 1));
        i = i + 1;
    }
    i < b.len()
}

/// Which of the three brace-entry sections `e` belongs to.
pub fn entry_group_of(e: &[char]) -> (g: u8)
    ensures
        g == entry_group(e@),
{
    let is_self = e.len() == 4 && e[0] == 's' && e[1] == 'e' && e[2] == 'l' && e[3] == 'f';
    let self_space = e.len() >= 5 && e[0] == 's' && e[1] == 'e' && e[2] == 'l' && e[3] == 'f'
        && e[4] == ' ';
    proof {
        if e@.len() == 4 {
            assert(is_self == (e@ =~= seq!['s', 'e', 'l', 'f']));
        } else {
            assert(e@ != seq!['s', 'e', 'l', 'f']);
        }
        if e@.len() >= 5 {
            assert(self_space == (e@.take(5) =~= seq!['s', 'e', 'l', 'f', ' ']));
        }
    }
    if is_self || self_space {
        0
    } else if e.len() == 1 && e[0] == '*' {
        assert(e@ =~= seq!['*']);
        2
    } else {
        assert(e@.len() != 1 || e@ != seq!['*']);
        1
    }
}

/// Whether `a` sorts before `b` in the order `by_key` names.
pub fn ord_lt_chars(by_key: bool, a: &[char], b: &[char]) -> (r: bool)
    ensures
        r == ord_lt(by_key, a@, b@),
{
    if !by_key {
        return chars_lt(a, b);
    }
    let (ga, gb) = (entry_group_of(a), entry_group_of(b));
    if ga != gb {
        return ga < gb;
    }
    let la = lower_chars(a);
    let lb = lower_chars(b);
    if chars_lt(la.as_slice(), lb.as_slice()) {
        return true;
    }
    if chars_lt(lb.as_slice(), la.as_slice()) {
        proof {
            lemma_seq_lt_trichotomy(la@, lb@);
        }
        return false;
    }
    proof {
        lemma_seq_lt_trichotomy(la@, lb@);
    }
    chars_lt(a, b)
}

/// The strings of `items` in strictly ascending order under the order
/// `by_key` names, each once.
pub fn sort_dedup(items: &Vec<String>, by_key: bool) -> (r: Vec<String>)
    ensures
        strictly_sorted(views(r@), by_key),
        views(r@).to_set() == views(items@).to_set(),
        views(r@) == canon(views(items@), by_key),
{
    let mut out: Vec<String> = Vec::new();
    let mut outc: Vec<Vec<char>> = Vec::new();
    let mut i: usize = 0;
    while i < items.len()
        invariant
            i <= items@.len(),
            outc@.len() == out@.len(),
            forall|k: int| 0 <= k < out@.len() ==> (#[trigger] outc@[k])@ == out@[k]@,
            strictly_sorted(views(out@), by_key),
            views(out@).to_set() == views(items@.take(i as int)).to_set(),
        decreases items@.len() - i,
    {
        let x = items[i].clone();
        let xc = chars_of(x.as_str());
        let ghost o = views(out@);
        let mut p: usize = 0;
        while p < out.len() && ord_lt_chars(by_key, outc[p].as_slice(), xc.as_slice())
            invariant
                p <= out@.len(),
                outc@.len() == out@.len(),
                forall|k: int| 0 <= k < out@.len() ==> (#[trigger] outc@[k])@ == out@[k]@,
                o == views(out@),
                xc@ == x@,
                forall|q: int| 0 <= q < p ==> ord_lt(by_key, #[trigger] o[q], x@),
            decreases out@.len() - p,
        {
            p = p + 1;
        }
        let ghost before = views(items@.take(i as int));
        assert(views(items@.take(i + 1)) =~= before.push(x@));
        if p < out.len() && out[p] == x {
            assert(o[p as int] == x@);
            assert(views(out@).to_set() =~= before.push(x@).to_set()) by {
                lemma_push_to_set(before, x@);
                assert(o.to_set().contains(x@));
            }
        } else {
            proof {
                if p < out@.len() {
                    assert(!ord_lt(by_key, o[p as int], x@));
                    lemma_ord_total(by_key, o[p as int], x@);
                    assert(o[p as int] != x@);
                    assert(ord_lt(by_key, x@, o[p as int]));
                }
            }
            out.insert(p, x);
            outc.insert(p, xc);
            let ghost n = views(out@);
            assert(n =~= o.insert(p as int, x@));
            assert(strictly_sorted(n, by_key)) by {
                assert forall|a: int, b: int| 0 <= a < b < n.len() implies ord_lt(
                    by_key,
                    #[trigger] n[a],
                    #[trigger] n[b],
                ) by {
                    if b < p {
                        assert(n[a] == o[a] && n[b] == o[b]);
                    } else if b == p {
                        assert(n[a] == o[a]);
                    } else if a == p {
                        assert(n[b] == o[b - 1]);
                        if b - 1 > p {
                            assert(ord_lt(by_key, o[p as int], o[b - 1]));
                            lemma_ord_transitive(by_key, x@, o[p as int], o[b - 1]);
                        }
                    } else if a < p {
                        assert(n[a] == o[a] && n[b] == o[b - 1]);
                        assert(ord_lt(by_key, o[a], x@));
                        if b - 1 >= p {
                            assert(ord_lt(by_key, x@, o[p as int]));
                            if b - 1 > p {
                                assert(ord_lt(by_key, o[p as int], o[b - 1]));
                                lemma_ord_transitive(by_key, x@, o[p as int], o[b - 1]);
                            }
                            lemma_ord_transitive(by_key, o[a], x@, o[b - 1]);
                        }
                    } else {
                        assert(n[a] == o[a - 1] && n[b] == o[b - 1]);
                    }
                }
            }
            assert(n.to_set() =~= before.push(x@).to_set()) by {
                lemma_push_to_set(before, x@);
                assert forall|y: Seq<char>| n.to_set().contains(y) implies o.to_set().insert(
                    x@,
                ).contains(y) by {
                    let k = choose|k: int| 0 <= k < n.len() && n[k] == y;
                    if k < p {
                        assert(o[k] == y);
                    } else if k > p {
                        assert(o[k - 1] == y);
                    }
                }
                assert forall|y: Seq<char>| o.to_set().insert(x@).contains(y) implies n.to_set().contains(
                    y,
                ) by {
                    if y == x@ {
                        assert(n[p as int] == y);
                    } else {
                        let k = choose|k: int| 0 <= k < o.len() && o[k] == y;
                        if k < p {
                            assert(n[k] == y);
                        } else {
                            assert(n[k + 1] == y);
                        }
                    }
                }
            }
            proof {
                assert forall|k: int| 0 <= k < out@.len() implies (#[trigger] outc@[k])@
                    == out@[k]@ by {
                    if k < p {
                    } else if k > p {
                    }
                }
            }
        }
        i = i + 1;
    }
    assert(items@.take(items@.len() as int) =~= items@);
    proof {
        lemma_is_canon(views(out@), views(items@), by_key);
    }
    out
}

/// `a` sorts no later than `b` under `str`'s `Ord`.
pub open spec fn str_leq() -> spec_fn(Seq<char>, Seq<char>) -> bool {
    |a: Seq<char>, b: Seq<char>| !seq_lt(b, a)
}

pub proof fn lemma_str_leq_total()
    ensures
        total_ordering(str_leq()),
{
    assert forall|x: Seq<char>| #[trigger] str_leq()(x, x) by {
        lemma_seq_lt_irreflexive(x);
    }
    assert forall|x: Seq<char>, y: Seq<char>| #[trigger] str_leq()(x, y) && #[trigger] str_leq()(
        y,
        x,
    ) implies x == y by {
        lemma_seq_lt_trichotomy(x, y);
    }
    assert forall|x: Seq<char>, y: Seq<char>, z: Seq<char>| #[trigger] str_leq()(x, y)
        && #[trigger] str_leq()(y, z) implies str_leq()(x, z) by {
        lemma_seq_lt_trichotomy(x, y);
        lemma_seq_lt_trichotomy(y, z);
        lemma_seq_lt_trichotomy(x, z);
        if seq_lt(z, x) {
            if seq_lt(x, y) {
                lemma_seq_lt_transitive(z, x, y);
            }
        }
    }
    assert forall|x: Seq<char>, y: Seq<char>| #[trigger] str_leq()(x, y) || #[trigger] str_leq()(
        y,
        x,
    ) by {
        lemma_seq_lt_trichotomy(x, y);
    }
}

/// The strings of `items`, duplicates kept, in ascending `str` order:
/// what `<[String]>::sort` leaves.
pub fn sort_strings(items: &Vec<String>) -> (r: Vec<String>)
    ensures
        views(r@) == views(items@).sort_by(str_leq()),
{
    let mut out: Vec<String> = Vec::new();
    let mut outc: Vec<Vec<char>> = Vec::new();
    let mut i: usize = 0;
    proof {
        assert(views(out@) =~= views(items@.take(0)));
    }
    while i < items.len()
        invariant
            i <= items@.len(),
            outc@.len() == out@.len(),
            forall|k: int| 0 <= k < out@.len() ==> (#[trigger] outc@[k])@ == out@[k]@,
            sorted_by(views(out@), str_leq()),
            views(out@).to_multiset() == views(items@.take(i as int)).to_multiset(),
        decreases items@.len() - i,
    {
        let x = items[i].clone();
        let xc = chars_of(x.as_str());
        let ghost o = views(out@);
        let mut p: usize = 0;
        while p < out.len() && !chars_lt(xc.as_slice(), outc[p].as_slice())
            invariant
                p <= out@.len(),
                outc@.len() == out@.len(),
                forall|k: int| 0 <= k < out@.len() ==> (#[trigger] outc@[k])@ == out@[k]@,
                o == views(out@),
                xc@ == x@,
                forall|q: int| 0 <= q < p ==> !seq_lt(x@, #[trigger] o[q]),
            decreases out@.len() - p,
        {
            p = p + 1;
        }
        let ghost before = views(items@.take(i as int));
        assert(views(items@.take(i + 1)) =~= before.push(x@));
        out.insert(p, x);
        outc.insert(p, xc);
        let ghost n = views(out@);
        assert(n =~= o.insert(p as int, x@));
        assert(sorted_by(n, str_leq())) by {
            assert forall|a: int, b: int| 0 <= a < b < n.len() implies #[trigger] str_leq()(
                n[a],
                n[b],
            ) by {
                if b < p {
                    assert(n[a] == o[a] && n[b] == o[b]);
                    assert(str_leq()(o[a], o[b]));
                } else if b == p {
                    assert(n[a] == o[a]);
                    lemma_seq_lt_trichotomy(x@, o[a]);
                } else if a == p {
                    assert(n[b] == o[b - 1]);
                    assert(seq_lt(x@, o[p as int]));
                    lemma_seq_lt_trichotomy(x@, o[b - 1]);
                    if b - 1 > p {
                        assert(str_leq()(o[p as int], o[b - 1]));
                        lemma_seq_lt_trichotomy(o[p as int], o[b - 1]);
                        if seq_lt(o[p as int], o[b - 1]) {
                            lemma_seq_lt_transitive(x@, o[p as int], o[b - 1]);
                        }
                    }
                } else if a < p {
                    assert(n[a] == o[a] && n[b] == o[b - 1]);
                    assert(str_leq()(o[a], o[b - 1]));
                } else {
                    assert(n[a] == o[a - 1] && n[b] == o[b - 1]);
                    assert(str_leq()(o[a - 1], o[b - 1]));
                }
            }
        }
        proof {
            vstd::seq_lib::to_multiset_insert(o, p as int, x@);
            vstd::seq_lib::to_multiset_build(before, x@);
            assert forall|k: int| 0 <= k < out@.len() implies (#[trigger] outc@[k])@ == out@[k]@ by {
                if k < p {
                } else if k > p {
                }
            }
        }
        i = i + 1;
    }
    assert(items@.take(items@.len() as int) =~= items@);
    proof {
        lemma_str_leq_total();
        views(items@).lemma_sort_by_ensures(str_leq());
        vstd::seq_lib::lemma_sorted_unique(views(out@), views(items@).sort_by(str_leq()), str_leq());
    }
    out
}

/// Two lists, each ascending under the strict total order `lt`, with the
/// same elements, are the same list.
pub proof fn lemma_sorted_unique_by<A>(r1: Seq<A>, r2: Seq<A>, lt: spec_fn(A, A) -> bool)
    requires
        forall|i: int, j: int| 0 <= i < j < r1.len() ==> lt(#[trigger] r1[i], #[trigger] r1[j]),
        forall|i: int, j: int| 0 <= i < j < r2.len() ==> lt(#[trigger] r2[i], #[trigger] r2[j]),
        forall|a: A, b: A| #[trigger] lt(a, b) ==> !lt(b, a),
        forall|a: A, b: A| a != b ==> #[trigger] lt(a, b) || lt(b, a),
        r1.to_set() == r2.to_set(),
    ensures
        r1 == r2,
    decreases r1.len(),
{
    if r1.len() == 0 {
        if r2.len() > 0 {
            assert(r2.to_set().contains(r2[0]));
            assert(r1.to_set().contains(r2[0]));
        }
        assert(r1 =~= r2);
    } else {
        assert(r1.to_set().contains(r1[0]));
        assert(r2.to_set().contains(r1[0]));
        let k = choose|k: int| 0 <= k < r2.len() && r2[k] == r1[0];
        assert(r2.to_set().contains(r2[0]));
        assert(r1.to_set().contains(r2[0]));
        let m = choose|m: int| 0 <= m < r1.len() && r1[m] == r2[0];
        if k > 0 {
            assert(lt(r2[0], r2[k]));
            if m > 0 {
                assert(lt(r1[0], r1[m]));
            }
        }
        assert(r1[0] == r2[0]);
        let (t1, t2) = (r1.drop_first(), r2.drop_first());
        assert forall|x: A| t1.to_set().contains(x) implies t2.to_set().contains(x) by {
            let i = choose|i: int| 0 <= i < t1.len() && t1[i] == x;
            assert(r1[i + 1] == x);
            assert(lt(r1[0], r1[i + 1]));
            assert(r2.to_set().contains(x));
            let j = choose|j: int| 0 <= j < r2.len() && r2[j] == x;
            assert(j != 0);
            assert(t2[j - 1] == x);
        }
        assert forall|x: A| t2.to_set().contains(x) implies t1.to_set().contains(x) by {
            let i = choose|i: int| 0 <= i < t2.len() && t2[i] == x;
            assert(r2[i + 1] == x);
            assert(lt(r2[0], r2[i + 1]));
            assert(r1.to_set().contains(x));
            let j = choose|j: int| 0 <= j < r1.len() && r1[j] == x;
            assert(j != 0);
            assert(t1[j - 1] == x);
        }
        assert(t1.to_set() =~= t2.to_set());
        assert forall|i: int, j: int| 0 <= i < j < t1.len() implies lt(#[trigger] t1[i], #[trigger] t1[j]) by {
            assert(r1[i + 1] == t1[i] && r1[j + 1] == t1[j]);
        }
        assert forall|i: int, j: int| 0 <= i < j < t2.len() implies lt(#[trigger] t2[i], #[trigger] t2[j]) by {
            assert(r2[i + 1] == t2[i] && r2[j + 1] == t2[j]);
        }
        lemma_sorted_unique_by(t1, t2, lt);
        assert(r1 =~= seq![r1[0]] + t1);
        assert(r2 =~= seq![r2[0]] + t2);
    }
}

} // verus!
