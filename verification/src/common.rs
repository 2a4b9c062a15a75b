//! Helpers shared between sibling rules.
use crate::text::{chars_of, is_alpha};
use crate::ordering::{canon, sort_dedup, views};
use vstd::prelude::*;

verus! {

/// Whether `name` is exactly one ASCII letter (`a`..=`z` or `A`..=`Z`).
pub fn is_single_ascii_letter(name: &str) -> (r: bool)
    ensures
        r == (name@.len() == 1 && is_alpha(name@[0])),
{
    let chars = chars_of(name);
    chars.len() == 1 && crate::text::char_is_alpha(chars[0])
}

/// The entries of `s` that `ignore` does not hold, in order.
pub open spec fn unignored(s: Seq<Seq<char>>, ignore: Seq<Seq<char>>) -> Seq<Seq<char>>
    decreases s.len(),
{
    if s.len() == 0 {
        Seq::empty()
    } else if ignore.contains(s.last()) {
        unignored(s.drop_last(), ignore)
    } else {
        unignored(s.drop_last(), ignore).push(s.last())
    }
}

/// Whether `list` holds `s`.
pub fn contains_string(list: &Vec<String>, s: &String) -> (r: bool)
    ensures
        r == views(list@).contains(s@),
{
    let mut k: usize = 0;
    while k < list.len()
        invariant
            k <= list@.len(),
            forall|j: int| 0 <= j < k ==> list@[j]@ != s@,
        decreases list@.len() - k,
    {
        if list[k] == *s {
            assert(views(list@)[k as int] == s@);
            return true;
        }
        k = k + 1;
    }
    false
}

/// A configurable name set: the built-in `defaults` and the `extra`
/// entries, less every entry of `ignore` (which always wins), held in
/// ascending order without repeats as a `BTreeSet` holds it.
pub fn resolve_string_set(defaults: &Vec<String>, extra: &Vec<String>, ignore: &Vec<String>) -> (r: Vec<String>)
    ensures
        views(r@) == canon(unignored(views(defaults@) + views(extra@), views(ignore@)), false),
        forall|x: Seq<char>| #[trigger] views(r@).contains(x) <==> ((views(defaults@).contains(x) || views(
            extra@,
        ).contains(x)) && !views(ignore@).contains(x)),
{
    let ghost all = views(defaults@) + views(extra@);
    let mut kept: Vec<String> = Vec::new();
    assert(all.take(0) =~= Seq::<Seq<char>>::empty());
    let mut k: usize = 0;
    while k < defaults.len()
        invariant
            k <= defaults@.len(),
            all == views(defaults@) + views(extra@),
            views(kept@) == unignored(all.take(k as int), views(ignore@)),
        decreases defaults@.len() - k,
    {
        let item = &defaults[k];
        assert(item@ == all[k as int]);
        assert(all.take(k + 1).drop_last() =~= all.take(k as int));
        assert(all.take(k + 1).last() == all[k as int]);
        if !contains_string(ignore, item) {
            let ghost before = kept@;
            kept.push(item.clone());
            assert(views(kept@) =~= views(before).push(item@));
        }
        k = k + 1;
    }
    let mut k: usize = 0;
    while k < extra.len()
        invariant
            k <= extra@.len(),
            all == views(defaults@) + views(extra@),
            views(kept@) == unignored(all.take(defaults@.len() + k), views(ignore@)),
        decreases extra@.len() - k,
    {
        let item = &extra[k];
        let ghost at = defaults@.len() + k;
        assert(item@ == all[at]);
        assert(all.take(at + 1).drop_last() =~= all.take(at));
        assert(all.take(at + 1).last() == all[at]);
        if !contains_string(ignore, item) {
            let ghost before = kept@;
            kept.push(item.clone());
            assert(views(kept@) =~= views(before).push(item@));
        }
        k = k + 1;
    }
    assert(all.take(all.len() as int) =~= all);
    let r = sort_dedup(&kept, false);
    proof {
        let d = views(defaults@);
        let e = views(extra@);
        assert forall|x: Seq<char>| #[trigger] views(r@).contains(x) <==> ((d.contains(x) || e.contains(x)) && !views(ignore@).contains(x)) by {
            lemma_unignored_members(all, views(ignore@), x);
            assert(views(r@).contains(x) <==> views(r@).to_set().contains(x));
            assert(views(kept@).contains(x) <==> views(kept@).to_set().contains(x));
            if d.contains(x) {
                let k = choose|k: int| 0 <= k < d.len() && d[k] == x;
                assert(all[k] == x);
            }
            if e.contains(x) {
                let k = choose|k: int| 0 <= k < e.len() && e[k] == x;
                assert(all[d.len() + k] == x);
            }
            if all.contains(x) {
                let k = choose|k: int| 0 <= k < all.len() && all[k] == x;
                if k < d.len() {
                    assert(d[k] == x);
                } else {
                    assert(e[k - d.len()] == x);
                }
            }
        }
    }
    r
}

/// An entry survives `ignore` exactly when it is listed and not
/// ignored.
pub proof fn lemma_unignored_members(s: Seq<Seq<char>>, ignore: Seq<Seq<char>>, x: Seq<char>)
    ensures
        unignored(s, ignore).contains(x) <==> (s.contains(x) && !ignore.contains(x)),
    decreases s.len(),
{
    if s.len() > 0 {
        lemma_unignored_members(s.drop_last(), ignore, x);
        let r = unignored(s.drop_last(), ignore);
        if s.contains(x) && !ignore.contains(x) && !s.drop_last().contains(x) {
            let k = choose|k: int| 0 <= k < s.len() && s[k] == x;
            if k < s.len() - 1 {
                assert(s.drop_last()[k] == x);
            }
            assert(unignored(s, ignore) == r.push(x));
            assert(r.push(x)[r.len() as int] == x);
        }
        if s.drop_last().contains(x) {
            let k = choose|k: int| 0 <= k < s.len() - 1 && s.drop_last()[k] == x;
            assert(s[k] == x);
        }
        if unignored(s, ignore).contains(x) && !r.contains(x) {
            let k = choose|k: int| 0 <= k < unignored(s, ignore).len() && unignored(s, ignore)[k] == x;
            if !ignore.contains(s.last()) {
                if k < r.len() {
                    assert(r[k] == x);
                }
                assert(s[s.len() - 1] == x);
            }
        }
        if r.contains(x) && !ignore.contains(s.last()) {
            let k = choose|k: int| 0 <= k < r.len() && r[k] == x;
            assert(r.push(s.last())[k] == x);
        }
    }
}

} // verus!
