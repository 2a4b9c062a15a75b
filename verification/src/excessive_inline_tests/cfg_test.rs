//! Whether a `#[cfg(...)]` predicate gates an item to test builds: a
//! bare `cfg(test)`, or a compound one such as `cfg(all(test, unix))`.
use vstd::prelude::*;
use crate::import_granularity::model::opt_view;
use crate::text::{chars_of, slice_eq};

verus! {

/// A `cfg` predicate as the compiler leaves it on a configured item.
pub enum CfgEntry {
    /// `name` or `name = "value"`.
    NameValue { name: String, value: Option<String> },
    /// `all(...)`.
    All(Vec<CfgEntry>),
    /// `any(...)`.
    Any(Vec<CfgEntry>),
    /// `not(...)`.
    Not(Box<CfgEntry>),
    /// `true` or `false`.
    Bool(bool),
    /// `version(...)`: a comparison with the compiler's version.
    Version,
}

/// Whether `cfg` holds only in a `test` build. `all(...)` implies
/// `test` when some entry does; `any(...)` when every entry does; a
/// `test` under `not(...)` gates the item away from test builds, so
/// `not`, booleans and versions never do.
pub open spec fn implies_test(cfg: CfgEntry) -> bool
    decreases cfg,
{
    match cfg {
        CfgEntry::NameValue { name, .. } => name@ == "test"@,
        CfgEntry::All(entries) => some_implies_test(entries@),
        CfgEntry::Any(entries) => all_imply_test(entries@),
        _ => false,
    }
}

pub open spec fn some_implies_test(entries: Seq<CfgEntry>) -> bool
    decreases entries,
{
    if entries.len() == 0 {
        false
    } else {
        some_implies_test(entries.drop_last()) || implies_test(entries.last())
    }
}

pub open spec fn all_imply_test(entries: Seq<CfgEntry>) -> bool
    decreases entries,
{
    if entries.len() == 0 {
        true
    } else {
        all_imply_test(entries.drop_last()) && implies_test(entries.last())
    }
}

/// Whether `cfg` holds in a build whose set options are those `set`
/// accepts (a name, and a value when there is one), and in which a
/// `version(...)` comparison comes out as `version`.
pub open spec fn holds(cfg: CfgEntry, set: spec_fn(Seq<char>, Option<Seq<char>>) -> bool, version: bool) -> bool
    decreases cfg,
{
    match cfg {
        CfgEntry::NameValue { name, value } => set(name@, opt_view(value)),
        CfgEntry::All(entries) => all_hold(entries@, set, version),
        CfgEntry::Any(entries) => some_holds(entries@, set, version),
        CfgEntry::Not(inner) => !holds(*inner, set, version),
        CfgEntry::Bool(b) => b,
        CfgEntry::Version => version,
    }
}

pub open spec fn all_hold(entries: Seq<CfgEntry>, set: spec_fn(Seq<char>, Option<Seq<char>>) -> bool, version: bool) -> bool
    decreases entries,
{
    if entries.len() == 0 {
        true
    } else {
        all_hold(entries.drop_last(), set, version) && holds(entries.last(), set, version)
    }
}

pub open spec fn some_holds(entries: Seq<CfgEntry>, set: spec_fn(Seq<char>, Option<Seq<char>>) -> bool, version: bool) -> bool
    decreases entries,
{
    if entries.len() == 0 {
        false
    } else {
        some_holds(entries.drop_last(), set, version) || holds(entries.last(), set, version)
    }
}

/// Whether any of an item's `cfg` predicates holds only in test builds.
pub open spec fn gated_to_test(cfgs: Seq<CfgEntry>) -> bool {
    exists|i: int| 0 <= i < cfgs.len() && implies_test(#[trigger] cfgs[i])
}

/// Law: a predicate recognised as test-only is false in every build in
/// which `test` is not set, whatever else is set and however `version`
/// comparisons come out.
pub proof fn lemma_test_only_needs_test(
    cfg: CfgEntry,
    set: spec_fn(Seq<char>, Option<Seq<char>>) -> bool,
    version: bool,
)
    requires
        implies_test(cfg),
        forall|value: Option<Seq<char>>| !#[trigger] set("test"@, value),
    ensures
        !holds(cfg, set, version),
    decreases cfg,
{
    match cfg {
        CfgEntry::NameValue { name, value } => {
            assert(!set(name@, opt_view(value)));
        },
        CfgEntry::All(entries) => {
            lemma_some_implies_test(entries@, set, version);
        },
        CfgEntry::Any(entries) => {
            lemma_all_imply_test(entries@, set, version);
        },
        _ => {},
    }
}

proof fn lemma_some_implies_test(
    entries: Seq<CfgEntry>,
    set: spec_fn(Seq<char>, Option<Seq<char>>) -> bool,
    version: bool,
)
    requires
        some_implies_test(entries),
        forall|value: Option<Seq<char>>| !#[trigger] set("test"@, value),
    ensures
        !all_hold(entries, set, version),
    decreases entries,
{
    if entries.len() > 0 {
        if implies_test(entries.last()) {
            lemma_test_only_needs_test(entries.last(), set, version);
        } else {
            lemma_some_implies_test(entries.drop_last(), set, version);
        }
    }
}

proof fn lemma_all_imply_test(
    entries: Seq<CfgEntry>,
    set: spec_fn(Seq<char>, Option<Seq<char>>) -> bool,
    version: bool,
)
    requires
        all_imply_test(entries),
        forall|value: Option<Seq<char>>| !#[trigger] set("test"@, value),
    ensures
        !some_holds(entries, set, version),
    decreases entries,
{
    if entries.len() > 0 {
        lemma_test_only_needs_test(entries.last(), set, version);
        lemma_all_imply_test(entries.drop_last(), set, version);
    }
}

/// Whether `cfg` holds only in a `test` build.
pub fn entry_implies_test(cfg: &CfgEntry) -> (r: bool)
    ensures
        r == implies_test(*cfg),
    decreases cfg,
{
    match cfg {
        CfgEntry::NameValue { name, .. } => {
            let test = ['t', 'e', 's', 't'];
            proof {
                reveal_strlit("test");
                assert(test@ =~= "test"@);
            }
            slice_eq(chars_of(name.as_str()).as_slice(), &test)
        },
        CfgEntry::All(entries) => some_entry_implies_test(entries),
        CfgEntry::Any(entries) => every_entry_implies_test(entries),
        _ => false,
    }
}

/// Whether some entry of `entries` holds only in a `test` build.
fn some_entry_implies_test(entries: &Vec<CfgEntry>) -> (r: bool)
    ensures
        r == some_implies_test(entries@),
    decreases entries,
{
    let mut i: usize = 0;
    while i < entries.len()
        invariant
            i <= entries@.len(),
            !some_implies_test(entries@.take(i as int)),
        decreases entries@.len() - i,
    {
        assert(entries@.take(i + 1).drop_last() =~= entries@.take(i as int));
        assert(decreases_to!(entries => entries@[i as int]));
        if entry_implies_test(&entries[i]) {
            proof {
                lemma_some_prefix(entries@, i as int + 1);
            }
            return true;
        }
        i = i + 1;
    }
    assert(entries@.take(i as int) =~= entries@);
    false
}

/// Whether every entry of `entries` holds only in a `test` build.
fn every_entry_implies_test(entries: &Vec<CfgEntry>) -> (r: bool)
    ensures
        r == all_imply_test(entries@),
    decreases entries,
{
    let mut i: usize = 0;
    while i < entries.len()
        invariant
            i <= entries@.len(),
            all_imply_test(entries@.take(i as int)),
        decreases entries@.len() - i,
    {
        assert(entries@.take(i + 1).drop_last() =~= entries@.take(i as int));
        assert(decreases_to!(entries => entries@[i as int]));
        if !entry_implies_test(&entries[i]) {
            proof {
                lemma_all_prefix(entries@, i as int + 1);
            }
            return false;
        }
        i = i + 1;
    }
    assert(entries@.take(i as int) =~= entries@);
    true
}

/// Some entry of a prefix implying `test` makes some entry of the whole.
proof fn lemma_some_prefix(entries: Seq<CfgEntry>, n: int)
    requires
        0 <= n <= entries.len(),
        some_implies_test(entries.take(n)),
    ensures
        some_implies_test(entries),
    decreases entries.len() - n,
{
    if n < entries.len() {
        assert(entries.take(n + 1).drop_last() =~= entries.take(n));
        lemma_some_prefix(entries, n + 1);
    } else {
        assert(entries.take(n) =~= entries);
    }
}

/// A prefix with an entry not implying `test` keeps the whole from
/// implying it through every entry.
proof fn lemma_all_prefix(entries: Seq<CfgEntry>, n: int)
    requires
        0 <= n <= entries.len(),
        !all_imply_test(entries.take(n)),
    ensures
        !all_imply_test(entries),
    decreases entries.len() - n,
{
    if n < entries.len() {
        assert(entries.take(n + 1).drop_last() =~= entries.take(n));
        lemma_all_prefix(entries, n + 1);
    } else {
        assert(entries.take(n) =~= entries);
    }
}

/// Whether an item whose `cfg` predicates are `cfgs` is gated to test
/// builds: some predicate holds only in a `test` build.
pub fn cfg_predicate_implies_test(cfgs: &[CfgEntry]) -> (r: bool)
    ensures
        r == gated_to_test(cfgs@),
{
    let mut i: usize = 0;
    while i < cfgs.len()
        invariant
            i <= cfgs@.len(),
            forall|j: int| 0 <= j < i ==> !implies_test(#[trigger] cfgs@[j]),
        decreases cfgs@.len() - i,
    {
        if entry_implies_test(&cfgs[i]) {
            return true;
        }
        i = i + 1;
    }
    false
}

} // verus!
