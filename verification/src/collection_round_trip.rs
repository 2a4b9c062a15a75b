//! The `collection_round_trip` rule: an expression that builds a
//! collection, walks it again, and builds another.
use vstd::prelude::*;
use crate::common::contains_string;
use crate::diagnostic::{Diagnostic, DiagnosticModel, Part, PartModel};
use crate::ordering::views;

verus! {

broadcast use vstd::std_specs::hash::group_hash_axioms;

/// What a call in the chain leaves behind, as far as this rule cares.
#[derive(Debug, Clone, Copy, PartialEq, Eq, Structural)]
pub enum Stage {
    Collection,
    Iterator,
    Other,
}

/// Whether a collection is built at some position, later iterated, and
/// then collected again at a still later position.
pub open spec fn spec_round_trips(stages: Seq<Stage>) -> bool {
    exists|i: int, j: int, k: int|
        0 <= i < j < k < stages.len() && #[trigger] stages[i] == Stage::Collection && #[trigger] stages[j]
            == Stage::Iterator && #[trigger] stages[k] == Stage::Collection
}

/// Whether the chain builds a collection, iterates it, and collects
/// again. The walk has to come between the two collections.
pub fn round_trips(stages: &[Stage]) -> (r: bool)
    ensures
        r == spec_round_trips(stages@),
{
    let mut built = false;
    let mut walked_after_building = false;
    let ghost mut wi: int = 0;
    let ghost mut wj: int = 0;
    let mut k: usize = 0;
    while k < stages.len()
        invariant
            k <= stages@.len(),
            built == exists|i: int| 0 <= i < k && #[trigger] stages@[i] == Stage::Collection,
            walked_after_building == exists|i: int, j: int|
                0 <= i < j < k && #[trigger] stages@[i] == Stage::Collection && #[trigger] stages@[j] == Stage::Iterator,
            !exists|i: int, j: int, l: int|
                0 <= i < j < l < k && #[trigger] stages@[i] == Stage::Collection && #[trigger] stages@[j]
                    == Stage::Iterator && #[trigger] stages@[l] == Stage::Collection,
        decreases stages@.len() - k,
    {
        match stages[k] {
            Stage::Collection => {
                if walked_after_building {
                    proof {
                        let (i, j) = choose|i: int, j: int|
                            0 <= i < j < k && #[trigger] stages@[i] == Stage::Collection && #[trigger] stages@[j] == Stage::Iterator;
                        assert(stages@[k as int] == Stage::Collection);
                        assert(0 <= i < j < k < stages@.len() && stages@[i] == Stage::Collection && stages@[j]
                            == Stage::Iterator && stages@[k as int] == Stage::Collection);
                    }
                    return true;
                }
                built = true;
                assert(stages@[k as int] == Stage::Collection);
            },
            Stage::Iterator => {
                if built {
                    proof {
                        let i = choose|i: int| 0 <= i < k && #[trigger] stages@[i] == Stage::Collection;
                        assert(stages@[k as int] == Stage::Iterator);
                        assert(0 <= i < k < k + 1 && stages@[i] == Stage::Collection && stages@[k as int] == Stage::Iterator);
                    }
                    walked_after_building = true;
                }
            },
            Stage::Other => {},
        }
        k = k + 1;
    }
    false
}

/// The stages of a method chain, innermost receiver first, given the
/// stages met walking from the head call down its receivers.
pub fn spine_order(walked: &[Stage]) -> (r: Vec<Stage>)
    ensures
        r@ == walked@.reverse(),
{
    let mut out: Vec<Stage> = Vec::new();
    let mut k: usize = walked.len();
    while k > 0
        invariant
            k <= walked@.len(),
            out@ == walked@.skip(k as int).reverse(),
        decreases k,
    {
        out.push(walked[k - 1]);
        assert(walked@.skip(k - 1).reverse() =~= walked@.skip(k as int).reverse().push(walked@[k - 1]));
        k = k - 1;
    }
    assert(walked@.skip(0) =~= walked@);
    out
}

/// What the rule reads of an expression's type.
pub struct TypeInfo {
    /// The diagnostic name of the type's definition, when it has one
    /// (`Vec`, `HashSet`, `String`, ...).
    pub diagnostic_name: Option<String>,
    /// The type implements `Iterator`.
    pub is_iterator: bool,
}

/// The containers a chain can finish building. Text is not one: a
/// `String` flows through a chain the way a scalar does.
pub open spec fn collection_names() -> Seq<Seq<char>> {
    seq!["Vec"@, "VecDeque"@, "HashMap"@, "HashSet"@, "BTreeMap"@, "BTreeSet"@, "BinaryHeap"@]
}

pub open spec fn is_collection_spec(ty: TypeInfo) -> bool {
    ty.diagnostic_name matches Some(n) && collection_names().contains(n@)
}

/// The containers are exactly `Vec`, `VecDeque`, `HashMap`, `HashSet`,
/// `BTreeMap`, `BTreeSet` and `BinaryHeap`: a type counts as a finished
/// collection if and only if its diagnostic name is one of these.
pub proof fn lemma_collection_names(ty: TypeInfo)
    ensures
        is_collection_spec(ty) <==> (ty.diagnostic_name matches Some(n) && (
            n@ == "Vec"@ || n@ == "VecDeque"@ || n@ == "HashMap"@ || n@ == "HashSet"@
                || n@ == "BTreeMap"@ || n@ == "BTreeSet"@ || n@ == "BinaryHeap"@)),
{
    let names = collection_names();
    if let Some(n) = ty.diagnostic_name {
        let v = n@;
        if v == "Vec"@ {
            assert(names[0] == v);
        } else if v == "VecDeque"@ {
            assert(names[1] == v);
        } else if v == "HashMap"@ {
            assert(names[2] == v);
        } else if v == "HashSet"@ {
            assert(names[3] == v);
        } else if v == "BTreeMap"@ {
            assert(names[4] == v);
        } else if v == "BTreeSet"@ {
            assert(names[5] == v);
        } else if v == "BinaryHeap"@ {
            assert(names[6] == v);
        } else if names.contains(v) {
            let i = choose|i: int| 0 <= i < names.len() && names[i] == v;
            assert(0 <= i < 7);
        }
    }
}

fn collection_list() -> (r: Vec<String>)
    ensures
        views(r@) == collection_names(),
{
    let r = vec![
        "Vec".to_owned(),
        "VecDeque".to_owned(),
        "HashMap".to_owned(),
        "HashSet".to_owned(),
        "BTreeMap".to_owned(),
        "BTreeSet".to_owned(),
        "BinaryHeap".to_owned(),
    ];
    assert(views(r@) =~= collection_names());
    r
}

/// Whether `ty` is a container the chain has finished building.
pub fn is_collection(ty: &TypeInfo) -> (r: bool)
    ensures
        r == is_collection_spec(*ty),
{
    match &ty.diagnostic_name {
        Some(n) => contains_string(&collection_list(), n),
        None => false,
    }
}

/// The stage a call leaves: a collection built from an iterator, an
/// iterator, or anything else.
pub open spec fn stage_spec(produced: TypeInfo, consumed: TypeInfo) -> Stage {
    if is_collection_spec(produced) && consumed.is_iterator {
        Stage::Collection
    } else if produced.is_iterator {
        Stage::Iterator
    } else {
        Stage::Other
    }
}

/// The stage of a call producing `produced` from a receiver of type
/// `consumed`.
pub fn stage_of(produced: &TypeInfo, consumed: &TypeInfo) -> (r: Stage)
    ensures
        r == stage_spec(*produced, *consumed),
{
    if is_collection(produced) && consumed.is_iterator {
        Stage::Collection
    } else if produced.is_iterator {
        Stage::Iterator
    } else {
        Stage::Other
    }
}

/// An expression along a method chain.
pub struct ChainExpr {
    /// Identifies the expression within the crate.
    pub id: u64,
    /// The expression was produced by a macro expansion.
    pub from_macro: bool,
    /// The expression's type.
    pub ty: TypeInfo,
    pub kind: ChainKind,
}

pub enum ChainKind {
    /// `receiver.method(..)`.
    MethodCall(Box<ChainExpr>),
    /// The `match` a `receiver?` or `receiver.await` lowers to, with the
    /// receiver when the scrutinee is a call on exactly one argument.
    TryOrAwait(Option<Box<ChainExpr>>),
    Other,
}

/// The calls from `e` down its receivers, head first: each call's
/// identity and stage. A `?` or `.await` is passed through; a call a
/// macro produced, or any other expression, ends the chain.
pub open spec fn spine(e: ChainExpr) -> Seq<(u64, Stage)>
    decreases e,
{
    match e.kind {
        ChainKind::MethodCall(receiver) => if e.from_macro {
            Seq::empty()
        } else {
            seq![(e.id, stage_spec(e.ty, receiver.ty))] + spine(*receiver)
        },
        ChainKind::TryOrAwait(inner) => match inner {
            Some(x) => spine(*x),
            None => Seq::empty(),
        },
        ChainKind::Other => Seq::empty(),
    }
}

pub open spec fn spine_stages(e: ChainExpr) -> Seq<Stage> {
    spine(e).map_values(|p: (u64, Stage)| p.1)
}

pub open spec fn spine_ids(e: ChainExpr) -> Set<u64> {
    spine(e).map_values(|p: (u64, Stage)| p.0).to_set()
}

/// The finding on a chain that round-trips.
pub open spec fn round_trip_report() -> DiagnosticModel {
    DiagnosticModel {
        message: "expression builds a collection, walks it again, and builds another"@,
        parts: seq![
            PartModel::Help(
                "bind the first collection to a `let` named for what it holds: the walk that follows is a second computation, and the type it walks is what the collection was chosen for"@,
            ),
        ],
    }
}

pub struct CollectionRoundTrip {
    /// Whether test code is left alone.
    pub exempt_tests: bool,
    /// Calls already measured as part of an outer chain, so one chain
    /// is reported once, from its head.
    pub measured: std::collections::HashSet<u64>,
}

impl CollectionRoundTrip {
    pub fn new(exempt_tests: bool) -> (r: Self)
        ensures
            r.exempt_tests == exempt_tests,
            r.measured@ == Set::<u64>::empty(),
    {
        CollectionRoundTrip { exempt_tests, measured: std::collections::HashSet::new() }
    }

    /// The stages the calls from `head` down its receivers leave, in
    /// source order; each call is marked measured, so the chain is not
    /// measured again from one of its own receivers.
    pub fn walk_spine(&mut self, head: &ChainExpr) -> (r: Vec<Stage>)
        ensures
            r@ == spine_stages(*head).reverse(),
            final(self).measured@ == old(self).measured@.union(spine_ids(*head)),
            final(self).exempt_tests == old(self).exempt_tests,
    {
        let mut stages: Vec<Stage> = Vec::new();
        let mut current = head;
        let ghost mut seen: Seq<(u64, Stage)> = Seq::empty();
        loop
            invariant
                seen + spine(*current) == spine(*head),
                stages@ == seen.map_values(|p: (u64, Stage)| p.1),
                self.measured@ == old(self).measured@.union(seen.map_values(|p: (u64, Stage)| p.0).to_set()),
                self.exempt_tests == old(self).exempt_tests,
            ensures
                seen == spine(*head),
                stages@ == seen.map_values(|p: (u64, Stage)| p.1),
                self.measured@ == old(self).measured@.union(seen.map_values(|p: (u64, Stage)| p.0).to_set()),
                self.exempt_tests == old(self).exempt_tests,
            decreases current,
        {
            match &current.kind {
                ChainKind::MethodCall(receiver) => {
                    if current.from_macro {
                        assert(seen + Seq::<(u64, Stage)>::empty() =~= seen);
                        break;
                    }
                    let stage = stage_of(&current.ty, &receiver.ty);
                    self.measured.insert(current.id);
                    stages.push(stage);
                    proof {
                        let step = seq![(current.id, stage)];
                        assert(seen + spine(*current) =~= (seen + step) + spine(**receiver));
                        assert((seen + step).map_values(|p: (u64, Stage)| p.1) =~= seen.map_values(|p: (u64, Stage)| p.1).push(stage));
                        assert((seen + step).map_values(|p: (u64, Stage)| p.0) =~= seen.map_values(|p: (u64, Stage)| p.0).push(current.id));
                        crate::ordering::lemma_push_to_set(seen.map_values(|p: (u64, Stage)| p.0), current.id);
                        assert(self.measured@ =~= old(self).measured@.union((seen + step).map_values(|p: (u64, Stage)| p.0).to_set()));
                        seen = seen + step;
                    }
                    current = receiver;
                },
                ChainKind::TryOrAwait(inner) => {
                    match inner {
                        Some(x) => {
                            current = x;
                        },
                        None => {
                            assert(seen + Seq::<(u64, Stage)>::empty() =~= seen);
                            break;
                        },
                    }
                },
                ChainKind::Other => {
                    assert(seen + Seq::<(u64, Stage)>::empty() =~= seen);
                    break;
                },
            }
        }
        let ordered = spine_order(stages.as_slice());
        assert(spine_stages(*head) == seen.map_values(|p: (u64, Stage)| p.1));
        ordered
    }

    /// Judges one expression: a method call not already measured as part
    /// of an outer chain, not produced by a macro, whose chain builds a
    /// collection, walks it and builds another, is reported, unless it is
    /// test code and test code is left alone.
    pub fn check_expr(&mut self, expr: &ChainExpr, in_test_code: bool) -> (r: Option<Diagnostic>)
        ensures
            final(self).exempt_tests == old(self).exempt_tests,
            !(expr.kind is MethodCall) || old(self).measured@.contains(expr.id) || expr.from_macro ==> r is None
                && final(self).measured@ == old(self).measured@,
            (expr.kind is MethodCall) && !old(self).measured@.contains(expr.id) && !expr.from_macro ==> {
                &&& final(self).measured@ == old(self).measured@.union(spine_ids(*expr))
                &&& r is Some <==> spec_round_trips(spine_stages(*expr).reverse()) && !(old(self).exempt_tests
                    && in_test_code)
                &&& r matches Some(d) ==> d@ == round_trip_report()
            },
    {
        let is_call = match expr.kind {
            ChainKind::MethodCall(_) => true,
            _ => false,
        };
        if !is_call || self.measured.contains(&expr.id) {
            return None;
        }
        if expr.from_macro {
            return None;
        }
        let stages = self.walk_spine(expr);
        if !round_trips(stages.as_slice()) {
            return None;
        }
        if self.exempt_tests && in_test_code {
            return None;
        }
        let d = Diagnostic {
            message: "expression builds a collection, walks it again, and builds another".to_owned(),
            parts: vec![
                Part::Help(
                    "bind the first collection to a `let` named for what it holds: the walk that follows is a second computation, and the type it walks is what the collection was chosen for".to_owned(),
                ),
            ],
        };
        assert(d@.parts =~= round_trip_report().parts);
        Some(d)
    }
}

} // verus!
