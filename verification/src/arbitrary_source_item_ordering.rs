//! The `arbitrary_source_item_ordering` rule: a module body is ordered
//! `pub mod` declarations, then `pub use` re-exports, then private
//! imports and other items.
use vstd::prelude::*;
use crate::diagnostic::{Diagnostic, DiagnosticModel, Part, PartModel};
use crate::text::{push_str, string_of};

verus! {

/// Where one top-level item of a module body belongs in the sequence
/// the rule enforces.
#[derive(Debug, Clone, Copy, PartialEq, Eq, Structural)]
pub enum Category {
    /// A `mod` declaration carrying an explicit visibility.
    PubMod,
    /// A `use` re-export carrying an explicit visibility.
    PubUse,
    /// A `use` import with no explicit visibility.
    PrivateUse,
    /// Every other item.
    Other,
}

pub open spec fn spec_rank(c: Category) -> u8 {
    match c {
        Category::PubMod => 0,
        Category::PubUse => 1,
        Category::PrivateUse | Category::Other => 2,
    }
}

impl Category {
    /// Which section the category sits in. A smaller rank belongs
    /// further up the module body; private imports and other items share
    /// the last rank.
    pub fn rank(self) -> (r: u8)
        ensures
            r == spec_rank(self),
    {
        match self {
            Category::PubMod => 0,
            Category::PubUse => 1,
            Category::PrivateUse | Category::Other => 2,
        }
    }

    /// How a diagnostic names an item of this category.
    pub fn subject(self) -> (r: &'static str)
        ensures
            r@ == match self {
                Category::PubMod => "`pub mod` declaration"@,
                Category::PubUse => "`pub use` re-export"@,
                Category::PrivateUse => "private `use` import"@,
                Category::Other => "non-import item"@,
            },
    {
        match self {
            Category::PubMod => "`pub mod` declaration",
            Category::PubUse => "`pub use` re-export",
            Category::PrivateUse => "private `use` import",
            Category::Other => "non-import item",
        }
    }
}

/// The syntactic facts about one item that decide its category.
#[derive(Clone, Copy)]
pub struct ItemShape {
    /// Produced by a macro expansion.
    pub from_expansion: bool,
    pub kind: ItemKind,
    /// Written with a visibility of its own (`pub`, `pub(crate)`, ...).
    pub explicit_visibility: bool,
    /// A `use` gated by `#[cfg(...)]`.
    pub cfg_gated: bool,
}

#[derive(Clone, Copy, PartialEq, Eq, Structural)]
pub enum ItemKind {
    ExternCrate,
    Use,
    Mod,
    Other,
}

pub open spec fn spec_classify(item: ItemShape) -> Option<Category> {
    if item.from_expansion {
        None
    } else {
        match item.kind {
            ItemKind::ExternCrate => None,
            ItemKind::Use => if item.cfg_gated {
                None
            } else if item.explicit_visibility {
                Some(Category::PubUse)
            } else {
                Some(Category::PrivateUse)
            },
            ItemKind::Mod => if item.explicit_visibility {
                Some(Category::PubMod)
            } else {
                Some(Category::Other)
            },
            ItemKind::Other => Some(Category::Other),
        }
    }
}

/// Which section `item` belongs to, or `None` when it is transparent to
/// the ordering: an `extern crate`, a `#[cfg(...)]`-gated `use`, or a
/// macro-expanded item.
pub fn classify(item: ItemShape) -> (r: Option<Category>)
    ensures
        r == spec_classify(item),
{
    if item.from_expansion {
        return None;
    }
    match item.kind {
        ItemKind::ExternCrate => None,
        ItemKind::Use => if item.cfg_gated {
            None
        } else if item.explicit_visibility {
            Some(Category::PubUse)
        } else {
            Some(Category::PrivateUse)
        },
        ItemKind::Mod => if item.explicit_visibility {
            Some(Category::PubMod)
        } else {
            Some(Category::Other)
        },
        ItemKind::Other => Some(Category::Other),
    }
}

/// A misplaced item: `offender` sits below `blocker`, the first item to
/// reach the highest section seen so far, whose section it belongs
/// above.
#[derive(Debug, Clone, Copy, PartialEq, Eq, Structural)]
pub struct Misplaced {
    pub offender: usize,
    pub offender_category: Category,
    pub blocker: usize,
    pub blocker_category: Category,
}

/// The high-water mark after the first `n` items: the first item to
/// reach the highest rank seen, if any item was classified.
pub open spec fn high_water(items: Seq<Option<Category>>, n: int) -> Option<(int, Category)>
    decreases n,
{
    if n <= 0 {
        None
    } else {
        let prev = high_water(items, n - 1);
        match items[n - 1] {
            None => prev,
            Some(c) => match prev {
                None => Some((n - 1, c)),
                Some((b, bc)) => if spec_rank(c) > spec_rank(bc) {
                    Some((n - 1, c))
                } else {
                    prev
                },
            },
        }
    }
}

/// Whether item `i` is reported, and against which blocker.
pub open spec fn misplaced_at(items: Seq<Option<Category>>, i: int) -> Option<Misplaced> {
    match (items[i], high_water(items, i)) {
        (Some(c), Some((b, bc))) => if spec_rank(c) < spec_rank(bc) {
            Some(Misplaced { offender: i as usize, offender_category: c, blocker: b as usize, blocker_category: bc })
        } else {
            None
        },
        _ => None,
    }
}

/// The violations among the first `n` items, in order.
pub open spec fn spec_violations(items: Seq<Option<Category>>, n: int) -> Seq<Misplaced>
    decreases n,
{
    if n <= 0 {
        Seq::empty()
    } else {
        match misplaced_at(items, n - 1) {
            Some(m) => spec_violations(items, n - 1).push(m),
            None => spec_violations(items, n - 1),
        }
    }
}

/// Check one module body's top-level sequence (each item's category,
/// `None` for a transparent item). An item whose rank falls below the
/// highest rank already seen is reported against the first item to
/// reach that rank; a violating item does not itself raise the mark.
pub fn check_items(items: &[Option<Category>]) -> (r: Vec<Misplaced>)
    ensures
        r@ == spec_violations(items@, items@.len() as int),
{
    let mut out: Vec<Misplaced> = Vec::new();
    let mut highest: Option<(usize, Category)> = None;
    let mut i: usize = 0;
    while i < items.len()
        invariant
            i <= items@.len(),
            match highest {
                None => high_water(items@, i as int) is None,
                Some((b, c)) => high_water(items@, i as int) == Some((b as int, c)),
            },
            out@ == spec_violations(items@, i as int),
        decreases items@.len() - i,
    {
        if let Some(category) = items[i] {
            match highest {
                Some((b, blocker)) => {
                    if category.rank() < blocker.rank() {
                        out.push(
                            Misplaced {
                                offender: i,
                                offender_category: category,
                                blocker: b,
                                blocker_category: blocker,
                            },
                        );
                    } else if category.rank() > blocker.rank() {
                        highest = Some((i, category));
                    }
                },
                None => {
                    highest = Some((i, category));
                },
            }
        }
        i = i + 1;
    }
    out
}

/// No classified item sits below a section it belongs above.
pub open spec fn well_ordered(items: Seq<Option<Category>>) -> bool {
    forall|i: int, j: int|
        0 <= i < j < items.len() && items[i] is Some && items[j] is Some ==> spec_rank(
            #[trigger] items[i].unwrap(),
        ) <= spec_rank(#[trigger] items[j].unwrap())
}

/// The high-water mark is the highest rank among the classified items
/// seen so far, held by the first item to reach it.
proof fn lemma_high_water(items: Seq<Option<Category>>, n: int)
    requires
        0 <= n <= items.len(),
    ensures
        match high_water(items, n) {
            None => forall|j: int| 0 <= j < n ==> items[j] is None,
            Some((b, bc)) => 0 <= b < n && items[b] == Some(bc) && (forall|j: int|
                0 <= j < n && items[j] is Some ==> spec_rank(#[trigger] items[j].unwrap()) <= spec_rank(bc))
                && (forall|j: int| 0 <= j < b && items[j] is Some ==> spec_rank(#[trigger] items[j].unwrap()) < spec_rank(bc)),
        },
    decreases n,
{
    if n > 0 {
        lemma_high_water(items, n - 1);
        let prev = high_water(items, n - 1);
        match items[n - 1] {
            None => {},
            Some(c) => match prev {
                None => {},
                Some((b, bc)) => {
                    if spec_rank(c) > spec_rank(bc) {
                        assert forall|j: int| 0 <= j < n && items[j] is Some implies spec_rank(
                            #[trigger] items[j].unwrap(),
                        ) <= spec_rank(c) by {
                            if j < n - 1 {
                                assert(spec_rank(items[j].unwrap()) <= spec_rank(bc));
                            }
                        }
                        assert forall|j: int| 0 <= j < n - 1 && items[j] is Some implies spec_rank(
                            #[trigger] items[j].unwrap(),
                        ) < spec_rank(c) by {
                            assert(spec_rank(items[j].unwrap()) <= spec_rank(bc));
                        }
                    }
                },
            },
        }
    }
}

/// Law: the rule reports nothing exactly when the body is already in
/// section order.
pub proof fn lemma_no_violations_iff_ordered(items: Seq<Option<Category>>)
    ensures
        (spec_violations(items, items.len() as int).len() == 0) == well_ordered(items),
{
    lemma_violations_prefix(items, items.len() as int);
}

proof fn lemma_violations_prefix(items: Seq<Option<Category>>, n: int)
    requires
        0 <= n <= items.len(),
    ensures
        (spec_violations(items, n).len() == 0) == (forall|i: int, j: int|
            0 <= i < j < n && items[i] is Some && items[j] is Some ==> spec_rank(
                #[trigger] items[i].unwrap(),
            ) <= spec_rank(#[trigger] items[j].unwrap())),
    decreases n,
{
    if n > 0 {
        lemma_violations_prefix(items, n - 1);
        lemma_high_water(items, n - 1);
        let last = n - 1;
        if spec_violations(items, n - 1).len() == 0 {
            match misplaced_at(items, last) {
                Some(m) => {
                    let (b, bc) = high_water(items, last).unwrap();
                    assert(items[b] is Some && items[last] is Some);
                    assert(spec_rank(items[b].unwrap()) > spec_rank(items[last].unwrap()));
                },
                None => {
                    assert forall|i: int, j: int|
                        0 <= i < j < n && items[i] is Some && items[j] is Some implies spec_rank(
                            #[trigger] items[i].unwrap(),
                        ) <= spec_rank(#[trigger] items[j].unwrap()) by {
                        if j == last {
                            match high_water(items, last) {
                                Some((b, bc)) => {},
                                None => {},
                            }
                        }
                    }
                },
            }
        }
    }
}

/// The first section belongs to `mod` declarations written with a
/// visibility of their own: such a `mod` (not produced by a macro) is
/// classified at rank 0, and nothing else is; a `mod` without a
/// visibility is an ordinary item of the last section.
pub proof fn lemma_visible_mod_first_section(item: ItemShape)
    ensures
        (spec_classify(item) matches Some(c) && spec_rank(c) == 0)
            <==> (!item.from_expansion && item.kind == ItemKind::Mod && item.explicit_visibility),
        !item.from_expansion && item.kind == ItemKind::Mod && !item.explicit_visibility
            ==> spec_classify(item) == Some(Category::Other),
{
}

/// A `mod` written with its own visibility that follows any classified
/// item which is not itself such a `mod` (a private import, a re-export,
/// any other item) is out of order, and the rule reports a violation in
/// that module body.
pub proof fn lemma_visible_mod_below_other_reported(items: Seq<ItemShape>, j: int, i: int)
    requires
        0 <= j < i < items.len(),
        !items[i].from_expansion,
        items[i].kind == ItemKind::Mod,
        items[i].explicit_visibility,
        spec_classify(items[j]) is Some,
        !(items[j].kind == ItemKind::Mod && items[j].explicit_visibility),
    ensures
        spec_violations(items.map_values(|it: ItemShape| spec_classify(it)), items.len() as int).len() > 0,
{
    let cats = items.map_values(|it: ItemShape| spec_classify(it));
    lemma_visible_mod_first_section(items[i]);
    lemma_visible_mod_first_section(items[j]);
    assert(cats[j] == spec_classify(items[j]));
    assert(cats[i] == spec_classify(items[i]));
    assert(spec_rank(cats[j].unwrap()) > spec_rank(cats[i].unwrap()));
    assert(!well_ordered(cats));
    lemma_no_violations_iff_ordered(cats);
}

pub open spec fn subject_spec(c: Category) -> Seq<char> {
    match c {
        Category::PubMod => "`pub mod` declaration"@,
        Category::PubUse => "`pub use` re-export"@,
        Category::PrivateUse => "private `use` import"@,
        Category::Other => "non-import item"@,
    }
}

pub open spec fn report_spec(offender: Category, blocker: Category) -> DiagnosticModel {
    DiagnosticModel {
        message: subject_spec(offender) + " appears after a "@ + subject_spec(blocker),
        parts: seq![
            PartModel::Note("this "@ + subject_spec(blocker) + " belongs below it"@),
            PartModel::Help("a module body is ordered `pub mod` declarations, then `pub use` re-exports, then private imports and other items"@),
        ],
    }
}

/// The rule. It takes no configuration.
pub struct ArbitrarySourceItemOrdering;

impl ArbitrarySourceItemOrdering {
    pub fn new() -> (r: Self) {
        ArbitrarySourceItemOrdering
    }

    /// The report for an item of category `offender` that appears after
    /// an item of the later section `blocker`; the note goes on the
    /// blocker.
    pub fn report(&self, offender: Category, blocker: Category) -> (d: Diagnostic)
        ensures
            d@ == report_spec(offender, blocker),
    {
        let mut message: Vec<char> = Vec::new();
        push_str(&mut message, offender.subject());
        push_str(&mut message, " appears after a ");
        push_str(&mut message, blocker.subject());
        let mut note: Vec<char> = Vec::new();
        push_str(&mut note, "this ");
        push_str(&mut note, blocker.subject());
        push_str(&mut note, " belongs below it");
        let d = Diagnostic {
            message: string_of(message.as_slice()),
            parts: vec![
                Part::Note(string_of(note.as_slice())),
                Part::Help("a module body is ordered `pub mod` declarations, then `pub use` re-exports, then private imports and other items".to_owned()),
            ],
        };
        assert(d@.message =~= report_spec(offender, blocker).message);
        assert(d@.parts =~= report_spec(offender, blocker).parts);
        d
    }
}

} // verus!
