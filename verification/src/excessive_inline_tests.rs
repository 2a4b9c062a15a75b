//! The `excessive_inline_tests` rule, its per-file decision: a source
//! file that mixes production items with inline test code is reported —
//! always under `external_only`, and under `external_when_long` (the
//! default) when the inline test code runs past the configured budget.
use vstd::prelude::*;
use crate::text::{decimal, push_decimal, push_str, string_of};

pub mod cfg_test;

use crate::excessive_inline_tests::cfg_test::{cfg_predicate_implies_test, gated_to_test, CfgEntry};

verus! {

#[derive(Debug, Clone, Copy, PartialEq, Eq, Structural)]
pub enum InlineStyle {
    /// Every inline test item is reported.
    ExternalOnly,
    /// Inline test code is reported once it exceeds the line budget or
    /// the configured fraction of the file.
    ExternalWhenLong,
}

/// The rule's settings that the decision reads. The fractional cap is
/// a float; whether a file exceeds it is worked out beside the rule and
/// handed in.
pub struct ExcessiveInlineTests {
    pub inline_style: InlineStyle,
    pub inline_max_lines: usize,
}

/// One inline test item of a file: the item it is, and the name of its
/// inline `#[cfg(test)] mod`, or `None` for a bare test item.
pub struct TestItem {
    pub id: u64,
    pub module_name: Option<String>,
}

/// A finding to report: on one test item, or on the span covering them
/// all. `name` is the module name the help text proposes to extract.
pub enum InlineFinding {
    Item { index: usize, message: String, name: String },
    Whole { message: String, name: String },
}

pub open spec fn name_views(items: Seq<TestItem>) -> Seq<Option<Seq<char>>> {
    items.map_values(|t: TestItem| match t.module_name {
        Some(n) => Some(n@),
        None => None,
    })
}

/// The module name every item shares, when they all have the same one.
pub open spec fn common_name(names: Seq<Option<Seq<char>>>) -> Option<Seq<char>> {
    if names.len() > 0 && names[0] is Some && forall|k: int| 0 <= k < names.len() ==> #[trigger] names[k] == names[0] {
        names[0]
    } else {
        None
    }
}

/// The single module name shared by every recorded test item, if they
/// agree — e.g. one over-budget `#[cfg(test)] mod tests`. `None` when
/// the items disagree or any is a bare item.
pub fn common_module_name(items: &[TestItem]) -> (r: Option<String>)
    ensures
        match r {
            Some(n) => common_name(name_views(items@)) == Some(n@),
            None => common_name(name_views(items@)) is None,
        },
{
    let ghost nv = name_views(items@);
    if items.len() == 0 {
        return None;
    }
    let first = match &items[0].module_name {
        Some(n) => n,
        None => {
            return None;
        },
    };
    let mut k: usize = 1;
    while k < items.len()
        invariant
            1 <= k <= items@.len(),
            nv == name_views(items@),
            nv[0] == Some(first@),
            forall|j: int| 0 <= j < k ==> #[trigger] nv[j] == nv[0],
        decreases items@.len() - k,
    {
        let same = match &items[k].module_name {
            Some(n) => *n == *first,
            None => false,
        };
        if !same {
            assert(nv[k as int] != nv[0]);
            return None;
        }
        k = k + 1;
    }
    Some(first.clone())
}

pub open spec fn lib_rs() -> Seq<char> {
    seq!['l', 'i', 'b', '.', 'r', 's']
}

pub open spec fn main_rs() -> Seq<char> {
    seq!['m', 'a', 'i', 'n', '.', 'r', 's']
}

/// Whether a file named `file_name` owns a directory of child modules:
/// `lib.rs`, `main.rs` or `mod.rs`.
pub fn is_mod_root(file_name: Option<&str>) -> (r: bool)
    ensures
        r == (file_name matches Some(n) && (n@ == lib_rs() || n@ == main_rs() || n@ == crate::flat_module_pattern::mod_rs())),
{
    match file_name {
        Some(n) => {
            let c = crate::text::chars_of(n);
            let a = vec!['l', 'i', 'b', '.', 'r', 's'];
            let b = vec!['m', 'a', 'i', 'n', '.', 'r', 's'];
            let m = vec!['m', 'o', 'd', '.', 'r', 's'];
            assert(a@ =~= lib_rs());
            assert(b@ =~= main_rs());
            assert(m@ =~= crate::flat_module_pattern::mod_rs());
            crate::text::slice_eq(c.as_slice(), a.as_slice()) || crate::text::slice_eq(c.as_slice(), b.as_slice())
                || crate::text::slice_eq(c.as_slice(), m.as_slice())
        },
        None => false,
    }
}

pub open spec fn rs_suffix() -> Seq<char> {
    seq!['.', 'r', 's']
}

/// Where the module `name` declared in a file is extracted, as path
/// components below that file's directory: `<name>.rs` beside a file
/// that owns a directory of child modules (`lib.rs`, `main.rs`,
/// `mod.rs`), `<stem>/<name>.rs` beside any other file — where Cargo
/// looks for a child module. `None` for a file with no directory, or
/// with no stem when one is needed.
pub open spec fn target_spec(has_dir: bool, file_name: Option<Seq<char>>, stem: Option<Seq<char>>, name: Seq<char>) -> Option<Seq<Seq<char>>> {
    if !has_dir {
        None
    } else if file_name matches Some(n) && (n == lib_rs() || n == main_rs() || n == crate::flat_module_pattern::mod_rs()) {
        Some(seq![name + rs_suffix()])
    } else {
        match stem {
            Some(s) => Some(seq![s, name + rs_suffix()]),
            None => None,
        }
    }
}

/// Where a module is extracted to: from `lib.rs`, `main.rs` or
/// `mod.rs`, which own their directory, the module `name` goes to
/// `<name>.rs` beside the file; from any other file `<stem>.rs` it goes
/// to `<stem>/<name>.rs`, the only form with two components; a file with
/// no directory gets no target.
pub proof fn lemma_extraction_target(has_dir: bool, file_name: Option<Seq<char>>, stem: Option<Seq<char>>, name: Seq<char>)
    ensures
        !has_dir ==> target_spec(has_dir, file_name, stem, name) is None,
        has_dir && (file_name == Some("lib.rs"@) || file_name == Some("main.rs"@) || file_name == Some("mod.rs"@))
            ==> target_spec(has_dir, file_name, stem, name) == Some(seq![name + ".rs"@]),
        has_dir && !(file_name == Some("lib.rs"@) || file_name == Some("main.rs"@) || file_name == Some("mod.rs"@))
            ==> target_spec(has_dir, file_name, stem, name) == (match stem {
                Some(s) => Some(seq![s, name + ".rs"@]),
                None => None,
            }),
{
    reveal_strlit("lib.rs");
    reveal_strlit("main.rs");
    reveal_strlit("mod.rs");
    reveal_strlit(".rs");
    assert("lib.rs"@ =~= lib_rs());
    assert("main.rs"@ =~= main_rs());
    assert("mod.rs"@ =~= crate::flat_module_pattern::mod_rs());
    assert(".rs"@ =~= rs_suffix());
}

/// The extraction target of the module `name` declared in a file, as
/// path components below the file's directory. `has_dir` tells whether
/// the file has a directory; `file_name` and `stem` are its name and its
/// name without extension, where they are valid UTF-8.
pub fn canonical_target(has_dir: bool, file_name: Option<&str>, stem: Option<&str>, name: &str) -> (r: Option<Vec<String>>)
    ensures
        match r {
            Some(c) => target_spec(has_dir, opt_str_view(file_name), opt_str_view(stem), name@) == Some(crate::ordering::views(c@)),
            None => target_spec(has_dir, opt_str_view(file_name), opt_str_view(stem), name@) is None,
        },
{
    if !has_dir {
        return None;
    }
    let mut file: Vec<char> = crate::text::chars_of(name);
    file.push('.');
    file.push('r');
    file.push('s');
    assert(file@ =~= name@ + rs_suffix());
    let file = string_of(file.as_slice());
    if is_mod_root(file_name) {
        let r = vec![file];
        assert(crate::ordering::views(r@) =~= seq![name@ + rs_suffix()]);
        return Some(r);
    }
    match stem {
        Some(s) => {
            let r = vec![s.to_owned(), file];
            assert(crate::ordering::views(r@) =~= seq![s@, name@ + rs_suffix()]);
            Some(r)
        },
        None => None,
    }
}

pub open spec fn opt_str_view(o: Option<&str>) -> Option<Seq<char>> {
    match o {
        Some(s) => Some(s@),
        None => None,
    }
}

pub open spec fn tests_word() -> Seq<char> {
    seq!['t', 'e', 's', 't', 's']
}

pub open spec fn help_spec(name: Seq<char>, target: Option<Seq<char>>) -> Seq<char> {
    match target {
        Some(t) => "move the inline test code into a separate file (e.g. `"@ + t
            + "`) and replace it with an external `mod "@ + name + ";` declaration"@,
        None => "move the inline test code into a separate file and replace it with an external `mod "@
            + name + ";` declaration"@,
    }
}

/// The help text naming the extraction target: `name` is the module to
/// extract (the conventional `tests` when the items have none), `target`
/// the displayed path of the file it belongs in, when known.
pub fn help_extract(name: Option<&str>, target: Option<&str>) -> (r: String)
    ensures
        r@ == help_spec(
            match name {
                Some(n) => n@,
                None => tests_word(),
            },
            match target {
                Some(t) => Some(t@),
                None => None,
            },
        ),
{
    let mut out: Vec<char> = Vec::new();
    let mut n: Vec<char> = Vec::new();
    match name {
        Some(s) => push_str(&mut n, s),
        None => push_str(&mut n, "tests"),
    }
    proof {
        if name is None {
            reveal_strlit("tests");
            assert(n@ =~= tests_word());
        }
    }
    match target {
        Some(t) => {
            push_str(&mut out, "move the inline test code into a separate file (e.g. `");
            push_str(&mut out, t);
            push_str(&mut out, "`) and replace it with an external `mod ");
        },
        None => {
            push_str(&mut out, "move the inline test code into a separate file and replace it with an external `mod ");
        },
    }
    crate::text::push_all(&mut out, n.as_slice());
    push_str(&mut out, ";` declaration");
    string_of(out.as_slice())
}

pub open spec fn spans_message(lines: nat, max: nat) -> Seq<char> {
    "inline test code spans "@ + decimal(lines) + " lines, over the limit of "@ + decimal(max)
}

pub open spec fn fraction_message(lines: nat, file_lines: nat) -> Seq<char> {
    "inline test code is "@ + decimal(lines) + " of "@ + decimal(file_lines)
        + " lines in this file, over the configured fraction"@
}

pub open spec fn item_name(t: TestItem) -> Seq<char> {
    match t.module_name {
        Some(n) => n@,
        None => tests_word(),
    }
}

impl ExcessiveInlineTests {
    /// The findings for one file: nothing when it has no inline test
    /// items or no production items (a file of test code alone is an
    /// extraction target itself). Under `external_only` one finding per
    /// item; under `external_when_long` one finding over all of them
    /// when the inline test lines exceed `inline_max_lines`, or, failing
    /// that, when `over_fraction` says they exceed the configured share
    /// of the file's `file_lines`.
    pub fn emit_inline_style(
        &self,
        items: &[TestItem],
        production_count: usize,
        inline_test_lines: usize,
        file_lines: usize,
        over_fraction: bool,
    ) -> (r: Vec<InlineFinding>)
        ensures
            items@.len() == 0 || production_count == 0 ==> r@.len() == 0,
            items@.len() > 0 && production_count > 0 && self.inline_style == InlineStyle::ExternalOnly ==> {
                &&& r@.len() == items@.len()
                &&& forall|k: int| 0 <= k < r@.len() ==> (#[trigger] r@[k] matches InlineFinding::Item { index, message, name }
                    && index == k && message@ == "inline test code should live in an external module"@
                    && name@ == item_name(items@[k]))
            },
            items@.len() > 0 && production_count > 0 && self.inline_style == InlineStyle::ExternalWhenLong ==> {
                let over_absolute = inline_test_lines > self.inline_max_lines;
                if !over_absolute && !over_fraction {
                    r@.len() == 0
                } else {
                    &&& r@.len() == 1
                    &&& r@[0] matches InlineFinding::Whole { message, name }
                    &&& message@ == if over_absolute {
                        spans_message(inline_test_lines as nat, self.inline_max_lines as nat)
                    } else {
                        fraction_message(inline_test_lines as nat, file_lines as nat)
                    }
                    &&& name@ == match common_name(name_views(items@)) {
                        Some(n) => n,
                        None => tests_word(),
                    }
                }
            },
    {
        let mut out: Vec<InlineFinding> = Vec::new();
        if items.len() == 0 || production_count == 0 {
            return out;
        }
        match self.inline_style {
            InlineStyle::ExternalOnly => {
                let mut k: usize = 0;
                while k < items.len()
                    invariant
                        k <= items@.len(),
                        out@.len() == k,
                        forall|j: int| 0 <= j < k ==> (#[trigger] out@[j] matches InlineFinding::Item { index, message, name }
                            && index == j && message@ == "inline test code should live in an external module"@
                            && name@ == item_name(items@[j])),
                    decreases items@.len() - k,
                {
                    let name = match &items[k].module_name {
                        Some(n) => n.clone(),
                        None => {
                            let t = "tests".to_owned();
                            proof {
                                reveal_strlit("tests");
                            }
                            assert(t@ =~= tests_word());
                            t
                        },
                    };
                    out.push(InlineFinding::Item {
                        index: k,
                        message: "inline test code should live in an external module".to_owned(),
                        name,
                    });
                    k = k + 1;
                }
                out
            },
            InlineStyle::ExternalWhenLong => {
                let over_absolute = inline_test_lines > self.inline_max_lines;
                if !over_absolute && !over_fraction {
                    return out;
                }
                let mut m: Vec<char> = Vec::new();
                if over_absolute {
                    push_str(&mut m, "inline test code spans ");
                    push_decimal(&mut m, inline_test_lines);
                    push_str(&mut m, " lines, over the limit of ");
                    push_decimal(&mut m, self.inline_max_lines);
                } else {
                    push_str(&mut m, "inline test code is ");
                    push_decimal(&mut m, inline_test_lines);
                    push_str(&mut m, " of ");
                    push_decimal(&mut m, file_lines);
                    push_str(&mut m, " lines in this file, over the configured fraction");
                }
                let name = match common_module_name(items) {
                    Some(n) => n,
                    None => {
                        let t = "tests".to_owned();
                        proof {
                            reveal_strlit("tests");
                        }
                        assert(t@ =~= tests_word());
                        t
                    },
                };
                out.push(InlineFinding::Whole { message: string_of(m.as_slice()), name });
                out
            },
        }
    }
}

/// Where an item came from.
#[derive(Debug, Clone, Copy, PartialEq, Eq, Structural)]
pub enum ItemOrigin {
    /// Written by the author.
    Written,
    /// Produced by the expansion of a macro invoked in the given file.
    Macro(u64),
    /// Synthesised by the compiler (the test harness, a desugaring).
    Synthesised,
}

/// An item of the crate as the scan reads it.
pub struct ScanItem {
    /// Identifies the item within the crate.
    pub id: u64,
    /// The source file the item starts in.
    pub file: u64,
    pub origin: ItemOrigin,
    /// The `cfg` predicates left on the item.
    pub cfgs: Vec<CfgEntry>,
    /// The item is a function the test harness runs.
    pub is_test_fn: bool,
    /// How many lines the item spans.
    pub lines: usize,
    pub kind: ScanKind,
}

pub enum ScanKind {
    /// A module: its name, whether its body lives in another file, and
    /// its items.
    Mod(String, bool, Vec<ScanItem>),
    Other,
}

/// One source file's tally.
pub struct FileAcc {
    pub file: u64,
    /// The production items of the file.
    pub production_count: usize,
    /// The inline test items charged to the file.
    pub test_items: Vec<TestItem>,
    /// The lines those items span, summed.
    pub inline_test_lines: usize,
}

pub struct AccView {
    pub file: u64,
    pub production_count: nat,
    pub test_items: Seq<(u64, Option<Seq<char>>)>,
    pub inline_test_lines: nat,
}

pub open spec fn test_item_view(t: TestItem) -> (u64, Option<Seq<char>>) {
    (t.id, match t.module_name {
        Some(n) => Some(n@),
        None => None,
    })
}

impl View for FileAcc {
    type V = AccView;

    open spec fn view(&self) -> AccView {
        AccView {
            file: self.file,
            production_count: self.production_count as nat,
            test_items: self.test_items@.map_values(|t: TestItem| test_item_view(t)),
            inline_test_lines: self.inline_test_lines as nat,
        }
    }
}

pub open spec fn acc_views(accs: Seq<FileAcc>) -> Seq<AccView> {
    accs.map_values(|a: FileAcc| a@)
}

/// Each file appears once.
pub open spec fn distinct_files(accs: Seq<AccView>) -> bool {
    forall|i: int, j: int| 0 <= i < accs.len() && 0 <= j < accs.len() && i != j ==> accs[i].file != accs[j].file
}

/// The position of `file`'s tally, or `-1`.
pub open spec fn acc_at(accs: Seq<AccView>, file: u64) -> int {
    if exists|i: int| 0 <= i < accs.len() && accs[i].file == file {
        choose|i: int| 0 <= i < accs.len() && accs[i].file == file
    } else {
        -1
    }
}

pub open spec fn empty_acc(file: u64) -> AccView {
    AccView { file, production_count: 0, test_items: Seq::empty(), inline_test_lines: 0 }
}

/// The tallies with one for `file`, appended when it is new.
pub open spec fn with_file(accs: Seq<AccView>, file: u64) -> Seq<AccView> {
    if acc_at(accs, file) >= 0 {
        accs
    } else {
        accs.push(empty_acc(file))
    }
}

/// One production item charged to `file`.
pub open spec fn add_production(accs: Seq<AccView>, file: u64) -> Seq<AccView> {
    let a = with_file(accs, file);
    let i = acc_at(a, file);
    a.update(
        i,
        AccView {
            file: a[i].file,
            production_count: a[i].production_count + 1,
            test_items: a[i].test_items,
            inline_test_lines: a[i].inline_test_lines,
        },
    )
}

/// One inline test item of `lines` lines charged to `file`.
pub open spec fn add_test(accs: Seq<AccView>, file: u64, id: u64, name: Option<Seq<char>>, lines: nat) -> Seq<AccView> {
    let a = with_file(accs, file);
    let i = acc_at(a, file);
    a.update(
        i,
        AccView {
            file: a[i].file,
            production_count: a[i].production_count,
            test_items: a[i].test_items.push((id, name)),
            inline_test_lines: a[i].inline_test_lines + lines,
        },
    )
}

pub open spec fn is_test_item(item: ScanItem) -> bool {
    gated_to_test(item.cfgs@) || (item.kind is Other && item.is_test_fn)
}

/// The tallies after one item: a synthesised item counts for nothing; a
/// macro's item counts as production at the macro's call site when it
/// is not test code, and is not looked into; an inline `#[cfg(test)]`
/// module is one test item, an external one counts for nothing, and a
/// production module counts and is looked into; any other item is test
/// code or production.
pub open spec fn scan_item_spec(accs: Seq<AccView>, item: ScanItem) -> Seq<AccView>
    decreases item,
{
    match item.origin {
        ItemOrigin::Synthesised => accs,
        ItemOrigin::Macro(site) => if is_test_item(item) {
            accs
        } else {
            add_production(accs, site)
        },
        ItemOrigin::Written => match item.kind {
            ScanKind::Mod(name, external, items) => if gated_to_test(item.cfgs@) {
                if external {
                    accs
                } else {
                    add_test(accs, item.file, item.id, Some(name@), item.lines as nat)
                }
            } else {
                scan_items_spec(add_production(accs, item.file), items@)
            },
            ScanKind::Other => if is_test_item(item) {
                add_test(accs, item.file, item.id, None, item.lines as nat)
            } else {
                add_production(accs, item.file)
            },
        },
    }
}

pub open spec fn scan_items_spec(accs: Seq<AccView>, items: Seq<ScanItem>) -> Seq<AccView>
    decreases items,
{
    if items.len() == 0 {
        accs
    } else {
        scan_item_spec(scan_items_spec(accs, items.drop_last()), items.last())
    }
}

/// How many items the tree holds, and how many lines they span; bounds
/// on what any tally can reach.
pub open spec fn item_count(item: ScanItem) -> nat
    decreases item,
{
    1 + match item.kind {
        ScanKind::Mod(_, _, items) => items_count(items@),
        ScanKind::Other => 0,
    }
}

pub open spec fn items_count(items: Seq<ScanItem>) -> nat
    decreases items,
{
    if items.len() == 0 {
        0
    } else {
        items_count(items.drop_last()) + item_count(items.last())
    }
}

pub open spec fn item_lines(item: ScanItem) -> nat
    decreases item,
{
    item.lines as nat + match item.kind {
        ScanKind::Mod(_, _, items) => items_lines(items@),
        ScanKind::Other => 0,
    }
}

pub open spec fn items_lines(items: Seq<ScanItem>) -> nat
    decreases items,
{
    if items.len() == 0 {
        0
    } else {
        items_lines(items.drop_last()) + item_lines(items.last())
    }
}

pub open spec fn bounded(accs: Seq<AccView>, count: nat, lines: nat) -> bool {
    forall|i: int| 0 <= i < accs.len() ==> (#[trigger] accs[i]).production_count <= count && accs[i].inline_test_lines <= lines
}

/// The position of `file`'s tally in `accs`, appending an empty one when
/// the file is new.
fn acc_for(accs: &mut Vec<FileAcc>, file: u64) -> (i: usize)
    requires
        distinct_files(acc_views(old(accs)@)),
    ensures
        acc_views(final(accs)@) == with_file(acc_views(old(accs)@), file),
        distinct_files(acc_views(final(accs)@)),
        i as int == acc_at(acc_views(final(accs)@), file),
        i < final(accs)@.len(),
{
    let ghost v = acc_views(accs@);
    let mut k: usize = 0;
    while k < accs.len()
        invariant
            k <= accs@.len(),
            v == acc_views(accs@),
            accs@ == old(accs)@,
            distinct_files(v),
            forall|j: int| 0 <= j < k ==> v[j].file != file,
        decreases accs@.len() - k,
    {
        if accs[k].file == file {
            assert(v[k as int].file == file);
            assert(acc_at(v, file) == k) by {
                let c = choose|i: int| 0 <= i < v.len() && v[i].file == file;
                if c != k {
                    assert(v[c].file != v[k as int].file);
                }
            }
            return k;
        }
        k = k + 1;
    }
    assert(!exists|i: int| 0 <= i < v.len() && v[i].file == file);
    let fresh = FileAcc { file, production_count: 0, test_items: Vec::new(), inline_test_lines: 0 };
    let ghost fv = fresh@;
    assert(fv.test_items =~= Seq::<(u64, Option<Seq<char>>)>::empty());
    assert(fv == empty_acc(file));
    accs.push(fresh);
    let ghost w = acc_views(accs@);
    assert(w =~= v.push(fv)) by {
        assert(accs@ == old(accs)@.push(accs@[k as int]));
        assert(accs@[k as int]@ == fv);
        assert forall|j: int| 0 <= j < w.len() implies w[j] == v.push(fv)[j] by {
            if j < k {
                assert(accs@[j] == old(accs)@[j]);
            }
        }
    }
    assert(acc_at(w, file) == k) by {
        assert(w[k as int].file == file);
        let c = choose|i: int| 0 <= i < w.len() && w[i].file == file;
        if c != k {
            assert(v[c].file == file);
        }
    }
    assert(distinct_files(w)) by {
        assert forall|x: int, y: int| 0 <= x < w.len() && 0 <= y < w.len() && x != y implies w[x].file != w[y].file by {
            if x < k && y < k {
                assert(w[x] == v[x] && w[y] == v[y]);
            } else if x < k {
                assert(w[x] == v[x]);
            } else if y < k {
                assert(w[y] == v[y]);
            }
        }
    }
    k
}

fn charge_production(accs: &mut Vec<FileAcc>, file: u64, Ghost(count): Ghost<nat>, Ghost(lines): Ghost<nat>)
    requires
        distinct_files(acc_views(old(accs)@)),
        bounded(acc_views(old(accs)@), count, lines),
        count < usize::MAX,
    ensures
        acc_views(final(accs)@) == add_production(acc_views(old(accs)@), file),
        distinct_files(acc_views(final(accs)@)),
        bounded(acc_views(final(accs)@), count + 1, lines),
{
    let i = acc_for(accs, file);
    let ghost a = acc_views(accs@);
    assert(a[i as int] == accs@[i as int]@);
    let n = accs[i].production_count + 1;
    accs[i].production_count = n;
    let ghost b = acc_views(accs@);
    assert(b =~= a.update(
        i as int,
        AccView {
            file: a[i as int].file,
            production_count: a[i as int].production_count + 1,
            test_items: a[i as int].test_items,
            inline_test_lines: a[i as int].inline_test_lines,
        },
    ));
    assert(bounded(b, count + 1, lines)) by {
        assert forall|j: int| 0 <= j < b.len() implies (#[trigger] b[j]).production_count <= count + 1 && b[j].inline_test_lines <= lines by {
            if j != i {
                assert(b[j] == a[j]);
                if j < acc_views(old(accs)@).len() {
                    assert(a[j] == acc_views(old(accs)@)[j]);
                }
            } else if i < acc_views(old(accs)@).len() {
                assert(a[j] == acc_views(old(accs)@)[j]);
            }
        }
    }
    assert(distinct_files(b)) by {
        assert forall|x: int, y: int| 0 <= x < b.len() && 0 <= y < b.len() && x != y implies b[x].file != b[y].file by {
            assert(b[x].file == a[x].file && b[y].file == a[y].file);
        }
    }
}

fn charge_test(
    accs: &mut Vec<FileAcc>,
    file: u64,
    id: u64,
    name: Option<String>,
    item_lines: usize,
    Ghost(count): Ghost<nat>,
    Ghost(lines): Ghost<nat>,
)
    requires
        distinct_files(acc_views(old(accs)@)),
        bounded(acc_views(old(accs)@), count, lines),
        lines + item_lines <= usize::MAX,
    ensures
        acc_views(final(accs)@) == add_test(
            acc_views(old(accs)@),
            file,
            id,
            match name {
                Some(n) => Some(n@),
                None => None,
            },
            item_lines as nat,
        ),
        distinct_files(acc_views(final(accs)@)),
        bounded(acc_views(final(accs)@), count, lines + item_lines as nat),
{
    let i = acc_for(accs, file);
    let ghost a = acc_views(accs@);
    assert(a[i as int] == accs@[i as int]@);
    let t = TestItem { id, module_name: name };
    let ghost tv = test_item_view(t);
    let n = accs[i].inline_test_lines + item_lines;
    let ghost before = accs@[i as int].test_items@;
    accs[i].test_items.push(t);
    accs[i].inline_test_lines = n;
    let ghost b = acc_views(accs@);
    assert(accs@[i as int].test_items@.map_values(|t: TestItem| test_item_view(t)) =~= before.map_values(|t: TestItem| test_item_view(t)).push(tv));
    assert(b =~= a.update(
        i as int,
        AccView {
            file: a[i as int].file,
            production_count: a[i as int].production_count,
            test_items: a[i as int].test_items.push(tv),
            inline_test_lines: a[i as int].inline_test_lines + item_lines as nat,
        },
    ));
    assert(bounded(b, count, lines + item_lines as nat)) by {
        assert forall|j: int| 0 <= j < b.len() implies (#[trigger] b[j]).production_count <= count && b[j].inline_test_lines <= lines + item_lines as nat by {
            if j != i {
                assert(b[j] == a[j]);
                if j < acc_views(old(accs)@).len() {
                    assert(a[j] == acc_views(old(accs)@)[j]);
                }
            } else if i < acc_views(old(accs)@).len() {
                assert(a[j] == acc_views(old(accs)@)[j]);
            }
        }
    }
    assert(distinct_files(b)) by {
        assert forall|x: int, y: int| 0 <= x < b.len() && 0 <= y < b.len() && x != y implies b[x].file != b[y].file by {
            assert(b[x].file == a[x].file && b[y].file == a[y].file);
        }
    }
}

proof fn lemma_bounded_weaken(accs: Seq<AccView>, c1: nat, l1: nat, c2: nat, l2: nat)
    requires
        bounded(accs, c1, l1),
        c1 <= c2,
        l1 <= l2,
    ensures
        bounded(accs, c2, l2),
{
    assert forall|i: int| 0 <= i < accs.len() implies (#[trigger] accs[i]).production_count <= c2 && accs[i].inline_test_lines <= l2 by {}
}

/// Tallies one item and what it holds.
fn scan_item(item: &ScanItem, accs: &mut Vec<FileAcc>, Ghost(count): Ghost<nat>, Ghost(lines): Ghost<nat>)
    requires
        distinct_files(acc_views(old(accs)@)),
        bounded(acc_views(old(accs)@), count, lines),
        count + item_count(*item) <= usize::MAX,
        lines + item_lines(*item) <= usize::MAX,
    ensures
        acc_views(final(accs)@) == scan_item_spec(acc_views(old(accs)@), *item),
        distinct_files(acc_views(final(accs)@)),
        bounded(acc_views(final(accs)@), count + item_count(*item), lines + item_lines(*item)),
    decreases item,
{
    let cfg_test = cfg_predicate_implies_test(item.cfgs.as_slice());
    let is_test = cfg_test || (match item.kind {
        ScanKind::Other => item.is_test_fn,
        _ => false,
    });
    match item.origin {
        ItemOrigin::Synthesised => {
            proof {
                lemma_bounded_weaken(acc_views(accs@), count, lines, count + item_count(*item), lines + item_lines(*item));
            }
        },
        ItemOrigin::Macro(site) => {
            if !is_test {
                charge_production(accs, site, Ghost(count), Ghost(lines));
            }
            proof {
                lemma_bounded_weaken(acc_views(accs@), count + 1, lines, count + item_count(*item), lines + item_lines(*item));
            }
        },
        ItemOrigin::Written => {
            match &item.kind {
                ScanKind::Mod(name, external, items) => {
                    if cfg_test {
                        if !*external {
                            charge_test(accs, item.file, item.id, Some(name.clone()), item.lines, Ghost(count), Ghost(lines));
                        }
                        proof {
                            lemma_bounded_weaken(acc_views(accs@), count, lines + item.lines as nat, count + item_count(*item), lines + item_lines(*item));
                        }
                    } else {
                        charge_production(accs, item.file, Ghost(count), Ghost(lines));
                        let ghost start = acc_views(accs@);
                        let mut k: usize = 0;
                        assert(items@.take(0) =~= Seq::<ScanItem>::empty());
                        while k < items.len()
                            invariant
                                k <= items@.len(),
                                item.kind == ScanKind::Mod(*name, *external, *items),
                                item_count(*item) == 1 + items_count(items@),
                                item_lines(*item) == item.lines + items_lines(items@),
                                count + item_count(*item) <= usize::MAX,
                                lines + item_lines(*item) <= usize::MAX,
                                acc_views(accs@) == scan_items_spec(start, items@.take(k as int)),
                                distinct_files(acc_views(accs@)),
                                bounded(acc_views(accs@), count + 1 + items_count(items@.take(k as int)), lines + items_lines(items@.take(k as int))),
                            decreases items@.len() - k,
                        {
                            proof {
                                assert(items@.take(k + 1).drop_last() =~= items@.take(k as int));
                                assert(items@.take(k + 1).last() == items@[k as int]);
                                lemma_prefix_totals(items@, k as int + 1);
                                assert(item.kind->Mod_2 == *items);
                                assert(decreases_to!(*item => item.kind));
                                assert(decreases_to!(item.kind => item.kind->Mod_2));
                                assert(decreases_to!(*item => *items));
                                assert(decreases_to!(*items => items@));
                                assert(decreases_to!(items@ => items@[k as int]));
                            }
                            scan_item(
                                &items[k],
                                accs,
                                Ghost(count + 1 + items_count(items@.take(k as int))),
                                Ghost(lines + items_lines(items@.take(k as int))),
                            );
                            k = k + 1;
                        }
                        assert(items@.take(items@.len() as int) =~= items@);
                        proof {
                            lemma_bounded_weaken(
                                acc_views(accs@),
                                count + 1 + items_count(items@),
                                lines + items_lines(items@),
                                count + item_count(*item),
                                lines + item_lines(*item),
                            );
                        }
                    }
                },
                ScanKind::Other => {
                    if is_test {
                        charge_test(accs, item.file, item.id, None, item.lines, Ghost(count), Ghost(lines));
                        proof {
                            lemma_bounded_weaken(acc_views(accs@), count, lines + item.lines as nat, count + item_count(*item), lines + item_lines(*item));
                        }
                    } else {
                        charge_production(accs, item.file, Ghost(count), Ghost(lines));
                        proof {
                            lemma_bounded_weaken(acc_views(accs@), count + 1, lines, count + item_count(*item), lines + item_lines(*item));
                        }
                    }
                },
            }
        },
    }
}

/// The totals of a prefix of `items` are at most those of the whole, and
/// grow by the next item's.
proof fn lemma_prefix_totals(items: Seq<ScanItem>, n: int)
    requires
        0 < n <= items.len(),
    ensures
        items_count(items.take(n)) == items_count(items.take(n - 1)) + item_count(items[n - 1]),
        items_lines(items.take(n)) == items_lines(items.take(n - 1)) + item_lines(items[n - 1]),
        items_count(items.take(n)) <= items_count(items),
        items_lines(items.take(n)) <= items_lines(items),
    decreases items.len() - n,
{
    assert(items.take(n).drop_last() =~= items.take(n - 1));
    if n < items.len() {
        lemma_prefix_totals(items, n + 1);
    } else {
        assert(items.take(n) =~= items);
    }
}

pub open spec fn crate_totals_fit(items: Seq<ScanItem>) -> bool {
    items_count(items) <= usize::MAX && items_lines(items) <= usize::MAX
}

/// Tallies every file of the crate from its root module's items: each
/// file's production items and the inline test items charged to it, in
/// the order the files are first met. A separate test target (an
/// integration test, a benchmark, an example) is test code by itself and
/// is not tallied.
pub fn run(root_items: &Vec<ScanItem>, separate_test_target: bool) -> (r: Vec<FileAcc>)
    requires
        crate_totals_fit(root_items@),
    ensures
        separate_test_target ==> r@.len() == 0,
        !separate_test_target ==> acc_views(r@) == scan_items_spec(Seq::empty(), root_items@),
        distinct_files(acc_views(r@)),
{
    let mut accs: Vec<FileAcc> = Vec::new();
    if separate_test_target {
        return accs;
    }
    assert(acc_views(accs@) =~= Seq::<AccView>::empty());
    let mut k: usize = 0;
    assert(root_items@.take(0) =~= Seq::<ScanItem>::empty());
    while k < root_items.len()
        invariant
            k <= root_items@.len(),
            crate_totals_fit(root_items@),
            acc_views(accs@) == scan_items_spec(Seq::empty(), root_items@.take(k as int)),
            distinct_files(acc_views(accs@)),
            bounded(acc_views(accs@), items_count(root_items@.take(k as int)), items_lines(root_items@.take(k as int))),
        decreases root_items@.len() - k,
    {
        proof {
            assert(root_items@.take(k + 1).drop_last() =~= root_items@.take(k as int));
            assert(root_items@.take(k + 1).last() == root_items@[k as int]);
            lemma_prefix_totals(root_items@, k as int + 1);
        }
        scan_item(
            &root_items[k],
            &mut accs,
            Ghost(items_count(root_items@.take(k as int))),
            Ghost(items_lines(root_items@.take(k as int))),
        );
        k = k + 1;
    }
    assert(root_items@.take(root_items@.len() as int) =~= root_items@);
    accs
}

} // verus!
