//! The `import_grouping` rule: adjacent `use` statements partitioned into
//! ordered groups — std, internal, third-party, by default — separated by
//! a fixed number of blank lines (`multi_block`), or kept in one block
//! with no blank lines (`single_block`).
use vstd::prelude::*;

pub mod config;
pub mod check;
pub mod render;
pub mod classify;

use crate::diagnostic::{Applicability, Diagnostic, PartModel, Part, Suggestion};
use crate::import_granularity::model::opt_view;
use crate::import_granularity::tree::UseTree;
use crate::import_grouping::check::{is_compliant, pair_ok, UseStmt};
use crate::import_grouping::classify::{first_segment_spec, path_group_spec, rank, rank_spec};
use crate::import_grouping::config::{Config, Style};
use crate::import_grouping::render::{layout_order, layout_text, replacement};
use crate::ordering::views;
use crate::text::{chars_of, find_sub, first_sub, slice_eq};

verus! {

pub struct ImportGrouping {
    config: Config,
}

/// The headline for a run out of shape.
pub open spec fn message_spec(style: Style) -> Seq<char> {
    match style {
        Style::SingleBlock => "blank lines split the imports; this project keeps them in a single group"@,
        Style::MultiBlock => "imports are not partitioned into ordered groups"@,
    }
}

/// Some attribute is `#[cfg(...)]` or `#[cfg_attr(...)]`.
pub open spec fn cfg_gated(attr_names: Seq<Seq<char>>) -> bool {
    exists|k: int| 0 <= k < attr_names.len() && (#[trigger] attr_names[k] == "cfg"@ || attr_names[k] == "cfg_attr"@)
}

/// Some gap between two statements of a run holds a comment.
pub open spec fn has_comment(gaps: Seq<Seq<char>>) -> bool {
    exists|k: int| 0 <= k < gaps.len() && (first_sub(#[trigger] gaps[k], "//"@) >= 0 || first_sub(gaps[k], "/*"@) >= 0)
}

pub open spec fn spaces(n: nat) -> Seq<char> {
    Seq::new(n, |i: int| ' ')
}

/// Statement `i` of a module body continues the run of statement
/// `i - 1`: both are admitted `use` statements.
pub open spec fn joins(items: Seq<Option<UseStmt>>, i: int) -> bool {
    0 < i < items.len() && items[i - 1] is Some && items[i] is Some
}

pub open spec fn run_start(items: Seq<Option<UseStmt>>, i: int) -> bool {
    0 <= i < items.len() && items[i] is Some && !joins(items, i)
}

fn is_attr(name: &String, word: &str) -> (r: bool)
    ensures
        r == (name@ == word@),
{
    let a = chars_of(name.as_str());
    let b = chars_of(word);
    slice_eq(a.as_slice(), b.as_slice())
}

fn has_sub(text: &String, pat: &str) -> (r: bool)
    ensures
        r == (first_sub(text@, pat@) >= 0),
{
    let t = chars_of(text.as_str());
    let p = chars_of(pat);
    find_sub(t.as_slice(), p.as_slice()).is_some()
}

impl ImportGrouping {
    pub closed spec fn config_of(&self) -> Config {
        self.config
    }

    pub fn new(config: Config) -> (r: Self)
        ensures
            r.config_of() == config,
    {
        ImportGrouping { config }
    }

    pub fn message(&self) -> (r: &'static str)
        ensures
            r@ == message_spec(self.config_of().style),
    {
        match self.config.style {
            Style::SingleBlock => "blank lines split the imports; this project keeps them in a single group",
            Style::MultiBlock => "imports are not partitioned into ordered groups",
        }
    }

    /// Admits one `use` statement into a run, given its tree, the names
    /// of its attributes, whether a macro produced it, its source text
    /// from the first attribute through the `;` (`None` when it cannot be
    /// recovered) and the lines it starts and ends on. A statement a
    /// macro produced, or whose text is missing, is not admitted and ends
    /// the run.
    pub fn use_stmt(
        &self,
        tree: &UseTree,
        attr_names: &[String],
        from_expansion: bool,
        text: Option<String>,
        start_line: usize,
        end_line: usize,
    ) -> (r: Option<UseStmt>)
        requires
            self.config_of().order@.len() < usize::MAX,
        ensures
            r is None <==> from_expansion || text is None,
            r matches Some(s) ==> {
                &&& s.rank == rank_spec(
                    path_group_spec(first_segment_spec(views(tree.prefix@)), self.config_of()),
                    cfg_gated(views(attr_names@)),
                    self.config_of(),
                )
                &&& opt_view(Some(s.text)) == opt_view(text)
                &&& s.start_line == start_line
                &&& s.end_line == end_line
            },
    {
        if from_expansion {
            return None;
        }
        let text = match text {
            Some(t) => t,
            None => {
                return None;
            },
        };
        let mut gated = false;
        let mut k: usize = 0;
        while k < attr_names.len()
            invariant
                k <= attr_names@.len(),
                gated == exists|j: int| 0 <= j < k && (#[trigger] views(attr_names@)[j] == "cfg"@ || views(attr_names@)[j] == "cfg_attr"@),
            decreases attr_names@.len() - k,
        {
            let hit = is_attr(&attr_names[k], "cfg") || is_attr(&attr_names[k], "cfg_attr");
            assert(views(attr_names@)[k as int] == attr_names@[k as int]@);
            if hit {
                gated = true;
            }
            k = k + 1;
        }
        let r = rank(tree, gated, &self.config);
        Some(UseStmt { rank: r, start_line, end_line, text })
    }

    /// Whether any gap between two adjacent statements of a run, given
    /// as its source text, holds a comment.
    pub fn run_has_interstatement_comment(&self, gaps: &[String]) -> (r: bool)
        ensures
            r == has_comment(views(gaps@)),
    {
        let mut k: usize = 0;
        while k < gaps.len()
            invariant
                k <= gaps@.len(),
                forall|j: int| 0 <= j < k ==> !(first_sub(#[trigger] views(gaps@)[j], "//"@) >= 0 || first_sub(views(gaps@)[j], "/*"@) >= 0),
            decreases gaps@.len() - k,
        {
            assert(views(gaps@)[k as int] == gaps@[k as int]@);
            if has_sub(&gaps[k], "//") || has_sub(&gaps[k], "/*") {
                return true;
            }
            k = k + 1;
        }
        false
    }

    /// Judges one run of adjacent statements, given the source text of
    /// the gap between each adjacent pair and the run's indentation. A
    /// run of two or more statements out of shape is reported with its
    /// canonical rewrite; the rewrite drops comments between statements,
    /// so a run holding any is offered as `MaybeIncorrect`.
    pub fn process_run(&self, run: &[UseStmt], gaps: &[String], indent: usize) -> (r: Option<Diagnostic>)
        requires
            forall|i: int| 0 <= i < run@.len() ==> (#[trigger] run@[i]).end_line < usize::MAX,
        ensures
            r is None <==> run@.len() < 2 || forall|i: int|
                0 < i < run@.len() ==> pair_ok(
                    self.config_of().style,
                    self.config_of().blank_line_count,
                    run@[i - 1],
                    #[trigger] run@[i],
                ),
            r matches Some(d) ==> {
                &&& d@.message == message_spec(self.config_of().style)
                &&& d@.parts.len() == 1
                &&& d@.parts[0] matches PartModel::Suggest(sg) && {
                    &&& sg.message == "regroup the imports"@
                    &&& sg.appended is None
                    &&& sg.applicability == if has_comment(views(gaps@)) {
                        Applicability::MaybeIncorrect
                    } else {
                        Applicability::MachineApplicable
                    }
                    &&& exists|ord: Seq<usize>|
                        layout_order(self.config_of().style, run@, ord) && sg.replacement == layout_text(
                            self.config_of().style,
                            self.config_of().blank_line_count,
                            spaces(indent as nat),
                            run@,
                            ord,
                            run@.len() as int,
                        )
                }
            },
    {
        if run.len() < 2 {
            return None;
        }
        if is_compliant(self.config.style, self.config.blank_line_count, run) {
            return None;
        }
        let mut pad: Vec<char> = Vec::new();
        let mut k: usize = 0;
        while k < indent
            invariant
                k <= indent,
                pad@ == spaces(k as nat),
            decreases indent - k,
        {
            pad.push(' ');
            assert(pad@ =~= spaces((k + 1) as nat));
            k = k + 1;
        }
        let pad = crate::text::string_of(pad.as_slice());
        let text = replacement(self.config.style, self.config.blank_line_count, pad.as_str(), run);
        let applicability = if self.run_has_interstatement_comment(gaps) {
            Applicability::MaybeIncorrect
        } else {
            Applicability::MachineApplicable
        };
        let message = self.message();
        let d = Diagnostic {
            message: message.to_owned(),
            parts: vec![Part::Suggest(Suggestion {
                message: "regroup the imports".to_owned(),
                replacement: text,
                appended: None,
                applicability,
            })],
        };
        assert(d@.parts[0] == PartModel::Suggest(d.parts@[0]->Suggest_0@));
        Some(d)
    }

    /// The runs of a module body: each maximal stretch of adjacent
    /// admitted statements, as a half-open range of positions. Anything
    /// that is not an admitted `use` statement ends a run.
    pub fn check_items(&self, items: &[Option<UseStmt>]) -> (runs: Vec<(usize, usize)>)
        ensures
            forall|k: int| 0 <= k < runs@.len() ==> {
                let (s, t) = #[trigger] runs@[k];
                &&& s < t <= items@.len()
                &&& run_start(items@, s as int)
                &&& forall|m: int| s < m < t ==> joins(items@, m)
                &&& t == items@.len() || !joins(items@, t as int)
            },
            forall|k: int, l: int| 0 <= k < l < runs@.len() ==> (#[trigger] runs@[k]).0 < (#[trigger] runs@[l]).0,
            forall|i: int| run_start(items@, i) ==> exists|k: int| 0 <= k < runs@.len() && (#[trigger] runs@[k]).0 == i,
    {
        let mut runs: Vec<(usize, usize)> = Vec::new();
        let mut i: usize = 0;
        while i < items.len()
            invariant
                i <= items@.len(),
                i < items@.len() ==> !joins(items@, i as int),
                forall|k: int| 0 <= k < runs@.len() ==> {
                    let (s, t) = #[trigger] runs@[k];
                    &&& s < t <= i
                    &&& run_start(items@, s as int)
                    &&& forall|m: int| s < m < t ==> joins(items@, m)
                    &&& t == items@.len() || !joins(items@, t as int)
                },
                forall|k: int, l: int| 0 <= k < l < runs@.len() ==> (#[trigger] runs@[k]).0 < (#[trigger] runs@[l]).0,
                forall|j: int| 0 <= j < i && run_start(items@, j) ==> exists|k: int| 0 <= k < runs@.len() && (#[trigger] runs@[k]).0 == j,
            decreases items@.len() - i,
        {
            if items[i].is_none() {
                i = i + 1;
                continue;
            }
            let start = i;
            i = i + 1;
            while i < items.len() && items[i].is_some()
                invariant
                    start < i <= items@.len(),
                    items@[start as int] is Some,
                    items@[i - 1] is Some,
                    forall|m: int| start < m < i ==> joins(items@, m),
                decreases items@.len() - i,
            {
                i = i + 1;
            }
            let ghost old_runs = runs@;
            runs.push((start, i));
            proof {
                assert forall|j: int| 0 <= j < i && run_start(items@, j) implies exists|k: int| 0 <= k < runs@.len() && (#[trigger] runs@[k]).0 == j by {
                    if j < start {
                        let k = choose|k: int| 0 <= k < old_runs.len() && (#[trigger] old_runs[k]).0 == j;
                        assert(runs@[k] == old_runs[k]);
                    } else if j == start {
                        assert(runs@[old_runs.len() as int].0 == j);
                    } else {
                        assert(joins(items@, j));
                    }
                }
                assert forall|k: int, l: int| 0 <= k < l < runs@.len() implies (#[trigger] runs@[k]).0 < (#[trigger] runs@[l]).0 by {
                    if l < old_runs.len() {
                        assert(runs@[k] == old_runs[k] && runs@[l] == old_runs[l]);
                    } else {
                        assert(runs@[k] == old_runs[k]);
                    }
                }
                assert forall|k: int| 0 <= k < runs@.len() implies {
                    let (s, t) = #[trigger] runs@[k];
                    &&& s < t <= i
                    &&& run_start(items@, s as int)
                    &&& forall|m: int| s < m < t ==> joins(items@, m)
                    &&& t == items@.len() || !joins(items@, t as int)
                } by {
                    if k < old_runs.len() {
                        assert(runs@[k] == old_runs[k]);
                    }
                }
            }
        }
        runs
    }
}

} // verus!
