//! The `core_instead_of_std` rule's configuration and decisions: in a
//! crate that has settled on `std`, an item named through `core::` (or
//! `alloc::`) is renamed through `std::`. The paths written through one
//! crate token are judged together: the token is rewritten only when
//! every one of them can move.
use vstd::prelude::*;
use crate::diagnostic::{Applicability, Diagnostic, DiagnosticModel, Part, PartModel, Suggestion, SuggestionModel};
use crate::common::contains_string;
use crate::ordering::{canon, sort_dedup, views};
use crate::text::{chars_of, find_sub, first_sub, lemma_first_sub, push_str, slice_eq, string_of, trim_ws, count_start_ws};

verus! {

pub struct Config {
    /// Whether an `alloc::` path counts alongside a `core::` one; on by
    /// default.
    pub also_alloc: bool,
    /// Paths never reported, each an absolute extern-crate path such as
    /// `::core::mem::transmute`; empty by default.
    pub skip_paths: Vec<String>,
}

impl Default for Config {
    fn default() -> (c: Self)
        ensures
            c.also_alloc,
            c.skip_paths@.len() == 0,
    {
        Config { also_alloc: true, skip_paths: Vec::new() }
    }
}

/// `s` cut at every `::` (`str::split("::")`).
pub open spec fn split_path(s: Seq<char>) -> Seq<Seq<char>>
    decreases s.len(),
{
    let at = first_sub(s, seq![':', ':']);
    if at < 0 || s.len() < 2 {
        seq![s]
    } else {
        proof {
            lemma_first_sub(s, seq![':', ':']);
        }
        seq![s.take(at)] + split_path(s.skip(at + 2))
    }
}

/// A `skip_paths` entry the rule could ever match: `::`, then `core` or
/// `alloc`, then at least one segment, none of them blank.
pub open spec fn skip_entry_ok(entry: Seq<char>) -> bool {
    let segs = split_path(entry);
    &&& segs.len() >= 3
    &&& segs[0].len() == 0
    &&& (segs[1] == "core"@ || segs[1] == "alloc"@)
    &&& forall|k: int| 2 <= k < segs.len() ==> trim_ws(#[trigger] segs[k]).len() > 0
}

/// The `Debug` form of a string: quoted, with `"`, `\` and control
/// characters escaped.
pub uninterp spec fn debug_text(s: Seq<char>) -> Seq<char>;

/// Formats `s` with `{:?}` (`<str as Debug>::fmt`). The result is a
/// function of the text alone, named [`debug_text`]; its escaping rules
/// are not restated here.
#[verifier::external_body]
fn debug_quoted(s: &str) -> (r: String)
    ensures
        r@ == debug_text(s@),
{
    format!("{s:?}")
}

pub open spec fn invalid_entry_message(entry: Seq<char>) -> Seq<char> {
    "`skip_paths` entry "@ + debug_text(entry)
        + " is not a path this rule could flag: write the whole path as an absolute extern-crate path into `core` or `alloc`, with the leading `::` (e.g. `::core::mem::transmute`)"@
}

/// The segments of `s` between `::` separators.
fn split_segments(s: &[char]) -> (r: Vec<Vec<char>>)
    ensures
        r@.map_values(|v: Vec<char>| v@) == split_path(s@),
    decreases s@.len(),
{
    let sep = vec![':', ':'];
    assert(sep@ =~= seq![':', ':']);
    let n = s.len();
    match find_sub(s, sep.as_slice()) {
        Some(at) if n >= 2 => {
            proof {
                lemma_first_sub(s@, seq![':', ':']);
            }
            let head = slice_to_vec(&s[0..at]);
            let rest = &s[at + 2..n];
            assert(rest@ =~= s@.skip(at + 2));
            assert(head@ =~= s@.take(at as int));
            let tail = split_segments(rest);
            let mut out: Vec<Vec<char>> = Vec::new();
            out.push(head);
            let mut k: usize = 0;
            let ghost tv = tail@.map_values(|v: Vec<char>| v@);
            while k < tail.len()
                invariant
                    k <= tail@.len(),
                    tv == tail@.map_values(|v: Vec<char>| v@),
                    out@.map_values(|v: Vec<char>| v@) == seq![s@.take(at as int)] + tv.take(k as int),
                decreases tail@.len() - k,
            {
                let ghost before = out@;
                let piece = slice_to_vec(tail[k].as_slice());
                assert(piece@ == tv[k as int]);
                out.push(piece);
                assert(out@.map_values(|v: Vec<char>| v@) =~= before.map_values(|v: Vec<char>| v@).push(tv[k as int]));
                assert(out@.map_values(|v: Vec<char>| v@) =~= seq![s@.take(at as int)] + tv.take(k + 1));
                k = k + 1;
            }
            assert(tv.take(tv.len() as int) =~= tv);
            out
        },
        _ => {
            let mut out: Vec<Vec<char>> = Vec::new();
            out.push(slice_to_vec(s));
            assert(out@.map_values(|v: Vec<char>| v@) =~= seq![s@]);
            out
        },
    }
}

fn slice_to_vec(s: &[char]) -> (r: Vec<char>)
    ensures
        r@ == s@,
{
    let mut r: Vec<char> = Vec::new();
    crate::text::push_all(&mut r, s);
    assert(r@ =~= s@);
    r
}

/// Whether a `skip_paths` entry is one the rule could ever match.
pub fn skip_entry_valid(entry: &str) -> (r: bool)
    ensures
        r == skip_entry_ok(entry@),
{
    let c = chars_of(entry);
    let segs = split_segments(c.as_slice());
    let ghost sv = segs@.map_values(|v: Vec<char>| v@);
    assert(sv == split_path(entry@));
    if segs.len() < 3 || segs[0].len() != 0 {
        proof {
            if segs@.len() >= 3 {
                assert(sv[0] == segs@[0]@);
            }
        }
        return false;
    }
    assert(sv[0] == segs@[0]@);
    assert(sv[1] == segs@[1]@);
    let core = vec!['c', 'o', 'r', 'e'];
    let alloc = vec!['a', 'l', 'l', 'o', 'c'];
    proof {
        reveal_strlit("core");
        reveal_strlit("alloc");
    }
    assert(core@ =~= "core"@);
    assert(alloc@ =~= "alloc"@);
    if !slice_eq(segs[1].as_slice(), core.as_slice()) && !slice_eq(segs[1].as_slice(), alloc.as_slice()) {
        return false;
    }
    let mut k: usize = 2;
    while k < segs.len()
        invariant
            2 <= k <= segs@.len(),
            sv == segs@.map_values(|v: Vec<char>| v@),
            sv == split_path(entry@),
            forall|j: int| 2 <= j < k ==> trim_ws(#[trigger] sv[j]).len() > 0,
        decreases segs@.len() - k,
    {
        let lead = count_start_ws(segs[k].as_slice());
        if lead == segs[k].len() {
            proof {
                crate::text::lemma_trim_start_ws_shape(sv[k as int]);
            }
            assert(trim_ws(sv[k as int]).len() == 0);
            return false;
        }
        proof {
            crate::text::lemma_trim_start_ws_shape(sv[k as int]);
            crate::text::lemma_trim_end_ws_shape(crate::text::trim_start_ws(sv[k as int]));
        }
        assert(trim_ws(sv[k as int]).len() > 0);
        k = k + 1;
    }
    true
}

/// Checks every `skip_paths` entry: `Err` naming the first one the rule
/// could never match, since such an entry exempts nothing and is almost
/// certainly a mistake.
pub fn validate(config: &Config) -> (r: Result<(), String>)
    ensures
        match r {
            Ok(()) => forall|k: int| 0 <= k < config.skip_paths@.len() ==> skip_entry_ok(#[trigger] config.skip_paths@[k]@),
            Err(m) => exists|k: int| 0 <= k < config.skip_paths@.len() && !skip_entry_ok(#[trigger] config.skip_paths@[k]@)
                && (forall|j: int| 0 <= j < k ==> skip_entry_ok(config.skip_paths@[j]@))
                && m@ == invalid_entry_message(config.skip_paths@[k]@),
        },
{
    let mut k: usize = 0;
    while k < config.skip_paths.len()
        invariant
            k <= config.skip_paths@.len(),
            forall|j: int| 0 <= j < k ==> skip_entry_ok(#[trigger] config.skip_paths@[j]@),
        decreases config.skip_paths@.len() - k,
    {
        let entry = config.skip_paths[k].as_str();
        if !skip_entry_valid(entry) {
            let mut m: Vec<char> = Vec::new();
            push_str(&mut m, "`skip_paths` entry ");
            let quoted = debug_quoted(entry);
            push_str(&mut m, quoted.as_str());
            push_str(&mut m, " is not a path this rule could flag: write the whole path as an absolute extern-crate path into `core` or `alloc`, with the leading `::` (e.g. `::core::mem::transmute`)");
            return Err(string_of(m.as_slice()));
        }
        k = k + 1;
    }
    Ok(())
}

/// One path written through a group's crate token.
#[derive(Debug, Clone, Copy, PartialEq, Eq, Structural)]
pub enum Point {
    /// The path names an item `std` reaches by the same suffix. `anchor`
    /// identifies the path (its node and last segment) for a report.
    Rewritable { anchor: usize },
    /// The path has to keep its crate token; it vetoes the rewrite of
    /// the token it shares with its siblings.
    Blocked,
}

/// The paths written through one `core` / `alloc` token.
pub struct Group {
    /// Identifies the token, the span a rewrite replaces.
    pub token: usize,
    /// What the token spells.
    pub crate_name: String,
    pub points: Vec<Point>,
}

/// One report: where it is anchored, whether it points at the crate
/// token (the rewrite) or at one path (a help), and what it says.
pub struct Emission {
    pub anchor: usize,
    pub at_token: bool,
    pub diagnostic: Diagnostic,
}

pub open spec fn message_spec(name: Seq<char>) -> Seq<char> {
    "item named through `"@ + name + "` instead of `std`"@
}

pub open spec fn help_spec(name: Seq<char>) -> Seq<char> {
    "name this item through `std`: the `"@ + name
        + "` segment is shared with a name that has to keep it, so it cannot be rewritten in place"@
}

pub open spec fn rewrite_spec(name: Seq<char>) -> DiagnosticModel {
    DiagnosticModel {
        message: message_spec(name),
        parts: seq![PartModel::Suggest(SuggestionModel {
            message: "name the item through `std`"@,
            replacement: "std"@,
            appended: None,
            applicability: Applicability::MachineApplicable,
        })],
    }
}

pub open spec fn help_report_spec(name: Seq<char>) -> DiagnosticModel {
    DiagnosticModel { message: message_spec(name), parts: seq![PartModel::Help(help_spec(name))] }
}

pub open spec fn rewritable_anchors(points: Seq<Point>) -> Seq<usize>
    decreases points.len(),
{
    if points.len() == 0 {
        Seq::empty()
    } else {
        match points.last() {
            Point::Rewritable { anchor } => rewritable_anchors(points.drop_last()).push(anchor),
            Point::Blocked => rewritable_anchors(points.drop_last()),
        }
    }
}

/// What a finished group earns. Without a blocked path, one rewrite of
/// the token, anchored at the first rewritable path (nothing when there
/// is none); with one, a help at every rewritable path instead.
pub open spec fn flush_ok(group: Option<Group>, out: Seq<Emission>) -> bool {
    match group {
        None => out.len() == 0,
        Some(g) => {
            let anchors = rewritable_anchors(g.points@);
            if !g.points@.contains(Point::Blocked) {
                if anchors.len() == 0 {
                    out.len() == 0
                } else {
                    &&& out.len() == 1
                    &&& out[0].anchor == anchors[0] && out[0].at_token
                    &&& out[0].diagnostic@ == rewrite_spec(g.crate_name@)
                }
            } else {
                &&& out.len() == anchors.len()
                &&& forall|k: int| 0 <= k < out.len() ==> (#[trigger] out[k]).anchor == anchors[k] && !out[k].at_token
                    && out[k].diagnostic@ == help_report_spec(g.crate_name@)
            }
        },
    }
}

/// Reports a finished group, if there was one.
pub fn flush(group: Option<Group>) -> (r: Vec<Emission>)
    ensures
        flush_ok(group, r@),
{
    let g = match group {
        Some(g) => g,
        None => {
            return Vec::new();
        },
    };
    let mut blocked = false;
    let mut anchors: Vec<usize> = Vec::new();
    let mut k: usize = 0;
    while k < g.points.len()
        invariant
            k <= g.points@.len(),
            blocked == g.points@.take(k as int).contains(Point::Blocked),
            anchors@ == rewritable_anchors(g.points@.take(k as int)),
        decreases g.points@.len() - k,
    {
        assert(g.points@.take(k + 1).drop_last() =~= g.points@.take(k as int));
        assert(g.points@.take(k + 1).last() == g.points@[k as int]);
        match g.points[k] {
            Point::Rewritable { anchor } => {
                anchors.push(anchor);
            },
            Point::Blocked => {
                blocked = true;
                assert(g.points@.take(k + 1)[k as int] == Point::Blocked);
            },
        }
        proof {
            let t1 = g.points@.take(k + 1);
            let t0 = g.points@.take(k as int);
            if t1.contains(Point::Blocked) && !(g.points@[k as int] == Point::Blocked) {
                let j = choose|j: int| 0 <= j < t1.len() && t1[j] == Point::Blocked;
                assert(t0[j] == Point::Blocked);
            }
            if t0.contains(Point::Blocked) {
                let j = choose|j: int| 0 <= j < t0.len() && t0[j] == Point::Blocked;
                assert(t1[j] == Point::Blocked);
            }
        }
        k = k + 1;
    }
    assert(g.points@.take(g.points@.len() as int) =~= g.points@);
    let mut message: Vec<char> = Vec::new();
    push_str(&mut message, "item named through `");
    push_str(&mut message, g.crate_name.as_str());
    push_str(&mut message, "` instead of `std`");
    let mut out: Vec<Emission> = Vec::new();
    if !blocked {
        if anchors.len() == 0 {
            return out;
        }
        let d = Diagnostic {
            message: string_of(message.as_slice()),
            parts: vec![Part::Suggest(Suggestion {
                message: "name the item through `std`".to_owned(),
                replacement: "std".to_owned(),
                appended: None,
                applicability: Applicability::MachineApplicable,
            })],
        };
        assert(d@.message =~= rewrite_spec(g.crate_name@).message);
        assert(d@.parts =~= rewrite_spec(g.crate_name@).parts);
        out.push(Emission { anchor: anchors[0], at_token: true, diagnostic: d });
        return out;
    }
    let mut help: Vec<char> = Vec::new();
    push_str(&mut help, "name this item through `std`: the `");
    push_str(&mut help, g.crate_name.as_str());
    push_str(&mut help, "` segment is shared with a name that has to keep it, so it cannot be rewritten in place");
    let mut k: usize = 0;
    while k < anchors.len()
        invariant
            k <= anchors@.len(),
            out@.len() == k,
            message@ == message_spec(g.crate_name@),
            help@ == help_spec(g.crate_name@),
            forall|j: int| 0 <= j < k ==> (#[trigger] out@[j]).anchor == anchors@[j] && !out@[j].at_token
                && out@[j].diagnostic@ == help_report_spec(g.crate_name@),
        decreases anchors@.len() - k,
    {
        let d = Diagnostic { message: string_of(message.as_slice()), parts: vec![Part::Help(string_of(help.as_slice()))] };
        assert(d@.parts =~= help_report_spec(g.crate_name@).parts);
        out.push(Emission { anchor: anchors[k], at_token: false, diagnostic: d });
        k = k + 1;
    }
    out
}

/// The configuration as the running rule looks things up in it: the
/// exempted paths as an ordered set.
pub struct Resolved {
    pub also_alloc: bool,
    pub skip_paths: Vec<String>,
}

impl Resolved {
    pub fn from_config(config: Config) -> (r: Self)
        ensures
            r.also_alloc == config.also_alloc,
            views(r.skip_paths@) == canon(views(config.skip_paths@), false),
    {
        let skip_paths = sort_dedup(&config.skip_paths, false);
        Resolved { also_alloc: config.also_alloc, skip_paths }
    }

    /// Whether the path whose absolute form is `key` is exempted.
    pub fn skipped(&self, key: &String) -> (r: bool)
        ensures
            r == views(self.skip_paths@).contains(key@),
    {
        !self.skip_paths.is_empty() && contains_string(&self.skip_paths, key)
    }
}

/// What the rule reads of one resolved path.
pub struct PathFacts {
    /// The path resolves to a definition.
    pub resolves_to_def: bool,
    /// That definition is a macro.
    pub is_macro: bool,
    /// The path's first written segment (after a leading `::`), when it
    /// has one.
    pub first_segment: Option<String>,
    /// The first segment resolves to a crate root, not a local module
    /// shadowing the crate's name.
    pub first_is_crate_root: bool,
    /// The path was produced by a macro expansion.
    pub from_expansion: bool,
    /// `skip_paths` exempts the path as written.
    pub skipped: bool,
    /// The path still names the same item once its crate segment reads
    /// `std`.
    pub resolves_through_std: bool,
    /// Identifies the path for a report.
    pub anchor: usize,
}

/// The rule's running state: the paths seen so far through one crate
/// token, held until a path through another token arrives (or a scope
/// ends) and the group can be judged whole.
pub struct CoreInsteadOfStd {
    pub also_alloc: bool,
    /// The crate under lint is `#![no_std]`: there is no `std::` to name.
    pub no_std: bool,
    pub pending: Option<Group>,
}

impl CoreInsteadOfStd {
    pub fn new(config: &Config, no_std: bool) -> (r: Self)
        ensures
            r.also_alloc == config.also_alloc,
            r.no_std == no_std,
            r.pending is None,
    {
        CoreInsteadOfStd { also_alloc: config.also_alloc, no_std, pending: None }
    }

    /// Whether a path written through `crate_name` is the rule's
    /// business: `core` always, `alloc` unless turned off.
    pub fn covers(&self, crate_name: &str) -> (r: bool)
        ensures
            r == (crate_name@ == "core"@ || (self.also_alloc && crate_name@ == "alloc"@)),
    {
        let c = chars_of(crate_name);
        let core = vec!['c', 'o', 'r', 'e'];
        let alloc = vec!['a', 'l', 'l', 'o', 'c'];
        proof {
            reveal_strlit("core");
            reveal_strlit("alloc");
        }
        assert(core@ =~= "core"@);
        assert(alloc@ =~= "alloc"@);
        slice_eq(c.as_slice(), core.as_slice()) || (self.also_alloc && slice_eq(c.as_slice(), alloc.as_slice()))
    }

    pub open spec fn classify_spec(&self, f: PathFacts) -> Option<Point> {
        if !f.resolves_to_def || f.is_macro {
            None
        } else {
            match f.first_segment {
                None => None,
                Some(name) => if !(name@ == "core"@ || (self.also_alloc && name@ == "alloc"@)) {
                    None
                } else if !f.first_is_crate_root || f.from_expansion {
                    None
                } else if f.skipped || !f.resolves_through_std {
                    Some(Point::Blocked)
                } else {
                    Some(Point::Rewritable { anchor: f.anchor })
                },
            }
        }
    }

    /// Judges one path: `None` for a path the rule has no opinion about
    /// (not a definition, a macro, not written through a covered crate,
    /// through a local module of that name, or produced by an
    /// expansion), which must not join a group; otherwise whether it can
    /// move to `std`.
    pub fn classify(&self, f: &PathFacts) -> (r: Option<Point>)
        ensures
            r == self.classify_spec(*f),
    {
        if !f.resolves_to_def || f.is_macro {
            return None;
        }
        let name = match &f.first_segment {
            Some(n) => n,
            None => {
                return None;
            },
        };
        if !self.covers(name.as_str()) {
            return None;
        }
        if !f.first_is_crate_root || f.from_expansion {
            return None;
        }
        if f.skipped || !f.resolves_through_std {
            Some(Point::Blocked)
        } else {
            Some(Point::Rewritable { anchor: f.anchor })
        }
    }

    /// Takes one judged path, written through the crate token `token`
    /// spelling `crate_name`. A path through the pending group's token
    /// joins it; one through another token starts a new group, and the
    /// one it replaces is handed back to be flushed. Nothing happens in a
    /// `no_std` crate.
    pub fn check_path(&mut self, token: usize, crate_name: String, point: Point) -> (finished: Option<Group>)
        ensures
            old(self).no_std ==> final(self).pending == old(self).pending && finished is None,
            !old(self).no_std ==> match old(self).pending {
                Some(g) if g.token == token => {
                    &&& finished is None
                    &&& final(self).pending matches Some(ng)
                    &&& ng.token == g.token && ng.crate_name == g.crate_name && ng.points@ == g.points@.push(point)
                },
                _ => {
                    &&& finished == old(self).pending
                    &&& final(self).pending matches Some(ng)
                    &&& ng.token == token && ng.crate_name@ == crate_name@ && ng.points@ == seq![point]
                },
            },
            final(self).no_std == old(self).no_std,
            final(self).also_alloc == old(self).also_alloc,
    {
        if self.no_std {
            return None;
        }
        let joins = match &self.pending {
            Some(g) => g.token == token,
            None => false,
        };
        if joins {
            let mut g = self.pending.take().unwrap();
            g.points.push(point);
            self.pending = Some(g);
            None
        } else {
            let finished = self.pending.take();
            let points = vec![point];
            assert(points@ =~= seq![point]);
            self.pending = Some(Group { token, crate_name, points });
            finished
        }
    }

    /// Closes the pending group at the end of a block, body or crate.
    pub fn close(&mut self) -> (finished: Option<Group>)
        ensures
            finished == old(self).pending,
            final(self).pending is None,
            final(self).no_std == old(self).no_std,
            final(self).also_alloc == old(self).also_alloc,
    {
        self.pending.take()
    }
}

} // verus!
