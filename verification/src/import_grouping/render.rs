//! Re-rendering one run of `use` statements into its canonical shape:
//! each statement's text is kept verbatim; only the order of statements
//! across groups and the blank lines between them change.
use vstd::prelude::*;
use crate::import_grouping::check::{UseStmt, ranks_fit};
use crate::import_grouping::config::Style;
use crate::text::{push_str, string_of};

verus! {

/// Position `a` of `stmts` goes before position `b`: a smaller rank
/// first, source order within a rank.
pub open spec fn rank_before(stmts: Seq<UseStmt>, a: int, b: int) -> bool {
    stmts[a].rank < stmts[b].rank || (stmts[a].rank == stmts[b].rank && a < b)
}

/// `ord` lists every position of `stmts` once, in the order the style
/// asks for: source order under `single_block`, a stable partition by
/// rank under `multi_block`.
pub open spec fn layout_order(style: Style, stmts: Seq<UseStmt>, ord: Seq<usize>) -> bool {
    &&& ord.len() == stmts.len()
    &&& forall|k: int| 0 <= k < ord.len() ==> (#[trigger] ord[k]) < stmts.len()
    &&& match style {
        Style::SingleBlock => forall|k: int| 0 <= k < ord.len() ==> #[trigger] ord[k] == k,
        Style::MultiBlock => forall|a: int, b: int|
            0 <= a < b < ord.len() ==> rank_before(stmts, #[trigger] ord[a] as int, #[trigger] ord[b] as int),
    }
}

/// The blank lines before the `k`th statement of the layout.
pub open spec fn blanks_before(style: Style, blank_line_count: usize, stmts: Seq<UseStmt>, ord: Seq<usize>, k: int) -> nat {
    match style {
        Style::SingleBlock => 0,
        Style::MultiBlock => if stmts[ord[k - 1] as int].rank == stmts[ord[k] as int].rank {
            0
        } else {
            blank_line_count as nat
        },
    }
}

pub open spec fn newlines(n: nat) -> Seq<char> {
    Seq::new(n, |i: int| '\n')
}

/// The replacement text for the first `n` statements of the layout: the
/// statements' texts, each after the first preceded by one newline, the
/// blank lines it is owed and the shared indent `pad`.
pub open spec fn layout_text(
    style: Style,
    blank_line_count: usize,
    pad: Seq<char>,
    stmts: Seq<UseStmt>,
    ord: Seq<usize>,
    n: int,
) -> Seq<char>
    decreases n,
{
    if n <= 0 {
        Seq::empty()
    } else if n == 1 {
        stmts[ord[0] as int].text@
    } else {
        layout_text(style, blank_line_count, pad, stmts, ord, n - 1) + newlines(
            blanks_before(style, blank_line_count, stmts, ord, n - 1) + 1,
        ) + pad + stmts[ord[n - 1] as int].text@
    }
}

/// The replacement text for the whole run. `pad` is the run's
/// indentation, put on every line after the first. Under `multi_block`
/// the statements are stable-partitioned by rank and a step up in rank
/// carries `blank_line_count` blank lines; otherwise none.
pub fn replacement(style: Style, blank_line_count: usize, pad: &str, stmts: &[UseStmt]) -> (r: String)
    ensures
        exists|ord: Seq<usize>|
            layout_order(style, stmts@, ord) && r@ == layout_text(
                style,
                blank_line_count,
                pad@,
                stmts@,
                ord,
                stmts@.len() as int,
            ),
{
    let ord = layout(style, stmts);
    let ghost o = ord@;
    let mut out: Vec<char> = Vec::new();
    let mut k: usize = 0;
    while k < ord.len()
        invariant
            k <= o.len(),
            o == ord@,
            layout_order(style, stmts@, o),
            out@ == layout_text(style, blank_line_count, pad@, stmts@, o, k as int),
        decreases o.len() - k,
    {
        let i = ord[k];
        if k > 0 {
            let p = ord[k - 1];
            let blanks: usize = match style {
                Style::SingleBlock => 0,
                Style::MultiBlock => if stmts[p].rank == stmts[i].rank {
                    0
                } else {
                    blank_line_count
                },
            };
            assert(blanks as nat == blanks_before(style, blank_line_count, stmts@, o, k as int));
            let ghost before = out@;
            out.push('\n');
            assert(out@ =~= before + newlines(1));
            let mut b: usize = 0;
            while b < blanks
                invariant
                    b <= blanks,
                    out@ == before + newlines((b + 1) as nat),
                decreases blanks - b,
            {
                out.push('\n');
                assert(out@ =~= before + newlines((b + 2) as nat));
                b = b + 1;
            }
            let ghost mid = out@;
            push_str(&mut out, pad);
            push_str(&mut out, stmts[i].text.as_str());
            assert(mid == before + newlines((blanks + 1) as nat));
            assert(layout_text(style, blank_line_count, pad@, stmts@, o, k + 1) == layout_text(style, blank_line_count, pad@, stmts@, o, k as int) + newlines(blanks_before(style, blank_line_count, stmts@, o, k as int) + 1) + pad@ + stmts@[o[k as int] as int].text@);
            assert(out@ =~= layout_text(style, blank_line_count, pad@, stmts@, o, k + 1));
        } else {
            push_str(&mut out, stmts[i].text.as_str());
            assert(out@ =~= layout_text(style, blank_line_count, pad@, stmts@, o, 1));
        }
        k = k + 1;
    }
    string_of(out.as_slice())
}

/// The order of the statements in the replacement.
fn layout(style: Style, stmts: &[UseStmt]) -> (ord: Vec<usize>)
    ensures
        layout_order(style, stmts@, ord@),
{
    let n = stmts.len();
    let mut ord: Vec<usize> = Vec::new();
    match style {
        Style::SingleBlock => {
            let mut i: usize = 0;
            while i < n
                invariant
                    i <= n,
                    n == stmts@.len(),
                    ord@.len() == i,
                    forall|k: int| 0 <= k < i ==> #[trigger] ord@[k] == k,
                decreases n - i,
            {
                ord.push(i);
                i = i + 1;
            }
        },
        Style::MultiBlock => {
            let mut i: usize = 0;
            while i < n
                invariant
                    i <= n,
                    n == stmts@.len(),
                    ord@.len() == i,
                    forall|k: int| 0 <= k < i ==> (#[trigger] ord@[k]) < n,
                    forall|a: int, b: int| 0 <= a < b < i ==> rank_before(stmts@, #[trigger] ord@[a] as int, #[trigger] ord@[b] as int),
                    forall|k: int| 0 <= k < i ==> (#[trigger] ord@[k]) < i,
                decreases n - i,
            {
                let ghost o = ord@;
                let mut p: usize = 0;
                while p < ord.len() && (stmts[ord[p]].rank <= stmts[i].rank)
                    invariant
                        p <= o.len(),
                        o == ord@,
                        i < n,
                        n == stmts@.len(),
                        forall|k: int| 0 <= k < o.len() ==> (#[trigger] o[k]) < i,
                        forall|q: int| 0 <= q < p ==> rank_before(stmts@, #[trigger] o[q] as int, i as int),
                    decreases o.len() - p,
                {
                    p = p + 1;
                }
                ord.insert(p, i);
                proof {
                    let nn = ord@;
                    assert(nn =~= o.insert(p as int, i));
                    if p < o.len() {
                        assert(stmts@[o[p as int] as int].rank > stmts@[i as int].rank);
                    }
                    assert forall|a: int, b: int| 0 <= a < b < nn.len() implies rank_before(stmts@, #[trigger] nn[a] as int, #[trigger] nn[b] as int) by {
                        if b < p {
                            assert(nn[a] == o[a] && nn[b] == o[b]);
                        } else if b == p {
                            assert(nn[a] == o[a]);
                        } else if a == p {
                            assert(nn[b] == o[b - 1]);
                            if b - 1 > p {
                                assert(rank_before(stmts@, o[p as int] as int, o[b - 1] as int));
                            }
                        } else if a < p {
                            assert(nn[a] == o[a] && nn[b] == o[b - 1]);
                        } else {
                            assert(nn[a] == o[a - 1] && nn[b] == o[b - 1]);
                        }
                    }
                    assert forall|k: int| 0 <= k < nn.len() implies (#[trigger] nn[k]) < i + 1 by {
                        if k < p {
                            assert(nn[k] == o[k]);
                        } else if k > p {
                            assert(nn[k] == o[k - 1]);
                        }
                    }
                }
                i = i + 1;
            }
        },
    }
    ord
}

/// Law: under `multi_block` the replacement lists the statements by
/// ascending rank, and statements of one rank keep their source order.
pub proof fn lemma_layout_sorted(stmts: Seq<UseStmt>, ord: Seq<usize>)
    requires
        layout_order(Style::MultiBlock, stmts, ord),
    ensures
        forall|a: int, b: int| 0 <= a < b < ord.len() ==> stmts[#[trigger] ord[a] as int].rank <= stmts[#[trigger] ord[b] as int].rank,
        forall|a: int, b: int| 0 <= a < b < ord.len() && stmts[#[trigger] ord[a] as int].rank == stmts[#[trigger] ord[b] as int].rank ==> ord[a] < ord[b],
{
}

/// Law: the replacement is itself in place. Each statement of the
/// layout follows the one before it by the blank lines
/// [`layout_text`] puts between them, and the check accepts every such
/// pair, under either style.
pub proof fn lemma_layout_in_place(style: Style, blank_line_count: usize, stmts: Seq<UseStmt>, ord: Seq<usize>)
    requires
        layout_order(style, stmts, ord),
    ensures
        forall|k: int| 0 < k < ord.len() ==> #[trigger] ranks_fit(
            style,
            blank_line_count,
            stmts[ord[k - 1] as int].rank,
            stmts[ord[k] as int].rank,
            blanks_before(style, blank_line_count, stmts, ord, k) as int,
        ),
{
    assert forall|k: int| 0 < k < ord.len() implies #[trigger] ranks_fit(
        style,
        blank_line_count,
        stmts[ord[k - 1] as int].rank,
        stmts[ord[k] as int].rank,
        blanks_before(style, blank_line_count, stmts, ord, k) as int,
    ) by {
        if style is MultiBlock {
            assert(rank_before(stmts, ord[k - 1] as int, ord[k] as int));
        }
    }
}

} // verus!
