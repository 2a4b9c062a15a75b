//! Whether one run of adjacent `use` statements already has the layout
//! its ranks ask for, and the blank-line counting it rests on.
use vstd::prelude::*;
pub use crate::import_grouping::check::{ranks_fit, UseStmt};
use crate::import_grouping::config::Style;
use crate::lexing::{TokenClass, lex, lexed, token_total, lemma_total_prefix};
use crate::text::{char_is_ws, chars_of, is_ws, utf8_len};

verus! {

/// Whether `stmts` (in source order), with `blanks[i]` blank lines
/// between statements `i` and `i + 1`, is in place: ranks never step
/// down, statements of one rank carry no blank line between them, and a
/// step up carries exactly one. Pairs past the end of `blanks` are not
/// looked at.
pub fn is_compliant(stmts: &[UseStmt], blanks: &[usize]) -> (r: bool)
    ensures
        r == forall|i: int| 0 <= i < stmts@.len() - 1 && i < blanks@.len() ==> #[trigger] ranks_fit(
            Style::MultiBlock,
            1,
            stmts@[i].rank,
            stmts@[i + 1].rank,
            blanks@[i] as int,
        ),
{
    let mut i: usize = 0;
    while i < blanks.len() && i + 1 < stmts.len()
        invariant
            forall|j: int| 0 <= j < i && j < stmts@.len() - 1 && j < blanks@.len() ==> #[trigger] ranks_fit(
                Style::MultiBlock,
                1,
                stmts@[j].rank,
                stmts@[j + 1].rank,
                blanks@[j] as int,
            ),
        decreases stmts@.len() - i,
    {
        let (a, b) = (stmts[i].rank, stmts[i + 1].rank);
        let ok = if a == b {
            blanks[i] == 0
        } else if a < b {
            blanks[i] == 1
        } else {
            false
        };
        if !ok {
            assert(!ranks_fit(Style::MultiBlock, 1, stmts@[i as int].rank, stmts@[i + 1].rank, blanks@[i as int] as int));
            return false;
        }
        i = i + 1;
    }
    true
}

/// The byte ranges of the block comments among `tokens`.
pub open spec fn block_ranges(tokens: Seq<(TokenClass, usize)>) -> Seq<(int, int)>
    decreases tokens.len(),
{
    if tokens.len() == 0 {
        Seq::empty()
    } else if tokens.last().0 is BlockComment {
        let start = token_total(tokens.drop_last()) as int;
        block_ranges(tokens.drop_last()).push((start, start + tokens.last().1))
    } else {
        block_ranges(tokens.drop_last())
    }
}

/// Byte ranges of every `/* ... */` block comment in `text`.
pub fn block_comment_ranges(text: &str) -> (r: Vec<(usize, usize)>)
    ensures
        utf8_len(text@) <= usize::MAX,
        r@.len() == block_ranges(lexed(text@)).len(),
        forall|k: int| 0 <= k < r@.len() ==> (#[trigger] r@[k]).0 as int == block_ranges(lexed(text@))[k].0
            && r@[k].1 as int == block_ranges(lexed(text@))[k].1,
{
    let tokens = lex(text);
    block_ranges_from_tokens(tokens.as_slice())
}

/// Byte ranges of the block comments among `tokens`, each token given as
/// its class and its length in bytes.
pub fn block_ranges_from_tokens(tokens: &[(TokenClass, usize)]) -> (r: Vec<(usize, usize)>)
    requires
        token_total(tokens@) <= usize::MAX,
    ensures
        r@.len() == block_ranges(tokens@).len(),
        forall|k: int| 0 <= k < r@.len() ==> (#[trigger] r@[k]).0 as int == block_ranges(tokens@)[k].0
            && r@[k].1 as int == block_ranges(tokens@)[k].1,
{
    let ghost t = tokens@;
    let mut ranges: Vec<(usize, usize)> = Vec::new();
    let mut offset: usize = 0;
    let mut i: usize = 0;
    while i < tokens.len()
        invariant
            i <= t.len(),
            t == tokens@,
            token_total(t) <= usize::MAX,
            offset == token_total(t.take(i as int)),
            ranges@.len() == block_ranges(t.take(i as int)).len(),
            forall|k: int| 0 <= k < ranges@.len() ==> (#[trigger] ranges@[k]).0 as int == block_ranges(t.take(i as int))[k].0
                && ranges@[k].1 as int == block_ranges(t.take(i as int))[k].1,
        decreases t.len() - i,
    {
        let (class, length) = tokens[i];
        proof {
            assert(t.take(i + 1).drop_last() =~= t.take(i as int));
            assert(t.take(i + 1).last() == t[i as int]);
            lemma_total_prefix(t, i + 1);
        }
        if let TokenClass::BlockComment = class {
            ranges.push((offset, offset + length));
        }
        offset = offset + length;
        i = i + 1;
    }
    assert(t.take(t.len() as int) =~= t);
    ranges
}

/// `s` cut at every `\n` (`str::split('\n')`): one more piece than there
/// are newlines.
pub open spec fn split_lines(s: Seq<char>) -> Seq<Seq<char>>
    decreases s.len(),
{
    if s.len() == 0 {
        seq![Seq::empty()]
    } else {
        let r = split_lines(s.drop_last());
        if s.last() == '\n' {
            r.push(Seq::empty())
        } else {
            r.update(r.len() - 1, r.last().push(s.last()))
        }
    }
}

/// The byte offset at which line `k` of `lines` starts.
pub open spec fn line_start(lines: Seq<Seq<char>>, k: int) -> int
    decreases k,
{
    if k <= 0 {
        0
    } else {
        line_start(lines, k - 1) + utf8_len(lines[k - 1]) + 1
    }
}

/// A line holding nothing but whitespace.
pub open spec fn blank(line: Seq<char>) -> bool {
    forall|j: int| 0 <= j < line.len() ==> is_ws(#[trigger] line[j])
}

/// Line `k` is a separator: an inner line of the gap (not the remainders
/// of the two statements' own lines), blank, and not inside a block
/// comment.
pub open spec fn separator(lines: Seq<Seq<char>>, ranges: Seq<(int, int)>, k: int) -> bool {
    &&& 0 < k < lines.len() - 1
    &&& blank(lines[k])
    &&& !exists|r: int| 0 <= r < ranges.len() && (#[trigger] ranges[r]).0 <= line_start(lines, k) < ranges[r].1
}

/// How many of the first `n` lines are separators.
pub open spec fn separators(lines: Seq<Seq<char>>, ranges: Seq<(int, int)>, n: int) -> nat
    decreases n,
{
    if n <= 0 {
        0
    } else {
        separators(lines, ranges, n - 1) + if separator(lines, ranges, n - 1) {
            1nat
        } else {
            0nat
        }
    }
}

/// The blank lines of `gap` that separate, `tokens` being the tokens
/// `gap` is cut into.
pub open spec fn blank_lines_spec(gap: Seq<char>, tokens: Seq<(TokenClass, usize)>) -> nat {
    let lines = split_lines(gap);
    if lines.len() <= 2 {
        0
    } else {
        separators(lines, block_ranges(tokens), lines.len() as int)
    }
}

pub open spec fn count_blank_lines_spec(gap: Seq<char>) -> nat {
    blank_lines_spec(gap, lexed(gap))
}

proof fn lemma_split_lines_len(s: Seq<char>)
    ensures
        split_lines(s).len() >= 1,
        line_start(split_lines(s), split_lines(s).len() - 1) + utf8_len(split_lines(s).last())
            == utf8_len(s),
    decreases s.len(),
{
    if s.len() > 0 {
        let r = split_lines(s.drop_last());
        lemma_split_lines_len(s.drop_last());
        if s.last() == '\n' {
            assert(split_lines(s) == r.push(Seq::<char>::empty()));
            lemma_line_start_prefix(r, r.push(Seq::<char>::empty()), r.len() as int);
            assert(utf8_len(Seq::<char>::empty()) == 0);
        } else {
            let n = r.len() - 1;
            let u = r.update(n, r.last().push(s.last()));
            assert(split_lines(s) == u);
            lemma_line_start_prefix(r, u, n);
            assert(r.last().push(s.last()).drop_last() =~= r.last());
        }
    }
}

proof fn lemma_line_start_prefix(a: Seq<Seq<char>>, b: Seq<Seq<char>>, k: int)
    requires
        0 <= k <= a.len(),
        k <= b.len(),
        forall|j: int| 0 <= j < k ==> a[j] == b[j],
    ensures
        line_start(a, k) == line_start(b, k),
    decreases k,
{
    if k > 0 {
        lemma_line_start_prefix(a, b, k - 1);
    }
}

proof fn lemma_line_start_mono(lines: Seq<Seq<char>>, i: int, j: int)
    requires
        0 <= i <= j,
    ensures
        line_start(lines, i) <= line_start(lines, j),
    decreases j - i,
{
    if i < j {
        lemma_line_start_mono(lines, i, j - 1);
    }
}

/// Number of whitespace-only lines strictly between two source-adjacent
/// statements, given the source text of the gap between them. A
/// whitespace-only line inside a `/* ... */` comment is part of the
/// comment, not a separator; the first and last pieces of the split are
/// the remainders of the statements' own lines.
pub fn count_blank_lines(gap: &str) -> (r: usize)
    ensures
        r == count_blank_lines_spec(gap@),
{
    let tokens = lex(gap);
    blank_lines_from_tokens(gap, tokens.as_slice())
}

/// The count of [`count_blank_lines`] for `gap` cut into `tokens`, each
/// given as its class and its length in bytes.
pub fn blank_lines_from_tokens(gap: &str, tokens: &[(TokenClass, usize)]) -> (r: usize)
    requires
        token_total(tokens@) == utf8_len(gap@),
        token_total(tokens@) <= usize::MAX,
    ensures
        r == blank_lines_spec(gap@, tokens@),
{
    let c = chars_of(gap);
    let mut lines: Vec<Vec<char>> = Vec::new();
    lines.push(Vec::new());
    let mut i: usize = 0;
    assert(c@.take(0) =~= Seq::<char>::empty());
    while i < c.len()
        invariant
            i <= c@.len(),
            c@ == gap@,
            lines@.len() >= 1,
            lines@.map_values(|l: Vec<char>| l@) == split_lines(c@.take(i as int)),
        decreases c@.len() - i,
    {
        let ghost before = lines@.map_values(|l: Vec<char>| l@);
        assert(c@.take(i + 1).drop_last() =~= c@.take(i as int));
        assert(c@.take(i + 1).last() == c@[i as int]);
        if c[i] == '\n' {
            lines.push(Vec::new());
            assert(lines@.map_values(|l: Vec<char>| l@) =~= before.push(Seq::<char>::empty()));
        } else {
            let n = lines.len() - 1;
            let mut last = lines.pop().unwrap();
            last.push(c[i]);
            lines.push(last);
            assert(lines@.map_values(|l: Vec<char>| l@) =~= before.update(n as int, before.last().push(c@[i as int])));
        }
        i = i + 1;
    }
    assert(c@.take(c@.len() as int) =~= c@);
    let ghost lv = lines@.map_values(|l: Vec<char>| l@);
    if lines.len() <= 2 {
        return 0;
    }
    let ranges = block_ranges_from_tokens(tokens);
    let ghost br = block_ranges(tokens@);
    proof {
        lemma_split_lines_len(gap@);
    }
    let mut count: usize = 0;
    let mut offset: usize = 0;
    let mut k: usize = 0;
    let last = lines.len() - 1;
    while k < last
        invariant
            k <= last,
            last == lines@.len() - 1,
            lv == lines@.map_values(|l: Vec<char>| l@),
            lv == split_lines(gap@),
            line_start(lv, lv.len() - 1) + utf8_len(lv.last()) == utf8_len(gap@),
            utf8_len(gap@) <= usize::MAX,
            offset == line_start(lv, k as int),
            count == separators(lv, br, k as int),
            count <= k,
            ranges@.len() == br.len(),
            forall|q: int| 0 <= q < ranges@.len() ==> (#[trigger] ranges@[q]).0 as int == br[q].0 && ranges@[q].1 as int == br[q].1,
        decreases last - k,
    {
        let line = &lines[k];
        let mut width: usize = 0;
        let mut all_ws = true;
        let mut j: usize = 0;
        proof {
            lemma_line_start_mono(lv, k + 1, lv.len() - 1);
        }
        while j < line.len()
            invariant
                j <= line@.len(),
                line@ == lv[k as int],
                width == utf8_len(line@.take(j as int)),
                offset + utf8_len(line@) + 1 <= usize::MAX + 1,
                all_ws == forall|q: int| 0 <= q < j ==> is_ws(#[trigger] line@[q]),
            decreases line@.len() - j,
        {
            let ch = line[j];
            assert(line@.take(j + 1).drop_last() =~= line@.take(j as int));
            assert(line@.take(j + 1).last() == ch);
            proof {
                lemma_utf8_prefix(line@, j + 1);
            }
            let w: usize = if (ch as u32) < 0x80 {
                1
            } else if (ch as u32) < 0x800 {
                2
            } else if (ch as u32) < 0x10000 {
                3
            } else {
                4
            };
            width = width + w;
            if !char_is_ws(ch) {
                all_ws = false;
            }
            j = j + 1;
        }
        assert(line@.take(line@.len() as int) =~= line@);
        if k > 0 && all_ws {
            let mut inside = false;
            let mut q: usize = 0;
            while q < ranges.len()
                invariant
                    q <= ranges@.len(),
                    ranges@.len() == br.len(),
                    forall|p: int| 0 <= p < ranges@.len() ==> (#[trigger] ranges@[p]).0 as int == br[p].0 && ranges@[p].1 as int == br[p].1,
                    inside == exists|p: int| 0 <= p < q && (#[trigger] br[p]).0 <= offset < br[p].1,
                decreases ranges@.len() - q,
            {
                let (start, end) = ranges[q];
                if offset >= start && offset < end {
                    assert(br[q as int].0 <= offset < br[q as int].1);
                    inside = true;
                }
                q = q + 1;
            }
            if !inside {
                count = count + 1;
            }
        }
        assert(separator(lv, br, k as int) == (k > 0 && all_ws && !(exists|p: int| 0 <= p < br.len() && (#[trigger] br[p]).0 <= line_start(lv, k as int) < br[p].1)));
        offset = offset + width + 1;
        k = k + 1;
    }
    assert(!separator(lv, br, last as int));
    count
}

proof fn lemma_utf8_prefix(s: Seq<char>, j: int)
    requires
        0 <= j <= s.len(),
    ensures
        utf8_len(s.take(j)) <= utf8_len(s),
    decreases s.len() - j,
{
    if j < s.len() {
        lemma_utf8_prefix(s, j + 1);
        assert(s.take(j + 1).drop_last() =~= s.take(j));
    } else {
        assert(s.take(j) =~= s);
    }
}

} // verus!
