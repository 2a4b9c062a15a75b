//! The edit that gives an `allow` / `expect` attribute lacking a reason
//! one: `reason = ""` placed after the last argument of its list.
//!
//! The snippet is read through `rustc_lexer`, so parentheses inside
//! comments neither open nor close the argument list.
use vstd::prelude::*;
use vstd::string::StringSliceAdditionalSpecFns;
use crate::lexing::{TokenClass, is_trivia, lex, lexed, token_start, token_total, lemma_token_step, lemma_total_prefix};
use crate::text::{push_all, push_str, string_of};

verus! {

/// One edit of a snippet: the bytes `start..end` give way to
/// `replacement`.
pub struct Insertion {
    pub start: usize,
    pub end: usize,
    pub replacement: String,
}

/// How a token moves the parenthesis depth.
pub open spec fn paren_step(c: TokenClass) -> int {
    match c {
        TokenClass::OpenParen => 1,
        TokenClass::CloseParen => -1,
        _ => 0,
    }
}

/// Opening minus closing parentheses among `tokens[from..to]`.
pub open spec fn balance(tokens: Seq<(TokenClass, usize)>, from: int, to: int) -> int
    decreases to - from,
{
    if to <= from {
        0
    } else {
        balance(tokens, from, to - 1) + paren_step(tokens[to - 1].0)
    }
}

/// `o` is the first `(` among `tokens`.
pub open spec fn first_open(tokens: Seq<(TokenClass, usize)>, o: int) -> bool {
    &&& 0 <= o < tokens.len()
    &&& tokens[o].0 is OpenParen
    &&& forall|j: int| 0 <= j < o ==> !(#[trigger] tokens[j].0 is OpenParen)
}

/// `c` is the `)` that closes the `(` at `o`: the first token after it
/// at which the parentheses balance again.
pub open spec fn closes(tokens: Seq<(TokenClass, usize)>, o: int, c: int) -> bool {
    &&& o < c < tokens.len()
    &&& balance(tokens, o, c + 1) == 0
    &&& forall|j: int| o < j < c ==> #[trigger] balance(tokens, o, j + 1) > 0
}

/// `k` is the last token between `o` and `c` that is neither
/// whitespace nor a comment.
pub open spec fn last_content(tokens: Seq<(TokenClass, usize)>, o: int, c: int, k: int) -> bool {
    &&& o < k < c
    &&& !is_trivia(tokens[k].0)
    &&& forall|j: int| k < j < c ==> is_trivia(#[trigger] tokens[j].0)
}

/// The first parenthesised list of `tokens` runs from `o` to `c`, and
/// its last argument (or trailing comma) is token `k`.
pub open spec fn argument_list(tokens: Seq<(TokenClass, usize)>, o: int, c: int, k: int) -> bool {
    first_open(tokens, o) && closes(tokens, o, c) && last_content(tokens, o, c, k)
}

/// Whether a `\n` lies among `bytes[from..to]`.
pub open spec fn newline_between(bytes: Seq<u8>, from: int, to: int) -> bool {
    exists|p: int| from <= p < to && #[trigger] bytes[p] == 10u8
}

/// Where the line holding offset `p` begins: just past the last `\n`
/// before `p`, or the start of the text.
pub open spec fn line_begin(bytes: Seq<u8>, p: int) -> int
    decreases p,
{
    if p <= 0 {
        0
    } else if bytes[p - 1] == 10u8 {
        p
    } else {
        line_begin(bytes, p - 1)
    }
}

/// The run of spaces and tabs with which the text at `from` begins.
pub open spec fn indent_at(bytes: Seq<u8>, from: int) -> Seq<char>
    decreases bytes.len() - from,
{
    if 0 <= from < bytes.len() && bytes[from] == 32u8 {
        seq![' '] + indent_at(bytes, from + 1)
    } else if 0 <= from < bytes.len() && bytes[from] == 9u8 {
        seq!['\t'] + indent_at(bytes, from + 1)
    } else {
        Seq::empty()
    }
}

/// The edit for the list closed by token `c` whose last argument is
/// token `k`, as start, end and replacement.
///
/// - The list closes on the line of its last argument: the reason goes
///   right after it, joined by a comma, or, after a trailing comma,
///   before the close.
/// - Otherwise the reason goes on a line of its own, indented as the
///   last argument's line and ended by a comma and a `\n`: before the
///   line of the close where the last argument has a trailing comma,
///   else right after the last argument, which gains the comma.
pub open spec fn reason_edit(bytes: Seq<u8>, tokens: Seq<(TokenClass, usize)>, c: int, k: int) -> (int, int, Seq<char>) {
    let content_end = token_start(tokens, k) + tokens[k].1;
    let close = token_start(tokens, c);
    let comma = tokens[k].0 is Comma;
    let indent = indent_at(bytes, line_begin(bytes, token_start(tokens, k)));
    if !newline_between(bytes, content_end, close) {
        if comma {
            (content_end, content_end, " reason = \"\","@)
        } else {
            (content_end, content_end, ", reason = \"\""@)
        }
    } else if comma {
        let at = line_begin(bytes, close);
        (at, at, indent + "reason = \"\",\n"@)
    } else {
        (content_end, content_end, ",\n"@ + indent + "reason = \"\","@)
    }
}

/// The first `(` among `tokens`, with the offset it starts at.
fn first_open_paren(tokens: &[(TokenClass, usize)]) -> (r: Option<(usize, usize)>)
    requires
        token_total(tokens@) <= usize::MAX,
    ensures
        match r {
            None => forall|o: int| !first_open(tokens@, o),
            Some((o, start)) => first_open(tokens@, o as int) && start == token_start(tokens@, o as int),
        },
{
    let ghost t = tokens@;
    let mut o: usize = 0;
    let mut offset: usize = 0;
    while o < tokens.len()
        invariant
            t == tokens@,
            o <= t.len(),
            token_total(t) <= usize::MAX,
            offset == token_start(t, o as int),
            forall|j: int| 0 <= j < o ==> !(#[trigger] t[j].0 is OpenParen),
        decreases t.len() - o,
    {
        let (class, length) = tokens[o];
        if let TokenClass::OpenParen = class {
            return Some((o, offset));
        }
        proof {
            lemma_token_step(t, o as int);
        }
        offset = offset + length;
        o = o + 1;
    }
    None
}

/// What lies after the `(` at `o`: the `)` that closes it, with its
/// start, and the last argument before it, with its start, if any.
fn closing_paren(tokens: &[(TokenClass, usize)], o: usize, o_start: usize) -> (r: Option<(usize, usize, Option<(usize, usize)>)>)
    requires
        token_total(tokens@) <= usize::MAX,
        first_open(tokens@, o as int),
        o_start == token_start(tokens@, o as int),
    ensures
        match r {
            None => forall|c: int| !closes(tokens@, o as int, c),
            Some((c, c_start, last)) => {
                &&& closes(tokens@, o as int, c as int)
                &&& c_start == token_start(tokens@, c as int)
                &&& match last {
                    None => forall|k: int| !last_content(tokens@, o as int, c as int, k),
                    Some((k, k_start)) => last_content(tokens@, o as int, c as int, k as int)
                        && k_start == token_start(tokens@, k as int),
                }
            },
        },
{
    let ghost t = tokens@;
    let ghost oi = o as int;
    proof {
        lemma_token_step(t, oi);
        assert(balance(t, oi, oi + 1) == balance(t, oi, oi) + paren_step(t[oi].0));
    }
    assert(o < tokens.len());
    let mut j: usize = o + 1;
    let mut depth: usize = 1;
    let mut offset: usize = o_start + tokens[o].1;
    let mut last: Option<(usize, usize)> = None;
    while j < tokens.len()
        invariant
            t == tokens@,
            token_total(t) <= usize::MAX,
            0 <= oi < j <= t.len(),
            oi == o,
            1 <= depth <= j - oi,
            depth == balance(t, oi, j as int),
            forall|m: int| oi < m < j ==> #[trigger] balance(t, oi, m + 1) > 0,
            offset == token_start(t, j as int),
            match last {
                None => forall|m: int| oi < m < j ==> is_trivia(#[trigger] t[m].0),
                Some((k, k_start)) => {
                    &&& oi < k < j
                    &&& !is_trivia(t[k as int].0)
                    &&& k_start == token_start(t, k as int)
                    &&& forall|m: int| k < m < j ==> is_trivia(#[trigger] t[m].0)
                },
            },
        decreases t.len() - j,
    {
        let (class, length) = tokens[j];
        let ghost before = depth;
        proof {
            lemma_token_step(t, j as int);
            assert(balance(t, oi, j + 1) == balance(t, oi, j as int) + paren_step(t[j as int].0));
        }
        match class {
            TokenClass::OpenParen => {
                depth = depth + 1;
            },
            TokenClass::CloseParen => {
                depth = depth - 1;
                if depth == 0 {
                    proof {
                        match last {
                            None => {
                                assert forall|k: int| !last_content(t, oi, j as int, k) by {
                                    if last_content(t, oi, j as int, k) {
                                        assert(is_trivia(t[k].0));
                                    }
                                }
                            },
                            Some((k, k_start)) => {},
                        }
                    }
                    return Some((j, offset, last));
                }
            },
            _ => {},
        }
        match class {
            TokenClass::LineComment | TokenClass::BlockComment | TokenClass::Whitespace => {},
            _ => {
                last = Some((j, offset));
            },
        }
        offset = offset + length;
        j = j + 1;
    }
    proof {
        assert forall|c: int| !closes(t, oi, c) by {
            if closes(t, oi, c) {
                assert(c < t.len());
                assert(balance(t, oi, c + 1) > 0);
            }
        }
    }
    None
}

/// Whether a `\n` lies among `bytes[from..to]`.
fn has_newline(bytes: &[u8], from: usize, to: usize) -> (r: bool)
    requires
        to <= bytes@.len(),
    ensures
        r == newline_between(bytes@, from as int, to as int),
{
    let mut p: usize = from;
    while p < to
        invariant
            from <= p,
            to <= bytes@.len(),
            forall|q: int| from <= q < p ==> #[trigger] bytes@[q] != 10u8,
        decreases to - p,
    {
        if bytes[p] == 10u8 {
            return true;
        }
        p = p + 1;
    }
    false
}

/// Where the line holding offset `p` begins.
fn line_begin_of(bytes: &[u8], p: usize) -> (r: usize)
    requires
        p <= bytes@.len(),
    ensures
        r == line_begin(bytes@, p as int),
        r <= p,
{
    let mut q: usize = p;
    while q > 0 && bytes[q - 1] != 10u8
        invariant
            q <= p <= bytes@.len(),
            line_begin(bytes@, q as int) == line_begin(bytes@, p as int),
        decreases q,
    {
        q = q - 1;
    }
    q
}

/// The spaces and tabs with which the text at `from` begins.
fn indent_of(bytes: &[u8], from: usize) -> (r: Vec<char>)
    ensures
        r@ == indent_at(bytes@, from as int),
{
    let mut out: Vec<char> = Vec::new();
    let mut q: usize = from;
    while q < bytes.len() && (bytes[q] == 32u8 || bytes[q] == 9u8)
        invariant
            from <= q,
            indent_at(bytes@, from as int) == out@ + indent_at(bytes@, q as int),
        decreases bytes@.len() - q,
    {
        let ch = if bytes[q] == 32u8 { ' ' } else { '\t' };
        assert(indent_at(bytes@, q as int) == seq![ch] + indent_at(bytes@, q + 1));
        assert(out@.push(ch) + indent_at(bytes@, q + 1) =~= out@ + (seq![ch] + indent_at(bytes@, q + 1)));
        out.push(ch);
        q = q + 1;
    }
    assert(out@ + indent_at(bytes@, q as int) =~= out@);
    out
}

/// The edit that adds `reason = ""` to the first parenthesised list of
/// `snippet`, an `allow(..)` or `expect(..)` attribute as written; `None`
/// where `snippet` has no such list, its `(` is never closed, or the
/// list is empty. Parentheses inside comments count for nothing.
pub fn build_insertion(snippet: &str) -> (r: Option<Insertion>)
    ensures
        match r {
            None => forall|o: int, c: int, k: int| !#[trigger] argument_list(lexed(snippet@), o, c, k),
            Some(ins) => {
                &&& exists|o: int, c: int, k: int| #[trigger] argument_list(lexed(snippet@), o, c, k)
                    && reason_edit(snippet.spec_bytes(), lexed(snippet@), c, k)
                        == (ins.start as int, ins.end as int, ins.replacement@)
                &&& ins.start <= ins.end <= snippet.spec_bytes().len()
            },
        },
{
    let tokens = lex(snippet);
    insertion_from_tokens(snippet, tokens.as_slice())
}

/// The edit of [`build_insertion`] for `snippet` cut into `tokens`, each
/// given as its class and its length in bytes.
pub fn insertion_from_tokens(snippet: &str, tokens: &[(TokenClass, usize)]) -> (r: Option<Insertion>)
    requires
        token_total(tokens@) == snippet.spec_bytes().len(),
        token_total(tokens@) <= usize::MAX,
    ensures
        match r {
            None => forall|o: int, c: int, k: int| !#[trigger] argument_list(tokens@, o, c, k),
            Some(ins) => {
                &&& exists|o: int, c: int, k: int| #[trigger] argument_list(tokens@, o, c, k)
                    && reason_edit(snippet.spec_bytes(), tokens@, c, k)
                        == (ins.start as int, ins.end as int, ins.replacement@)
                &&& ins.start <= ins.end <= snippet.spec_bytes().len()
            },
        },
{
    let bytes = snippet.as_bytes();
    let ghost t = tokens@;
    let ghost b = bytes@;
    let (o, o_start) = match first_open_paren(tokens) {
        Some(found) => found,
        None => {
            return None;
        },
    };
    let (c, c_start, last) = match closing_paren(tokens, o, o_start) {
        Some(found) => found,
        None => {
            proof {
                assert forall|o2: int, c2: int, k2: int| !#[trigger] argument_list(t, o2, c2, k2) by {
                    if argument_list(t, o2, c2, k2) {
                        assert(o2 == o as int);
                    }
                }
            }
            return None;
        },
    };
    let (k, k_start) = match last {
        Some(found) => found,
        None => {
            proof {
                assert forall|o2: int, c2: int, k2: int| !#[trigger] argument_list(t, o2, c2, k2) by {
                    if argument_list(t, o2, c2, k2) {
                        assert(o2 == o as int);
                        if c2 < c {
                            assert(balance(t, o as int, c2 + 1) > 0);
                        } else if c2 > c {
                            assert(balance(t, o as int, c + 1) > 0);
                        }
                    }
                }
            }
            return None;
        },
    };
    proof {
        lemma_token_step(t, k as int);
        lemma_total_prefix(t, c as int);
    }
    let content_end = k_start + tokens[k].1;
    let comma = match tokens[k].0 {
        TokenClass::Comma => true,
        _ => false,
    };
    let mut out: Vec<char> = Vec::new();
    let start: usize;
    if !has_newline(bytes, content_end, c_start) {
        start = content_end;
        if comma {
            push_str(&mut out, " reason = \"\",");
        } else {
            push_str(&mut out, ", reason = \"\"");
        }
    } else {
        let line = line_begin_of(bytes, k_start);
        let indent = indent_of(bytes, line);
        if comma {
            start = line_begin_of(bytes, c_start);
            push_all(&mut out, indent.as_slice());
            push_str(&mut out, "reason = \"\",\n");
        } else {
            start = content_end;
            push_str(&mut out, ",\n");
            push_all(&mut out, indent.as_slice());
            push_str(&mut out, "reason = \"\",");
        }
    }
    let ins = Insertion { start, end: start, replacement: string_of(out.as_slice()) };
    proof {
        assert(argument_list(t, o as int, c as int, k as int));
        assert(reason_edit(b, t, c as int, k as int) == (ins.start as int, ins.end as int, ins.replacement@));
    }
    Some(ins)
}

} // verus!
