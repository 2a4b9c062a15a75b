//! Rust source text cut into tokens by `rustc_lexer`, each kept as the
//! class of token the rules tell apart and its length in bytes.
use vstd::prelude::*;
use rustc_lexer::TokenKind;
use vstd::string::StringSliceAdditionalSpecFns;
use crate::text::utf8_len;

verus! {

/// The classes of token the rules tell apart; every other token kind
/// is `Other`.
#[derive(Clone, Copy, PartialEq, Eq, Debug, Structural)]
pub enum TokenClass {
    LineComment,
    BlockComment,
    Whitespace,
    OpenParen,
    CloseParen,
    Comma,
    Other,
}

/// Whitespace and comments: the tokens that carry no syntax.
pub open spec fn is_trivia(c: TokenClass) -> bool {
    c is LineComment || c is BlockComment || c is Whitespace
}

/// The tokens `rustc_lexer::tokenize` cuts `text` into, each given as
/// its class and its length in bytes.
pub uninterp spec fn lexed(text: Seq<char>) -> Seq<(TokenClass, usize)>;

/// The summed length of `tokens`.
pub open spec fn token_total(tokens: Seq<(TokenClass, usize)>) -> nat
    decreases tokens.len(),
{
    if tokens.len() == 0 {
        0
    } else {
        token_total(tokens.drop_last()) + tokens.last().1 as nat
    }
}

/// The byte offset at which token `k` of `tokens` starts.
pub open spec fn token_start(tokens: Seq<(TokenClass, usize)>, k: int) -> int {
    token_total(tokens.take(k)) as int
}

/// Calls `rustc_lexer::tokenize` on `text`, keeping of each token its
/// kind, folded into a [`TokenClass`], and its `len`. The tokens are a
/// function of the text alone, so they are named [`lexed`]; `tokenize`
/// slices each token's `len` bytes off the front of the input until it
/// is empty, so the lengths add up to the text's length in bytes, which
/// a `str` keeps within `usize`. Nothing is claimed of where the token
/// boundaries fall, nor of which text gets which kind.
#[verifier::external_body]
pub(crate) fn lex(text: &str) -> (r: Vec<(TokenClass, usize)>)
    ensures
        r@ == lexed(text@),
        token_total(r@) == utf8_len(text@) && token_total(r@) <= usize::MAX,
        token_total(r@) == text.spec_bytes().len(),
{
    let mut out = Vec::new();
    for token in rustc_lexer::tokenize(text) {
        let class = match token.kind {
            TokenKind::LineComment => TokenClass::LineComment,
            TokenKind::BlockComment { .. } => TokenClass::BlockComment,
            TokenKind::Whitespace => TokenClass::Whitespace,
            TokenKind::OpenParen => TokenClass::OpenParen,
            TokenKind::CloseParen => TokenClass::CloseParen,
            TokenKind::Comma => TokenClass::Comma,
            _ => TokenClass::Other,
        };
        out.push((class, token.len));
    }
    out
}

/// A prefix of `tokens` is no longer than the whole.
pub proof fn lemma_total_prefix(tokens: Seq<(TokenClass, usize)>, i: int)
    requires
        0 <= i <= tokens.len(),
    ensures
        token_total(tokens.take(i)) <= token_total(tokens),
    decreases tokens.len() - i,
{
    if i < tokens.len() {
        lemma_total_prefix(tokens, i + 1);
        assert(tokens.take(i + 1).drop_last() =~= tokens.take(i));
    } else {
        assert(tokens.take(i) =~= tokens);
    }
}

/// Token `k + 1` starts where token `k` ends.
pub proof fn lemma_token_step(tokens: Seq<(TokenClass, usize)>, k: int)
    requires
        0 <= k < tokens.len(),
    ensures
        token_start(tokens, k + 1) == token_start(tokens, k) + tokens[k].1,
        token_start(tokens, k + 1) <= token_total(tokens),
{
    assert(tokens.take(k + 1).drop_last() =~= tokens.take(k));
    lemma_total_prefix(tokens, k + 1);
}

} // verus!
