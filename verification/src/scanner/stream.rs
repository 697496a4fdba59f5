//! The token stream of a source, and the diagnostics that go with it.

use super::error::{ErrorView, ScanErrorKind};
use super::grammar::{
    lemma_letters_end, lemma_scan_string_fault, lemma_skip_blank, lemma_step_advances,
    letters_end, newlines, scan_lexeme, skip_blank, step, Lexeme,
};
use super::keywords::lemma_keyword_kinds_are_reserved;
use super::token::TokenView;
use vstd::prelude::*;

verus! {

/// What one pull yields: the next token, the diagnostics met on the way to
/// it, and where the pull after it begins.
pub struct Pull {
    /// The next token.
    pub token: TokenView,
    /// The diagnostics of the lexemes skipped before the token, in source
    /// order, and that of the token itself where it is an illegal character.
    pub errors: Seq<ErrorView>,
    /// The position after the token.
    pub end: int,
}

/// The diagnostic that goes with a token: one for an illegal character,
/// none for any other token.
pub open spec fn token_note(token: TokenView) -> Seq<ErrorView> {
    if token.kind is Illegal {
        seq![ErrorView { line: token.line, kind: ScanErrorKind::IllegalCharacter }]
    } else {
        Seq::empty()
    }
}

/// The next token at or after `pos`. Comments are passed over. A malformed
/// lexeme is passed over too and leaves its diagnostic: it never ends the
/// stream.
pub open spec fn pull(src: Seq<char>, pos: int) -> Pull
    decreases src.len() - pos,
    when 0 <= pos <= src.len()
    via pull_decreases
{
    let s = step(src, pos);
    match s.found {
        Lexeme::Token(token) => Pull { token, errors: token_note(token), end: s.end },
        Lexeme::Comment => pull(src, s.end),
        Lexeme::Error(error) => {
            let rest = pull(src, s.end);
            Pull { token: rest.token, errors: seq![error] + rest.errors, end: rest.end }
        },
    }
}

#[via_fn]
proof fn pull_decreases(src: Seq<char>, pos: int) {
    lemma_step_advances(src, pos);
}

/// No lexeme is an end-of-input token, and a lexeme's token carries text
/// only where its kind does.
pub proof fn lemma_scan_lexeme_token(src: Seq<char>, start: int)
    requires
        0 <= start < src.len(),
    ensures
        scan_lexeme(src, start).found matches Lexeme::Token(token) ==> {
            &&& !(token.kind is Eof)
            &&& token.line == newlines(src, start)
            &&& token.literal is None
            &&& token.lexeme.len() > 0 ==> token.kind.carries_text()
        },
        scan_lexeme(src, start).found matches Lexeme::Error(error) ==> {
            &&& error.line == newlines(src, start)
            &&& !(error.kind is IllegalCharacter)
        },
{
    lemma_letters_end(src, start);
    lemma_keyword_kinds_are_reserved(src.subrange(start, letters_end(src, start)));
    lemma_scan_string_fault(src, start + 1, Seq::empty(), None);
}

/// A pull ends within the source, and after the position it begins at
/// unless its token is the end of the input, which it yields exactly where
/// nothing but whitespace is left.
pub proof fn lemma_pull_advances(src: Seq<char>, pos: int)
    requires
        0 <= pos <= src.len(),
    ensures
        pos <= pull(src, pos).end <= src.len(),
        !(pull(src, pos).token.kind is Eof) ==> pos < pull(src, pos).end,
        pull(src, pos).token.kind is Eof ==> pull(src, pos).end == src.len(),
    decreases src.len() - pos,
{
    lemma_step_advances(src, pos);
    lemma_skip_blank(src, pos);
    let start = skip_blank(src, pos);
    if start < src.len() {
        lemma_scan_lexeme_token(src, start);
    }
    let s = step(src, pos);
    match s.found {
        Lexeme::Token(token) => {},
        Lexeme::Comment => {
            lemma_pull_advances(src, s.end);
        },
        Lexeme::Error(error) => {
            lemma_pull_advances(src, s.end);
        },
    }
}

/// The tokens of `src` from `pos` on. The end-of-input token closes the
/// stream.
pub open spec fn tokens_from(src: Seq<char>, pos: int) -> Seq<TokenView>
    decreases src.len() - pos,
    when 0 <= pos <= src.len()
    via tokens_from_decreases
{
    let p = pull(src, pos);
    if p.token.kind is Eof {
        seq![p.token]
    } else {
        seq![p.token] + tokens_from(src, p.end)
    }
}

#[via_fn]
proof fn tokens_from_decreases(src: Seq<char>, pos: int) {
    lemma_pull_advances(src, pos);
}

/// The diagnostics of `src` from `pos` on, in source order.
pub open spec fn errors_from(src: Seq<char>, pos: int) -> Seq<ErrorView>
    decreases src.len() - pos,
    when 0 <= pos <= src.len()
    via errors_from_decreases
{
    let p = pull(src, pos);
    if p.token.kind is Eof {
        p.errors
    } else {
        p.errors + errors_from(src, p.end)
    }
}

#[via_fn]
proof fn errors_from_decreases(src: Seq<char>, pos: int) {
    lemma_pull_advances(src, pos);
}

/// The token stream of a whole source.
pub open spec fn tokens(src: Seq<char>) -> Seq<TokenView> {
    tokens_from(src, 0)
}

/// The diagnostics of a whole source.
pub open spec fn diagnostics(src: Seq<char>) -> Seq<ErrorView> {
    errors_from(src, 0)
}

} // verus!
