//! Laws of the token stream: what holds of every source.

use super::chars::{is_digit_spec, is_letter_spec};
use super::error::{ErrorView, ScanErrorKind};
use super::grammar::{
    digits_end, lemma_newlines_monotonic, lemma_scan_lexeme_advances, lemma_skip_blank,
    lemma_step_advances, letters_end, newlines, scan_lexeme, scan_string, skip_blank, step,
    unescape_spec, Lexeme, Span,
};
use super::keywords::word_token;
use super::stream::{
    diagnostics, errors_from, lemma_pull_advances, lemma_scan_lexeme_token, pull, token_note,
    tokens, tokens_from,
};
use super::token::{TokenType, TokenView};
use vstd::prelude::*;

verus! {

/// The token that a pull yields stands at or after the position the pull
/// begins at, carries text only where its kind does, and has no literal
/// value.
pub proof fn lemma_pull_token(src: Seq<char>, pos: int)
    requires
        0 <= pos <= src.len(),
    ensures
        newlines(src, pos) <= pull(src, pos).token.line <= newlines(src, src.len() as int),
        pull(src, pos).token.literal is None,
        pull(src, pos).token.lexeme.len() > 0 ==> pull(src, pos).token.kind.carries_text(),
    decreases src.len() - pos,
{
    lemma_step_advances(src, pos);
    lemma_skip_blank(src, pos);
    let start = skip_blank(src, pos);
    lemma_newlines_monotonic(src, pos, start);
    lemma_newlines_monotonic(src, start, src.len() as int);
    if start < src.len() {
        lemma_scan_lexeme_token(src, start);
    }
    let s = step(src, pos);
    match s.found {
        Lexeme::Token(token) => {},
        Lexeme::Comment => {
            lemma_pull_token(src, s.end);
            lemma_newlines_monotonic(src, pos, s.end);
        },
        Lexeme::Error(error) => {
            lemma_pull_token(src, s.end);
            lemma_newlines_monotonic(src, pos, s.end);
        },
    }
}

/// Every source has a token stream with exactly one end-of-input token,
/// and that token is the last of the stream. It stands on the last line of
/// the source: no lexical error cuts the stream short.
pub proof fn lemma_stream_ends_with_one_eof(src: Seq<char>)
    ensures
        tokens(src).len() >= 1,
        tokens(src).last().kind is Eof,
        tokens(src).last().line == newlines(src, src.len() as int),
        forall|i: int| 0 <= i < tokens(src).len() - 1 ==> !(#[trigger] tokens(src)[i].kind is Eof),
{
    lemma_tokens_from_ends_with_one_eof(src, 0);
}

/// The stream from any position has exactly one end-of-input token, its
/// last, which stands on the last line of the source.
pub proof fn lemma_tokens_from_ends_with_one_eof(src: Seq<char>, pos: int)
    requires
        0 <= pos <= src.len(),
    ensures
        tokens_from(src, pos).len() >= 1,
        tokens_from(src, pos).last().kind is Eof,
        tokens_from(src, pos).last().line == newlines(src, src.len() as int),
        forall|i: int|
            0 <= i < tokens_from(src, pos).len() - 1 ==> !(#[trigger] tokens_from(src, pos)[i].kind
                is Eof),
    decreases src.len() - pos,
{
    lemma_pull_advances(src, pos);
    let p = pull(src, pos);
    if p.token.kind is Eof {
        lemma_pull_eof_line(src, pos);
    } else {
        lemma_tokens_from_ends_with_one_eof(src, p.end);
        let rest = tokens_from(src, p.end);
        let all = tokens_from(src, pos);
        assert(all == seq![p.token] + rest);
        assert(all.last() == rest.last());
        assert forall|i: int| 0 <= i < all.len() - 1 implies !(#[trigger] all[i].kind is Eof) by {
            if i > 0 {
                assert(all[i] == rest[i - 1]);
            }
        }
    }
}

/// The end-of-input token stands on the last line of the source.
pub proof fn lemma_pull_eof_line(src: Seq<char>, pos: int)
    requires
        0 <= pos <= src.len(),
    ensures
        pull(src, pos).token.kind is Eof ==> pull(src, pos).token.line == newlines(
            src,
            src.len() as int,
        ),
    decreases src.len() - pos,
{
    lemma_step_advances(src, pos);
    lemma_skip_blank(src, pos);
    let start = skip_blank(src, pos);
    if start < src.len() {
        lemma_scan_lexeme_token(src, start);
    }
    let s = step(src, pos);
    match s.found {
        Lexeme::Token(token) => {},
        Lexeme::Comment => {
            lemma_pull_eof_line(src, s.end);
        },
        Lexeme::Error(error) => {
            lemma_pull_eof_line(src, s.end);
        },
    }
}

/// In every token stream, a token carries text only where its kind does,
/// no token has a literal value, and the tokens stand on lines that never
/// go back.
pub proof fn lemma_stream_tokens(src: Seq<char>, pos: int)
    requires
        0 <= pos <= src.len(),
    ensures
        forall|i: int|
            0 <= i < tokens_from(src, pos).len() ==> {
                let token = #[trigger] tokens_from(src, pos)[i];
                &&& token.literal is None
                &&& token.lexeme.len() > 0 ==> token.kind.carries_text()
                &&& newlines(src, pos) <= token.line
            },
        forall|i: int, j: int|
            0 <= i <= j < tokens_from(src, pos).len() ==> (#[trigger] tokens_from(src, pos)[i]).line
                <= (#[trigger] tokens_from(src, pos)[j]).line,
    decreases src.len() - pos,
{
    lemma_pull_advances(src, pos);
    lemma_pull_token(src, pos);
    let p = pull(src, pos);
    if !(p.token.kind is Eof) {
        lemma_stream_tokens(src, p.end);
        lemma_pull_line_before_end(src, pos);
        let rest = tokens_from(src, p.end);
        let all = tokens_from(src, pos);
        assert(all == seq![p.token] + rest);
        assert forall|i: int| 0 <= i < all.len() implies {
            let token = #[trigger] all[i];
            &&& token.literal is None
            &&& token.lexeme.len() > 0 ==> token.kind.carries_text()
            &&& newlines(src, pos) <= token.line
        } by {
            if i > 0 {
                assert(all[i] == rest[i - 1]);
            }
        }
        assert forall|i: int, j: int| 0 <= i <= j < all.len() implies (#[trigger] all[i]).line <= (
        #[trigger] all[j]).line by {
            if i > 0 {
                assert(all[i] == rest[i - 1]);
            }
            if j > 0 {
                assert(all[j] == rest[j - 1]);
            }
        }
    }
}

/// A token stands on a line no later than the position after it.
pub proof fn lemma_pull_line_before_end(src: Seq<char>, pos: int)
    requires
        0 <= pos <= src.len(),
    ensures
        pull(src, pos).token.line <= newlines(src, pull(src, pos).end),
    decreases src.len() - pos,
{
    lemma_step_advances(src, pos);
    lemma_skip_blank(src, pos);
    let start = skip_blank(src, pos);
    if start < src.len() {
        lemma_scan_lexeme_token(src, start);
        lemma_scan_lexeme_advances(src, start);
    }
    let s = step(src, pos);
    match s.found {
        Lexeme::Token(token) => {
            lemma_newlines_monotonic(src, start, s.end);
        },
        Lexeme::Comment => {
            lemma_pull_line_before_end(src, s.end);
        },
        Lexeme::Error(error) => {
            lemma_pull_line_before_end(src, s.end);
        },
    }
}

/// The streams go step by step. A token other than the end of the input
/// is followed by the stream behind it. A comment leaves no token and no
/// diagnostic. A malformed lexeme leaves its diagnostic and no token. After
/// either, the streams go on behind it: nothing but the end of the input
/// ends them.
pub proof fn lemma_streams_follow_steps(src: Seq<char>, pos: int)
    requires
        0 <= pos <= src.len(),
    ensures
        ({
            let scan = step(src, pos);
            match scan.found {
                Lexeme::Token(token) => if token.kind is Eof {
                    &&& tokens_from(src, pos) == seq![token]
                    &&& errors_from(src, pos) == Seq::<ErrorView>::empty()
                } else {
                    &&& tokens_from(src, pos) == seq![token] + tokens_from(src, scan.end)
                    &&& errors_from(src, pos) == token_note(token) + errors_from(src, scan.end)
                },
                Lexeme::Comment => {
                    &&& tokens_from(src, pos) == tokens_from(src, scan.end)
                    &&& errors_from(src, pos) == errors_from(src, scan.end)
                },
                Lexeme::Error(error) => {
                    &&& tokens_from(src, pos) == tokens_from(src, scan.end)
                    &&& errors_from(src, pos) == seq![error] + errors_from(src, scan.end)
                },
            }
        }),
{
    lemma_step_advances(src, pos);
    let scan = step(src, pos);
    match scan.found {
        Lexeme::Token(token) => {},
        Lexeme::Comment => {},
        Lexeme::Error(error) => {
            let rest = pull(src, scan.end);
            if !(rest.token.kind is Eof) {
                lemma_pull_advances(src, scan.end);
                assert(seq![error] + rest.errors + errors_from(src, rest.end) =~= seq![error] + (
                rest.errors + errors_from(src, rest.end)));
            }
        },
    }
}

/// A number whose dot no digit follows is skipped with its dot and leaves
/// the diagnostic of a trailing dot. The scan goes on with the character
/// after the dot.
pub proof fn lemma_trailing_dot_is_skipped(src: Seq<char>, start: int)
    requires
        0 <= start < src.len(),
        is_digit_spec(src[start]),
        digits_end(src, start) < src.len(),
        src[digits_end(src, start)] == '.',
        digits_end(src, start) + 1 < src.len() ==> !is_digit_spec(src[digits_end(src, start) + 1]),
    ensures
        scan_lexeme(src, start).found == Lexeme::Error(
            ErrorView { line: newlines(src, start), kind: ScanErrorKind::TrailingDot },
        ),
        scan_lexeme(src, start).end == digits_end(src, start) + 1,
{
}

/// The kinds of an operator that `=` may follow: alone, and with the `=`.
pub open spec fn operator_kinds(c: char) -> Option<(TokenType, TokenType)> {
    if c == '!' {
        Some((TokenType::Bang, TokenType::BangEqual))
    } else if c == '=' {
        Some((TokenType::Equal, TokenType::EqualEqual))
    } else if c == '<' {
        Some((TokenType::Less, TokenType::LessEqual))
    } else if c == '>' {
        Some((TokenType::Greater, TokenType::GreaterEqual))
    } else {
        None
    }
}

/// A token on line 0 that carries no text.
pub open spec fn bare(kind: TokenType) -> TokenView {
    TokenView { kind, line: 0, lexeme: Seq::empty(), literal: None }
}

/// The longer match wins. Wherever an operator character stands with `=`
/// after it, the two are one token; with anything else after it, or
/// nothing, the operator stands alone and what follows is not touched.
pub proof fn lemma_longest_match(src: Seq<char>, start: int)
    requires
        0 <= start < src.len(),
        operator_kinds(src[start]) is Some,
    ensures
        ({
            let (alone, with_equal) = operator_kinds(src[start])->0;
            let scan = scan_lexeme(src, start);
            if start + 1 < src.len() && src[start + 1] == '=' {
                &&& scan.end == start + 2
                &&& scan.found matches Lexeme::Token(token)
                &&& token.kind == with_equal
            } else {
                &&& scan.end == start + 1
                &&& scan.found matches Lexeme::Token(token)
                &&& token.kind == alone
            }
        }),
{
}

/// An operator character alone is one token of the shorter kind, and with
/// `=` after it one token of the longer kind, never two tokens.
pub proof fn lemma_operator_sources(c: char)
    requires
        operator_kinds(c) is Some,
    ensures
        ({
            let (alone, with_equal) = operator_kinds(c)->0;
            &&& tokens(seq![c]) == seq![bare(alone), bare(TokenType::Eof)]
            &&& tokens(seq![c, '=']) == seq![bare(with_equal), bare(TokenType::Eof)]
        }),
{
    let (alone, with_equal) = operator_kinds(c)->0;
    let one = seq![c];
    let two = seq![c, '='];
    reveal_with_fuel(skip_blank, 2);
    reveal_with_fuel(newlines, 3);
    reveal_with_fuel(pull, 2);
    reveal_with_fuel(tokens_from, 3);
    assert(skip_blank(one, 0) == 0);
    assert(step(one, 0).end == 1);
    assert(pull(one, 0).token == bare(alone));
    assert(skip_blank(one, 1) == 1);
    assert(pull(one, 1).token == bare(TokenType::Eof));
    assert(tokens(one) =~= seq![bare(alone), bare(TokenType::Eof)]);
    assert(skip_blank(two, 0) == 0);
    assert(step(two, 0).end == 2);
    assert(pull(two, 0).token == bare(with_equal));
    assert(skip_blank(two, 2) == 2);
    assert(pull(two, 2).token == bare(TokenType::Eof));
    assert(tokens(two) =~= seq![bare(with_equal), bare(TokenType::Eof)]);
}

/// A source without a newline is all on line 0.
pub proof fn lemma_one_line(src: Seq<char>, upto: int)
    requires
        0 <= upto <= src.len(),
        forall|i: int| 0 <= i < src.len() ==> src[i] != '\n',
    ensures
        newlines(src, upto) == 0,
    decreases upto,
{
    if upto > 0 {
        lemma_one_line(src, upto - 1);
    }
}

/// Where nothing but letters and underscores follows, a word runs to the
/// end of the source.
pub proof fn lemma_letters_run(src: Seq<char>, pos: int)
    requires
        0 <= pos <= src.len(),
        forall|i: int| pos <= i < src.len() ==> is_letter_spec(src[i]),
    ensures
        letters_end(src, pos) == src.len(),
    decreases src.len() - pos,
{
    if pos < src.len() {
        lemma_letters_run(src, pos + 1);
    }
}

/// Reserved words come before identifiers. A source that is one word has
/// one token before the end of the input: that of the reserved word, where
/// the whole word is reserved, and an identifier that carries the word
/// otherwise. It has no diagnostics.
pub proof fn lemma_word_source(word: Seq<char>)
    requires
        word.len() > 0,
        forall|i: int| 0 <= i < word.len() ==> is_letter_spec(word[i]),
    ensures
        tokens(word) == seq![word_token(word), bare(TokenType::Eof)],
        diagnostics(word) == Seq::<ErrorView>::empty(),
{
    let end = word.len() as int;
    lemma_letters_run(word, 0);
    lemma_one_line(word, 0);
    lemma_one_line(word, end);
    lemma_scan_lexeme_token(word, 0);
    assert(word.subrange(0, end) =~= word);
    assert(is_letter_spec(word[0]));
    assert(skip_blank(word, 0) == 0);
    assert(scan_lexeme(word, 0).found == Lexeme::Token(word_token(word)));
    assert(pull(word, 0).token == word_token(word));
    assert(pull(word, 0).end == end);
    assert(skip_blank(word, end) == end);
    assert(pull(word, end).token == bare(TokenType::Eof));
    assert(tokens_from(word, end) =~= seq![bare(TokenType::Eof)]);
    assert(tokens(word) =~= seq![word_token(word), bare(TokenType::Eof)]);
    assert(errors_from(word, end) =~= Seq::<ErrorView>::empty());
    assert(diagnostics(word) =~= Seq::<ErrorView>::empty());
}

/// How the character `c` is written inside a string literal: as its
/// escape, where it has one, and as itself otherwise.
pub open spec fn escape_of(c: char) -> Seq<char> {
    if c == '\n' {
        seq!['\\', 'n']
    } else if c == '\r' {
        seq!['\\', 'r']
    } else if c == '\t' {
        seq!['\\', 't']
    } else if c == '"' {
        seq!['\\', '"']
    } else if c == '\\' {
        seq!['\\', '\\']
    } else {
        seq![c]
    }
}

/// The text `text` as it is written inside a string literal.
pub open spec fn escaped(text: Seq<char>) -> Seq<char>
    decreases text.len(),
{
    if text.len() == 0 {
        Seq::empty()
    } else {
        escape_of(text[0]) + escaped(text.drop_first())
    }
}

/// The string literal of the text `text`: the escaped text between quotes.
pub open spec fn quoted(text: Seq<char>) -> Seq<char> {
    seq!['"'] + escaped(text) + seq!['"']
}

/// An escaped text holds no newline.
pub proof fn lemma_escaped_is_one_line(text: Seq<char>)
    ensures
        forall|i: int| 0 <= i < escaped(text).len() ==> escaped(text)[i] != '\n',
    decreases text.len(),
{
    if text.len() > 0 {
        lemma_escaped_is_one_line(text.drop_first());
        let head = escape_of(text[0]);
        let rest = escaped(text.drop_first());
        assert forall|i: int| 0 <= i < escaped(text).len() implies escaped(text)[i] != '\n' by {
            if i >= head.len() {
                assert(escaped(text)[i] == rest[i - head.len()]);
            } else {
                assert(escaped(text)[i] == head[i]);
            }
        }
    }
}

/// Reading an escaped text that a quote follows gives the text back, after
/// whatever was decoded before, and ends behind the quote.
pub proof fn lemma_scan_escaped(src: Seq<char>, pos: int, before: Seq<char>, text: Seq<char>)
    requires
        0 <= pos,
        pos + escaped(text).len() < src.len(),
        forall|i: int| 0 <= i < escaped(text).len() ==> src[pos + i] == escaped(text)[i],
        src[pos + escaped(text).len()] == '"',
    ensures
        scan_string(src, pos, before, None) == (Span {
            text: Ok(before + text),
            end: pos + escaped(text).len() + 1,
        }),
    decreases text.len(),
{
    if text.len() == 0 {
        assert(before + text =~= before);
    } else {
        let c = text[0];
        let head = escape_of(c);
        let rest = text.drop_first();
        let tail = escaped(rest);
        assert(escaped(text) == head + tail);
        assert(src[pos] == escaped(text)[0]);
        assert(escaped(text)[0] == head[0]);
        assert forall|i: int| 0 <= i < tail.len() implies src[pos + head.len() + i] == tail[i] by {
            assert(escaped(text)[head.len() + i] == tail[i]);
        }
        if head.len() == 2 {
            assert(src[pos + 1] == escaped(text)[1]);
            assert(escaped(text)[1] == head[1]);
            assert(unescape_spec(head[1]) == Some(c));
        }
        lemma_scan_escaped(src, pos + head.len(), before.push(c), rest);
        assert(before.push(c) + rest =~= before + text);
    }
}

/// Strings come back as they went in. The literal of any text has one
/// token before the end of the input: a string that carries the text. It
/// has no diagnostics.
pub proof fn lemma_string_round_trip(text: Seq<char>)
    ensures
        tokens(quoted(text)) == seq![
            TokenView { kind: TokenType::LString, line: 0, lexeme: text, literal: None },
            bare(TokenType::Eof),
        ],
        diagnostics(quoted(text)) == Seq::<ErrorView>::empty(),
{
    let src = quoted(text);
    let end = src.len() as int;
    let string = TokenView { kind: TokenType::LString, line: 0, lexeme: text, literal: None };
    lemma_escaped_is_one_line(text);
    assert forall|i: int| 0 <= i < src.len() implies src[i] != '\n' by {
        if 0 < i < end - 1 {
            assert(src[i] == escaped(text)[i - 1]);
        }
    }
    lemma_one_line(src, 0);
    lemma_one_line(src, end);
    assert forall|i: int| 0 <= i < escaped(text).len() implies src[1 + i] == escaped(text)[i] by {}
    lemma_scan_escaped(src, 1, Seq::empty(), text);
    assert(Seq::<char>::empty() + text =~= text);
    assert(skip_blank(src, 0) == 0);
    assert(scan_lexeme(src, 0).found == Lexeme::Token(string));
    assert(pull(src, 0).token == string);
    assert(pull(src, 0).end == end);
    assert(skip_blank(src, end) == end);
    assert(pull(src, end).token == bare(TokenType::Eof));
    assert(tokens_from(src, end) =~= seq![bare(TokenType::Eof)]);
    assert(tokens(src) =~= seq![string, bare(TokenType::Eof)]);
    assert(errors_from(src, end) =~= Seq::<ErrorView>::empty());
    assert(diagnostics(src) =~= Seq::<ErrorView>::empty());
}

} // verus!
