//! The lexical grammar, as functions on sequences of characters.
//!
//! A position is an index into the source. Every function here reads the
//! source from a position on and says where the thing it describes ends.

use super::chars::{is_digit_spec, is_letter_spec, is_space_spec};
use super::error::{ErrorView, ScanErrorKind};
use super::keywords::word_token;
use super::token::{TokenType, TokenView};
use vstd::prelude::*;

verus! {

/// The number of newlines among the first `upto` characters of `src`: the
/// line, counted from 0, on which position `upto` stands.
pub open spec fn newlines(src: Seq<char>, upto: int) -> nat
    recommends
        0 <= upto <= src.len(),
    decreases upto,
{
    if upto <= 0 {
        0
    } else if src[upto - 1] == '\n' {
        newlines(src, upto - 1) + 1
    } else {
        newlines(src, upto - 1)
    }
}

/// The first position at or after `pos` that holds no whitespace.
pub open spec fn skip_blank(src: Seq<char>, pos: int) -> int
    decreases src.len() - pos,
{
    if 0 <= pos < src.len() && is_space_spec(src[pos]) {
        skip_blank(src, pos + 1)
    } else {
        pos
    }
}

/// The first position at or after `pos` that holds no digit.
pub open spec fn digits_end(src: Seq<char>, pos: int) -> int
    decreases src.len() - pos,
{
    if 0 <= pos < src.len() && is_digit_spec(src[pos]) {
        digits_end(src, pos + 1)
    } else {
        pos
    }
}

/// The first position at or after `pos` that holds neither a letter nor an
/// underscore.
pub open spec fn letters_end(src: Seq<char>, pos: int) -> int
    decreases src.len() - pos,
{
    if 0 <= pos < src.len() && is_letter_spec(src[pos]) {
        letters_end(src, pos + 1)
    } else {
        pos
    }
}

/// The position after the first newline at or after `pos`, or the end of
/// the source where there is none: where a comment that covers `pos` ends.
pub open spec fn line_end(src: Seq<char>, pos: int) -> int
    decreases src.len() - pos,
{
    if 0 <= pos < src.len() {
        if src[pos] == '\n' {
            pos + 1
        } else {
            line_end(src, pos + 1)
        }
    } else {
        pos
    }
}

/// The character that a backslash and `c` stand for in a string, if the
/// pair is an escape.
pub open spec fn unescape_spec(c: char) -> Option<char> {
    if c == 'n' {
        Some('\n')
    } else if c == 'r' {
        Some('\r')
    } else if c == 't' {
        Some('\t')
    } else if c == '"' {
        Some('"')
    } else if c == '\\' {
        Some('\\')
    } else {
        None
    }
}

/// The text of a literal, or what is wrong with it, and where it ends.
pub struct Span {
    /// The literal's text, or the first thing found wrong with it.
    pub text: Result<Seq<char>, ScanErrorKind>,
    /// The position after the literal's last character.
    pub end: int,
}

/// The fault noted so far, or `kind` where there is none: the first fault
/// of a literal is the one reported.
pub open spec fn first_fault(fault: Option<ScanErrorKind>, kind: ScanErrorKind) -> ScanErrorKind {
    match fault {
        Some(earlier) => earlier,
        None => kind,
    }
}

/// What a string literal comes to at its closing quote.
pub open spec fn closed_string(text: Seq<char>, fault: Option<ScanErrorKind>) -> Result<
    Seq<char>,
    ScanErrorKind,
> {
    match fault {
        Some(earlier) => Err(earlier),
        None => Ok(text),
    }
}

/// The rest of a string literal from `pos` on, where `text` is what the
/// literal has decoded to so far and `fault` the first thing found wrong.
///
/// The literal ends after its closing quote, after the newline that cuts
/// it short, or with the source. An escape that is none does not end the
/// literal: the literal is read to its end and reported as a whole.
pub open spec fn scan_string(
    src: Seq<char>,
    pos: int,
    text: Seq<char>,
    fault: Option<ScanErrorKind>,
) -> Span
    decreases src.len() - pos,
{
    if pos < 0 || pos >= src.len() {
        Span { text: Err(first_fault(fault, ScanErrorKind::UnterminatedString)), end: pos }
    } else if src[pos] == '"' {
        Span { text: closed_string(text, fault), end: pos + 1 }
    } else if src[pos] == '\n' {
        Span { text: Err(first_fault(fault, ScanErrorKind::UnterminatedString)), end: pos + 1 }
    } else if src[pos] == '\\' {
        if pos + 1 >= src.len() {
            Span {
                text: Err(first_fault(fault, ScanErrorKind::UnterminatedString)),
                end: pos + 1,
            }
        } else if src[pos + 1] == '\n' {
            Span { text: Err(first_fault(fault, ScanErrorKind::InvalidEscape)), end: pos + 2 }
        } else {
            match unescape_spec(src[pos + 1]) {
                Some(c) => scan_string(src, pos + 2, text.push(c), fault),
                None => scan_string(
                    src,
                    pos + 2,
                    text,
                    Some(first_fault(fault, ScanErrorKind::InvalidEscape)),
                ),
            }
        }
    } else {
        scan_string(src, pos + 1, text.push(src[pos]), fault)
    }
}

/// The number literal that begins at `start`: digits, then at most one dot
/// with digits after it. A dot that no digit follows belongs to the
/// literal and spoils it. The character that ends the literal is not part
/// of it.
pub open spec fn scan_number(src: Seq<char>, start: int) -> Span {
    let whole = digits_end(src, start);
    if whole < src.len() && src[whole] == '.' {
        if whole + 1 < src.len() && is_digit_spec(src[whole + 1]) {
            let end = digits_end(src, whole + 1);
            Span { text: Ok(src.subrange(start, end)), end }
        } else {
            Span { text: Err(ScanErrorKind::TrailingDot), end: whole + 1 }
        }
    } else {
        Span { text: Ok(src.subrange(start, whole)), end: whole }
    }
}

/// What one step of the scan finds.
pub enum Lexeme {
    /// A token.
    Token(TokenView),
    /// A comment, which leaves no token.
    Comment,
    /// A malformed lexeme, which leaves a diagnostic and no token.
    Error(ErrorView),
}

/// What one step of the scan finds, and where the next step begins.
pub struct Scan {
    /// What was found.
    pub found: Lexeme,
    /// The position after the last character read.
    pub end: int,
}

/// A token of kind `kind` with text `text` that begins at `start`.
pub open spec fn token_at(src: Seq<char>, start: int, kind: TokenType, text: Seq<char>) -> Lexeme {
    Lexeme::Token(TokenView { kind, line: newlines(src, start), lexeme: text, literal: None })
}

/// A diagnostic of kind `kind` for the lexeme that begins at `start`.
pub open spec fn error_at(src: Seq<char>, start: int, kind: ScanErrorKind) -> Lexeme {
    Lexeme::Error(ErrorView { line: newlines(src, start), kind })
}

/// The token of one character at `start`.
pub open spec fn single(src: Seq<char>, start: int, kind: TokenType) -> Scan {
    Scan { found: token_at(src, start, kind, Seq::empty()), end: start + 1 }
}

/// The operator at `start`: `with_equal` where `=` follows, and then both
/// characters belong to it; `alone` otherwise.
pub open spec fn operator(src: Seq<char>, start: int, alone: TokenType, with_equal: TokenType) -> Scan {
    if start + 1 < src.len() && src[start + 1] == '=' {
        Scan { found: token_at(src, start, with_equal, Seq::empty()), end: start + 2 }
    } else {
        single(src, start, alone)
    }
}

/// The literal of kind `kind` that begins at `start` and was read as `span`.
pub open spec fn literal(src: Seq<char>, start: int, kind: TokenType, span: Span) -> Scan {
    Scan {
        found: match span.text {
            Ok(text) => token_at(src, start, kind, text),
            Err(fault) => error_at(src, start, fault),
        },
        end: span.end,
    }
}

/// The word that begins at `start`: the longest run of letters and
/// underscores. It is a reserved word, which carries no text, or else an
/// identifier. A digit does not continue a word.
pub open spec fn scan_word(src: Seq<char>, start: int) -> Scan {
    let end = letters_end(src, start);
    let word = word_token(src.subrange(start, end));
    Scan { found: token_at(src, start, word.kind, word.lexeme), end }
}

/// The lexeme that begins at `start`, a position that holds a character
/// other than whitespace.
pub open spec fn scan_lexeme(src: Seq<char>, start: int) -> Scan
    recommends
        0 <= start < src.len(),
{
    let c = src[start];
    if c == '(' {
        single(src, start, TokenType::LeftParen)
    } else if c == ')' {
        single(src, start, TokenType::RightParen)
    } else if c == '{' {
        single(src, start, TokenType::LeftBrace)
    } else if c == '}' {
        single(src, start, TokenType::RightBrace)
    } else if c == ',' {
        single(src, start, TokenType::Comma)
    } else if c == '-' {
        single(src, start, TokenType::Minus)
    } else if c == '+' {
        single(src, start, TokenType::Plus)
    } else if c == ';' {
        single(src, start, TokenType::Semicolon)
    } else if c == '*' {
        single(src, start, TokenType::Star)
    } else if c == '!' {
        operator(src, start, TokenType::Bang, TokenType::BangEqual)
    } else if c == '=' {
        operator(src, start, TokenType::Equal, TokenType::EqualEqual)
    } else if c == '<' {
        operator(src, start, TokenType::Less, TokenType::LessEqual)
    } else if c == '>' {
        operator(src, start, TokenType::Greater, TokenType::GreaterEqual)
    } else if c == '.' {
        if start + 1 < src.len() && is_digit_spec(src[start + 1]) {
            Scan {
                found: error_at(src, start, ScanErrorKind::LeadingDotBeforeDigit),
                end: digits_end(src, start + 1),
            }
        } else {
            single(src, start, TokenType::Dot)
        }
    } else if c == '/' {
        if start + 1 < src.len() && src[start + 1] == '/' {
            Scan { found: Lexeme::Comment, end: line_end(src, start + 2) }
        } else {
            single(src, start, TokenType::Slash)
        }
    } else if c == '"' {
        literal(src, start, TokenType::LString, scan_string(src, start + 1, Seq::empty(), None))
    } else if is_digit_spec(c) {
        literal(src, start, TokenType::Number, scan_number(src, start))
    } else if is_letter_spec(c) {
        scan_word(src, start)
    } else {
        Scan { found: token_at(src, start, TokenType::Illegal, seq![c]), end: start + 1 }
    }
}

/// One step of the scan from `pos`: whitespace is passed over, and then
/// comes the end-of-input token, where the source is used up, or the
/// lexeme that begins there.
pub open spec fn step(src: Seq<char>, pos: int) -> Scan {
    let start = skip_blank(src, pos);
    if 0 <= start < src.len() {
        scan_lexeme(src, start)
    } else {
        Scan { found: token_at(src, start, TokenType::Eof, Seq::empty()), end: start }
    }
}

/// A later position stands on the same line or on a later one.
pub proof fn lemma_newlines_monotonic(src: Seq<char>, from: int, to: int)
    requires
        0 <= from <= to <= src.len(),
    ensures
        newlines(src, from) <= newlines(src, to) <= newlines(src, from) + (to - from),
    decreases to - from,
{
    if from < to {
        lemma_newlines_monotonic(src, from, to - 1);
    }
}

/// `skip_blank` stays within the source and stops at the first character
/// that is no whitespace.
pub proof fn lemma_skip_blank(src: Seq<char>, pos: int)
    requires
        0 <= pos <= src.len(),
    ensures
        pos <= skip_blank(src, pos) <= src.len(),
        skip_blank(src, pos) < src.len() ==> !is_space_spec(src[skip_blank(src, pos)]),
        forall|i: int| pos <= i < skip_blank(src, pos) ==> is_space_spec(#[trigger] src[i]),
    decreases src.len() - pos,
{
    if pos < src.len() && is_space_spec(src[pos]) {
        lemma_skip_blank(src, pos + 1);
    }
}

/// `digits_end` stays within the source, passes over digits only and stops
/// at the first character that is none.
pub proof fn lemma_digits_end(src: Seq<char>, pos: int)
    requires
        0 <= pos <= src.len(),
    ensures
        pos <= digits_end(src, pos) <= src.len(),
        digits_end(src, pos) < src.len() ==> !is_digit_spec(src[digits_end(src, pos)]),
        forall|i: int| pos <= i < digits_end(src, pos) ==> is_digit_spec(#[trigger] src[i]),
        pos < src.len() && is_digit_spec(src[pos]) ==> pos < digits_end(src, pos),
    decreases src.len() - pos,
{
    if pos < src.len() && is_digit_spec(src[pos]) {
        lemma_digits_end(src, pos + 1);
    }
}

/// `letters_end` stays within the source, passes over letters and
/// underscores only and stops at the first character that is neither.
pub proof fn lemma_letters_end(src: Seq<char>, pos: int)
    requires
        0 <= pos <= src.len(),
    ensures
        pos <= letters_end(src, pos) <= src.len(),
        letters_end(src, pos) < src.len() ==> !is_letter_spec(src[letters_end(src, pos)]),
        forall|i: int| pos <= i < letters_end(src, pos) ==> is_letter_spec(#[trigger] src[i]),
        pos < src.len() && is_letter_spec(src[pos]) ==> pos < letters_end(src, pos),
    decreases src.len() - pos,
{
    if pos < src.len() && is_letter_spec(src[pos]) {
        lemma_letters_end(src, pos + 1);
    }
}

/// `line_end` stays within the source.
pub proof fn lemma_line_end(src: Seq<char>, pos: int)
    requires
        0 <= pos <= src.len(),
    ensures
        pos <= line_end(src, pos) <= src.len(),
    decreases src.len() - pos,
{
    if pos < src.len() && src[pos] != '\n' {
        lemma_line_end(src, pos + 1);
    }
}

/// A string literal ends at or after the position it is read from, within
/// the source.
pub proof fn lemma_scan_string_end(
    src: Seq<char>,
    pos: int,
    text: Seq<char>,
    fault: Option<ScanErrorKind>,
)
    requires
        0 <= pos <= src.len(),
    ensures
        pos <= scan_string(src, pos, text, fault).end <= src.len(),
    decreases src.len() - pos,
{
    if pos < src.len() && src[pos] != '"' && src[pos] != '\n' {
        if src[pos] == '\\' {
            if pos + 1 < src.len() && src[pos + 1] != '\n' {
                match unescape_spec(src[pos + 1]) {
                    Some(c) => lemma_scan_string_end(src, pos + 2, text.push(c), fault),
                    None => lemma_scan_string_end(
                        src,
                        pos + 2,
                        text,
                        Some(first_fault(fault, ScanErrorKind::InvalidEscape)),
                    ),
                }
            }
        } else {
            lemma_scan_string_end(src, pos + 1, text.push(src[pos]), fault);
        }
    }
}

/// Whether `kind` is a way for a string literal to be malformed.
pub open spec fn is_string_fault(kind: ScanErrorKind) -> bool {
    kind is UnterminatedString || kind is InvalidEscape
}

/// What is wrong with a string literal is a missing quote or a bad escape.
pub proof fn lemma_scan_string_fault(
    src: Seq<char>,
    pos: int,
    text: Seq<char>,
    fault: Option<ScanErrorKind>,
)
    requires
        0 <= pos <= src.len(),
        fault matches Some(kind) ==> is_string_fault(kind),
    ensures
        scan_string(src, pos, text, fault).text matches Err(kind) ==> is_string_fault(kind),
    decreases src.len() - pos,
{
    if pos < src.len() && src[pos] != '"' && src[pos] != '\n' {
        if src[pos] == '\\' {
            if pos + 1 < src.len() && src[pos + 1] != '\n' {
                match unescape_spec(src[pos + 1]) {
                    Some(c) => lemma_scan_string_fault(src, pos + 2, text.push(c), fault),
                    None => lemma_scan_string_fault(
                        src,
                        pos + 2,
                        text,
                        Some(first_fault(fault, ScanErrorKind::InvalidEscape)),
                    ),
                }
            }
        } else {
            lemma_scan_string_fault(src, pos + 1, text.push(src[pos]), fault);
        }
    }
}

/// A lexeme is at least one character long and ends within the source.
pub proof fn lemma_scan_lexeme_advances(src: Seq<char>, start: int)
    requires
        0 <= start < src.len(),
    ensures
        start < scan_lexeme(src, start).end <= src.len(),
{
    lemma_digits_end(src, start);
    lemma_digits_end(src, start + 1);
    lemma_letters_end(src, start);
    lemma_scan_string_end(src, start + 1, Seq::empty(), None);
    if start + 2 <= src.len() {
        lemma_line_end(src, start + 2);
    }
    let whole = digits_end(src, start);
    if whole + 1 <= src.len() {
        lemma_digits_end(src, whole + 1);
    }
}

/// A step ends at or after the position it begins at, within the source,
/// and it ends after it unless it finds the end of the input.
pub proof fn lemma_step_advances(src: Seq<char>, pos: int)
    requires
        0 <= pos <= src.len(),
    ensures
        pos <= step(src, pos).end <= src.len(),
        skip_blank(src, pos) < src.len() ==> pos < step(src, pos).end,
        skip_blank(src, pos) >= src.len() ==> step(src, pos).end == src.len(),
{
    lemma_skip_blank(src, pos);
    if skip_blank(src, pos) < src.len() {
        lemma_scan_lexeme_advances(src, skip_blank(src, pos));
    }
}

} // verus!
