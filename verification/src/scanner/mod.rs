//! The scanner, its tokens, its diagnostics and the grammar they follow.

pub mod chars;
pub mod error;
pub mod grammar;
pub mod keywords;
pub mod laws;
pub mod stream;
pub mod token;

pub use error::{ErrorView, ScanErrorKind, ScannerError};
pub use keywords::{lookup_ident, KeywordTable};
pub use token::{Token, TokenType, TokenView};

use chars::{is_digit, is_letter, is_space};
use grammar::{
    digits_end, lemma_digits_end, lemma_newlines_monotonic, lemma_skip_blank,
    lemma_step_advances, letters_end, line_end, newlines, scan_number, scan_string, skip_blank,
    step, unescape_spec, Lexeme,
};
use laws::lemma_stream_ends_with_one_eof;
use stream::{
    diagnostics, errors_from, lemma_pull_advances, lemma_scan_lexeme_token, pull, tokens,
    tokens_from,
};
use vstd::prelude::*;

verus! {

/// What a scanner is, as a mathematical value.
pub struct ScannerView {
    /// The source text.
    pub src: Seq<char>,
    /// The position of the next character to read.
    pub pos: int,
    /// Whether the end-of-input token has been handed out.
    pub eof_sent: bool,
    /// The diagnostics recorded so far, oldest first.
    pub errors: Seq<ErrorView>,
}

/// The diagnostics in `errors`, as mathematical values.
pub open spec fn error_views(errors: Seq<ScannerError>) -> Seq<ErrorView> {
    Seq::new(errors.len(), |i: int| errors[i]@)
}

/// The tokens in `tokens`, as mathematical values.
pub open spec fn token_views(tokens: Seq<Token>) -> Seq<TokenView> {
    Seq::new(tokens.len(), |i: int| tokens[i]@)
}

/// What one step of a scan found.
#[derive(Debug)]
pub enum ScanStep {
    /// A token.
    Token(Token),
    /// A comment, which leaves no token.
    Comment,
    /// A malformed lexeme, which was skipped.
    Error(ScannerError),
    /// Nothing: the end-of-input token was handed out before.
    End,
}

impl View for ScanStep {
    type V = Option<Lexeme>;

    open spec fn view(&self) -> Option<Lexeme> {
        match self {
            ScanStep::Token(token) => Some(Lexeme::Token(token@)),
            ScanStep::Comment => Some(Lexeme::Comment),
            ScanStep::Error(error) => Some(Lexeme::Error(error@)),
            ScanStep::End => None,
        }
    }
}

impl ScanStep {
    /// A diagnostic in a step carries the message of its kind.
    pub open spec fn wf(&self) -> bool {
        self matches ScanStep::Error(error) ==> error.wf()
    }
}

/// A scanner over one source text. It hands out the tokens of the source
/// one by one and keeps the diagnostics of what it had to skip.
pub struct Scanner {
    input: Vec<char>,
    pos: usize,
    line: u64,
    eof_sent: bool,
    keywords: KeywordTable,
    errors: Vec<ScannerError>,
}

impl View for Scanner {
    type V = ScannerView;

    closed spec fn view(&self) -> ScannerView {
        ScannerView {
            src: self.input@,
            pos: self.pos as int,
            eof_sent: self.eof_sent,
            errors: error_views(self.errors@),
        }
    }
}

impl Scanner {
    /// The scanner's invariant: the position lies within the source, the
    /// line counter is the number of newlines read, and the end-of-input
    /// token is handed out only at the end of the source.
    pub closed spec fn wf(&self) -> bool {
        &&& self.pos <= self.input.len()
        &&& self.line == newlines(self.input@, self.pos as int)
        &&& self.eof_sent ==> self.pos == self.input.len()
        &&& self.keywords.wf()
        &&& forall|i: int| 0 <= i < self.errors.len() ==> (#[trigger] self.errors[i]).wf()
    }

    /// The cursor of a scanner lies within its source, and at the end of it
    /// once the end-of-input token has been handed out.
    pub proof fn lemma_cursor_in_source(&self)
        requires
            self.wf(),
        ensures
            0 <= self@.pos <= self@.src.len(),
            self@.eof_sent ==> self@.pos == self@.src.len(),
    {
    }

    /// Everything but the cursor is as it is in `before`.
    spec fn rest_same(&self, before: &Self) -> bool {
        &&& self.input == before.input
        &&& self.eof_sent == before.eof_sent
        &&& self.keywords == before.keywords
        &&& self.errors == before.errors
    }

    /// A scanner at the beginning of `program`, with no diagnostics.
    pub fn new(program: &str) -> (scanner: Self)
        ensures
            scanner.wf(),
            scanner@ == (ScannerView {
                src: program@,
                pos: 0,
                eof_sent: false,
                errors: Seq::empty(),
            }),
    {
        let mut input: Vec<char> = Vec::new();
        for c in it: program.chars()
            invariant
                input@ == it.seq().take(it.index()),
        {
            input.push(c);
        }
        assert(input@ == program@);
        let scanner = Scanner {
            input,
            pos: 0,
            line: 0,
            eof_sent: false,
            keywords: KeywordTable::new(),
            errors: Vec::new(),
        };
        assert(scanner@.errors =~= Seq::empty());
        scanner
    }

    /// One step of the scan: passes over whitespace and reads one lexeme.
    ///
    /// The step yields a token, or says that it read a comment, or yields
    /// the diagnostic of a malformed lexeme that it skipped. Where the
    /// source is used up it yields the end-of-input token, once, and
    /// nothing ever after. An illegal character is a token of its own kind
    /// that carries the character. The step records nothing: what it
    /// yields is all there is of it.
    pub fn scan_step(&mut self) -> (found: ScanStep)
        requires
            old(self).wf(),
        ensures
            final(self).wf(),
            found.wf(),
            final(self)@.src == old(self)@.src,
            final(self)@.errors == old(self)@.errors,
            old(self)@.eof_sent ==> found is End && final(self)@ == old(self)@,
            !old(self)@.eof_sent ==> {
                let scan = step(old(self)@.src, old(self)@.pos);
                &&& found@ == Some(scan.found)
                &&& final(self)@.pos == scan.end
                &&& final(self)@.eof_sent == (scan.found matches Lexeme::Token(token)
                    && token.kind is Eof)
            },
    {
        if self.eof_sent {
            return ScanStep::End;
        }
        let ghost src = self.input@;
        proof {
            lemma_skip_blank(src, self.pos as int);
        }
        self.skip_whitespace();
        let ghost start = self.pos as int;
        let line = self.line;
        let c = match self.read_char() {
            Some(c) => c,
            None => {
                self.eof_sent = true;
                return Self::bare_token(TokenType::Eof, line);
            },
        };
        proof {
            lemma_scan_lexeme_token(src, start);
        }
        if c == '(' {
            Self::bare_token(TokenType::LeftParen, line)
        } else if c == ')' {
            Self::bare_token(TokenType::RightParen, line)
        } else if c == '{' {
            Self::bare_token(TokenType::LeftBrace, line)
        } else if c == '}' {
            Self::bare_token(TokenType::RightBrace, line)
        } else if c == ',' {
            Self::bare_token(TokenType::Comma, line)
        } else if c == '-' {
            Self::bare_token(TokenType::Minus, line)
        } else if c == '+' {
            Self::bare_token(TokenType::Plus, line)
        } else if c == ';' {
            Self::bare_token(TokenType::Semicolon, line)
        } else if c == '*' {
            Self::bare_token(TokenType::Star, line)
        } else if c == '!' {
            self.read_operator(TokenType::Bang, TokenType::BangEqual, line)
        } else if c == '=' {
            self.read_operator(TokenType::Equal, TokenType::EqualEqual, line)
        } else if c == '<' {
            self.read_operator(TokenType::Less, TokenType::LessEqual, line)
        } else if c == '>' {
            self.read_operator(TokenType::Greater, TokenType::GreaterEqual, line)
        } else if c == '.' {
            if self.pos < self.input.len() && is_digit(self.input[self.pos]) {
                let mut skipped = String::new();
                self.read_digits(&mut skipped);
                ScanStep::Error(ScannerError::new(line, ScanErrorKind::LeadingDotBeforeDigit))
            } else {
                Self::bare_token(TokenType::Dot, line)
            }
        } else if c == '/' {
            if self.pos < self.input.len() && self.input[self.pos] == '/' {
                self.read_char();
                self.skip_comment();
                ScanStep::Comment
            } else {
                Self::bare_token(TokenType::Slash, line)
            }
        } else if c == '"' {
            let string = self.read_string();
            Self::literal_step(TokenType::LString, string, line)
        } else if is_digit(c) {
            let number = self.read_number(c);
            Self::literal_step(TokenType::Number, number, line)
        } else if is_letter(c) {
            let ident = self.read_identifier(c);
            ScanStep::Token(lookup_ident(&self.keywords, ident.as_str()).at_line(line))
        } else {
            let mut text = String::new();
            text.push(c);
            assert(text@ =~= seq![c]);
            Self::text_token(TokenType::Illegal, text, line)
        }
    }

    /// The next token of the source, or `None` once the end-of-input token
    /// has been handed out.
    ///
    /// Comments are passed over. A malformed lexeme is skipped and its
    /// diagnostic recorded: it never ends the stream. An illegal character
    /// is handed out as a token and recorded as a diagnostic as well.
    pub fn next(&mut self) -> (token: Option<Token>)
        requires
            old(self).wf(),
        ensures
            final(self).wf(),
            final(self)@.src == old(self)@.src,
            old(self)@.eof_sent ==> token is None && final(self)@ == old(self)@,
            !old(self)@.eof_sent ==> {
                let p = pull(old(self)@.src, old(self)@.pos);
                &&& token matches Some(t) && t@ == p.token
                &&& final(self)@.pos == p.end
                &&& final(self)@.errors == old(self)@.errors + p.errors
                &&& final(self)@.eof_sent == (p.token.kind is Eof)
            },
    {
        if self.eof_sent {
            return None;
        }
        let ghost src = self.input@;
        let ghost first = self.pos as int;
        let ghost noted = self@.errors;
        let ghost mut seen: Seq<ErrorView> = Seq::empty();
        assert(self@.errors =~= noted + seen);
        loop
            invariant
                self.wf(),
                !self.eof_sent,
                !old(self).eof_sent,
                src == self.input@,
                src == old(self).input@,
                first == old(self).pos,
                noted == old(self)@.errors,
                self@.errors == noted + seen,
                pull(src, first).token == pull(src, self.pos as int).token,
                pull(src, first).end == pull(src, self.pos as int).end,
                pull(src, first).errors == seen + pull(src, self.pos as int).errors,
            decreases self.input.len() - self.pos,
        {
            let ghost here = self.pos as int;
            let ghost recorded = self.errors@;
            proof {
                lemma_step_advances(src, here);
                lemma_skip_blank(src, here);
                if skip_blank(src, here) < src.len() {
                    lemma_scan_lexeme_token(src, skip_blank(src, here));
                }
            }
            match self.scan_step() {
                ScanStep::Token(token) => {
                    if token.ttype() == TokenType::Illegal {
                        let note = ScannerError::new(
                            token.line(),
                            ScanErrorKind::IllegalCharacter,
                        );
                        self.errors.push(note);
                        assert(error_views(self.errors@) =~= error_views(recorded).push(note@));
                    }
                    return Some(token);
                },
                ScanStep::Comment => {},
                ScanStep::Error(error) => {
                    proof {
                        let ghost rest = pull(src, self.pos as int).errors;
                        assert(seen + (seq![error@] + rest) =~= seen.push(error@) + rest);
                        seen = seen.push(error@);
                    }
                    self.errors.push(error);
                    assert(error_views(self.errors@) =~= error_views(recorded).push(error@));
                    assert(self@.errors =~= noted + seen);
                },
                ScanStep::End => {
                    return None;
                },
            }
        }
    }

    /// The diagnostics recorded so far, oldest first.
    pub fn errors(&self) -> (errors: &Vec<ScannerError>)
        requires
            self.wf(),
        ensures
            error_views(errors@) == self@.errors,
            forall|i: int| 0 <= i < errors.len() ==> (#[trigger] errors[i]).wf(),
    {
        &self.errors
    }

    /// The line of the next character to read, counted from 0.
    pub fn line(&self) -> (line: u64)
        requires
            self.wf(),
        ensures
            line == newlines(self@.src, self@.pos),
    {
        self.line
    }

    /// Reads the character at the cursor, if there is one, and counts the
    /// line where it is a newline.
    fn read_char(&mut self) -> (c: Option<char>)
        requires
            old(self).wf(),
        ensures
            final(self).wf(),
            final(self).rest_same(old(self)),
            old(self).pos < old(self).input.len() ==> c == Some(
                old(self).input[old(self).pos as int],
            ) && final(self).pos == old(self).pos + 1,
            old(self).pos >= old(self).input.len() ==> c is None && final(self).pos == old(
                self,
            ).pos,
    {
        if self.pos < self.input.len() {
            let c = self.input[self.pos];
            proof {
                lemma_newlines_monotonic(self.input@, 0, self.pos as int);
            }
            if c == '\n' {
                self.line = self.line + 1;
            }
            self.pos = self.pos + 1;
            Some(c)
        } else {
            None
        }
    }

    /// Reads on to the first character that is no whitespace.
    fn skip_whitespace(&mut self)
        requires
            old(self).wf(),
        ensures
            final(self).wf(),
            final(self).rest_same(old(self)),
            final(self).pos == skip_blank(old(self).input@, old(self).pos as int),
    {
        while self.pos < self.input.len() && is_space(self.input[self.pos])
            invariant
                self.wf(),
                self.rest_same(old(self)),
                skip_blank(self.input@, self.pos as int) == skip_blank(
                    old(self).input@,
                    old(self).pos as int,
                ),
            decreases self.input.len() - self.pos,
        {
            self.read_char();
        }
    }

    /// The operator whose first character was just read: `with_equal`
    /// where `=` follows, which is then read too, and `alone` otherwise.
    fn read_operator(&mut self, alone: TokenType, with_equal: TokenType, line: u64) -> (found:
        ScanStep)
        requires
            old(self).wf(),
            old(self).pos >= 1,
            line == newlines(old(self).input@, old(self).pos - 1),
        ensures
            final(self).wf(),
            final(self).rest_same(old(self)),
            found.wf(),
            found@ == Some(
                grammar::operator(old(self).input@, old(self).pos - 1, alone, with_equal).found,
            ),
            final(self).pos == grammar::operator(
                old(self).input@,
                old(self).pos - 1,
                alone,
                with_equal,
            ).end,
    {
        if self.pos < self.input.len() && self.input[self.pos] == '=' {
            self.read_char();
            Self::bare_token(with_equal, line)
        } else {
            Self::bare_token(alone, line)
        }
    }

    /// Reads the digits at the cursor and appends them to `text`.
    fn read_digits(&mut self, text: &mut String)
        requires
            old(self).wf(),
        ensures
            final(self).wf(),
            final(self).rest_same(old(self)),
            final(self).pos == digits_end(old(self).input@, old(self).pos as int),
            final(text)@ == old(text)@ + old(self).input@.subrange(
                old(self).pos as int,
                final(self).pos as int,
            ),
    {
        let ghost src = self.input@;
        let ghost start = self.pos as int;
        let ghost before = text@;
        assert(text@ =~= before + src.subrange(start, start));
        while self.pos < self.input.len() && is_digit(self.input[self.pos])
            invariant
                self.wf(),
                self.rest_same(old(self)),
                src == self.input@,
                start == old(self).pos,
                0 <= start <= self.pos <= src.len(),
                digits_end(src, self.pos as int) == digits_end(src, start),
                text@ == before + src.subrange(start, self.pos as int),
            decreases self.input.len() - self.pos,
        {
            let c = self.input[self.pos];
            self.read_char();
            text.push(c);
            assert(text@ =~= before + src.subrange(start, self.pos as int));
        }
    }

    /// Reads the number literal whose first digit, `first`, was just read.
    fn read_number(&mut self, first: char) -> (number: Result<String, ScanErrorKind>)
        requires
            old(self).wf(),
            old(self).pos >= 1,
            old(self).input[old(self).pos - 1] == first,
            is_digit(first),
        ensures
            final(self).wf(),
            final(self).rest_same(old(self)),
            final(self).pos == scan_number(old(self).input@, old(self).pos - 1).end,
            text_of(number) == scan_number(old(self).input@, old(self).pos - 1).text,
    {
        let ghost src = self.input@;
        let ghost start = self.pos - 1;
        let mut number = String::new();
        number.push(first);
        assert(number@ =~= src.subrange(start, start + 1));
        self.read_digits(&mut number);
        let ghost whole = self.pos as int;
        proof {
            lemma_digits_end(src, start + 1);
            assert(number@ =~= src.subrange(start, whole));
        }
        if self.pos < self.input.len() && self.input[self.pos] == '.' {
            self.read_char();
            if self.pos < self.input.len() && is_digit(self.input[self.pos]) {
                number.push('.');
                assert(number@ =~= src.subrange(start, whole + 1));
                self.read_digits(&mut number);
                proof {
                    lemma_digits_end(src, whole + 1);
                    assert(number@ =~= src.subrange(start, self.pos as int));
                }
                Ok(number)
            } else {
                Err(ScanErrorKind::TrailingDot)
            }
        } else {
            Ok(number)
        }
    }

    /// Reads the string literal whose opening quote was just read, to its
    /// end, and decodes its escapes.
    fn read_string(&mut self) -> (string: Result<String, ScanErrorKind>)
        requires
            old(self).wf(),
        ensures
            final(self).wf(),
            final(self).rest_same(old(self)),
            final(self).pos == scan_string(
                old(self).input@,
                old(self).pos as int,
                Seq::empty(),
                None,
            ).end,
            text_of(string) == scan_string(
                old(self).input@,
                old(self).pos as int,
                Seq::empty(),
                None,
            ).text,
    {
        let ghost src = self.input@;
        let ghost whole = scan_string(src, self.pos as int, Seq::empty(), None);
        let mut out = String::new();
        let mut fault: Option<ScanErrorKind> = None;
        loop
            invariant
                self.wf(),
                self.rest_same(old(self)),
                src == self.input@,
                whole == scan_string(src, old(self).pos as int, Seq::empty(), None),
                scan_string(src, self.pos as int, out@, fault) == whole,
            decreases self.input.len() - self.pos,
        {
            let c = match self.read_char() {
                Some(c) => c,
                None => {
                    return Err(first_fault(fault, ScanErrorKind::UnterminatedString));
                },
            };
            if c == '"' {
                return match fault {
                    Some(earlier) => Err(earlier),
                    None => Ok(out),
                };
            } else if c == '\n' {
                return Err(first_fault(fault, ScanErrorKind::UnterminatedString));
            } else if c == '\\' {
                let escaped = match self.read_char() {
                    Some(escaped) => escaped,
                    None => {
                        return Err(first_fault(fault, ScanErrorKind::UnterminatedString));
                    },
                };
                if escaped == '\n' {
                    return Err(first_fault(fault, ScanErrorKind::InvalidEscape));
                }
                match unescape(escaped) {
                    Some(decoded) => {
                        out.push(decoded);
                    },
                    None => {
                        fault = Some(first_fault(fault, ScanErrorKind::InvalidEscape));
                    },
                }
            } else {
                out.push(c);
            }
        }
    }

    /// Reads the word whose first character, `first`, was just read.
    fn read_identifier(&mut self, first: char) -> (ident: String)
        requires
            old(self).wf(),
            old(self).pos >= 1,
            old(self).input[old(self).pos - 1] == first,
            is_letter(first),
        ensures
            final(self).wf(),
            final(self).rest_same(old(self)),
            final(self).pos == letters_end(old(self).input@, old(self).pos - 1),
            ident@ == old(self).input@.subrange(old(self).pos - 1, final(self).pos as int),
    {
        let ghost src = self.input@;
        let ghost start = self.pos - 1;
        let mut ident = String::new();
        ident.push(first);
        assert(ident@ =~= src.subrange(start, start + 1));
        while self.pos < self.input.len() && is_letter(self.input[self.pos])
            invariant
                self.wf(),
                self.rest_same(old(self)),
                src == self.input@,
                start == old(self).pos - 1,
                0 <= start < self.pos <= src.len(),
                letters_end(src, self.pos as int) == letters_end(src, start),
                ident@ == src.subrange(start, self.pos as int),
            decreases self.input.len() - self.pos,
        {
            let c = self.input[self.pos];
            self.read_char();
            ident.push(c);
            assert(ident@ =~= src.subrange(start, self.pos as int));
        }
        ident
    }

    /// Reads to the end of the line, the newline included.
    fn skip_comment(&mut self)
        requires
            old(self).wf(),
        ensures
            final(self).wf(),
            final(self).rest_same(old(self)),
            final(self).pos == line_end(old(self).input@, old(self).pos as int),
    {
        let ghost src = self.input@;
        let ghost end = line_end(src, self.pos as int);
        loop
            invariant
                self.wf(),
                self.rest_same(old(self)),
                src == self.input@,
                end == line_end(src, old(self).pos as int),
                line_end(src, self.pos as int) == end,
            decreases self.input.len() - self.pos,
        {
            match self.read_char() {
                Some(c) => {
                    if c == '\n' {
                        return ;
                    }
                },
                None => {
                    return ;
                },
            }
        }
    }

    /// The token of kind `kind` on `line` that carries no text, as a step.
    fn bare_token(kind: TokenType, line: u64) -> (found: ScanStep)
        ensures
            found@ == Some(
                Lexeme::Token(
                    TokenView { kind, line: line as nat, lexeme: Seq::empty(), literal: None },
                ),
            ),
            found.wf(),
    {
        ScanStep::Token(Token::new(kind).at_line(line))
    }

    /// The token of kind `kind` on `line` that carries `text`, as a step.
    fn text_token(kind: TokenType, text: String, line: u64) -> (found: ScanStep)
        ensures
            found@ == Some(
                Lexeme::Token(
                    TokenView { kind, line: line as nat, lexeme: text@, literal: None },
                ),
            ),
            found.wf(),
    {
        ScanStep::Token(Token::with_lexeme(kind, text).at_line(line))
    }

    /// The literal of kind `kind` on `line` that was read as `text`, as a
    /// step: a token, or the diagnostic of what is wrong with it.
    fn literal_step(kind: TokenType, text: Result<String, ScanErrorKind>, line: u64) -> (found:
        ScanStep)
        ensures
            found@ == Some(
                match text_of(text) {
                    Ok(lexeme) => Lexeme::Token(
                        TokenView { kind, line: line as nat, lexeme, literal: None },
                    ),
                    Err(fault) => Lexeme::Error(ErrorView { line: line as nat, kind: fault }),
                },
            ),
            found.wf(),
    {
        match text {
            Ok(lexeme) => Self::text_token(kind, lexeme, line),
            Err(fault) => ScanStep::Error(ScannerError::new(line, fault)),
        }
    }
}

/// The text of a literal as a sequence of characters, or what is wrong
/// with the literal.
pub open spec fn text_of(text: Result<String, ScanErrorKind>) -> Result<Seq<char>, ScanErrorKind> {
    match text {
        Ok(s) => Ok(s@),
        Err(kind) => Err(kind),
    }
}

/// The fault noted so far, or `kind` where there is none.
fn first_fault(fault: Option<ScanErrorKind>, kind: ScanErrorKind) -> (first: ScanErrorKind)
    ensures
        first == grammar::first_fault(fault, kind),
{
    match fault {
        Some(earlier) => earlier,
        None => kind,
    }
}

/// The character that a backslash and `c` stand for in a string, if the
/// pair is an escape.
fn unescape(c: char) -> (decoded: Option<char>)
    ensures
        decoded == unescape_spec(c),
{
    if c == 'n' {
        Some('\n')
    } else if c == 'r' {
        Some('\r')
    } else if c == 't' {
        Some('\t')
    } else if c == '"' {
        Some('"')
    } else if c == '\\' {
        Some('\\')
    } else {
        None
    }
}

/// Scans the whole of `program`: its token stream, which the end-of-input
/// token closes, and its diagnostics in source order.
pub fn scan_all(program: &str) -> (scanned: (Vec<Token>, Vec<ScannerError>))
    ensures
        token_views(scanned.0@) == tokens(program@),
        error_views(scanned.1@) == diagnostics(program@),
        forall|i: int| 0 <= i < scanned.1.len() ==> (#[trigger] scanned.1[i]).wf(),
        scanned.0.len() >= 1,
        scanned.0[scanned.0.len() - 1]@.kind is Eof,
        forall|i: int| 0 <= i < scanned.0.len() - 1 ==> !((#[trigger] scanned.0[i])@.kind is Eof),
{
    proof {
        lemma_stream_ends_with_one_eof(program@);
    }
    let mut scanner = Scanner::new(program);
    let mut out: Vec<Token> = Vec::new();
    let ghost src = program@;
    assert(token_views(out@) + tokens_from(src, 0) =~= tokens(src));
    assert(scanner@.errors + errors_from(src, 0) =~= diagnostics(src));
    loop
        invariant
            scanner.wf(),
            src == program@,
            scanner@.src == src,
            0 <= scanner@.pos <= src.len(),
            !scanner@.eof_sent ==> token_views(out@) + tokens_from(src, scanner@.pos) == tokens(
                src,
            ),
            !scanner@.eof_sent ==> scanner@.errors + errors_from(src, scanner@.pos)
                == diagnostics(src),
            scanner@.eof_sent ==> token_views(out@) == tokens(src),
            scanner@.eof_sent ==> scanner@.errors == diagnostics(src),
        ensures
            scanner@.eof_sent,
        decreases src.len() - scanner@.pos + (if scanner@.eof_sent { 0int } else { 1int }),
    {
        let ghost here = scanner@.pos;
        let ghost before = out@;
        let ghost noted = scanner@.errors;
        proof {
            lemma_pull_advances(src, here);
        }
        match scanner.next() {
            Some(token) => {
                out.push(token);
                proof {
                    let p = pull(src, here);
                    if p.token.kind is Eof {
                        assert(token_views(before) + seq![p.token] =~= token_views(out@));
                    } else {
                        assert(token_views(before) + (seq![p.token] + tokens_from(src, p.end))
                            =~= token_views(out@) + tokens_from(src, p.end));
                        assert(noted + (p.errors + errors_from(src, p.end)) =~= (noted
                            + p.errors) + errors_from(src, p.end));
                    }
                }
            },
            None => {
                break ;
            },
        }
    }
    proof {
        let views = token_views(out@);
        assert(views.len() == out.len());
        assert(views.last() == out[out.len() - 1]@);
        assert forall|i: int| 0 <= i < out.len() - 1 implies !((#[trigger] out[i])@.kind is Eof) by {
            assert(views[i] == out[i]@);
        }
    }
    (out, scanner.errors)
}

} // verus!
