//! Diagnostics: what the scanner reports of a lexeme it had to skip.

use vstd::prelude::*;
use vstd::string::StringExecFns;

verus! {

/// The kinds of lexical error. None of them ends the scan.
#[derive(Debug, Copy, Clone, PartialEq, Eq, Structural)]
pub enum ScanErrorKind {
    /// No closing quote before the end of the line or of the input.
    UnterminatedString,
    /// A backslash in a string, followed by a character that is no escape.
    InvalidEscape,
    /// A number's dot that no digit follows.
    TrailingDot,
    /// A dot that a digit follows, where no number was begun.
    LeadingDotBeforeDigit,
    /// A character that begins no lexeme.
    IllegalCharacter,
}

impl ScanErrorKind {
    /// The description that goes with each kind of error.
    pub open spec fn text(self) -> Seq<char> {
        match self {
            ScanErrorKind::UnterminatedString => "unterminated string"@,
            ScanErrorKind::InvalidEscape => "invalid escape sequence"@,
            ScanErrorKind::TrailingDot => "trailing dot when parsing number"@,
            ScanErrorKind::LeadingDotBeforeDigit => "leading dot before digit when parsing number"@,
            ScanErrorKind::IllegalCharacter => "illegal character"@,
        }
    }

    /// The description of this kind of error.
    pub fn message(self) -> (s: String)
        ensures
            s@ == self.text(),
    {
        match self {
            ScanErrorKind::UnterminatedString => String::from_str("unterminated string"),
            ScanErrorKind::InvalidEscape => String::from_str("invalid escape sequence"),
            ScanErrorKind::TrailingDot => String::from_str("trailing dot when parsing number"),
            ScanErrorKind::LeadingDotBeforeDigit => String::from_str(
                "leading dot before digit when parsing number",
            ),
            ScanErrorKind::IllegalCharacter => String::from_str("illegal character"),
        }
    }
}

/// What a diagnostic says, as a mathematical value.
pub struct ErrorView {
    /// The number of newlines that precede the offending lexeme.
    pub line: nat,
    /// What was wrong with it.
    pub kind: ScanErrorKind,
}

/// A recoverable diagnostic of the scanner.
#[derive(Debug)]
pub struct ScannerError {
    /// The line of the offending lexeme, counted from 0.
    pub line: u64,
    /// What was wrong with it.
    pub kind: ScanErrorKind,
    /// The description of `kind`.
    pub message: String,
}

impl View for ScannerError {
    type V = ErrorView;

    open spec fn view(&self) -> ErrorView {
        ErrorView { line: self.line as nat, kind: self.kind }
    }
}

impl ScannerError {
    /// The message is the description of the kind.
    pub open spec fn wf(&self) -> bool {
        self.message@ == self.kind.text()
    }

    /// The diagnostic of an error of kind `kind` on line `line`.
    pub fn new(line: u64, kind: ScanErrorKind) -> (e: Self)
        ensures
            e.wf(),
            e@ == (ErrorView { line: line as nat, kind }),
    {
        ScannerError { line, kind, message: kind.message() }
    }
}

} // verus!
