//! Tokens and their kinds.

use vstd::prelude::*;

verus! {

/// The closed set of token kinds.
#[derive(Debug, Copy, Clone, PartialEq, Eq, Structural)]
pub enum TokenType {
    LeftParen,
    RightParen,
    LeftBrace,
    RightBrace,
    Comma,
    Dot,
    Minus,
    Plus,
    Semicolon,
    Slash,
    Star,
    Bang,
    BangEqual,
    Equal,
    EqualEqual,
    Greater,
    GreaterEqual,
    Less,
    LessEqual,
    Identifier,
    LString,
    Number,
    And,
    Class,
    Else,
    False,
    Fun,
    For,
    If,
    Nil,
    Or,
    Print,
    Return,
    Super,
    This,
    True,
    Var,
    While,
    Eof,
    Illegal,
}

impl TokenType {
    /// The kinds whose tokens carry text: identifiers, strings, numbers and
    /// illegal characters. Tokens of every other kind have an empty lexeme.
    pub open spec fn carries_text(self) -> bool {
        self is Identifier || self is LString || self is Number || self is Illegal
    }

    /// The reserved words of the language.
    pub open spec fn is_reserved_word(self) -> bool {
        self is And || self is Class || self is Else || self is False || self is Fun
            || self is For || self is If || self is Nil || self is Or || self is Print
            || self is Return || self is Super || self is This || self is True || self is Var
            || self is While
    }
}

/// What a token is, as a mathematical value.
pub struct TokenView {
    /// The token's kind.
    pub kind: TokenType,
    /// The number of newlines that precede the token in its source.
    pub line: nat,
    /// The text the token carries; empty unless its kind carries text.
    pub lexeme: Seq<char>,
    /// A decoded literal value; no token has one yet.
    pub literal: Option<Seq<char>>,
}

/// A classified, positioned unit of source text.
#[derive(Debug)]
pub struct Token {
    ttype: TokenType,
    line: u64,
    lexeme: String,
    literal: Option<String>,
}

impl View for Token {
    type V = TokenView;

    closed spec fn view(&self) -> TokenView {
        TokenView {
            kind: self.ttype,
            line: self.line as nat,
            lexeme: self.lexeme@,
            literal: match self.literal {
                Some(s) => Some(s@),
                None => None,
            },
        }
    }
}

impl Token {
    /// A token of kind `ttype` on line 0 that carries no text.
    pub fn new(ttype: TokenType) -> (t: Self)
        ensures
            t@ == (TokenView { kind: ttype, line: 0, lexeme: Seq::empty(), literal: None }),
    {
        Token { ttype, line: 0, lexeme: String::new(), literal: None }
    }

    /// A token of kind `ttype` on line 0 that carries the text `l`.
    pub fn with_lexeme(ttype: TokenType, l: String) -> (t: Self)
        ensures
            t@ == (TokenView { kind: ttype, line: 0, lexeme: l@, literal: None }),
    {
        Token { ttype, line: 0, lexeme: l, literal: None }
    }

    /// The same token, placed on `line`.
    pub fn at_line(self, line: u64) -> (t: Self)
        ensures
            t@ == (TokenView { line: line as nat, ..self@ }),
    {
        Token { ttype: self.ttype, line, lexeme: self.lexeme, literal: self.literal }
    }

    /// The token's kind.
    pub fn ttype(&self) -> (k: TokenType)
        ensures
            k == self@.kind,
    {
        self.ttype
    }

    /// The line the token stands on, counted from 0.
    pub fn line(&self) -> (n: u64)
        ensures
            n == self@.line,
    {
        self.line
    }

    /// The text the token carries.
    pub fn lexeme(&self) -> (s: &str)
        ensures
            s@ == self@.lexeme,
    {
        self.lexeme.as_str()
    }

    /// The token's decoded literal value, if it has one.
    pub fn literal(&self) -> (l: Option<&str>)
        ensures
            match l {
                Some(s) => self@.literal == Some(s@),
                None => self@.literal is None,
            },
    {
        match &self.literal {
            Some(s) => Some(s.as_str()),
            None => None,
        }
    }
}

} // verus!
