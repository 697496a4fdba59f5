//! The table of reserved words.

use super::token::{Token, TokenType, TokenView};
use vstd::hash_map::StringHashMap;
use vstd::prelude::*;
use vstd::string::StringExecFns;

verus! {

/// The reserved words of the language, each with its token kind.
pub open spec fn keyword_map() -> Map<Seq<char>, TokenType> {
    Map::<Seq<char>, TokenType>::empty()
        .insert("and"@, TokenType::And)
        .insert("class"@, TokenType::Class)
        .insert("else"@, TokenType::Else)
        .insert("false"@, TokenType::False)
        .insert("fun"@, TokenType::Fun)
        .insert("for"@, TokenType::For)
        .insert("if"@, TokenType::If)
        .insert("nil"@, TokenType::Nil)
        .insert("or"@, TokenType::Or)
        .insert("print"@, TokenType::Print)
        .insert("return"@, TokenType::Return)
        .insert("super"@, TokenType::Super)
        .insert("this"@, TokenType::This)
        .insert("true"@, TokenType::True)
        .insert("var"@, TokenType::Var)
        .insert("while"@, TokenType::While)
}

/// The token kind that the word `text` is reserved for, if it is reserved.
pub open spec fn keyword_kind(text: Seq<char>) -> Option<TokenType> {
    if keyword_map().contains_key(text) {
        Some(keyword_map()[text])
    } else {
        None
    }
}

/// The token of the word `text`, on line 0: that of the reserved word it
/// is, which carries no text, or an identifier that carries the word.
pub open spec fn word_token(text: Seq<char>) -> TokenView {
    match keyword_kind(text) {
        Some(kind) => TokenView { kind, line: 0, lexeme: Seq::empty(), literal: None },
        None => TokenView { kind: TokenType::Identifier, line: 0, lexeme: text, literal: None },
    }
}

/// Every kind in the table is that of a reserved word.
pub proof fn lemma_keyword_kinds_are_reserved(text: Seq<char>)
    ensures
        keyword_kind(text) matches Some(kind) ==> kind.is_reserved_word(),
{
}

/// A read-only table from reserved words to their token kinds. It is built
/// once, by `new`, and only read afterwards.
pub struct KeywordTable {
    words: StringHashMap<TokenType>,
}

impl KeywordTable {
    /// The table holds the reserved words and nothing else.
    pub closed spec fn wf(&self) -> bool {
        self.words@ == keyword_map()
    }

    /// Builds the table.
    pub fn new() -> (table: Self)
        ensures
            table.wf(),
    {
        let mut words: StringHashMap<TokenType> = StringHashMap::new();
        words.insert(String::from_str("and"), TokenType::And);
        words.insert(String::from_str("class"), TokenType::Class);
        words.insert(String::from_str("else"), TokenType::Else);
        words.insert(String::from_str("false"), TokenType::False);
        words.insert(String::from_str("fun"), TokenType::Fun);
        words.insert(String::from_str("for"), TokenType::For);
        words.insert(String::from_str("if"), TokenType::If);
        words.insert(String::from_str("nil"), TokenType::Nil);
        words.insert(String::from_str("or"), TokenType::Or);
        words.insert(String::from_str("print"), TokenType::Print);
        words.insert(String::from_str("return"), TokenType::Return);
        words.insert(String::from_str("super"), TokenType::Super);
        words.insert(String::from_str("this"), TokenType::This);
        words.insert(String::from_str("true"), TokenType::True);
        words.insert(String::from_str("var"), TokenType::Var);
        words.insert(String::from_str("while"), TokenType::While);
        KeywordTable { words }
    }

    /// Looks `ident` up: the kind it is reserved for, or `None` for an
    /// ordinary identifier.
    pub fn lookup(&self, ident: &str) -> (kind: Option<TokenType>)
        requires
            self.wf(),
        ensures
            kind == keyword_kind(ident@),
    {
        match self.words.get(ident) {
            Some(kind) => Some(*kind),
            None => None,
        }
    }
}

/// The token of the word `ident`: reserved words come before identifiers.
pub fn lookup_ident(table: &KeywordTable, ident: &str) -> (token: Token)
    requires
        table.wf(),
    ensures
        token@ == word_token(ident@),
{
    match table.lookup(ident) {
        Some(kind) => Token::new(kind),
        None => Token::with_lexeme(TokenType::Identifier, ident.to_owned()),
    }
}

} // verus!
