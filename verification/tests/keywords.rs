use loxi::scanner::chars::{is_digit, is_letter, is_space};
use loxi::scanner::{lookup_ident, KeywordTable, TokenType};

#[test]
fn table_knows_the_reserved_words() {
    let table = KeywordTable::new();
    assert_eq!(table.lookup("and"), Some(TokenType::And));
    assert_eq!(table.lookup("class"), Some(TokenType::Class));
    assert_eq!(table.lookup("else"), Some(TokenType::Else));
    assert_eq!(table.lookup("false"), Some(TokenType::False));
    assert_eq!(table.lookup("fun"), Some(TokenType::Fun));
    assert_eq!(table.lookup("for"), Some(TokenType::For));
    assert_eq!(table.lookup("if"), Some(TokenType::If));
    assert_eq!(table.lookup("nil"), Some(TokenType::Nil));
    assert_eq!(table.lookup("or"), Some(TokenType::Or));
    assert_eq!(table.lookup("print"), Some(TokenType::Print));
    assert_eq!(table.lookup("return"), Some(TokenType::Return));
    assert_eq!(table.lookup("super"), Some(TokenType::Super));
    assert_eq!(table.lookup("this"), Some(TokenType::This));
    assert_eq!(table.lookup("true"), Some(TokenType::True));
    assert_eq!(table.lookup("var"), Some(TokenType::Var));
    assert_eq!(table.lookup("while"), Some(TokenType::While));
}

#[test]
fn table_knows_nothing_else() {
    let table = KeywordTable::new();
    assert_eq!(table.lookup(""), None);
    assert_eq!(table.lookup("printer"), None);
    assert_eq!(table.lookup("Print"), None);
    assert_eq!(table.lookup("prin"), None);
    assert_eq!(table.lookup("eof"), None);
}

#[test]
fn letters_are_alphabetic_or_underscore() {
    assert!(is_letter('a'));
    assert!(is_letter('z'));
    assert!(is_letter('A'));
    assert!(is_letter('Z'));
    assert!(is_letter('_'));
    assert!(is_letter('ö'));
    assert!(is_letter('京'));
    assert!(!is_letter('0'));
    assert!(!is_letter('9'));
    assert!(!is_letter(' '));
    assert!(!is_letter('\n'));
    assert!(!is_letter('@'));
    assert!(!is_letter('['));
    assert!(!is_letter('`'));
    assert!(!is_letter('{'));
    assert!(!is_letter('💝'));
    assert!(!is_letter('\u{7f}'));
    assert!(!is_letter('×'));
}

#[test]
fn letters_agree_with_the_standard_library() {
    for code in 0u32..0x3000 {
        if let Some(c) = char::from_u32(code) {
            assert_eq!(is_letter(c), c.is_alphabetic() || c == '_', "{:?}", c);
        }
    }
}

#[test]
fn digits_are_the_ten_ascii_digits() {
    for c in '0'..='9' {
        assert!(is_digit(c));
    }
    assert!(!is_digit('/'));
    assert!(!is_digit(':'));
    assert!(!is_digit('a'));
    assert!(!is_digit('٣'));
}

#[test]
fn whitespace_is_four_characters() {
    assert!(is_space(' '));
    assert!(is_space('\t'));
    assert!(is_space('\r'));
    assert!(is_space('\n'));
    assert!(!is_space('a'));
    assert!(!is_space('\u{a0}'));
    assert!(!is_space('\u{b}'));
}

#[test]
fn lookup_ident_puts_reserved_words_first() {
    let table = KeywordTable::new();
    let token = lookup_ident(&table, "print");
    assert_eq!(token.ttype(), TokenType::Print);
    assert_eq!(token.lexeme(), "");
    assert_eq!(token.line(), 0);
    let token = lookup_ident(&table, "printer");
    assert_eq!(token.ttype(), TokenType::Identifier);
    assert_eq!(token.lexeme(), "printer");
    assert_eq!(token.line(), 0);
    assert_eq!(token.literal(), None);
}
