use loxi::scanner::{scan_all, ScanErrorKind, ScanStep, Scanner, Token, TokenType};

fn kinds(program: &str) -> Vec<TokenType> {
    let (tokens, _) = scan_all(program);
    tokens.iter().map(|t| t.ttype()).collect()
}

fn lexemes(program: &str) -> Vec<String> {
    let (tokens, _) = scan_all(program);
    tokens.iter().map(|t| t.lexeme().to_string()).collect()
}

fn lines(program: &str) -> Vec<u64> {
    let (tokens, _) = scan_all(program);
    tokens.iter().map(|t| t.line()).collect()
}

fn error_kinds(program: &str) -> Vec<(u64, ScanErrorKind)> {
    let (_, errors) = scan_all(program);
    errors.iter().map(|e| (e.line, e.kind)).collect()
}

#[test]
fn empty_source_is_one_eof() {
    assert_eq!(kinds(""), vec![TokenType::Eof]);
    assert_eq!(lines(""), vec![0]);
    assert_eq!(error_kinds(""), vec![]);
}

#[test]
fn blank_source_is_one_eof_on_the_last_line() {
    assert_eq!(kinds(" \t\r\n \n"), vec![TokenType::Eof]);
    assert_eq!(lines(" \t\r\n \n"), vec![2]);
}

#[test]
fn eof_comes_once_and_then_nothing() {
    let mut scanner = Scanner::new("+");
    assert_eq!(scanner.next().map(|t| t.ttype()), Some(TokenType::Plus));
    assert_eq!(scanner.next().map(|t| t.ttype()), Some(TokenType::Eof));
    assert!(scanner.next().is_none());
    assert!(scanner.next().is_none());
    assert!(matches!(scanner.scan_step(), ScanStep::End));
}

#[test]
fn every_stream_ends_with_its_only_eof() {
    for program in ["", "1 2 3", "\"open", "3.", ".5", "@", "// only\n", "a\nb\nc", "\"\\q\" x"] {
        let found = kinds(program);
        assert_eq!(found.last(), Some(&TokenType::Eof));
        assert_eq!(found.iter().filter(|k| **k == TokenType::Eof).count(), 1);
    }
}

#[test]
fn single_character_punctuation() {
    assert_eq!(
        kinds("(){},.-+;*/"),
        vec![
            TokenType::LeftParen,
            TokenType::RightParen,
            TokenType::LeftBrace,
            TokenType::RightBrace,
            TokenType::Comma,
            TokenType::Dot,
            TokenType::Minus,
            TokenType::Plus,
            TokenType::Semicolon,
            TokenType::Star,
            TokenType::Slash,
            TokenType::Eof,
        ]
    );
    assert!(lexemes("(){},.-+;*/").iter().all(|l| l.is_empty()));
}

#[test]
fn longer_operator_wins() {
    assert_eq!(kinds("!="), vec![TokenType::BangEqual, TokenType::Eof]);
    assert_eq!(kinds("!"), vec![TokenType::Bang, TokenType::Eof]);
    assert_eq!(kinds("=="), vec![TokenType::EqualEqual, TokenType::Eof]);
    assert_eq!(kinds("="), vec![TokenType::Equal, TokenType::Eof]);
    assert_eq!(kinds("<="), vec![TokenType::LessEqual, TokenType::Eof]);
    assert_eq!(kinds("<"), vec![TokenType::Less, TokenType::Eof]);
    assert_eq!(kinds(">="), vec![TokenType::GreaterEqual, TokenType::Eof]);
    assert_eq!(kinds(">"), vec![TokenType::Greater, TokenType::Eof]);
}

#[test]
fn lookahead_leaves_what_is_no_equal_sign() {
    assert_eq!(kinds("!a"), vec![TokenType::Bang, TokenType::Identifier, TokenType::Eof]);
    assert_eq!(kinds("<>"), vec![TokenType::Less, TokenType::Greater, TokenType::Eof]);
    assert_eq!(
        kinds("==="),
        vec![TokenType::EqualEqual, TokenType::Equal, TokenType::Eof]
    );
    assert_eq!(kinds("! ="), vec![TokenType::Bang, TokenType::Equal, TokenType::Eof]);
}

#[test]
fn second_line_is_one_greater() {
    let (tokens, errors) = scan_all("a\nb");
    assert!(errors.is_empty());
    assert_eq!(tokens.len(), 3);
    assert_eq!(tokens[0].ttype(), TokenType::Identifier);
    assert_eq!(tokens[0].lexeme(), "a");
    assert_eq!(tokens[0].line(), 0);
    assert_eq!(tokens[1].ttype(), TokenType::Identifier);
    assert_eq!(tokens[1].lexeme(), "b");
    assert_eq!(tokens[1].line(), tokens[0].line() + 1);
    assert_eq!(tokens[2].ttype(), TokenType::Eof);
    assert_eq!(tokens[2].line(), 1);
}

#[test]
fn scanner_line_follows_the_cursor() {
    let mut scanner = Scanner::new("a\n\nb");
    assert_eq!(scanner.line(), 0);
    scanner.next();
    assert_eq!(scanner.line(), 0);
    let b = scanner.next().unwrap();
    assert_eq!(b.line(), 2);
    assert_eq!(scanner.line(), 2);
}

#[test]
fn string_escapes_are_decoded() {
    let (tokens, errors) = scan_all("\"he said \\\"hi\\\"\"");
    assert!(errors.is_empty());
    assert_eq!(tokens.len(), 2);
    assert_eq!(tokens[0].ttype(), TokenType::LString);
    assert_eq!(tokens[0].lexeme(), "he said \"hi\"");
    assert_eq!(tokens[0].literal(), None);
    assert_eq!(tokens[1].ttype(), TokenType::Eof);
}

#[test]
fn every_escape_has_its_character() {
    assert_eq!(lexemes("\"a\\nb\\rc\\td\\\"e\\\\f\"")[0], "a\nb\rc\td\"e\\f");
    assert_eq!(lexemes("\"\"")[0], "");
    assert_eq!(kinds("\"\""), vec![TokenType::LString, TokenType::Eof]);
}

#[test]
fn comment_leaves_no_token() {
    assert_eq!(
        kinds("1 // comment\n2"),
        vec![TokenType::Number, TokenType::Number, TokenType::Eof]
    );
    assert_eq!(lexemes("1 // comment\n2"), vec!["1", "2", ""]);
    assert_eq!(lines("1 // comment\n2"), vec![0, 1, 1]);
    assert_eq!(error_kinds("1 // comment\n2"), vec![]);
}

#[test]
fn comment_may_end_the_source() {
    assert_eq!(kinds("// nothing else"), vec![TokenType::Eof]);
    assert_eq!(kinds("/ // x"), vec![TokenType::Slash, TokenType::Eof]);
}

#[test]
fn comment_is_its_own_step() {
    let mut scanner = Scanner::new("// c\n+");
    assert!(matches!(scanner.scan_step(), ScanStep::Comment));
    assert_eq!(scanner.line(), 1);
    match scanner.scan_step() {
        ScanStep::Token(t) => assert_eq!(t.ttype(), TokenType::Plus),
        other => panic!("{:?}", other),
    }
}

#[test]
fn trailing_dot_is_reported_and_the_scan_goes_on() {
    assert_eq!(kinds("3."), vec![TokenType::Eof]);
    assert_eq!(error_kinds("3."), vec![(0, ScanErrorKind::TrailingDot)]);
    assert_eq!(
        kinds("3. 4\n5"),
        vec![TokenType::Number, TokenType::Number, TokenType::Eof]
    );
    assert_eq!(lexemes("3. 4\n5"), vec!["4", "5", ""]);
    assert_eq!(error_kinds("3. 4\n5"), vec![(0, ScanErrorKind::TrailingDot)]);
    assert_eq!(kinds("3.x"), vec![TokenType::Identifier, TokenType::Eof]);
}

#[test]
fn trailing_dot_is_its_own_step() {
    let mut scanner = Scanner::new("\n3.");
    match scanner.scan_step() {
        ScanStep::Error(e) => {
            assert_eq!(e.line, 1);
            assert_eq!(e.kind, ScanErrorKind::TrailingDot);
            assert_eq!(e.message, "trailing dot when parsing number");
        }
        other => panic!("{:?}", other),
    }
    assert!(scanner.errors().is_empty());
}

#[test]
fn numbers_carry_their_text() {
    assert_eq!(lexemes("0 12 3.14 007"), vec!["0", "12", "3.14", "007", ""]);
    assert_eq!(
        kinds("3.14"),
        vec![TokenType::Number, TokenType::Eof]
    );
}

#[test]
fn number_leaves_its_terminator() {
    assert_eq!(
        kinds("12+3"),
        vec![TokenType::Number, TokenType::Plus, TokenType::Number, TokenType::Eof]
    );
    assert_eq!(
        kinds("12;"),
        vec![TokenType::Number, TokenType::Semicolon, TokenType::Eof]
    );
    assert_eq!(kinds("12abc"), vec![TokenType::Number, TokenType::Identifier, TokenType::Eof]);
    assert_eq!(lexemes("12abc"), vec!["12", "abc", ""]);
    assert_eq!(error_kinds("12abc"), vec![]);
}

#[test]
fn second_dot_begins_a_new_lexeme() {
    assert_eq!(kinds("1.2.3"), vec![TokenType::Number, TokenType::Eof]);
    assert_eq!(lexemes("1.2.3"), vec!["1.2", ""]);
    assert_eq!(error_kinds("1.2.3"), vec![(0, ScanErrorKind::LeadingDotBeforeDigit)]);
    assert_eq!(kinds("1.2.x"), vec![TokenType::Number, TokenType::Dot, TokenType::Identifier, TokenType::Eof]);
}

#[test]
fn leading_dot_is_reported_with_its_digits() {
    assert_eq!(kinds(".5"), vec![TokenType::Eof]);
    assert_eq!(error_kinds(".5"), vec![(0, ScanErrorKind::LeadingDotBeforeDigit)]);
    assert_eq!(kinds(".5 + 1"), vec![TokenType::Plus, TokenType::Number, TokenType::Eof]);
    assert_eq!(kinds(". 5"), vec![TokenType::Dot, TokenType::Number, TokenType::Eof]);
    assert_eq!(kinds("a.b"), vec![TokenType::Identifier, TokenType::Dot, TokenType::Identifier, TokenType::Eof]);
}

#[test]
fn reserved_word_is_no_identifier() {
    let (tokens, _) = scan_all("print");
    assert_eq!(tokens[0].ttype(), TokenType::Print);
    assert_eq!(tokens[0].lexeme(), "");
    let (tokens, _) = scan_all("printer");
    assert_eq!(tokens[0].ttype(), TokenType::Identifier);
    assert_eq!(tokens[0].lexeme(), "printer");
}

#[test]
fn every_reserved_word_has_its_kind() {
    assert_eq!(
        kinds("and class else false fun for if nil or print return super this true var while"),
        vec![
            TokenType::And,
            TokenType::Class,
            TokenType::Else,
            TokenType::False,
            TokenType::Fun,
            TokenType::For,
            TokenType::If,
            TokenType::Nil,
            TokenType::Or,
            TokenType::Print,
            TokenType::Return,
            TokenType::Super,
            TokenType::This,
            TokenType::True,
            TokenType::Var,
            TokenType::While,
            TokenType::Eof,
        ]
    );
}

#[test]
fn identifiers_are_letters_and_underscores() {
    assert_eq!(lexemes("_a_b Fun köln"), vec!["_a_b", "Fun", "köln", ""]);
    assert_eq!(
        kinds("_a_b Fun köln"),
        vec![TokenType::Identifier, TokenType::Identifier, TokenType::Identifier, TokenType::Eof]
    );
    assert_eq!(kinds("x1"), vec![TokenType::Identifier, TokenType::Number, TokenType::Eof]);
    assert_eq!(lexemes("x1"), vec!["x", "1", ""]);
}

#[test]
fn illegal_character_is_a_token_and_the_scan_goes_on() {
    let (tokens, errors) = scan_all("@ 1");
    assert_eq!(tokens.len(), 3);
    assert_eq!(tokens[0].ttype(), TokenType::Illegal);
    assert_eq!(tokens[0].lexeme(), "@");
    assert_eq!(tokens[1].ttype(), TokenType::Number);
    assert_eq!(tokens[1].lexeme(), "1");
    assert_eq!(tokens[2].ttype(), TokenType::Eof);
    assert_eq!(errors.len(), 1);
    assert_eq!(errors[0].kind, ScanErrorKind::IllegalCharacter);
    assert_eq!(errors[0].line, 0);
    assert_eq!(errors[0].message, "illegal character");
}

#[test]
fn unterminated_string_at_end_of_input() {
    assert_eq!(kinds("\"abc"), vec![TokenType::Eof]);
    assert_eq!(error_kinds("\"abc"), vec![(0, ScanErrorKind::UnterminatedString)]);
    assert_eq!(error_kinds("\"abc\\"), vec![(0, ScanErrorKind::UnterminatedString)]);
    assert_eq!(error_kinds("\""), vec![(0, ScanErrorKind::UnterminatedString)]);
}

#[test]
fn unterminated_string_at_end_of_line() {
    assert_eq!(kinds("\"abc\nx"), vec![TokenType::Identifier, TokenType::Eof]);
    assert_eq!(lines("\"abc\nx"), vec![1, 1]);
    assert_eq!(error_kinds("\"abc\nx"), vec![(0, ScanErrorKind::UnterminatedString)]);
    let (_, errors) = scan_all("\"abc\nx");
    assert_eq!(errors[0].message, "unterminated string");
}

#[test]
fn invalid_escape_spoils_the_whole_literal() {
    assert_eq!(kinds("\"a\\qb\" 1"), vec![TokenType::Number, TokenType::Eof]);
    assert_eq!(error_kinds("\"a\\qb\" 1"), vec![(0, ScanErrorKind::InvalidEscape)]);
    let (_, errors) = scan_all("\"a\\qb\" 1");
    assert_eq!(errors[0].message, "invalid escape sequence");
    assert_eq!(error_kinds("\"a\\q"), vec![(0, ScanErrorKind::InvalidEscape)]);
    assert_eq!(error_kinds("\"a\\\nb"), vec![(0, ScanErrorKind::InvalidEscape)]);
    assert_eq!(kinds("\"a\\\nb"), vec![TokenType::Identifier, TokenType::Eof]);
}

#[test]
fn diagnostics_come_in_source_order() {
    assert_eq!(
        error_kinds("3.\n@\n\"x\n.5"),
        vec![
            (0, ScanErrorKind::TrailingDot),
            (1, ScanErrorKind::IllegalCharacter),
            (2, ScanErrorKind::UnterminatedString),
            (3, ScanErrorKind::LeadingDotBeforeDigit),
        ]
    );
    assert_eq!(kinds("3.\n@\n\"x\n.5"), vec![TokenType::Illegal, TokenType::Eof]);
}

#[test]
fn next_records_what_it_skips() {
    let mut scanner = Scanner::new("3. .5 +");
    let plus = scanner.next().unwrap();
    assert_eq!(plus.ttype(), TokenType::Plus);
    assert_eq!(scanner.errors().len(), 2);
    assert_eq!(scanner.errors()[0].kind, ScanErrorKind::TrailingDot);
    assert_eq!(scanner.errors()[1].kind, ScanErrorKind::LeadingDotBeforeDigit);
}

#[test]
fn token_constructors() {
    let t = Token::new(TokenType::Comma);
    assert_eq!(t.ttype(), TokenType::Comma);
    assert_eq!(t.line(), 0);
    assert_eq!(t.lexeme(), "");
    assert_eq!(t.literal(), None);
    let t = Token::with_lexeme(TokenType::Identifier, "abc".to_string());
    assert_eq!(t.ttype(), TokenType::Identifier);
    assert_eq!(t.line(), 0);
    assert_eq!(t.lexeme(), "abc");
    assert_eq!(t.literal(), None);
    let t = t.at_line(7);
    assert_eq!(t.line(), 7);
    assert_eq!(t.lexeme(), "abc");
    assert_eq!(t.ttype(), TokenType::Identifier);
}

fn quoted(text: &str) -> String {
    let mut out = String::from("\"");
    for c in text.chars() {
        match c {
            '\n' => out.push_str("\\n"),
            '\r' => out.push_str("\\r"),
            '\t' => out.push_str("\\t"),
            '"' => out.push_str("\\\""),
            '\\' => out.push_str("\\\\"),
            c => out.push(c),
        }
    }
    out.push('"');
    out
}

#[test]
fn quoted_text_comes_back() {
    for text in [
        "",
        "plain",
        "he said \"hi\"",
        "a\nb",
        "tab\there",
        "back\\slash",
        "\r\n",
        "\\n",
        "ünï 京",
        "// no comment",
        "3. @ .5",
    ] {
        let (tokens, errors) = scan_all(&quoted(text));
        assert!(errors.is_empty(), "{:?}", text);
        assert_eq!(tokens.len(), 2, "{:?}", text);
        assert_eq!(tokens[0].ttype(), TokenType::LString);
        assert_eq!(tokens[0].lexeme(), text);
        assert_eq!(tokens[0].line(), 0);
        assert_eq!(tokens[1].ttype(), TokenType::Eof);
        assert_eq!(tokens[1].line(), 0);
    }
}

#[test]
fn one_word_is_one_token() {
    for (word, kind, lexeme) in [
        ("x", TokenType::Identifier, "x"),
        ("_", TokenType::Identifier, "_"),
        ("__init__", TokenType::Identifier, "__init__"),
        ("print", TokenType::Print, ""),
        ("printer", TokenType::Identifier, "printer"),
        ("while", TokenType::While, ""),
        ("While", TokenType::Identifier, "While"),
        ("nilly", TokenType::Identifier, "nilly"),
        ("orand", TokenType::Identifier, "orand"),
    ] {
        let (tokens, errors) = scan_all(word);
        assert!(errors.is_empty());
        assert_eq!(tokens.len(), 2);
        assert_eq!(tokens[0].ttype(), kind);
        assert_eq!(tokens[0].lexeme(), lexeme);
        assert_eq!(tokens[1].ttype(), TokenType::Eof);
    }
}

#[test]
fn text_only_where_the_kind_carries_it() {
    let (tokens, _) = scan_all("var x = \"s\" + 1.5; print(x) // c\n@ while {} != .");
    for token in &tokens {
        let carries = matches!(
            token.ttype(),
            TokenType::Identifier | TokenType::LString | TokenType::Number | TokenType::Illegal
        );
        assert_eq!(!token.lexeme().is_empty(), carries, "{:?}", token);
        assert_eq!(token.literal(), None);
    }
}

#[test]
fn lines_never_go_back() {
    let (tokens, errors) = scan_all("a\n\"x\n// c\nb 3.\n\n.5 c\n");
    let lines: Vec<u64> = tokens.iter().map(|t| t.line()).collect();
    assert_eq!(lines, vec![0, 3, 5, 6]);
    assert!(lines.windows(2).all(|w| w[0] <= w[1]));
    let lines: Vec<u64> = errors.iter().map(|e| e.line).collect();
    assert_eq!(lines, vec![1, 3, 5]);
}

#[test]
fn a_large_source_is_scanned() {
    let mut program = String::new();
    for i in 0..20000 {
        program.push_str("var x");
        program.push_str(" = ");
        program.push_str(&i.to_string());
        program.push_str("; // line\n");
    }
    let (tokens, errors) = scan_all(&program);
    assert!(errors.is_empty());
    assert_eq!(tokens.len(), 20000 * 5 + 1);
    assert_eq!(tokens.last().unwrap().line(), 20000);
}

#[test]
fn a_step_records_nothing() {
    let mut scanner = Scanner::new("@ 3.");
    match scanner.scan_step() {
        ScanStep::Token(t) => {
            assert_eq!(t.ttype(), TokenType::Illegal);
            assert_eq!(t.lexeme(), "@");
        }
        other => panic!("{:?}", other),
    }
    assert!(matches!(scanner.scan_step(), ScanStep::Error(_)));
    assert!(scanner.errors().is_empty());
    match scanner.scan_step() {
        ScanStep::Token(t) => assert_eq!(t.ttype(), TokenType::Eof),
        other => panic!("{:?}", other),
    }
    assert!(matches!(scanner.scan_step(), ScanStep::End));
    assert!(scanner.next().is_none());
    assert!(scanner.errors().is_empty());
}
