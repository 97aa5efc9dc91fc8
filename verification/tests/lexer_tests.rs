use nenc::error::SyntaxError;
use nenc::lexer::{Keyword, Lexer, TokenKind};

fn kinds_of(source: &str) -> Vec<TokenKind> {
    let mut lexer = Lexer::new(source);
    let mut kinds: Vec<TokenKind> = Vec::new();
    loop {
        match lexer.next_token() {
            Ok(Some(token)) => kinds.push(token.kind),
            Ok(None) => return kinds,
            Err(e) => panic!("unexpected scan fault: {:?}", e),
        }
    }
}

#[test]
fn scans_a_small_definition() {
    let kinds = kinds_of("func main() { print(\"hi\"); }");
    assert_eq!(kinds.len(), 11);
    assert!(matches!(kinds[0], TokenKind::Keyword(Keyword::Func)));
    match &kinds[1] {
        TokenKind::Identifier(name) => assert_eq!(name, "main"),
        other => panic!("expected identifier, got {:?}", other),
    }
    assert!(matches!(kinds[2], TokenKind::OpenParen));
    assert!(matches!(kinds[3], TokenKind::CloseParen));
    assert!(matches!(kinds[4], TokenKind::OpenCurly));
    match &kinds[5] {
        TokenKind::Identifier(name) => assert_eq!(name, "print"),
        other => panic!("expected identifier, got {:?}", other),
    }
    assert!(matches!(kinds[6], TokenKind::OpenParen));
    match &kinds[7] {
        TokenKind::StringLiteral(text) => assert_eq!(text, "hi"),
        other => panic!("expected string literal, got {:?}", other),
    }
    assert!(matches!(kinds[8], TokenKind::CloseParen));
    assert!(matches!(kinds[9], TokenKind::Semicolon));
    assert!(matches!(kinds[10], TokenKind::CloseCurly));
}

#[test]
fn impure_is_a_keyword_and_identifiers_may_hold_digits() {
    let kinds = kinds_of("impure f_1");
    assert!(matches!(kinds[0], TokenKind::Keyword(Keyword::Impure)));
    match &kinds[1] {
        TokenKind::Identifier(name) => assert_eq!(name, "f_1"),
        other => panic!("expected identifier, got {:?}", other),
    }
}

#[test]
fn single_quoted_strings_are_accepted() {
    let kinds = kinds_of("'abc'");
    match &kinds[0] {
        TokenKind::StringLiteral(text) => assert_eq!(text, "abc"),
        other => panic!("expected string literal, got {:?}", other),
    }
}

#[test]
fn unterminated_string_reads_to_the_end() {
    let kinds = kinds_of("\"abc");
    assert_eq!(kinds.len(), 1);
    match &kinds[0] {
        TokenKind::StringLiteral(text) => assert_eq!(text, "abc"),
        other => panic!("expected string literal, got {:?}", other),
    }
}

#[test]
fn commas_and_semicolons_are_tokens() {
    let kinds = kinds_of(",;");
    assert!(matches!(kinds[0], TokenKind::Comma));
    assert!(matches!(kinds[1], TokenKind::Semicolon));
}

#[test]
fn peeking_does_not_advance() {
    let mut lexer = Lexer::new("a b");
    let first = lexer.peek_token().unwrap().unwrap();
    match first.kind {
        TokenKind::Identifier(name) => assert_eq!(name, "a"),
        other => panic!("expected identifier, got {:?}", other),
    }
    let second = lexer.peek_second_token().unwrap().unwrap();
    match second.kind {
        TokenKind::Identifier(name) => assert_eq!(name, "b"),
        other => panic!("expected identifier, got {:?}", other),
    }
    let next = lexer.next_token().unwrap().unwrap();
    match next.kind {
        TokenKind::Identifier(name) => assert_eq!(name, "a"),
        other => panic!("expected identifier, got {:?}", other),
    }
}

#[test]
fn positions_count_lines_and_columns_from_zero() {
    let mut lexer = Lexer::new("a\n  b");
    let first = lexer.next_token().unwrap().unwrap();
    assert_eq!(first.line, 0);
    assert_eq!(first.column, 0);
    let second = lexer.next_token().unwrap().unwrap();
    assert_eq!(second.line, 1);
    assert_eq!(second.column, 2);
}

#[test]
fn unknown_start_of_token_is_a_fault() {
    let mut lexer = Lexer::new("  #");
    match lexer.next_token() {
        Err(SyntaxError::UnknownStartOfToken(location, c)) => {
            assert_eq!(c, '#');
            assert_eq!(location.line, 0);
            assert_eq!(location.column, 2);
        },
        other => panic!("expected unknown-start fault, got {:?}", other),
    }
}
