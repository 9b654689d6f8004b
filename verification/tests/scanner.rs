use rlisp::scanner::Scanner;
use rlisp::scanner::StringScanner;
use rlisp::scanner::TokenKind;

fn scan_str(text: &str) -> Vec<TokenKind> {
    let mut scanner = StringScanner::new(text);
    let mut tokens: Vec<TokenKind> = Vec::new();
    loop {
        match scanner.next() {
            Ok(()) => {
                let token = scanner.get_token().unwrap();
                tokens.push(token.kind);
            }
            Err(_) => {
                break;
            }
        }
    }
    tokens
}

#[test]
fn test_scanner() {
    assert_eq!(scan_str("()"), vec![TokenKind::LeftParen, TokenKind::RightParen]);

    // skip white spaces

    assert_eq!(scan_str("  (  )  "), vec![TokenKind::LeftParen, TokenKind::RightParen]);

    assert_eq!(
        scan_str("(print \"hello world\")"),
        vec![
            TokenKind::LeftParen,
            TokenKind::Symbol,
            TokenKind::Str,
            TokenKind::RightParen,
        ]
    );

    assert_eq!(
        scan_str("(+ 1 1)"),
        vec![
            TokenKind::LeftParen,
            TokenKind::Add,
            TokenKind::Number,
            TokenKind::Number,
            TokenKind::RightParen
        ]
    );
}

#[test]
fn whitespace_only_input_reports_end_of_input() {
    for text in [" ", "   \t\n\r", "\t", "\n\r\n", "\0", ""] {
        let mut scanner = StringScanner::new(text);
        let err = scanner.next().unwrap_err();
        assert!(err.is_end_of_input());
        assert!(!err.is_error());
        assert!(scanner.get_token().is_none());
    }
}

#[test]
fn string_literal_lexeme_excludes_quotes() {
    let mut scanner = StringScanner::new("(print \"hello world\")");
    scanner.next().unwrap();
    scanner.next().unwrap();
    scanner.next().unwrap();
    let token = scanner.get_token().unwrap();
    assert_eq!(token.kind, TokenKind::Str);
    let expected: Vec<char> = "hello world".chars().collect();
    assert_eq!(token.lexeme, expected);
}

#[test]
fn unterminated_string_is_an_error() {
    let mut scanner = StringScanner::new("\"abc");
    let err = scanner.next().unwrap_err();
    assert!(err.is_error());
    assert!(!err.is_end_of_input());
}

#[test]
fn unrecognized_character_is_an_error() {
    let mut scanner = StringScanner::new("  @  ");
    let err = scanner.next().unwrap_err();
    assert!(err.is_error());
    assert!(!err.is_end_of_input());
    assert_eq!(err.message(), "unexpected character: @");
}

#[test]
fn number_lexeme_takes_digits_and_one_point() {
    let mut scanner = StringScanner::new("12.5x");
    scanner.next().unwrap();
    let token = scanner.get_token().unwrap();
    assert_eq!(token.kind, TokenKind::Number);
    let expected: Vec<char> = "12.5".chars().collect();
    assert_eq!(token.lexeme, expected);
}

#[test]
fn symbol_lexeme_takes_letters_and_digits() {
    let mut scanner = StringScanner::new("abc12 rest");
    scanner.next().unwrap();
    let token = scanner.get_token().unwrap();
    assert_eq!(token.kind, TokenKind::Symbol);
    let expected: Vec<char> = "abc12".chars().collect();
    assert_eq!(token.lexeme, expected);
}

#[test]
fn minus_before_digits_scans_as_two_tokens() {
    assert_eq!(scan_str("-5"), vec![TokenKind::Sub, TokenKind::Number]);
}
