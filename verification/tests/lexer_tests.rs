use mutemaanpa_lib::lexer::{is_whitespace, LexError, Lexer, Token};

fn chars(s: &str) -> Vec<char> {
    s.chars().collect()
}

#[test]
fn script_test_lexer() {
    let script = r#"
            ; this is a comment
            "hello"
            "world"
        "#;
    let text = chars(script);
    let mut lexer = Lexer::new(&text);
    let tokens = lexer.parse_script().unwrap();
    assert_eq!(
        tokens,
        vec![
            Token::Comment(" this is a comment".to_string()),
            Token::TextLine("hello".to_string()),
            Token::TextLine("world".to_string()),
        ]
    );
}

#[test]
fn test_tokenize_literal_script() {
    let text = chars("; comment\n\"hello\"\n\"world\"\n");
    let mut lexer = Lexer::new(&text);
    let tokens = lexer.parse_script().unwrap();
    assert_eq!(
        tokens,
        vec![
            Token::Comment(" comment".to_string()),
            Token::TextLine("hello".to_string()),
            Token::TextLine("world".to_string()),
        ]
    );
}

#[test]
fn test_comment_stops_at_line_break() {
    let text = chars("; first\r\n; second");
    let mut lexer = Lexer::new(&text);
    assert_eq!(
        lexer.try_parse_token().unwrap(),
        Some(Token::Comment(" first".to_string()))
    );
    assert_eq!(
        lexer.try_parse_token().unwrap(),
        Some(Token::Comment(" second".to_string()))
    );
    assert_eq!(lexer.try_parse_token().unwrap(), None);
}

#[test]
fn test_empty_and_whitespace_only_scripts() {
    let empty = chars("");
    let mut lexer = Lexer::new(&empty);
    assert_eq!(lexer.try_parse_token().unwrap(), None);

    let blank = chars(" \t\r\n \u{3000}");
    let mut lexer = Lexer::new(&blank);
    assert_eq!(lexer.try_parse_token().unwrap(), None);
    assert_eq!(lexer.parse_script().unwrap(), Vec::<Token>::new());
}

#[test]
fn test_unexpected_character_error() {
    let text = chars("@");
    let mut lexer = Lexer::new(&text);
    assert_eq!(
        lexer.parse_script(),
        Err(LexError::UnexpectedChar {
            found: '@',
            offset: 0
        })
    );
}

#[test]
fn test_unexpected_character_offset_counts_consumed_text() {
    let text = chars("\"ok\" x");
    let mut lexer = Lexer::new(&text);
    assert_eq!(
        lexer.parse_script(),
        Err(LexError::UnexpectedChar {
            found: 'x',
            offset: 5
        })
    );
}

#[test]
fn test_unterminated_text_error() {
    let text = chars("  \"never closed");
    let mut lexer = Lexer::new(&text);
    assert_eq!(
        lexer.parse_script(),
        Err(LexError::UnterminatedText { offset: 2 })
    );
}

#[test]
fn test_parse_token_reads_from_the_head() {
    let text = chars("\"a\" ; b");
    let mut lexer = Lexer::new(&text);
    assert_eq!(
        lexer.parse_token(),
        Ok(Token::TextLine("a".to_string()))
    );
    // The head is now the blank before the comment: no whitespace skip.
    assert_eq!(
        lexer.parse_token(),
        Err(LexError::UnexpectedChar {
            found: ' ',
            offset: 3
        })
    );
}

#[test]
fn test_remaining_counts_unconsumed_characters() {
    let text = chars("\"ab\" ; tail");
    let mut lexer = Lexer::new(&text);
    assert_eq!(lexer.try_parse_token().unwrap(), Some(Token::TextLine("ab".to_string())));
    assert_eq!(lexer.remaining(), 7);
}

#[test]
fn test_is_whitespace() {
    assert!(is_whitespace(' '));
    assert!(is_whitespace('\t'));
    assert!(is_whitespace('\n'));
    assert!(is_whitespace('\r'));
    assert!(is_whitespace('\u{00A0}'));
    assert!(is_whitespace('\u{2028}'));
    assert!(is_whitespace('\u{3000}'));
    assert!(!is_whitespace('x'));
    assert!(!is_whitespace(';'));
    assert!(!is_whitespace('"'));
    assert!(!is_whitespace('\u{200B}'));
}
