use aqavm::lexer::tokenize;
use aqavm::tokens::{LexError, LexErrorKind, Token};

fn name(s: &str) -> Token {
    Token::Name(s.to_string())
}

#[test]
fn output_statement_scenario() {
    let r = tokenize("OUTPUT(\"Hello, World!\")".to_string());
    assert_eq!(
        r,
        Ok(vec![
            name("OUTPUT"),
            Token::LeftBracket,
            Token::StringLiteral("Hello, World!".to_string()),
            Token::RightBracket,
            Token::EndOfFile,
        ])
    );
}

#[test]
fn input_statement_scenario() {
    let r = tokenize("INPUT(0x22)".to_string());
    assert_eq!(
        r,
        Ok(vec![
            name("INPUT"),
            Token::LeftBracket,
            Token::HexLiteral("22".to_string()),
            Token::RightBracket,
            Token::EndOfFile,
        ])
    );
}

#[test]
fn empty_input_gives_end_of_file() {
    assert_eq!(tokenize(String::new()), Ok(vec![Token::EndOfFile]));
}

#[test]
fn bare_hex_prefix_is_malformed() {
    let r = tokenize("0x".to_string());
    assert_eq!(
        r,
        Err(LexError { kind: LexErrorKind::MalformedHexLiteral, position: 0, tokens: vec![] })
    );
}

#[test]
fn unterminated_string_literal() {
    let r = tokenize("\"abc".to_string());
    assert_eq!(
        r,
        Err(LexError { kind: LexErrorKind::UnterminatedStringLiteral, position: 0, tokens: vec![] })
    );
}

#[test]
fn unrecognized_input_at_start() {
    let r = tokenize("@".to_string());
    assert_eq!(
        r,
        Err(LexError { kind: LexErrorKind::UnrecognizedInput, position: 0, tokens: vec![] })
    );
}

#[test]
fn hex_prefix_before_quote_is_malformed_hex() {
    let r = tokenize("0x\"a\"".to_string());
    assert_eq!(
        r,
        Err(LexError { kind: LexErrorKind::MalformedHexLiteral, position: 0, tokens: vec![] })
    );
}

#[test]
fn end_of_file_only_last() {
    let tokens = tokenize("A (B) \"c d\"\n0xFf".to_string()).unwrap();
    assert_eq!(tokens.last(), Some(&Token::EndOfFile));
    let count = tokens.iter().filter(|t| **t == Token::EndOfFile).count();
    assert_eq!(count, 1);
}

#[test]
fn spans_rebuild_the_input() {
    // The whitespace runs here are single spaces, so the text is rebuilt
    // from the tokens alone.
    let text = "OUTPUT(\"Hi there\") INPUT(0xAb1) x";
    let tokens = tokenize(text.to_string()).unwrap();
    let mut rebuilt = String::new();
    for t in &tokens {
        match t {
            Token::Name(n) => rebuilt.push_str(n),
            Token::StringLiteral(s) => {
                rebuilt.push('"');
                rebuilt.push_str(s);
                rebuilt.push('"');
            }
            Token::HexLiteral(h) => {
                rebuilt.push_str("0x");
                rebuilt.push_str(h);
            }
            Token::LeftBracket => rebuilt.push('('),
            Token::RightBracket => rebuilt.push(')'),
            Token::Whitespace => rebuilt.push(' '),
            Token::EndOfFile => {}
            other => panic!("unexpected token {:?}", other),
        }
    }
    assert_eq!(rebuilt, text);
}

#[test]
fn tokenizing_twice_gives_the_same_tokens() {
    let text = "OUTPUT(\"Hello, World!\")\n    INPUT(0x22)";
    assert_eq!(tokenize(text.to_string()), tokenize(text.to_string()));
}

#[test]
fn whitespace_run_is_one_token() {
    let r = tokenize("a \t\r\n\u{c} b".to_string());
    assert_eq!(r, Ok(vec![name("a"), Token::Whitespace, name("b"), Token::EndOfFile]));
}

#[test]
fn vertical_tab_is_not_whitespace() {
    let r = tokenize("a\u{b}".to_string());
    assert_eq!(
        r,
        Err(LexError { kind: LexErrorKind::UnrecognizedInput, position: 1, tokens: vec![name("a")] })
    );
}

#[test]
fn original_program_text() {
    let text = "OUTPUT(\"Hello, World!\")\n                 INPUT(0x22)";
    let r = tokenize(text.to_string());
    assert_eq!(
        r,
        Ok(vec![
            name("OUTPUT"),
            Token::LeftBracket,
            Token::StringLiteral("Hello, World!".to_string()),
            Token::RightBracket,
            Token::Whitespace,
            name("INPUT"),
            Token::LeftBracket,
            Token::HexLiteral("22".to_string()),
            Token::RightBracket,
            Token::EndOfFile,
        ])
    );
}

#[test]
fn error_keeps_tokens_read_before() {
    let r = tokenize("f(1)".to_string());
    assert_eq!(
        r,
        Err(LexError {
            kind: LexErrorKind::UnrecognizedInput,
            position: 2,
            tokens: vec![name("f"), Token::LeftBracket],
        })
    );
}

#[test]
fn hex_digits_stop_at_non_digit() {
    let r = tokenize("0x1fG".to_string());
    assert_eq!(
        r,
        Ok(vec![Token::HexLiteral("1f".to_string()), name("G"), Token::EndOfFile])
    );
}

#[test]
fn malformed_hex_after_tokens_reports_its_start() {
    let r = tokenize("a 0x(".to_string());
    assert_eq!(
        r,
        Err(LexError {
            kind: LexErrorKind::MalformedHexLiteral,
            position: 2,
            tokens: vec![name("a"), Token::Whitespace],
        })
    );
}

#[test]
fn empty_string_literal() {
    let r = tokenize("\"\"".to_string());
    assert_eq!(r, Ok(vec![Token::StringLiteral(String::new()), Token::EndOfFile]));
}

#[test]
fn string_literal_keeps_non_ascii_and_positions_count_characters() {
    let r = tokenize("\"é\"é".to_string());
    assert_eq!(
        r,
        Err(LexError {
            kind: LexErrorKind::UnrecognizedInput,
            position: 3,
            tokens: vec![Token::StringLiteral("é".to_string())],
        })
    );
}

#[test]
fn zero_without_x_is_unrecognized() {
    let r = tokenize("0".to_string());
    assert_eq!(
        r,
        Err(LexError { kind: LexErrorKind::UnrecognizedInput, position: 0, tokens: vec![] })
    );
}
