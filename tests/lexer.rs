use bedrockc::lexer::{LexError, Lexer, Token};
use bedrockc::text::format_u64;

fn tokens_of(source: &str) -> Result<Vec<Token>, LexError> {
    let mut lexer = Lexer::new(source);
    let mut out = Vec::new();
    loop {
        let t = lexer.next_token()?;
        if t == Token::EOF {
            return Ok(out);
        }
        out.push(t);
    }
}

#[test]
fn keywords_and_identifiers() {
    let toks = tokens_of("fn let volatile cast unsafe loop asm struct _tmp x1").unwrap();
    assert_eq!(
        toks,
        vec![
            Token::Fn,
            Token::Let,
            Token::Volatile,
            Token::Cast,
            Token::Unsafe,
            Token::Loop,
            Token::Asm,
            Token::Identifier("struct".to_string()),
            Token::Identifier("_tmp".to_string()),
            Token::Identifier("x1".to_string()),
        ]
    );
}

#[test]
fn decimal_and_hex_literals() {
    let toks = tokens_of("123 0x1F 0XfF 0 007").unwrap();
    assert_eq!(
        toks,
        vec![Token::Integer(123), Token::Integer(31), Token::Integer(255), Token::Integer(0), Token::Integer(7)]
    );
}

#[test]
fn largest_literal_and_overflow() {
    assert_eq!(tokens_of("18446744073709551615").unwrap(), vec![Token::Integer(u64::MAX)]);
    assert_eq!(tokens_of("0xFFFFFFFFFFFFFFFF").unwrap(), vec![Token::Integer(u64::MAX)]);
    assert_eq!(tokens_of("18446744073709551616"), Err(LexError::MalformedNumber { pos: 0 }));
    assert_eq!(tokens_of("  0x10000000000000000"), Err(LexError::MalformedNumber { pos: 2 }));
}

#[test]
fn hex_prefix_without_digits() {
    assert_eq!(tokens_of("0x"), Err(LexError::MalformedNumber { pos: 0 }));
    assert_eq!(tokens_of("0xg"), Err(LexError::MalformedNumber { pos: 0 }));
}

#[test]
fn punctuation() {
    let toks = tokens_of("( ) { } [ ] : ; , = * | # -> < > + -").unwrap();
    assert_eq!(
        toks,
        vec![
            Token::LParen,
            Token::RParen,
            Token::LBrace,
            Token::RBrace,
            Token::LBracket,
            Token::RBracket,
            Token::Colon,
            Token::SemiColon,
            Token::Comma,
            Token::Equals,
            Token::Star,
            Token::Pipe,
            Token::Hash,
            Token::Arrow,
            Token::LessThan,
            Token::GreaterThan,
            Token::Plus,
            Token::Minus,
        ]
    );
}

#[test]
fn minus_then_greater_is_one_arrow() {
    assert_eq!(tokens_of("->-").unwrap(), vec![Token::Arrow, Token::Minus]);
    assert_eq!(tokens_of("- >").unwrap(), vec![Token::Minus, Token::GreaterThan]);
}

#[test]
fn comments_and_whitespace_are_skipped() {
    let toks = tokens_of("  // a comment\n\tfn // another\n// last").unwrap();
    assert_eq!(toks, vec![Token::Fn]);
}

#[test]
fn end_of_input_repeats() {
    let mut lexer = Lexer::new("x");
    assert_eq!(lexer.next_token(), Ok(Token::Identifier("x".to_string())));
    assert_eq!(lexer.next_token(), Ok(Token::EOF));
    assert_eq!(lexer.next_token(), Ok(Token::EOF));
    assert_eq!(lexer.next_token(), Ok(Token::EOF));
}

#[test]
fn empty_input_is_end_of_input() {
    assert_eq!(tokens_of("").unwrap(), vec![]);
    assert_eq!(tokens_of(" \n\t ").unwrap(), vec![]);
}

#[test]
fn string_literal_is_taken_literally() {
    assert_eq!(
        tokens_of("\"hlt\" \"a\\n\"").unwrap(),
        vec![Token::StringLiteral("hlt".to_string()), Token::StringLiteral("a\\n".to_string())]
    );
}

#[test]
fn unterminated_string_is_an_error() {
    assert_eq!(tokens_of("x \"abc"), Err(LexError::UnterminatedString { pos: 2 }));
}

#[test]
fn unexpected_characters() {
    assert_eq!(tokens_of("fn @"), Err(LexError::UnexpectedChar { ch: '@', pos: 3 }));
    assert_eq!(tokens_of("a / b"), Err(LexError::UnexpectedChar { ch: '/', pos: 2 }));
}

#[test]
fn unicode_identifier() {
    assert_eq!(tokens_of("größe").unwrap(), vec![Token::Identifier("größe".to_string())]);
}

#[test]
fn literal_round_trips_through_decimal_text() {
    for text in ["0", "42", "0x2A", "0X2a", "18446744073709551615", "0xdeadBEEF"] {
        let v = match tokens_of(text).unwrap()[..] {
            [Token::Integer(v)] => v,
            _ => panic!("not one integer"),
        };
        let rendered = format_u64(v);
        assert_eq!(tokens_of(&rendered).unwrap(), vec![Token::Integer(v)]);
    }
    assert_eq!(format_u64(0x2A), "42");
    assert_eq!(format_u64(u64::MAX), "18446744073709551615");
    assert_eq!(format_u64(0), "0");
}

#[test]
fn error_positions_are_byte_offsets() {
    assert_eq!(tokens_of("é @"), Err(LexError::UnexpectedChar { ch: '@', pos: 3 }));
    assert_eq!(tokens_of("é \"x"), Err(LexError::UnterminatedString { pos: 3 }));
    assert_eq!(tokens_of("→"), Err(LexError::UnexpectedChar { ch: '→', pos: 0 }));
    assert_eq!(tokens_of("ab→"), Err(LexError::UnexpectedChar { ch: '→', pos: 2 }));
}
