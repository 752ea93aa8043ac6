use minicc::token::Token;
use minicc::tokenizer::Tokenizer;

#[test]
fn test_space_between_tokens() {
    let tokens = Tokenizer::new("5 5 5").tokenize().unwrap();
    assert_eq!(
        format!("{:?}", tokens),
        format!(
            "{:?}",
            vec![Token::Num(5), Token::Num(5), Token::Num(5), Token::Eof]
        )
    );
}

#[test]
fn test_single_digit_tokens() {
    // Plus
    let tokens = Tokenizer::new("+").tokenize().unwrap();
    assert_eq!(
        format!("{:?}", tokens),
        format!("{:?}", vec![Token::Plus, Token::Eof])
    );

    // Minus
    let tokens = Tokenizer::new("-").tokenize().unwrap();
    assert_eq!(
        format!("{:?}", tokens),
        format!("{:?}", vec![Token::Minus, Token::Eof])
    );

    // Star
    let tokens = Tokenizer::new("*").tokenize().unwrap();
    assert_eq!(
        format!("{:?}", tokens),
        format!("{:?}", vec![Token::Star, Token::Eof])
    );

    // LeftParen, RightParen
    let tokens = Tokenizer::new("()").tokenize().unwrap();
    assert_eq!(
        format!("{:?}", tokens),
        format!(
            "{:?}",
            vec![Token::LeftParen, Token::RightParen, Token::Eof]
        )
    );

    // LeftAngleBracket, RightAngleBracket
    let tokens = Tokenizer::new("<>").tokenize().unwrap();
    assert_eq!(
        format!("{:?}", tokens),
        format!(
            "{:?}",
            vec![
                Token::LeftAngleBracket,
                Token::RightAngleBracket,
                Token::Eof
            ]
        )
    );
}

#[test]
fn test_two_digit_tokens() {
    let tokens = Tokenizer::new("==").tokenize().unwrap();
    assert_eq!(
        format!("{:?}", tokens),
        format!("{:?}", vec![Token::Equal, Token::Eof])
    );

    let tokens = Tokenizer::new(">=").tokenize().unwrap();
    assert_eq!(
        format!("{:?}", tokens),
        format!("{:?}", vec![Token::GreaterThanOrEqual, Token::Eof])
    );

    let tokens = Tokenizer::new("<=").tokenize().unwrap();
    assert_eq!(
        format!("{:?}", tokens),
        format!("{:?}", vec![Token::LessThanOrEqual, Token::Eof])
    );

    let tokens = Tokenizer::new("!=").tokenize().unwrap();
    assert_eq!(
        format!("{:?}", tokens),
        format!("{:?}", vec![Token::NotEqual, Token::Eof])
    );
}

#[test]
fn test_tokenizer() {
    let tokens = Tokenizer::new("1+5-(20*2)==10").tokenize().unwrap();
    assert_eq!(
        format!("{:?}", tokens),
        format!(
            "{:?}",
            vec![
                Token::Num(1),
                Token::Plus,
                Token::Num(5),
                Token::Minus,
                Token::LeftParen,
                Token::Num(20),
                Token::Star,
                Token::Num(2),
                Token::RightParen,
                Token::Equal,
                Token::Num(10),
                Token::Eof,
            ]
        )
    )
}

#[test]
fn test_keywords_and_identifiers() {
    let tokens = Tokenizer::new("if else while for return returnx _a9").tokenize().unwrap();
    assert_eq!(
        format!("{:?}", tokens),
        format!(
            "{:?}",
            vec![
                Token::If,
                Token::Else,
                Token::While,
                Token::For,
                Token::Return,
                Token::Ident(String::from("returnx")),
                Token::Ident(String::from("_a9")),
                Token::Eof,
            ]
        )
    );
}

#[test]
fn test_unrecognized_character() {
    let err = Tokenizer::new("1 + #").tokenize().unwrap_err();
    assert_eq!(err.pos, 4);
    assert_eq!(err.kind, minicc::tokenizer::LexErrorKind::UnrecognizedCharacter);
    assert_eq!(err.text, "#");
}

#[test]
fn test_number_overflow() {
    let err = Tokenizer::new("2147483648;").tokenize().unwrap_err();
    assert_eq!(err.pos, 0);
    assert_eq!(err.kind, minicc::tokenizer::LexErrorKind::InvalidNumber);

    // The largest literal that still fits.
    let tokens = Tokenizer::new("2147483647").tokenize().unwrap();
    assert_eq!(tokens, vec![Token::Num(2147483647), Token::Eof]);
}
