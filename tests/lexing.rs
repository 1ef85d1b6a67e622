use tiny_swift::lexer::{tokenize, LexError, Lexer};
use tiny_swift::token::{Token, TokenType};

fn kinds(src: &str) -> Vec<TokenType> {
    tokenize(src).unwrap().iter().map(|t| t.token_type).collect()
}

#[test]
fn empty_source_gives_only_end_of_input() {
    let tokens = tokenize("").unwrap();
    assert_eq!(tokens, vec![Token::new(TokenType::EndOfInput, String::new())]);
    let tokens = tokenize("  \n\t ").unwrap();
    assert_eq!(tokens.len(), 1);
    assert_eq!(tokens[0].token_type, TokenType::EndOfInput);
}

#[test]
fn print_statement_tokens() {
    let tokens = tokenize("print(2+3*4)").unwrap();
    let expected = vec![
        (TokenType::Print, "print"),
        (TokenType::LeftParen, "("),
        (TokenType::Number, "2"),
        (TokenType::Plus, "+"),
        (TokenType::Number, "3"),
        (TokenType::Star, "*"),
        (TokenType::Number, "4"),
        (TokenType::RightParen, ")"),
        (TokenType::EndOfInput, ""),
    ];
    assert_eq!(tokens.len(), expected.len());
    for (t, (k, lexeme)) in tokens.iter().zip(expected.iter()) {
        assert_eq!(t.token_type, *k);
        assert_eq!(t.lexeme, *lexeme);
    }
}

#[test]
fn keywords_identifiers_and_punctuation() {
    assert_eq!(
        kinds("let x: Int = 5 var y_2 = x - 1 / 2"),
        vec![
            TokenType::Let,
            TokenType::Identifier,
            TokenType::Colon,
            TokenType::Identifier,
            TokenType::Assign,
            TokenType::Number,
            TokenType::Var,
            TokenType::Identifier,
            TokenType::Assign,
            TokenType::Identifier,
            TokenType::Minus,
            TokenType::Number,
            TokenType::Slash,
            TokenType::Number,
            TokenType::EndOfInput,
        ]
    );
    let tokens = tokenize("printer letter var9 y_2").unwrap();
    assert_eq!(tokens[0].token_type, TokenType::Identifier);
    assert_eq!(tokens[0].lexeme, "printer");
    assert_eq!(tokens[1].token_type, TokenType::Identifier);
    assert_eq!(tokens[2].lexeme, "var9");
    assert_eq!(tokens[3].lexeme, "y_2");
}

#[test]
fn numbers_are_maximal_digit_runs() {
    let tokens = tokenize("12345 007x").unwrap();
    assert_eq!(tokens[0].token_type, TokenType::Number);
    assert_eq!(tokens[0].lexeme, "12345");
    assert_eq!(tokens[1].token_type, TokenType::Number);
    assert_eq!(tokens[1].lexeme, "007");
    assert_eq!(tokens[2].token_type, TokenType::Identifier);
    assert_eq!(tokens[2].lexeme, "x");
}

#[test]
fn at_sign_is_an_unexpected_character() {
    assert_eq!(tokenize("print(1) @"), Err(LexError::UnexpectedCharacter('@', 9)));
    assert_eq!(tokenize("@"), Err(LexError::UnexpectedCharacter('@', 0)));
}

#[test]
fn first_stray_character_is_reported() {
    assert_eq!(tokenize("x # @"), Err(LexError::UnexpectedCharacter('#', 2)));
    assert_eq!(tokenize("a_b"), Ok(vec![
        Token::new(TokenType::Identifier, "a_b".to_string()),
        Token::new(TokenType::EndOfInput, String::new()),
    ]));
    assert_eq!(tokenize("_a"), Err(LexError::UnexpectedCharacter('_', 0)));
}

#[test]
fn lexer_reads_one_token_at_a_time() {
    let mut lexer = Lexer::new("  let".to_string());
    let t = lexer.next_token().unwrap();
    assert_eq!(t.token_type, TokenType::Let);
    assert_eq!(t.lexeme, "let");
    let t = lexer.next_token().unwrap();
    assert_eq!(t.token_type, TokenType::EndOfInput);
    let t = lexer.next_token().unwrap();
    assert_eq!(t.token_type, TokenType::EndOfInput);
}

#[test]
fn unicode_white_space_is_skipped() {
    assert_eq!(tokenize("\u{A0}"), Ok(vec![Token::new(TokenType::EndOfInput, String::new())]));
    assert_eq!(
        kinds("\u{3000}print\u{2028}(\u{85}1\u{200A})\u{202F}"),
        vec![
            TokenType::Print,
            TokenType::LeftParen,
            TokenType::Number,
            TokenType::RightParen,
            TokenType::EndOfInput,
        ]
    );
    assert_eq!(tokenize("\u{200B}"), Err(LexError::UnexpectedCharacter('\u{200B}', 0)));
}

#[test]
fn runs_continue_over_unicode_letters_and_numerals() {
    let tokens = tokenize("xé1 1٣ é").unwrap_err();
    assert_eq!(tokens, LexError::UnexpectedCharacter('é', 7));
    let tokens = tokenize("xé1 1٣").unwrap();
    assert_eq!(tokens[0].token_type, TokenType::Identifier);
    assert_eq!(tokens[0].lexeme, "xé1");
    assert_eq!(tokens[1].token_type, TokenType::Number);
    assert_eq!(tokens[1].lexeme, "1٣");
    assert_eq!(tokens[2].token_type, TokenType::EndOfInput);
}
