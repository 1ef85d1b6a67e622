use vstd::prelude::*;

verus! {

/// The kinds of token that the lexer produces.
#[derive(Debug, Clone, Copy, PartialEq, Eq, Structural)]
pub enum TokenType {
    Print,
    Let,
    Var,
    Identifier,
    Number,
    LeftParen,
    RightParen,
    Colon,
    Assign,
    Plus,
    Minus,
    Star,
    Slash,
    EndOfInput,
}

/// A token: its kind and the exact text it was read from.
#[derive(Debug, Clone, PartialEq, Eq)]
pub struct Token {
    pub token_type: TokenType,
    pub lexeme: String,
}

impl View for Token {
    type V = (TokenType, Seq<char>);

    open spec fn view(&self) -> (TokenType, Seq<char>) {
        (self.token_type, self.lexeme@)
    }
}

/// The views of a sequence of tokens.
pub open spec fn token_views(ts: Seq<Token>) -> Seq<(TokenType, Seq<char>)> {
    ts.map_values(|t: Token| t@)
}

impl Token {
    pub fn new(token_type: TokenType, lexeme: String) -> (r: Token)
        ensures
            r.token_type == token_type,
            r.lexeme == lexeme,
    {
        Token { token_type, lexeme }
    }
}

} // verus!
