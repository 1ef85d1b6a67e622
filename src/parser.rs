use vstd::prelude::*;

use crate::ast::{AstNode, BinaryOperator, Expression, Statement};
use crate::text::{number_value, parse_decimal};
use crate::token::{Token, TokenType};

verus! {

/// Why a token sequence is not a program.
#[derive(Debug, PartialEq)]
pub enum ParseError {
    /// A token of kind `expected` was required; `found` stood there instead.
    ExpectedToken { expected: TokenType, found: Token },
    /// No statement starts with `found`.
    UnexpectedStatement { found: Token },
    /// A number token whose text is not an `i64` in decimal.
    InvalidNumber { lexeme: String },
    /// An operand was required; `found` stood there instead.
    ExpectedExpression { found: Token },
}

/// A parse result: the value and the position after it.
pub type Parsed<T> = Result<(T, nat), ParseError>;

/// The kind of the token at `pos`; past the end, the end of input.
pub open spec fn kind_at(ts: Seq<Token>, pos: nat) -> TokenType {
    if pos < ts.len() {
        ts[pos as int].token_type
    } else {
        TokenType::EndOfInput
    }
}

/// Whether the token at `pos` has kind `k` (never true of the end of input).
pub open spec fn checks(ts: Seq<Token>, pos: nat, k: TokenType) -> bool {
    kind_at(ts, pos) != TokenType::EndOfInput && kind_at(ts, pos) == k
}

/// Takes a token of kind `k` at `pos`, or fails naming what stood there.
pub open spec fn consume_spec(ts: Seq<Token>, pos: nat, k: TokenType) -> Parsed<Token> {
    if checks(ts, pos, k) {
        Ok((ts[pos as int], pos + 1))
    } else {
        Err(ParseError::ExpectedToken { expected: k, found: ts[pos as int] })
    }
}

pub open spec fn binary(left: Expression, operator: BinaryOperator, right: Expression) -> Expression {
    Expression::Binary { left: Box::new(left), operator, right: Box::new(right) }
}

/// `primary := Number | Identifier | "(" expression ")"`
pub open spec fn primary(ts: Seq<Token>, pos: nat) -> Parsed<Expression>
    decreases ts.len() - pos, 0nat,
{
    if checks(ts, pos, TokenType::Number) {
        let lexeme = ts[pos as int].lexeme;
        match number_value(lexeme@) {
            Some(v) => Ok((Expression::Number(v as i64), pos + 1)),
            None => Err(ParseError::InvalidNumber { lexeme }),
        }
    } else if checks(ts, pos, TokenType::Identifier) {
        Ok((Expression::Variable(ts[pos as int].lexeme), pos + 1))
    } else if checks(ts, pos, TokenType::LeftParen) {
        match expression(ts, pos + 1) {
            Err(e) => Err(e),
            Ok((inner, p)) => match consume_spec(ts, p, TokenType::RightParen) {
                Err(e) => Err(e),
                Ok((_, q)) => Ok((inner, q)),
            },
        }
    } else {
        Err(ParseError::ExpectedExpression { found: ts[pos as int] })
    }
}

/// The operator of `*` or `/` at `pos`, if one stands there.
pub open spec fn multiplicative_operator(ts: Seq<Token>, pos: nat) -> Option<BinaryOperator> {
    if checks(ts, pos, TokenType::Star) {
        Some(BinaryOperator::Multiply)
    } else if checks(ts, pos, TokenType::Slash) {
        Some(BinaryOperator::Divide)
    } else {
        None
    }
}

/// The operator of `+` or `-` at `pos`, if one stands there.
pub open spec fn additive_operator(ts: Seq<Token>, pos: nat) -> Option<BinaryOperator> {
    if checks(ts, pos, TokenType::Plus) {
        Some(BinaryOperator::Add)
    } else if checks(ts, pos, TokenType::Minus) {
        Some(BinaryOperator::Subtract)
    } else {
        None
    }
}

/// `(("*"|"/") primary)*` after `left`, folded to the left.
pub open spec fn multiplicative_rest(ts: Seq<Token>, pos: nat, left: Expression) -> Parsed<Expression>
    decreases ts.len() - pos, 1nat,
{
    match multiplicative_operator(ts, pos) {
        None => Ok((left, pos)),
        Some(op) => match primary(ts, pos + 1) {
            Err(e) => Err(e),
            Ok((right, p)) => if pos < p <= ts.len() {
                multiplicative_rest(ts, p, binary(left, op, right))
            } else {
                Ok((binary(left, op, right), p))
            },
        },
    }
}

/// `multiplicative := primary (("*"|"/") primary)*`
pub open spec fn multiplicative(ts: Seq<Token>, pos: nat) -> Parsed<Expression>
    decreases ts.len() - pos, 2nat,
{
    match primary(ts, pos) {
        Err(e) => Err(e),
        Ok((left, p)) => if pos <= p <= ts.len() {
            multiplicative_rest(ts, p, left)
        } else {
            Ok((left, p))
        },
    }
}

/// `(("+"|"-") multiplicative)*` after `left`, folded to the left.
pub open spec fn additive_rest(ts: Seq<Token>, pos: nat, left: Expression) -> Parsed<Expression>
    decreases ts.len() - pos, 3nat,
{
    match additive_operator(ts, pos) {
        None => Ok((left, pos)),
        Some(op) => match multiplicative(ts, pos + 1) {
            Err(e) => Err(e),
            Ok((right, p)) => if pos < p <= ts.len() {
                additive_rest(ts, p, binary(left, op, right))
            } else {
                Ok((binary(left, op, right), p))
            },
        },
    }
}

/// `additive := multiplicative (("+"|"-") multiplicative)*`
pub open spec fn additive(ts: Seq<Token>, pos: nat) -> Parsed<Expression>
    decreases ts.len() - pos, 4nat,
{
    match multiplicative(ts, pos) {
        Err(e) => Err(e),
        Ok((left, p)) => if pos <= p <= ts.len() {
            additive_rest(ts, p, left)
        } else {
            Ok((left, p))
        },
    }
}

/// `expression := additive`
pub open spec fn expression(ts: Seq<Token>, pos: nat) -> Parsed<Expression>
    decreases ts.len() - pos, 5nat,
{
    additive(ts, pos)
}

/// A type annotation `":" Identifier` at `pos`, if one stands there: the position after it.
pub open spec fn annotation_end(ts: Seq<Token>, pos: nat) -> Result<nat, ParseError> {
    if checks(ts, pos, TokenType::Colon) {
        match consume_spec(ts, pos + 1, TokenType::Identifier) {
            Err(e) => Err(e),
            Ok((_, p)) => Ok(p),
        }
    } else {
        Ok(pos)
    }
}

/// `printStmt := "print" "(" expression ")"`
pub open spec fn print_statement(ts: Seq<Token>, pos: nat) -> Parsed<Statement> {
    match consume_spec(ts, pos, TokenType::Print) {
        Err(e) => Err(e),
        Ok((_, p1)) => match consume_spec(ts, p1, TokenType::LeftParen) {
            Err(e) => Err(e),
            Ok((_, p2)) => match expression(ts, p2) {
                Err(e) => Err(e),
                Ok((value, p3)) => match consume_spec(ts, p3, TokenType::RightParen) {
                    Err(e) => Err(e),
                    Ok((_, p4)) => Ok((Statement::Print(value), p4)),
                },
            },
        },
    }
}

/// `declStmt := ("let" | "var") Identifier (":" Identifier)? "=" expression`
pub open spec fn declaration(ts: Seq<Token>, pos: nat) -> Parsed<Statement> {
    let is_mutable = checks(ts, pos, TokenType::Var);
    if !checks(ts, pos, TokenType::Let) && !is_mutable {
        Err(ParseError::ExpectedToken { expected: TokenType::Let, found: ts[pos as int] })
    } else {
        match consume_spec(ts, pos + 1, TokenType::Identifier) {
            Err(e) => Err(e),
            Ok((name, p1)) => match annotation_end(ts, p1) {
                Err(e) => Err(e),
                Ok(p2) => match consume_spec(ts, p2, TokenType::Assign) {
                    Err(e) => Err(e),
                    Ok((_, p3)) => match expression(ts, p3) {
                        Err(e) => Err(e),
                        Ok((value, p4)) => Ok(
                            (Statement::VarDecl { name: name.lexeme, value, is_mutable }, p4),
                        ),
                    },
                },
            },
        }
    }
}

/// `assignStmt := Identifier "=" expression`
pub open spec fn assignment(ts: Seq<Token>, pos: nat) -> Parsed<Statement> {
    match consume_spec(ts, pos, TokenType::Identifier) {
        Err(e) => Err(e),
        Ok((name, p1)) => match consume_spec(ts, p1, TokenType::Assign) {
            Err(e) => Err(e),
            Ok((_, p2)) => match expression(ts, p2) {
                Err(e) => Err(e),
                Ok((value, p3)) => Ok((Statement::Assignment { name: name.lexeme, value }, p3)),
            },
        },
    }
}

/// `exprStmt := expression`
pub open spec fn expression_statement(ts: Seq<Token>, pos: nat) -> Parsed<Statement> {
    match expression(ts, pos) {
        Err(e) => Err(e),
        Ok((value, p)) => Ok((Statement::Expression(value), p)),
    }
}

/// A statement, chosen by the kind of its first token (and, after an
/// identifier, by whether `=` follows).
pub open spec fn statement(ts: Seq<Token>, pos: nat) -> Parsed<Statement> {
    match kind_at(ts, pos) {
        TokenType::Print => print_statement(ts, pos),
        TokenType::Let | TokenType::Var => declaration(ts, pos),
        TokenType::Identifier => if kind_at(ts, pos + 1) == TokenType::Assign {
            assignment(ts, pos)
        } else {
            expression_statement(ts, pos)
        },
        TokenType::Number | TokenType::LeftParen => expression_statement(ts, pos),
        _ => Err(ParseError::UnexpectedStatement { found: ts[pos as int] }),
    }
}

/// The statements from `pos` to the end of input, after those in `acc`.
pub open spec fn program_from(ts: Seq<Token>, pos: nat, acc: Seq<Statement>) -> Result<Seq<Statement>, ParseError>
    decreases ts.len() - pos,
{
    if kind_at(ts, pos) == TokenType::EndOfInput {
        Ok(acc)
    } else {
        match statement(ts, pos) {
            Err(e) => Err(e),
            Ok((s, p)) => if pos < p <= ts.len() {
                program_from(ts, p, acc.push(s))
            } else {
                Ok(acc.push(s))
            },
        }
    }
}

/// `program := statement* EndOfInput`: the statements of a token sequence, or
/// the first syntax error.
pub open spec fn parse_program(ts: Seq<Token>) -> Result<Seq<Statement>, ParseError> {
    program_from(ts, 0, Seq::empty())
}

/// A token sequence as the lexer hands it over: it ends with the end of input.
pub open spec fn ends_with_end(ts: Seq<Token>) -> bool {
    ts.len() > 0 && ts.last().token_type == TokenType::EndOfInput
}

/// Whether an executable result `r`, with the parser left at `pos`, is the parse result `expected`.
pub open spec fn agrees<T>(r: Result<T, ParseError>, expected: Parsed<T>, pos: nat) -> bool {
    match expected {
        Ok((v, p)) => r == Ok::<T, ParseError>(v) && pos == p,
        Err(e) => r == Err::<T, ParseError>(e),
    }
}

fn copy_token(t: &Token) -> (r: Token)
    ensures
        r == *t,
{
    Token { token_type: t.token_type, lexeme: t.lexeme.clone() }
}

/// A recursive-descent parser with one token of lookahead.
pub struct Parser {
    tokens: Vec<Token>,
    current: usize,
}

impl Parser {
    pub closed spec fn token_seq(&self) -> Seq<Token> {
        self.tokens@
    }

    pub closed spec fn pos(&self) -> nat {
        self.current as nat
    }

    pub closed spec fn wf(&self) -> bool {
        &&& ends_with_end(self.tokens@)
        &&& self.current < self.tokens@.len()
    }

    pub fn new(tokens: Vec<Token>) -> (r: Parser)
        requires
            ends_with_end(tokens@),
        ensures
            r.wf(),
            r.token_seq() == tokens@,
            r.pos() == 0,
    {
        Parser { tokens, current: 0 }
    }

    fn peak(&self) -> (r: &Token)
        requires
            self.wf(),
        ensures
            *r == self.tokens@[self.current as int],
    {
        &self.tokens[self.current]
    }

    fn is_at_end(&self) -> (r: bool)
        requires
            self.wf(),
        ensures
            r == (kind_at(self.tokens@, self.pos()) == TokenType::EndOfInput),
    {
        self.peak().token_type == TokenType::EndOfInput
    }

    fn check(&self, token_type: TokenType) -> (r: bool)
        requires
            self.wf(),
        ensures
            r == checks(self.tokens@, self.pos(), token_type),
    {
        if self.is_at_end() {
            false
        } else {
            self.peak().token_type == token_type
        }
    }

    fn advance(&mut self) -> (r: Token)
        requires
            old(self).wf(),
            kind_at(old(self).tokens@, old(self).pos()) != TokenType::EndOfInput,
        ensures
            final(self).wf(),
            final(self).tokens@ == old(self).tokens@,
            final(self).current == old(self).current + 1,
            r == old(self).tokens@[old(self).current as int],
    {
        let t = copy_token(self.peak());
        let token_count = self.tokens.len();
        assert(self.current + 1 < token_count);
        self.current = self.current + 1;
        t
    }

    fn consume(&mut self, token_type: TokenType) -> (r: Result<Token, ParseError>)
        requires
            old(self).wf(),
        ensures
            final(self).wf(),
            final(self).tokens@ == old(self).tokens@,
            agrees(r, consume_spec(old(self).tokens@, old(self).pos(), token_type), final(self).pos()),
            r is Ok ==> final(self).current == old(self).current + 1,
            r is Err ==> final(self).current == old(self).current,
    {
        if self.check(token_type) {
            Ok(self.advance())
        } else {
            Err(ParseError::ExpectedToken { expected: token_type, found: copy_token(self.peak()) })
        }
    }

    fn parse_primary(&mut self) -> (r: Result<Expression, ParseError>)
        requires
            old(self).wf(),
        ensures
            final(self).wf(),
            final(self).tokens@ == old(self).tokens@,
            agrees(r, primary(old(self).tokens@, old(self).pos()), final(self).pos()),
            r is Ok ==> final(self).current > old(self).current,
        decreases old(self).tokens@.len() - old(self).current, 0nat,
    {
        if self.check(TokenType::Number) {
            let token = self.advance();
            match parse_decimal(&token.lexeme) {
                Some(v) => Ok(Expression::Number(v)),
                None => Err(ParseError::InvalidNumber { lexeme: token.lexeme }),
            }
        } else if self.check(TokenType::Identifier) {
            let token = self.advance();
            Ok(Expression::Variable(token.lexeme))
        } else if self.check(TokenType::LeftParen) {
            self.advance();
            let inner = match self.parse_expression() {
                Ok(e) => e,
                Err(e) => return Err(e),
            };
            match self.consume(TokenType::RightParen) {
                Ok(_) => Ok(inner),
                Err(e) => Err(e),
            }
        } else {
            Err(ParseError::ExpectedExpression { found: copy_token(self.peak()) })
        }
    }

    fn parse_multiplicative(&mut self) -> (r: Result<Expression, ParseError>)
        requires
            old(self).wf(),
        ensures
            final(self).wf(),
            final(self).tokens@ == old(self).tokens@,
            agrees(r, multiplicative(old(self).tokens@, old(self).pos()), final(self).pos()),
            r is Ok ==> final(self).current > old(self).current,
        decreases old(self).tokens@.len() - old(self).current, 2nat,
    {
        let mut left = match self.parse_primary() {
            Ok(e) => e,
            Err(e) => return Err(e),
        };
        while self.check(TokenType::Star) || self.check(TokenType::Slash)
            invariant
                self.wf(),
                self.tokens@ == old(self).tokens@,
                old(self).current < self.current,
                multiplicative(old(self).tokens@, old(self).pos()) == multiplicative_rest(
                    self.tokens@,
                    self.pos(),
                    left,
                ),
            decreases self.tokens@.len() - self.current,
        {
            let operator = if self.check(TokenType::Star) {
                self.advance();
                BinaryOperator::Multiply
            } else {
                self.advance();
                BinaryOperator::Divide
            };
            let right = match self.parse_primary() {
                Ok(e) => e,
                Err(e) => return Err(e),
            };
            left = Expression::Binary { left: Box::new(left), operator, right: Box::new(right) };
        }
        Ok(left)
    }

    fn parse_additive(&mut self) -> (r: Result<Expression, ParseError>)
        requires
            old(self).wf(),
        ensures
            final(self).wf(),
            final(self).tokens@ == old(self).tokens@,
            agrees(r, additive(old(self).tokens@, old(self).pos()), final(self).pos()),
            r is Ok ==> final(self).current > old(self).current,
        decreases old(self).tokens@.len() - old(self).current, 4nat,
    {
        let mut left = match self.parse_multiplicative() {
            Ok(e) => e,
            Err(e) => return Err(e),
        };
        while self.check(TokenType::Plus) || self.check(TokenType::Minus)
            invariant
                self.wf(),
                self.tokens@ == old(self).tokens@,
                old(self).current < self.current,
                additive(old(self).tokens@, old(self).pos()) == additive_rest(
                    self.tokens@,
                    self.pos(),
                    left,
                ),
            decreases self.tokens@.len() - self.current,
        {
            let operator = if self.check(TokenType::Plus) {
                self.advance();
                BinaryOperator::Add
            } else {
                self.advance();
                BinaryOperator::Subtract
            };
            let right = match self.parse_multiplicative() {
                Ok(e) => e,
                Err(e) => return Err(e),
            };
            left = Expression::Binary { left: Box::new(left), operator, right: Box::new(right) };
        }
        Ok(left)
    }

    fn parse_expression(&mut self) -> (r: Result<Expression, ParseError>)
        requires
            old(self).wf(),
        ensures
            final(self).wf(),
            final(self).tokens@ == old(self).tokens@,
            agrees(r, expression(old(self).tokens@, old(self).pos()), final(self).pos()),
            r is Ok ==> final(self).current > old(self).current,
        decreases old(self).tokens@.len() - old(self).current, 5nat,
    {
        self.parse_additive()
    }

    fn parse_print(&mut self) -> (r: Result<Statement, ParseError>)
        requires
            old(self).wf(),
        ensures
            final(self).wf(),
            final(self).tokens@ == old(self).tokens@,
            agrees(r, print_statement(old(self).tokens@, old(self).pos()), final(self).pos()),
            r is Ok ==> final(self).current > old(self).current,
    {
        if let Err(e) = self.consume(TokenType::Print) {
            return Err(e);
        }
        if let Err(e) = self.consume(TokenType::LeftParen) {
            return Err(e);
        }
        let value = match self.parse_expression() {
            Ok(e) => e,
            Err(e) => return Err(e),
        };
        match self.consume(TokenType::RightParen) {
            Ok(_) => Ok(Statement::Print(value)),
            Err(e) => Err(e),
        }
    }

    fn parse_declaration(&mut self) -> (r: Result<Statement, ParseError>)
        requires
            old(self).wf(),
        ensures
            final(self).wf(),
            final(self).tokens@ == old(self).tokens@,
            agrees(r, declaration(old(self).tokens@, old(self).pos()), final(self).pos()),
            r is Ok ==> final(self).current > old(self).current,
    {
        let is_mutable = if self.check(TokenType::Let) {
            self.advance();
            false
        } else if self.check(TokenType::Var) {
            self.advance();
            true
        } else {
            return Err(
                ParseError::ExpectedToken { expected: TokenType::Let, found: copy_token(self.peak()) },
            );
        };
        let name = match self.consume(TokenType::Identifier) {
            Ok(t) => t.lexeme,
            Err(e) => return Err(e),
        };
        if self.check(TokenType::Colon) {
            self.advance();
            if let Err(e) = self.consume(TokenType::Identifier) {
                return Err(e);
            }
        }
        if let Err(e) = self.consume(TokenType::Assign) {
            return Err(e);
        }
        let value = match self.parse_expression() {
            Ok(e) => e,
            Err(e) => return Err(e),
        };
        Ok(Statement::VarDecl { name, value, is_mutable })
    }

    fn parse_assignment(&mut self) -> (r: Result<Statement, ParseError>)
        requires
            old(self).wf(),
        ensures
            final(self).wf(),
            final(self).tokens@ == old(self).tokens@,
            agrees(r, assignment(old(self).tokens@, old(self).pos()), final(self).pos()),
            r is Ok ==> final(self).current > old(self).current,
    {
        let name = match self.consume(TokenType::Identifier) {
            Ok(t) => t.lexeme,
            Err(e) => return Err(e),
        };
        if let Err(e) = self.consume(TokenType::Assign) {
            return Err(e);
        }
        match self.parse_expression() {
            Ok(value) => Ok(Statement::Assignment { name, value }),
            Err(e) => Err(e),
        }
    }

    fn parse_statement(&mut self) -> (r: Result<Statement, ParseError>)
        requires
            old(self).wf(),
        ensures
            final(self).wf(),
            final(self).tokens@ == old(self).tokens@,
            agrees(r, statement(old(self).tokens@, old(self).pos()), final(self).pos()),
            r is Ok ==> final(self).current > old(self).current,
    {
        match self.peak().token_type {
            TokenType::Print => self.parse_print(),
            TokenType::Let | TokenType::Var => self.parse_declaration(),
            TokenType::Identifier => {
                let token_count = self.tokens.len();
                assert(self.current + 1 < token_count);
                if self.tokens[self.current + 1].token_type == TokenType::Assign {
                    self.parse_assignment()
                } else {
                    match self.parse_expression() {
                        Ok(e) => Ok(Statement::Expression(e)),
                        Err(e) => Err(e),
                    }
                }
            },
            TokenType::Number | TokenType::LeftParen => match self.parse_expression() {
                Ok(e) => Ok(Statement::Expression(e)),
                Err(e) => Err(e),
            },
            _ => Err(ParseError::UnexpectedStatement { found: copy_token(self.peak()) }),
        }
    }

    /// Parses the statements up to the end of input.
    pub fn parse(&mut self) -> (r: Result<AstNode, ParseError>)
        requires
            old(self).wf(),
        ensures
            final(self).wf(),
            final(self).token_seq() == old(self).token_seq(),
            match program_from(old(self).token_seq(), old(self).pos(), Seq::empty()) {
                Ok(stmts) => r matches Ok(AstNode::Program(v)) && v@ == stmts,
                Err(e) => r == Err::<AstNode, ParseError>(e),
            },
    {
        let mut statements: Vec<Statement> = Vec::new();
        while !self.is_at_end()
            invariant
                self.wf(),
                self.tokens@ == old(self).tokens@,
                program_from(self.tokens@, self.pos(), statements@) == program_from(
                    old(self).tokens@,
                    old(self).pos(),
                    Seq::empty(),
                ),
            decreases self.tokens@.len() - self.current,
        {
            match self.parse_statement() {
                Ok(s) => statements.push(s),
                Err(e) => return Err(e),
            }
        }
        Ok(AstNode::Program(statements))
    }
}

/// Parses a token sequence that ends with the end of input into a program.
pub fn parse(tokens: Vec<Token>) -> (r: Result<AstNode, ParseError>)
    requires
        ends_with_end(tokens@),
    ensures
        match parse_program(tokens@) {
            Ok(stmts) => r matches Ok(AstNode::Program(v)) && v@ == stmts,
            Err(e) => r == Err::<AstNode, ParseError>(e),
        },
{
    let mut parser = Parser::new(tokens);
    parser.parse()
}

} // verus!
