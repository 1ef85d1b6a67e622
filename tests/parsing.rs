use tiny_swift::ast::{AstNode, BinaryOperator, Expression, Statement};
use tiny_swift::lexer::tokenize;
use tiny_swift::parser::{parse, ParseError, Parser};
use tiny_swift::token::{Token, TokenType};

fn parse_source(src: &str) -> Result<AstNode, ParseError> {
    parse(tokenize(src).unwrap())
}

fn num(n: i64) -> Expression {
    Expression::Number(n)
}

fn var(name: &str) -> Expression {
    Expression::Variable(name.to_string())
}

fn bin(l: Expression, op: BinaryOperator, r: Expression) -> Expression {
    Expression::Binary { left: Box::new(l), operator: op, right: Box::new(r) }
}

#[test]
fn multiplication_binds_tighter_than_addition() {
    let ast = parse_source("print(2+3*4)").unwrap();
    assert_eq!(
        ast,
        AstNode::Program(vec![Statement::Print(bin(
            num(2),
            BinaryOperator::Add,
            bin(num(3), BinaryOperator::Multiply, num(4))
        ))])
    );
}

#[test]
fn parentheses_override_precedence() {
    let ast = parse_source("print((2+3)*4)").unwrap();
    assert_eq!(
        ast,
        AstNode::Program(vec![Statement::Print(bin(
            bin(num(2), BinaryOperator::Add, num(3)),
            BinaryOperator::Multiply,
            num(4)
        ))])
    );
}

#[test]
fn operators_associate_to_the_left() {
    let ast = parse_source("1-2-3 8/4/2").unwrap();
    assert_eq!(
        ast,
        AstNode::Program(vec![
            Statement::Expression(bin(
                bin(num(1), BinaryOperator::Subtract, num(2)),
                BinaryOperator::Subtract,
                num(3)
            )),
            Statement::Expression(bin(
                bin(num(8), BinaryOperator::Divide, num(4)),
                BinaryOperator::Divide,
                num(2)
            )),
        ])
    );
}

#[test]
fn declarations_and_assignments() {
    let ast = parse_source("let x = 5 var y: Int = x y = y + 1").unwrap();
    assert_eq!(
        ast,
        AstNode::Program(vec![
            Statement::VarDecl { name: "x".to_string(), value: num(5), is_mutable: false },
            Statement::VarDecl { name: "y".to_string(), value: var("x"), is_mutable: true },
            Statement::Assignment {
                name: "y".to_string(),
                value: bin(var("y"), BinaryOperator::Add, num(1)),
            },
        ])
    );
}

#[test]
fn empty_program() {
    assert_eq!(parse_source(""), Ok(AstNode::Program(vec![])));
}

#[test]
fn unbalanced_parenthesis_expects_right_paren() {
    let err = parse_source("print(1+2").unwrap_err();
    assert_eq!(
        err,
        ParseError::ExpectedToken {
            expected: TokenType::RightParen,
            found: Token::new(TokenType::EndOfInput, String::new()),
        }
    );
}

#[test]
fn statement_cannot_start_with_operator() {
    let err = parse_source("+ 1").unwrap_err();
    assert_eq!(
        err,
        ParseError::UnexpectedStatement { found: Token::new(TokenType::Plus, "+".to_string()) }
    );
}

#[test]
fn number_too_large_for_i64() {
    let err = parse_source("print(9223372036854775808)").unwrap_err();
    assert_eq!(err, ParseError::InvalidNumber { lexeme: "9223372036854775808".to_string() });
    let ast = parse_source("print(9223372036854775807)").unwrap();
    assert_eq!(ast, AstNode::Program(vec![Statement::Print(num(i64::MAX))]));
}

#[test]
fn missing_operand() {
    let err = parse_source("print()").unwrap_err();
    assert_eq!(
        err,
        ParseError::ExpectedExpression { found: Token::new(TokenType::RightParen, ")".to_string()) }
    );
}

#[test]
fn declaration_requires_name_and_assign() {
    let err = parse_source("let = 5").unwrap_err();
    assert_eq!(
        err,
        ParseError::ExpectedToken {
            expected: TokenType::Identifier,
            found: Token::new(TokenType::Assign, "=".to_string()),
        }
    );
    let err = parse_source("var x 5").unwrap_err();
    assert_eq!(
        err,
        ParseError::ExpectedToken {
            expected: TokenType::Assign,
            found: Token::new(TokenType::Number, "5".to_string()),
        }
    );
    let err = parse_source("let x: = 5").unwrap_err();
    assert_eq!(
        err,
        ParseError::ExpectedToken {
            expected: TokenType::Identifier,
            found: Token::new(TokenType::Assign, "=".to_string()),
        }
    );
}

#[test]
fn parser_object_parses_tokens() {
    let mut parser = Parser::new(tokenize("print(x)").unwrap());
    assert_eq!(parser.parse(), Ok(AstNode::Program(vec![Statement::Print(var("x"))])));
}

#[test]
fn non_ascii_numeral_in_number_is_invalid() {
    let err = parse_source("print(1٣)").unwrap_err();
    assert_eq!(err, ParseError::InvalidNumber { lexeme: "1٣".to_string() });
}
