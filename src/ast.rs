use vstd::prelude::*;

verus! {

/// The root of a syntax tree: the statements of a program, in order.
#[derive(Debug, PartialEq)]
pub enum AstNode {
    Program(Vec<Statement>),
}

#[derive(Debug, PartialEq)]
pub enum Statement {
    Print(Expression),
    VarDecl { name: String, value: Expression, is_mutable: bool },
    Assignment { name: String, value: Expression },
    Expression(Expression),
}

#[derive(Debug, PartialEq)]
pub enum Expression {
    Number(i64),
    Variable(String),
    Binary { left: Box<Expression>, operator: BinaryOperator, right: Box<Expression> },
}

#[derive(Debug, Clone, Copy, PartialEq, Eq, Structural)]
pub enum BinaryOperator {
    Add,
    Subtract,
    Multiply,
    Divide,
}

} // verus!
