//! The syntax tree that the compiler takes.
//!
//! The tree comes from a parser and is taken to be well formed; nothing in
//! it is checked for type.
use vstd::prelude::*;

verus! {

/// An operator that stands before its operand.
#[derive(Clone, Copy, Debug, PartialEq, Eq, Structural)]
pub enum PrefixOperator {
    /// `-`
    Minus,
    /// `!`
    Bang,
}

/// An operator that stands between its operands.
#[derive(Clone, Copy, Debug, PartialEq, Eq, Structural)]
pub enum InfixOperator {
    /// `+`
    Plus,
    /// `-`
    Minus,
    /// `*`
    Asterisk,
    /// `/`
    Slash,
    /// `==`
    Equal,
    /// `!=`
    NotEqual,
    /// `>`
    GreaterThan,
    /// `<`
    LessThan,
}

/// Something that has a value.
#[derive(Debug)]
#[allow(inconsistent_fields)]
pub enum Expression {
    IntegerLiteral(i64),
    BooleanLiteral(bool),
    StringLiteral(String),
    Identifier(String),
    Prefix { operator: PrefixOperator, right: Box<Expression> },
    Infix { operator: InfixOperator, left: Box<Expression>, right: Box<Expression> },
    /// `if (condition) { consequence } else { alternative }`
    If { condition: Box<Expression>, consequence: BlockStatement, alternative: Option<BlockStatement> },
    /// `[a, b, c]`
    ArrayLiteral(Vec<Expression>),
    /// `{k: v, l: w}`, the pairs in the order in which they were written.
    HashLiteral(Vec<(Expression, Expression)>),
    /// `left[index]`
    Index { left: Box<Expression>, index: Box<Expression> },
}

/// One step of a program.
#[derive(Debug)]
pub enum Statement {
    /// `let name = value;`
    Let { name: String, value: Expression },
    /// An expression that stands where a statement is expected.
    Expression(Expression),
}

/// The statements between a pair of braces.
#[derive(Debug)]
pub struct BlockStatement {
    pub statements: Vec<Statement>,
}

/// A whole program.
#[derive(Debug)]
pub struct Program {
    pub statements: Vec<Statement>,
}

} // verus!
