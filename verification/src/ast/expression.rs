use vstd::prelude::*;

verus! {

/// An expression. A number is held as its 32-bit pattern.
#[derive(Debug)]
pub enum Expression {
    Binary(Box<BinaryExpression>),
    Unary(Box<UnaryExpression>),
    Group(Box<GroupExpression>),
    Call(Box<CallExpression>),
    Member(Box<MemberExpression>),
    Nil,
    Bool(bool),
    Number(u32),
    String(String),
    Identifier(String),
    Object(Box<ObjectExpression>),
    Array(Box<ArrayExpression>),
    Assigment(Box<AssignmentExpression>),
}

#[derive(Debug)]
pub struct Identifier {
    pub name: String,
    pub id: u32,
}

#[derive(Debug)]
pub struct AssignmentExpression {
    pub assignee: Expression,
    pub value: Expression,
}

#[derive(Debug)]
pub struct ObjectExpression {
    pub properties: Vec<Expression>,
    pub values: Vec<Expression>,
}

#[derive(Debug)]
pub struct ArrayExpression {
    pub values: Vec<Expression>,
}

#[derive(Debug)]
pub struct MemberExpression {
    pub callee: Expression,
    pub property: Expression,
}

#[derive(Debug)]
pub struct CallExpression {
    pub callee: Expression,
    pub args: Vec<Expression>,
}

#[derive(Debug)]
pub struct BinaryExpression {
    pub left: Expression,
    pub operator: Operator,
    pub right: Expression,
}

#[derive(Debug)]
pub struct UnaryExpression {
    pub operator: Operator,
    pub expr: Expression,
}

#[derive(Debug)]
pub struct GroupExpression {
    pub expr: Expression,
}

#[derive(Debug, Clone, Copy, PartialEq, Eq, Structural)]
pub enum Operator {
    And,
    Or,
    Ge,
    Le,
    Eq,
    NE,
    Greater,
    Less,
    Plus,
    Minus,
    Pow,
    Mul,
    Mod,
    Div,
}

impl Expression {
    pub fn get_identifier(&self) -> (name: Option<&String>)
        ensures
            name == match *self {
                Expression::Identifier(val) => Some(&val),
                _ => None,
            },
    {
        match self {
            Expression::Identifier(val) => Some(val),
            _ => None,
        }
    }

    pub fn get_number(&self) -> (bits: Option<u32>)
        ensures
            bits == match *self {
                Expression::Number(val) => Some(val),
                _ => None,
            },
    {
        match self {
            Expression::Number(val) => Some(*val),
            _ => None,
        }
    }
}

} // verus!
