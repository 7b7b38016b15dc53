//! The expression tree that the parser builds and the evaluator reduces.

use vstd::prelude::*;

verus! {

/// One parsed line: the expression and the way its value is to be shown.
#[derive(Debug, PartialEq)]
pub struct Calculation {
    pub expr: Expr,
    pub formatter: Option<Formatter>,
}

/// The display directive that may end a line: `#x` or `#b`.
#[derive(Debug, PartialEq, Eq, Clone, Copy)]
pub enum Formatter {
    Hex,
    Binary,
}

/// A node of the expression tree.
#[derive(Debug, PartialEq)]
pub enum Expr {
    Integer(Integer),
    BinaryOp(BinaryOp),
}

/// A leaf: the value of an integer literal.
#[derive(Debug, PartialEq)]
pub struct Integer {
    pub value: i64,
}

/// An operator applied to two sub-expressions, each owned by the node.
#[derive(Debug, PartialEq)]
pub struct BinaryOp {
    pub lhs: Box<Expr>,
    pub rhs: Box<Expr>,
    pub op: Op,
}

/// The binary operators.
#[derive(Debug, PartialEq, Eq, Clone, Copy)]
pub enum Op {
    Add,
    Sub,
    Mul,
    Div,
    Pow,
}

/// How a run of operators of one precedence groups.
#[derive(Debug, PartialEq, Eq, Clone, Copy)]
pub enum Associativity {
    Left,
    Right,
}

/// The loosest binding strength an operator has.
pub const MIN_PRECEDENCE: u8 = 1;

/// The tightest binding strength an operator has.
pub const MAX_PRECEDENCE: u8 = 3;

impl Op {
    /// The operator that a character spells, if any.
    pub open spec fn of_char(c: char) -> Option<Op> {
        if c == '+' {
            Some(Op::Add)
        } else if c == '-' {
            Some(Op::Sub)
        } else if c == '*' {
            Some(Op::Mul)
        } else if c == '/' {
            Some(Op::Div)
        } else if c == '^' {
            Some(Op::Pow)
        } else {
            None
        }
    }

    /// The character that spells the operator.
    pub open spec fn spec_symbol(&self) -> char {
        match *self {
            Op::Add => '+',
            Op::Sub => '-',
            Op::Mul => '*',
            Op::Div => '/',
            Op::Pow => '^',
        }
    }

    /// Binding strength: a higher number binds tighter.
    pub open spec fn spec_precedence(&self) -> u8 {
        match *self {
            Op::Add | Op::Sub => 1,
            Op::Mul | Op::Div => 2,
            Op::Pow => 3,
        }
    }

    /// Grouping of consecutive operators of the same strength.
    pub open spec fn spec_associativity(&self) -> Associativity {
        match *self {
            Op::Pow => Associativity::Right,
            _ => Associativity::Left,
        }
    }

    pub fn from_char(c: char) -> (r: Option<Op>)
        ensures
            r == Op::of_char(c),
    {
        if c == '+' {
            Some(Op::Add)
        } else if c == '-' {
            Some(Op::Sub)
        } else if c == '*' {
            Some(Op::Mul)
        } else if c == '/' {
            Some(Op::Div)
        } else if c == '^' {
            Some(Op::Pow)
        } else {
            None
        }
    }

    #[verifier::when_used_as_spec(spec_symbol)]
    pub fn symbol(&self) -> (c: char)
        ensures
            c == self.spec_symbol(),
            Op::of_char(c) == Some(*self),
    {
        match self {
            Op::Add => '+',
            Op::Sub => '-',
            Op::Mul => '*',
            Op::Div => '/',
            Op::Pow => '^',
        }
    }

    #[verifier::when_used_as_spec(spec_precedence)]
    pub fn precedence(&self) -> (p: u8)
        ensures
            p == self.spec_precedence(),
            MIN_PRECEDENCE <= p <= MAX_PRECEDENCE,
    {
        match *self {
            Op::Add | Op::Sub => 1,
            Op::Mul | Op::Div => 2,
            Op::Pow => 3,
        }
    }

    #[verifier::when_used_as_spec(spec_associativity)]
    pub fn associativity(&self) -> (a: Associativity)
        ensures
            a == self.spec_associativity(),
    {
        match *self {
            Op::Pow => Associativity::Right,
            _ => Associativity::Left,
        }
    }
}

/// The node that applies `op` to `lhs` and `rhs`.
pub open spec fn binary(lhs: Expr, op: Op, rhs: Expr) -> Expr {
    Expr::BinaryOp(BinaryOp { lhs: Box::new(lhs), rhs: Box::new(rhs), op })
}

/// The leaf that holds `value`.
pub open spec fn integer(value: i64) -> Expr {
    Expr::Integer(Integer { value })
}

impl Expr {
    pub fn binary(lhs: Expr, op: Op, rhs: Expr) -> (e: Expr)
        ensures
            e == self::binary(lhs, op, rhs),
    {
        Expr::BinaryOp(BinaryOp { lhs: Box::new(lhs), rhs: Box::new(rhs), op })
    }

    pub fn integer(value: i64) -> (e: Expr)
        ensures
            e == self::integer(value),
    {
        Expr::Integer(Integer { value })
    }
}

} // verus!
