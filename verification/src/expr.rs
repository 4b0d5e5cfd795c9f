//! A demonstration expression model: the output shape of a future parser.
//! A closed set of node variants visited by double dispatch.

use vstd::prelude::*;

use crate::token::Token;

verus! {

/// One visit method per expression variant.
pub trait Visitor<T> {
    fn visit_binary(&mut self, bin: &Bin) -> T;

    fn visit_grouping(&mut self, grp: &Grp) -> T;

    fn visit_literal(&mut self, lit: &Lit) -> T;

    fn visit_unary(&mut self, unr: &Unr) -> T;
}

/// The closed set of expression variants.
pub enum ExprType {
    Binary(Bin),
    Grouping(Grp),
    Literal(Lit),
    Unary(Unr),
}

/// What every expression offers: dispatch to the visit method of its
/// variant.
pub trait Expr<T> {
    fn accept<V: Visitor<T>>(&self, visitor: &mut V) -> T;
}

impl<T> Expr<T> for ExprType {
    fn accept<V: Visitor<T>>(&self, visitor: &mut V) -> T {
        match self {
            ExprType::Binary(b) => visitor.visit_binary(b),
            ExprType::Grouping(g) => visitor.visit_grouping(g),
            ExprType::Literal(l) => visitor.visit_literal(l),
            ExprType::Unary(u) => visitor.visit_unary(u),
        }
    }
}

/// An infix operator applied to two subexpressions.
pub struct Bin {
    pub left: Box<ExprType>,
    pub operator: Token,
    pub right: Box<ExprType>,
}

/// A parenthesized subexpression.
pub struct Grp {
    pub expr: Box<ExprType>,
}

/// A literal value, carried as its source text.
pub struct Lit {
    pub value: String,
}

/// A prefix operator applied to one subexpression.
pub struct Unr {
    pub operator: Token,
    pub right: Box<ExprType>,
}

} // verus!
