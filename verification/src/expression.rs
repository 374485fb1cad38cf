//! Polynomials over the cells of a circuit, and what they evaluate to.

use crate::field::{fadd, fmul};
use vstd::prelude::*;

verus! {

/// A polynomial over the cells around a row.
#[derive(Debug)]
pub enum Expression {
    /// A selector at the row: one where it is on, zero where it is off.
    Selector(usize),
    /// The cell of a fixed column at the row.
    Fixed(usize),
    /// The cell of a witness column, `rotation` rows after the row.
    Advice { column: usize, rotation: i32 },
    /// The sum of two polynomials.
    Sum(Box<Expression>, Box<Expression>),
    /// The product of two polynomials.
    Product(Box<Expression>, Box<Expression>),
}

/// The cells of a circuit: what each column holds at each row.
pub struct Cells {
    pub advice: spec_fn(usize, int) -> nat,
    pub fixed: spec_fn(usize, int) -> nat,
    pub selector: spec_fn(usize, int) -> bool,
}

/// The value of a polynomial at a row, in the field.
pub open spec fn eval(e: Expression, cells: Cells, row: int) -> nat
    decreases e,
{
    match e {
        Expression::Selector(s) => if (cells.selector)(s, row) {
            1
        } else {
            0
        },
        Expression::Fixed(column) => (cells.fixed)(column, row),
        Expression::Advice { column, rotation } => (cells.advice)(column, row + rotation),
        Expression::Sum(a, b) => fadd(eval(*a, cells, row), eval(*b, cells, row)),
        Expression::Product(a, b) => fmul(eval(*a, cells, row), eval(*b, cells, row)),
    }
}

impl Expression {
    /// The sum of two polynomials.
    pub fn sum(a: Expression, b: Expression) -> (r: Expression)
        ensures
            r == Expression::Sum(Box::new(a), Box::new(b)),
    {
        Expression::Sum(Box::new(a), Box::new(b))
    }

    /// The product of two polynomials.
    pub fn product(a: Expression, b: Expression) -> (r: Expression)
        ensures
            r == Expression::Product(Box::new(a), Box::new(b)),
    {
        Expression::Product(Box::new(a), Box::new(b))
    }
}

} // verus!
