//! Polynomial expressions over the cells of the table.
//!
//! An expression is a tree of constants, column queries at a rotation,
//! selector queries, negation, sum, product and scaling. There is no division
//! and no inversion, so an expression is a polynomial in the cells it
//! queries.

use crate::column::{rotate, rotated_row, Column, ColumnKind, Rotation, Shape};
use crate::field::{field_add, field_mul, field_neg, Felt};
use crate::witness::{TableView, WitnessTable};
use vstd::prelude::*;

verus! {

/// A polynomial expression.
#[derive(Debug)]
pub enum Expression {
    /// A field element.
    Constant(Felt),
    /// The cell of an advice, fixed or instance column at a rotation from the
    /// row under evaluation.
    Query(Column, Rotation),
    /// The selector's cell at the row under evaluation.
    Selector(Column),
    /// `-e`.
    Negated(Box<Expression>),
    /// `a + b`.
    Sum(Box<Expression>, Box<Expression>),
    /// `a * b`.
    Product(Box<Expression>, Box<Expression>),
    /// `e * c` for a field element `c`.
    Scaled(Box<Expression>, Felt),
}

impl Clone for Expression {
    fn clone(&self) -> (r: Expression)
        ensures
            r == *self,
        decreases self,
    {
        match self {
            Expression::Constant(c) => Expression::Constant(*c),
            Expression::Query(column, rotation) => Expression::Query(*column, *rotation),
            Expression::Selector(column) => Expression::Selector(*column),
            Expression::Negated(e) => Expression::Negated(Box::new((&**e).clone())),
            Expression::Sum(a, b) => Expression::Sum(
                Box::new((&**a).clone()),
                Box::new((&**b).clone()),
            ),
            Expression::Product(a, b) => Expression::Product(
                Box::new((&**a).clone()),
                Box::new((&**b).clone()),
            ),
            Expression::Scaled(e, c) => Expression::Scaled(Box::new((&**e).clone()), *c),
        }
    }
}

/// A polynomial expression as a mathematical object: the same tree, with the
/// representative of each field element in the element's place.
pub ghost enum Poly {
    Constant(int),
    Query(Column, int),
    Selector(Column),
    Negated(Box<Poly>),
    Sum(Box<Poly>, Box<Poly>),
    Product(Box<Poly>, Box<Poly>),
    Scaled(Box<Poly>, int),
}

impl Poly {
    /// The value of the polynomial at `row` of `table`.
    pub open spec fn eval(self, row: int, table: TableView) -> int
        decreases self,
    {
        match self {
            Poly::Constant(c) => c,
            Poly::Query(column, rotation) => table.read(column, rotated_row(row, rotation, table.rows)),
            Poly::Selector(column) => table.read(column, row),
            Poly::Negated(e) => field_neg(e.eval(row, table)),
            Poly::Sum(a, b) => field_add(a.eval(row, table), b.eval(row, table)),
            Poly::Product(a, b) => field_mul(a.eval(row, table), b.eval(row, table)),
            Poly::Scaled(e, c) => field_mul(e.eval(row, table), c),
        }
    }

    /// The first column, reading from the left, that the polynomial queries
    /// and `shape` does not have in the queried role: a cell query needs an
    /// advice, fixed or instance column, a selector query a selector.
    pub open spec fn first_unknown(self, shape: Shape) -> Option<Column>
        decreases self,
    {
        match self {
            Poly::Constant(_) => None,
            Poly::Query(column, _) => if shape.has(column) && (column.kind == ColumnKind::Advice
                || column.kind == ColumnKind::Fixed || column.kind == ColumnKind::Instance) {
                None
            } else {
                Some(column)
            },
            Poly::Selector(column) => if shape.has(column) && column.kind == ColumnKind::Selector {
                None
            } else {
                Some(column)
            },
            Poly::Negated(e) => e.first_unknown(shape),
            Poly::Sum(a, b) => match a.first_unknown(shape) {
                Some(column) => Some(column),
                None => b.first_unknown(shape),
            },
            Poly::Product(a, b) => match a.first_unknown(shape) {
                Some(column) => Some(column),
                None => b.first_unknown(shape),
            },
            Poly::Scaled(e, _) => e.first_unknown(shape),
        }
    }

    /// Whether a selector tagged simple is queried anywhere in the
    /// polynomial. `simple[i]` is the tag of selector `i`.
    pub open spec fn has_simple_selector(self, simple: Seq<bool>) -> bool
        decreases self,
    {
        match self {
            Poly::Constant(_) => false,
            Poly::Query(_, _) => false,
            Poly::Selector(column) => column.index < simple.len() && simple[column.index as int],
            Poly::Negated(e) => e.has_simple_selector(simple),
            Poly::Sum(a, b) => a.has_simple_selector(simple) || b.has_simple_selector(simple),
            Poly::Product(a, b) => a.has_simple_selector(simple) || b.has_simple_selector(simple),
            Poly::Scaled(e, _) => e.has_simple_selector(simple),
        }
    }

    /// The shape that a gate identity must have: either no simple selector
    /// occurs in it, or it is a product of one selector query and a factor
    /// without simple selectors.
    pub open spec fn well_gated(self, simple: Seq<bool>) -> bool {
        ||| !self.has_simple_selector(simple)
        ||| self matches Poly::Product(a, b) && {
            ||| (*a is Selector && !b.has_simple_selector(simple))
            ||| (*b is Selector && !a.has_simple_selector(simple))
        }
    }

    /// `a - b`, which is `a + (-b)`.
    pub open spec fn minus(self, rhs: Poly) -> Poly {
        Poly::Sum(Box::new(self), Box::new(Poly::Negated(Box::new(rhs))))
    }

    /// `a * b`.
    pub open spec fn times(self, rhs: Poly) -> Poly {
        Poly::Product(Box::new(self), Box::new(rhs))
    }

    /// `a + b`.
    pub open spec fn plus(self, rhs: Poly) -> Poly {
        Poly::Sum(Box::new(self), Box::new(rhs))
    }
}

/// A query one row ahead, evaluated at the last row of the domain, reads
/// row 0; a query one row back, evaluated at row 0, reads the last row.
pub proof fn lemma_query_wraps(column: Column, table: TableView)
    requires
        table.rows > 0,
    ensures
        Poly::Query(column, 1).eval(table.rows - 1, table) == table.read(column, 0),
        Poly::Query(column, -1).eval(0, table) == table.read(column, table.rows - 1),
{
    crate::column::lemma_rotation_wraps(table.rows);
}

impl View for Expression {
    type V = Poly;

    open spec fn view(&self) -> Poly {
        self.poly()
    }
}

impl Expression {
    /// The polynomial that the expression stands for.
    pub open spec fn poly(self) -> Poly
        decreases self,
    {
        match self {
            Expression::Constant(c) => Poly::Constant(c.value()),
            Expression::Query(column, rotation) => Poly::Query(column, rotation.0 as int),
            Expression::Selector(column) => Poly::Selector(column),
            Expression::Negated(e) => Poly::Negated(Box::new(e.poly())),
            Expression::Sum(a, b) => Poly::Sum(Box::new(a.poly()), Box::new(b.poly())),
            Expression::Product(a, b) => Poly::Product(Box::new(a.poly()), Box::new(b.poly())),
            Expression::Scaled(e, c) => Poly::Scaled(Box::new(e.poly()), c.value()),
        }
    }

    /// A constant.
    pub fn constant(value: Felt) -> (r: Expression)
        ensures
            r@ == Poly::Constant(value.value()),
    {
        Expression::Constant(value)
    }

    /// The cell of `column` at `rotation` from the current row.
    pub fn query(column: Column, rotation: Rotation) -> (r: Expression)
        ensures
            r@ == Poly::Query(column, rotation.0 as int),
    {
        Expression::Query(column, rotation)
    }

    /// The selector's cell at the current row.
    pub fn selector(column: Column) -> (r: Expression)
        ensures
            r@ == Poly::Selector(column),
    {
        Expression::Selector(column)
    }

    /// `-self`.
    pub fn negate(self) -> (r: Expression)
        ensures
            r@ == Poly::Negated(Box::new(self@)),
    {
        Expression::Negated(Box::new(self))
    }

    /// `self + rhs`.
    pub fn plus(self, rhs: Expression) -> (r: Expression)
        ensures
            r@ == self@.plus(rhs@),
    {
        Expression::Sum(Box::new(self), Box::new(rhs))
    }

    /// `self - rhs`, built as `self + (-rhs)`.
    pub fn minus(self, rhs: Expression) -> (r: Expression)
        ensures
            r@ == self@.minus(rhs@),
    {
        proof {
            assert(Expression::Negated(Box::new(rhs)).poly() == Poly::Negated(Box::new(rhs.poly())));
        }
        Expression::Sum(Box::new(self), Box::new(Expression::Negated(Box::new(rhs))))
    }

    /// `self * rhs`.
    pub fn times(self, rhs: Expression) -> (r: Expression)
        ensures
            r@ == self@.times(rhs@),
    {
        Expression::Product(Box::new(self), Box::new(rhs))
    }

    /// `self * factor`.
    pub fn scale(self, factor: Felt) -> (r: Expression)
        ensures
            r@ == Poly::Scaled(Box::new(self@), factor.value()),
    {
        Expression::Scaled(Box::new(self), factor)
    }

    /// Evaluates the expression at `row`. A query reads the row that its
    /// rotation leads to in the cyclic domain; an unassigned cell reads as
    /// zero.
    pub fn evaluate(&self, row: usize, table: &WitnessTable) -> (r: Felt)
        requires
            table.wf(),
        ensures
            r.value() == self@.eval(row as int, table@),
            r.canonical(),
        decreases self,
    {
        proof {
            table.lemma_view_wf();
        }
        match self {
            Expression::Constant(c) => {
                proof {
                    use_type_invariant(c);
                }
                *c
            },
            Expression::Query(column, rotation) => {
                let at = rotate(row, *rotation, table.domain_size());
                match table.get(*column, at) {
                    Some(v) => v,
                    None => Felt::zero(),
                }
            },
            Expression::Selector(column) => match table.get(*column, row) {
                Some(v) => v,
                None => Felt::zero(),
            },
            Expression::Negated(e) => e.evaluate(row, table).negated(),
            Expression::Sum(a, b) => {
                let x = a.evaluate(row, table);
                let y = b.evaluate(row, table);
                x.plus(&y)
            },
            Expression::Product(a, b) => {
                let x = a.evaluate(row, table);
                let y = b.evaluate(row, table);
                x.times(&y)
            },
            Expression::Scaled(e, c) => e.evaluate(row, table).times(c),
        }
    }

    /// Looks for a queried column that `shape` does not have in the queried
    /// role, reading from the left.
    pub fn find_unknown(&self, shape: &Shape) -> (r: Option<Column>)
        ensures
            r == self@.first_unknown(*shape),
        decreases self,
    {
        match self {
            Expression::Constant(_) => None,
            Expression::Query(column, _) => {
                let cell_kind = match column.kind {
                    ColumnKind::Advice => true,
                    ColumnKind::Fixed => true,
                    ColumnKind::Instance => true,
                    _ => false,
                };
                if shape.contains(*column) && cell_kind {
                    None
                } else {
                    Some(*column)
                }
            },
            Expression::Selector(column) => {
                let selector_kind = match column.kind {
                    ColumnKind::Selector => true,
                    _ => false,
                };
                if shape.contains(*column) && selector_kind {
                    None
                } else {
                    Some(*column)
                }
            },
            Expression::Negated(e) => e.find_unknown(shape),
            Expression::Sum(a, b) => match a.find_unknown(shape) {
                Some(column) => Some(column),
                None => b.find_unknown(shape),
            },
            Expression::Product(a, b) => match a.find_unknown(shape) {
                Some(column) => Some(column),
                None => b.find_unknown(shape),
            },
            Expression::Scaled(e, _) => e.find_unknown(shape),
        }
    }

    /// Whether a selector tagged simple is queried anywhere in the
    /// expression.
    pub fn contains_simple_selector(&self, simple: &Vec<bool>) -> (r: bool)
        ensures
            r == self@.has_simple_selector(simple@),
        decreases self,
    {
        match self {
            Expression::Constant(_) => false,
            Expression::Query(_, _) => false,
            Expression::Selector(column) => column.index < simple.len() && simple[column.index],
            Expression::Negated(e) => e.contains_simple_selector(simple),
            Expression::Sum(a, b) => a.contains_simple_selector(simple) || b.contains_simple_selector(
                simple,
            ),
            Expression::Product(a, b) => a.contains_simple_selector(simple)
                || b.contains_simple_selector(simple),
            Expression::Scaled(e, _) => e.contains_simple_selector(simple),
        }
    }

    /// Whether this is a selector query.
    pub fn is_selector_query(&self) -> (r: bool)
        ensures
            r == (self@ is Selector),
    {
        match self {
            Expression::Selector(_) => true,
            _ => false,
        }
    }

    /// Whether the expression has the shape of a gate identity.
    pub fn is_well_gated(&self, simple: &Vec<bool>) -> (r: bool)
        ensures
            r == self@.well_gated(simple@),
    {
        if !self.contains_simple_selector(simple) {
            return true;
        }
        match self {
            Expression::Product(a, b) => (a.is_selector_query() && !b.contains_simple_selector(simple))
                || (b.is_selector_query() && !a.contains_simple_selector(simple)),
            _ => false,
        }
    }
}

} // verus!
