//! Columns of the table, rotations between rows, and the count of columns of
//! each kind.

use vstd::arithmetic::div_mod::{
    lemma_add_mod_noop, lemma_mod_multiples_vanish, lemma_mod_self_0, lemma_small_mod, lemma_sub_mod_noop,
};
use vstd::prelude::*;

verus! {

/// What a column holds.
#[derive(Clone, Copy, Debug, PartialEq, Eq, Structural)]
pub enum ColumnKind {
    /// Witness values, assigned during synthesis.
    Advice,
    /// Constants of the circuit.
    Fixed,
    /// Public inputs.
    Instance,
    /// A 0/1 switch for gates.
    Selector,
    /// One component of a precomputed lookup table.
    LookupTable,
}

/// A column: its kind and its index among the columns of that kind.
#[derive(Clone, Copy, Debug, PartialEq, Eq, Structural)]
pub struct Column {
    pub kind: ColumnKind,
    pub index: usize,
}

/// A signed row offset, resolved cyclically over the domain.
#[derive(Clone, Copy, Debug, PartialEq, Eq, Structural)]
pub struct Rotation(pub i32);

impl Rotation {
    /// The row itself.
    pub fn cur() -> (r: Rotation)
        ensures
            r.0 == 0,
    {
        Rotation(0)
    }

    /// The row before.
    pub fn prev() -> (r: Rotation)
        ensures
            r.0 == -1,
    {
        Rotation(-1)
    }

    /// The row after.
    pub fn next() -> (r: Rotation)
        ensures
            r.0 == 1,
    {
        Rotation(1)
    }
}

/// The row that `rotation` leads to from `row` in a cyclic domain of `rows`
/// rows.
pub open spec fn rotated_row(row: int, rotation: int, rows: int) -> int {
    (row + rotation) % rows
}

/// Resolves a rotation: the result is `(row + rotation) mod rows`, a row of
/// the domain whatever the rotation.
pub fn rotate(row: usize, rotation: Rotation, rows: usize) -> (r: usize)
    requires
        rows > 0,
    ensures
        r == rotated_row(row as int, rotation.0 as int, rows as int),
        r < rows,
{
    let n: u128 = rows as u128;
    let base: u128 = (row as u128) % n;
    proof {
        lemma_add_mod_noop(row as int, rotation.0 as int, rows as int);
        lemma_sub_mod_noop(row as int, -(rotation.0 as int), rows as int);
    }
    if rotation.0 >= 0 {
        let step: u128 = (rotation.0 as u128) % n;
        let r: u128 = (base + step) % n;
        r as usize
    } else {
        let back: u128 = ((-(rotation.0 as i64)) as u128) % n;
        let r: u128 = (base + (n - back)) % n;
        proof {
            lemma_mod_multiples_vanish(1, base - back, rows as int);
        }
        r as usize
    }
}

/// A rotation always lands inside the domain.
pub proof fn lemma_rotated_row_in_domain(row: int, rotation: int, rows: int)
    requires
        rows > 0,
    ensures
        0 <= rotated_row(row, rotation, rows) < rows,
{
}

/// Rotating forward by one from the last row of the domain reads row 0, and
/// rotating backward by one from row 0 reads the last row.
pub proof fn lemma_rotation_wraps(rows: int)
    requires
        rows > 0,
    ensures
        rotated_row(rows - 1, 1, rows) == 0,
        rotated_row(0, -1, rows) == rows - 1,
{
    lemma_mod_self_0(rows);
    lemma_mod_multiples_vanish(-1, rows - 1, rows);
    lemma_small_mod((rows - 1) as nat, rows as nat);
}

/// Rotations that differ by a multiple of the domain size read the same row.
pub proof fn lemma_rotation_is_cyclic(row: int, rotation: int, turns: int, rows: int)
    requires
        rows > 0,
    ensures
        rotated_row(row, rotation + turns * rows, rows) == rotated_row(row, rotation, rows),
{
    lemma_mod_multiples_vanish(turns, row + rotation, rows);
    assert(rows * turns + (row + rotation) == row + (rotation + turns * rows)) by (nonlinear_arith);
}

/// How many columns of each kind a constraint system has allocated.
#[derive(Clone, Copy, Debug, PartialEq, Eq, Structural)]
pub struct Shape {
    pub advice: usize,
    pub fixed: usize,
    pub instance: usize,
    pub selectors: usize,
    pub tables: usize,
}

impl Shape {
    /// The number of columns of `kind`.
    pub open spec fn count(self, kind: ColumnKind) -> int {
        match kind {
            ColumnKind::Advice => self.advice as int,
            ColumnKind::Fixed => self.fixed as int,
            ColumnKind::Instance => self.instance as int,
            ColumnKind::Selector => self.selectors as int,
            ColumnKind::LookupTable => self.tables as int,
        }
    }

    /// Whether `column` is one of the allocated columns.
    pub open spec fn has(self, column: Column) -> bool {
        column.index < self.count(column.kind)
    }

    /// The shape with no column.
    pub fn empty() -> (r: Shape)
        ensures
            r == (Shape { advice: 0, fixed: 0, instance: 0, selectors: 0, tables: 0 }),
    {
        Shape { advice: 0, fixed: 0, instance: 0, selectors: 0, tables: 0 }
    }

    /// The number of columns of `kind`.
    pub fn columns(&self, kind: ColumnKind) -> (r: usize)
        ensures
            r == self.count(kind),
    {
        match kind {
            ColumnKind::Advice => self.advice,
            ColumnKind::Fixed => self.fixed,
            ColumnKind::Instance => self.instance,
            ColumnKind::Selector => self.selectors,
            ColumnKind::LookupTable => self.tables,
        }
    }

    /// Whether `column` is one of the allocated columns.
    pub fn contains(&self, column: Column) -> (r: bool)
        ensures
            r == self.has(column),
    {
        column.index < self.columns(column.kind)
    }
}

} // verus!
