//! Failures of construction and of synthesis.

use crate::column::Column;
use vstd::prelude::*;

verus! {

/// Why building a constraint system, or filling a witness table, stopped.
///
/// Violated constraints are not errors: the checker returns them as data.
#[derive(Clone, Copy, Debug, PartialEq, Eq)]
pub enum Error {
    /// An expression or an assignment names a column that was never
    /// allocated.
    UnknownColumn { column: Column },
    /// A gate was registered without any identity.
    EmptyGate { gate: &'static str },
    /// A simple selector stands where it may not: anywhere but as a factor of
    /// a whole gate identity, or anywhere in a lookup input. `index` is the
    /// position of the identity or of the pair.
    SelectorMisuse { constraint: &'static str, index: usize },
    /// A lookup pairs an input with something that is no allocated
    /// lookup-table column.
    UndeclaredTable { lookup: &'static str, column: Column },
    /// A column of one kind was handed to an operation for another kind.
    WrongColumnKind { column: Column },
    /// A domain of `2^k` rows cannot be addressed on this machine.
    DomainTooLarge { k: u32 },
    /// A full run met a cell without a value.
    Synthesis { region: &'static str, column: Column, offset: usize },
    /// A cell was assigned a second time.
    AssignmentCollision { column: Column, row: usize },
    /// A row outside the domain was addressed.
    RowOutOfDomain { column: Column, row: usize },
    /// A region does not fit in the rows that are left: the assignment at
    /// `offset` is the first that falls outside the domain.
    LayoutOverflow { region: &'static str, column: Column, offset: usize },
}

} // verus!
