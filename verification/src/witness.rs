//! The witness table: a grid of cells, one per column and absolute row, each
//! unassigned or holding a field element.

use crate::column::{Column, ColumnKind, Shape};
use crate::error::Error;
use crate::field::{modulus, Felt};
use vstd::arithmetic::power2::{lemma_pow2_pos, lemma_pow2_strictly_increases, lemma_pow2_unfold, pow2};
use vstd::prelude::*;

verus! {

/// The table as a mathematical object: a partial map from (column, row) to
/// the representative of the value assigned there.
pub ghost struct TableView {
    /// The domain exponent.
    pub k: nat,
    /// The number of rows, `2^k`.
    pub rows: int,
    /// The columns of the table.
    pub shape: Shape,
    /// The assigned cells.
    pub cells: Map<(Column, int), int>,
}

impl TableView {
    /// Whether the cell has been assigned.
    pub open spec fn assigned(self, column: Column, row: int) -> bool {
        self.cells.dom().contains((column, row))
    }

    /// What a constraint reads at the cell: its value, or zero while it is
    /// unassigned.
    pub open spec fn read(self, column: Column, row: int) -> int {
        if self.assigned(column, row) {
            self.cells[(column, row)]
        } else {
            0
        }
    }

    /// Whether (column, row) names a cell of the table.
    pub open spec fn in_grid(self, column: Column, row: int) -> bool {
        self.shape.has(column) && 0 <= row < self.rows
    }

    /// The invariants of a table: it has `2^k` rows, which the machine can
    /// address; assigned cells lie in the grid and hold canonical values; and
    /// a selector cell holds nothing but 1.
    pub open spec fn wf(self) -> bool {
        &&& self.rows == pow2(self.k)
        &&& 0 < self.rows <= usize::MAX
        &&& forall|column: Column, row: int| #[trigger]
            self.assigned(column, row) ==> {
                &&& self.in_grid(column, row)
                &&& 0 <= self.cells[(column, row)] < modulus()
                &&& column.kind == ColumnKind::Selector ==> self.cells[(column, row)] == 1
            }
    }

    /// Why the cell cannot take a value, if it cannot.
    pub open spec fn put_error(self, column: Column, row: usize) -> Option<Error> {
        if !self.shape.has(column) {
            Some(Error::UnknownColumn { column })
        } else if row >= self.rows {
            Some(Error::RowOutOfDomain { column, row })
        } else if self.assigned(column, row as int) {
            Some(Error::AssignmentCollision { column, row })
        } else {
            None
        }
    }

    /// Why a value cannot be set at the cell, if it cannot: selector cells are
    /// switched on, never set.
    pub open spec fn set_error(self, column: Column, row: usize) -> Option<Error> {
        if column.kind == ColumnKind::Selector {
            Some(Error::WrongColumnKind { column })
        } else {
            self.put_error(column, row)
        }
    }

    /// Why the selector cannot be switched on at the row, if it cannot.
    pub open spec fn enable_error(self, column: Column, row: usize) -> Option<Error> {
        if column.kind != ColumnKind::Selector {
            Some(Error::WrongColumnKind { column })
        } else {
            self.put_error(column, row)
        }
    }

    /// The table with one more cell assigned.
    pub open spec fn put(self, column: Column, row: int, value: int) -> TableView {
        TableView { cells: self.cells.insert((column, row), value), ..self }
    }
}

/// A selector cell reads 0 or 1 at every row of a well-formed table.
pub proof fn lemma_selector_is_boolean(table: TableView, column: Column, row: int)
    requires
        table.wf(),
        column.kind == ColumnKind::Selector,
    ensures
        table.read(column, row) == 0 || table.read(column, row) == 1,
{
    if table.assigned(column, row) {
    }
}

/// The representatives of the public inputs, one sequence for each instance
/// column.
pub open spec fn instance_values(instance: Seq<Vec<Felt>>) -> Seq<Seq<int>> {
    Seq::new(instance.len(), |i: int| Seq::new(instance[i]@.len(), |j: int| instance[i]@[j].value()))
}

/// Whether column `i` is the first instance column with more values than the
/// domain has rows.
pub open spec fn first_overlong(instance: Seq<Seq<int>>, rows: int, i: int) -> bool {
    &&& 0 <= i < instance.len()
    &&& instance[i].len() > rows
    &&& forall|j: int| 0 <= j < i ==> instance[j].len() <= rows
}

/// Why no table can be made for these parameters, if none can.
pub open spec fn initial_error(k: u32, shape: Shape, instance: Seq<Seq<int>>) -> Option<Error> {
    if pow2(k as nat) > usize::MAX {
        Some(Error::DomainTooLarge { k })
    } else if instance.len() > shape.instance {
        Some(Error::UnknownColumn { column: Column { kind: ColumnKind::Instance, index: shape.instance } })
    } else if exists|i: int| first_overlong(instance, pow2(k as nat) as int, i) {
        let i = choose|i: int| first_overlong(instance, pow2(k as nat) as int, i);
        Some(
            Error::RowOutOfDomain {
                column: Column { kind: ColumnKind::Instance, index: i as usize },
                row: pow2(k as nat) as usize,
            },
        )
    } else {
        None
    }
}

/// The table before synthesis: the public inputs stand in the instance
/// columns from row 0 on, and every other cell is unassigned.
pub open spec fn initial_table(k: u32, shape: Shape, instance: Seq<Seq<int>>) -> TableView {
    TableView {
        k: k as nat,
        rows: pow2(k as nat) as int,
        shape,
        cells: Map::new(
            |key: (Column, int)|
                key.0.kind == ColumnKind::Instance && key.0.index < instance.len() && 0 <= key.1
                    < instance[key.0.index as int].len(),
            |key: (Column, int)| instance[key.0.index as int][key.1],
        ),
    }
}

/// The position of a kind's columns in the table's storage.
pub open spec fn slot(kind: ColumnKind) -> int {
    match kind {
        ColumnKind::Advice => 0,
        ColumnKind::Fixed => 1,
        ColumnKind::Instance => 2,
        ColumnKind::Selector => 3,
        ColumnKind::LookupTable => 4,
    }
}

/// The position of a kind's columns in the table's storage.
fn kind_slot(kind: ColumnKind) -> (r: usize)
    ensures
        r == slot(kind),
{
    match kind {
        ColumnKind::Advice => 0,
        ColumnKind::Fixed => 1,
        ColumnKind::Instance => 2,
        ColumnKind::Selector => 3,
        ColumnKind::LookupTable => 4,
    }
}

/// The number of rows of a domain with exponent `k`, if this machine can
/// address that many.
pub fn domain_rows(k: u32) -> (r: Option<usize>)
    ensures
        match r {
            Some(rows) => rows == pow2(k as nat),
            None => pow2(k as nat) > usize::MAX,
        },
{
    let mut rows: usize = 1;
    let mut i: u32 = 0;
    proof {
        vstd::arithmetic::power::lemma_pow0(2);
    }
    while i < k
        invariant
            i <= k,
            rows == pow2(i as nat),
        decreases k - i,
    {
        proof {
            lemma_pow2_unfold((i + 1) as nat);
        }
        if rows > usize::MAX / 2 {
            proof {
                if i + 1 < k {
                    lemma_pow2_strictly_increases((i + 1) as nat, k as nat);
                }
            }
            return None;
        }
        rows = rows * 2;
        i = i + 1;
    }
    Some(rows)
}

/// A column of `rows` unassigned cells.
fn blank_column(rows: usize) -> (r: Vec<Option<Felt>>)
    ensures
        r@.len() == rows,
        forall|j: int| 0 <= j < rows ==> r@[j] is None,
{
    let mut column: Vec<Option<Felt>> = Vec::new();
    let mut j: usize = 0;
    while j < rows
        invariant
            j <= rows,
            column@.len() == j,
            forall|t: int| 0 <= t < j ==> column@[t] is None,
        decreases rows - j,
    {
        column.push(None);
        j = j + 1;
    }
    column
}

/// `count` columns of `rows` unassigned cells.
fn blank_columns(count: usize, rows: usize) -> (r: Vec<Vec<Option<Felt>>>)
    ensures
        r@.len() == count,
        forall|i: int| 0 <= i < count ==> (#[trigger] r@[i])@.len() == rows,
        forall|i: int, j: int| 0 <= i < count && 0 <= j < rows ==> (#[trigger] r@[i]@[j]) is None,
{
    let mut columns: Vec<Vec<Option<Felt>>> = Vec::new();
    let mut i: usize = 0;
    while i < count
        invariant
            i <= count,
            columns@.len() == i,
            forall|t: int| 0 <= t < i ==> (#[trigger] columns@[t])@.len() == rows,
            forall|t: int, j: int| 0 <= t < i && 0 <= j < rows ==> (#[trigger] columns@[t]@[j]) is None,
        decreases count - i,
    {
        columns.push(blank_column(rows));
        i = i + 1;
    }
    columns
}

/// A column of `rows` cells that holds `values` from row 0 on.
fn instance_column(values: &Vec<Felt>, rows: usize) -> (r: Vec<Option<Felt>>)
    requires
        values@.len() <= rows,
    ensures
        r@.len() == rows,
        forall|j: int| 0 <= j < values@.len() ==> r@[j] == Some(values@[j]),
        forall|j: int| 0 <= j < values@.len() ==> (#[trigger] values@[j]).canonical(),
        forall|j: int| values@.len() <= j < rows ==> r@[j] is None,
{
    let mut column: Vec<Option<Felt>> = Vec::new();
    let mut j: usize = 0;
    while j < rows
        invariant
            j <= rows,
            column@.len() == j,
            forall|t: int| 0 <= t < j && t < values@.len() ==> column@[t] == Some(values@[t]),
            forall|t: int| 0 <= t < j && t < values@.len() ==> (#[trigger] values@[t]).canonical(),
            forall|t: int| values@.len() <= t < j ==> column@[t] is None,
        decreases rows - j,
    {
        if j < values.len() {
            let value = values[j];
            proof {
                use_type_invariant(&value);
            }
            column.push(Some(value));
        } else {
            column.push(None);
        }
        j = j + 1;
    }
    column
}

/// The grid of assigned values.
pub struct WitnessTable {
    k: u32,
    rows: usize,
    shape: Shape,
    cells: Vec<Vec<Vec<Option<Felt>>>>,
}

impl WitnessTable {
    /// What the storage holds at the cell.
    spec fn stored(&self, column: Column, row: int) -> Option<Felt> {
        self.cells@[slot(column.kind)]@[column.index as int]@[row]
    }

    /// Whether the cell lies in the grid and holds a value.
    spec fn holds(&self, column: Column, row: int) -> bool {
        &&& self.shape.has(column)
        &&& 0 <= row < self.rows
        &&& self.stored(column, row) is Some
    }

    /// The table as a map of its assigned cells.
    pub closed spec fn view(&self) -> TableView {
        TableView {
            k: self.k as nat,
            rows: self.rows as int,
            shape: self.shape,
            cells: Map::new(
                |key: (Column, int)| self.holds(key.0, key.1),
                |key: (Column, int)| self.stored(key.0, key.1)->0.value(),
            ),
        }
    }

    /// The invariants of the table and of its storage.
    pub closed spec fn wf(&self) -> bool {
        &&& self.rows == pow2(self.k as nat)
        &&& self.rows > 0
        &&& self.cells@.len() == 5
        &&& forall|kind: ColumnKind| (#[trigger] self.cells@[slot(kind)])@.len() == self.shape.count(kind)
        &&& forall|column: Column|
            self.shape.has(column) ==> (#[trigger] self.cells@[slot(column.kind)]@[column.index as int])@.len()
                == self.rows
        &&& forall|column: Column, row: int| #[trigger]
            self.holds(column, row) ==> {
                &&& self.stored(column, row)->0.canonical()
                &&& column.kind == ColumnKind::Selector ==> self.stored(column, row)->0.value() == 1
            }
    }

    /// A well-formed table has a well-formed view.
    pub proof fn lemma_view_wf(&self)
        requires
            self.wf(),
        ensures
            self@.wf(),
    {
        let v = self@;
        assert forall|column: Column, row: int| #[trigger] v.assigned(column, row) implies {
            &&& v.in_grid(column, row)
            &&& 0 <= v.cells[(column, row)] < modulus()
            &&& column.kind == ColumnKind::Selector ==> v.cells[(column, row)] == 1
        } by {
            assert(self.holds(column, row));
            self.stored(column, row)->0.lemma_canonical_range();
        }
    }

    /// A table of `2^k` rows for the columns of `shape`, with the public
    /// inputs in its instance columns.
    pub fn new(k: u32, shape: Shape, instance: &Vec<Vec<Felt>>) -> (r: Result<WitnessTable, Error>)
        ensures
            match r {
                Ok(table) => {
                    &&& initial_error(k, shape, instance_values(instance@)) is None
                    &&& table.wf()
                    &&& table@ == initial_table(k, shape, instance_values(instance@))
                },
                Err(e) => initial_error(k, shape, instance_values(instance@)) == Some(e),
            },
    {
        let ghost values = instance_values(instance@);
        let rows = match domain_rows(k) {
            Some(rows) => rows,
            None => {
                return Err(Error::DomainTooLarge { k });
            },
        };
        proof {
            lemma_pow2_pos(k as nat);
        }
        if instance.len() > shape.instance {
            return Err(
                Error::UnknownColumn { column: Column { kind: ColumnKind::Instance, index: shape.instance } },
            );
        }
        let mut columns: Vec<Vec<Option<Felt>>> = Vec::new();
        let mut i: usize = 0;
        while i < shape.instance
            invariant
                i <= shape.instance,
                instance@.len() <= shape.instance,
                rows == pow2(k as nat),
                values == instance_values(instance@),
                columns@.len() == i,
                forall|t: int| 0 <= t < i && t < instance@.len() ==> values[t].len() <= rows,
                forall|t: int| 0 <= t < i ==> (#[trigger] columns@[t])@.len() == rows,
                forall|t: int, j: int|
                    0 <= t < i && t < instance@.len() && 0 <= j < instance@[t]@.len() ==> (
                    #[trigger] instance@[t]@[j]).canonical(),
                forall|t: int, j: int|
                    0 <= t < i && 0 <= j < rows ==> (#[trigger] columns@[t]@[j]) == (if t
                        < instance@.len() && j < instance@[t]@.len() {
                        Some(instance@[t]@[j])
                    } else {
                        None::<Felt>
                    }),
            decreases shape.instance - i,
        {
            if i < instance.len() {
                if instance[i].len() > rows {
                    proof {
                        assert(first_overlong(values, rows as int, i as int));
                        let c = choose|c: int| first_overlong(values, rows as int, c);
                        assert(c == i) by {
                            if c < i {
                                assert(values[c].len() <= rows);
                            } else if c > i {
                                assert(values[i as int].len() <= rows);
                            }
                        }
                    }
                    return Err(
                        Error::RowOutOfDomain { column: Column { kind: ColumnKind::Instance, index: i }, row: rows },
                    );
                }
                columns.push(instance_column(&instance[i], rows));
            } else {
                columns.push(blank_column(rows));
            }
            i = i + 1;
        }
        let mut cells: Vec<Vec<Vec<Option<Felt>>>> = Vec::new();
        cells.push(blank_columns(shape.advice, rows));
        cells.push(blank_columns(shape.fixed, rows));
        cells.push(columns);
        cells.push(blank_columns(shape.selectors, rows));
        cells.push(blank_columns(shape.tables, rows));
        let table = WitnessTable { k, rows, shape, cells };
        proof {
            assert forall|c: int| !first_overlong(values, rows as int, c) by {
                if 0 <= c < instance@.len() {
                    assert(values[c].len() <= rows);
                }
            }
            assert forall|kind: ColumnKind| (#[trigger] table.cells@[slot(kind)])@.len() == shape.count(kind) by {
                match kind {
                    ColumnKind::Advice => {},
                    ColumnKind::Fixed => {},
                    ColumnKind::Instance => {},
                    ColumnKind::Selector => {},
                    ColumnKind::LookupTable => {},
                }
            }
            assert forall|column: Column, row: int|
                shape.has(column) && 0 <= row < rows implies table.stored(column, row) == (if column.kind
                == ColumnKind::Instance && column.index < instance@.len() && row
                < instance@[column.index as int]@.len() {
                Some(instance@[column.index as int]@[row])
            } else {
                None::<Felt>
            }) by {
                match column.kind {
                    ColumnKind::Advice => {},
                    ColumnKind::Fixed => {},
                    ColumnKind::Instance => {},
                    ColumnKind::Selector => {},
                    ColumnKind::LookupTable => {},
                }
            }
            assert forall|column: Column, row: int| #[trigger] table.holds(column, row) implies {
                &&& table.stored(column, row)->0.canonical()
                &&& column.kind == ColumnKind::Selector ==> table.stored(column, row)->0.value() == 1
            } by {
                let v = instance@[column.index as int]@[row];
                assert(table.stored(column, row) == Some(v));
            }
            assert(table@.cells =~= initial_table(k, shape, values).cells);
        }
        Ok(table)
    }

    /// The domain exponent.
    pub fn k(&self) -> (r: u32)
        ensures
            r == self@.k,
    {
        self.k
    }

    /// The number of rows, `2^k`.
    pub fn domain_size(&self) -> (r: usize)
        ensures
            r == self@.rows,
    {
        self.rows
    }

    /// The columns of the table.
    pub fn shape(&self) -> (r: Shape)
        ensures
            r == self@.shape,
    {
        self.shape
    }

    /// The value assigned at (column, row), or `None` where nothing is
    /// assigned there, be it for a cell that is still free or for a place
    /// outside the grid.
    pub fn get(&self, column: Column, row: usize) -> (r: Option<Felt>)
        requires
            self.wf(),
        ensures
            r is Some <==> self@.assigned(column, row as int),
            r matches Some(v) ==> v.value() == self@.cells[(column, row as int)] && v.canonical(),
    {
        if !self.shape.contains(column) || row >= self.rows {
            return None;
        }
        proof {
            assert(self.cells@[slot(column.kind)]@.len() == self.shape.count(column.kind));
            assert(self.cells@[slot(column.kind)]@[column.index as int]@.len() == self.rows);
        }
        let r = self.cells[kind_slot(column.kind)][column.index][row];
        proof {
            if r is Some {
                assert(self.holds(column, row as int));
            }
        }
        r
    }

    /// Assigns a cell that is still free. Nothing changes when the cell cannot
    /// take the value.
    pub(crate) fn put(&mut self, column: Column, row: usize, value: Felt) -> (r: Result<(), Error>)
        requires
            old(self).wf(),
            column.kind == ColumnKind::Selector ==> value.value() == 1,
        ensures
            final(self).wf(),
            match old(self)@.put_error(column, row) {
                Some(e) => r == Err::<(), Error>(e) && final(self)@ == old(self)@,
                None => r == Ok::<(), Error>(()) && final(self)@ == old(self)@.put(
                    column,
                    row as int,
                    value.value(),
                ),
            },
    {
        if !self.shape.contains(column) {
            return Err(Error::UnknownColumn { column });
        }
        if row >= self.rows {
            return Err(Error::RowOutOfDomain { column, row });
        }
        proof {
            assert(self.cells@[slot(column.kind)]@.len() == self.shape.count(column.kind));
            assert(self.cells@[slot(column.kind)]@[column.index as int]@.len() == self.rows);
        }
        let s = kind_slot(column.kind);
        if self.cells[s][column.index][row].is_some() {
            proof {
                assert(self.holds(column, row as int));
            }
            return Err(Error::AssignmentCollision { column, row });
        }
        proof {
            use_type_invariant(&value);
        }
        self.cells[s][column.index][row] = Some(value);
        proof {
            let before = *old(self);
            let after = *self;
            assert forall|c: Column, r: int|
                after.shape.has(c) && 0 <= r < after.rows implies after.stored(c, r) == (if c == column && r
                == row {
                Some(value)
            } else {
                before.stored(c, r)
            }) by {
                assert(before.cells@[slot(c.kind)]@.len() == before.shape.count(c.kind));
            }
            assert(after@.cells =~= before@.put(column, row as int, value.value()).cells);
            assert(after.cells@.len() == 5);
            assert forall|kind: ColumnKind| (#[trigger] after.cells@[slot(kind)])@.len() == after.shape.count(kind) by {
                assert(before.cells@[slot(kind)]@.len() == before.shape.count(kind));
            }
            assert forall|c: Column| after.shape.has(c) implies (
            #[trigger] after.cells@[slot(c.kind)]@[c.index as int])@.len() == after.rows by {
                assert(before.cells@[slot(c.kind)]@.len() == before.shape.count(c.kind));
                assert(before.cells@[slot(c.kind)]@[c.index as int]@.len() == before.rows);
            }
            assert forall|c: Column, r: int| #[trigger] after.holds(c, r) implies {
                &&& after.stored(c, r)->0.canonical()
                &&& c.kind == ColumnKind::Selector ==> after.stored(c, r)->0.value() == 1
            } by {
                if !(c == column && r == row) {
                    assert(before.holds(c, r));
                }
            }
        }
        Ok(())
    }

    /// Assigns `value` to a cell of an advice, fixed, instance or lookup-table
    /// column. A cell takes a value once: a second assignment is refused and
    /// leaves the first in place.
    pub fn set(&mut self, column: Column, row: usize, value: Felt) -> (r: Result<(), Error>)
        requires
            old(self).wf(),
        ensures
            final(self).wf(),
            match old(self)@.set_error(column, row) {
                Some(e) => r == Err::<(), Error>(e) && final(self)@ == old(self)@,
                None => r == Ok::<(), Error>(()) && final(self)@ == old(self)@.put(
                    column,
                    row as int,
                    value.value(),
                ),
            },
    {
        match column.kind {
            ColumnKind::Selector => Err(Error::WrongColumnKind { column }),
            _ => self.put(column, row, value),
        }
    }

    /// Switches a selector on at a row: the cell then holds 1. A selector
    /// that is already on at the row is refused like any second assignment.
    pub fn enable_selector(&mut self, column: Column, row: usize) -> (r: Result<(), Error>)
        requires
            old(self).wf(),
        ensures
            final(self).wf(),
            match old(self)@.enable_error(column, row) {
                Some(e) => r == Err::<(), Error>(e) && final(self)@ == old(self)@,
                None => r == Ok::<(), Error>(()) && final(self)@ == old(self)@.put(column, row as int, 1),
            },
    {
        match column.kind {
            ColumnKind::Selector => self.put(column, row, Felt::one()),
            _ => Err(Error::WrongColumnKind { column }),
        }
    }
}

} // verus!
