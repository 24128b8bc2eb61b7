//! The layouter: it places each region on the next free block of rows of the
//! witness table and turns relative offsets into absolute rows.

use crate::column::{Column, ColumnKind};
use crate::error::Error;
use crate::region::{
    assignment_ok, assignment_views, extent, lemma_extent_bounds, Assignment, AssignmentView, Region, RegionView,
    TableRegion,
};
use crate::witness::{TableView, WitnessTable};
use vstd::prelude::*;

verus! {

/// Whether assignment `i` is the first that falls outside a domain of `rows`
/// rows when the region starts at row `start`.
pub open spec fn first_overflow(ops: Seq<AssignmentView>, start: int, rows: int, i: int) -> bool {
    &&& 0 <= i < ops.len()
    &&& start + ops[i].offset >= rows
    &&& forall|j: int| 0 <= j < i ==> start + (#[trigger] ops[j]).offset < rows
}

/// The table after one assignment of a region that starts at `start`, and
/// the error if the assignment fails: the column is not in the table; the
/// value is missing in a full run (without a full run the cell is left
/// unassigned); or the cell cannot take the value.
pub open spec fn place_one(table: TableView, region: &'static str, start: int, full: bool, op: AssignmentView) -> (
    TableView,
    Option<Error>,
) {
    if !table.shape.has(op.column) {
        (table, Some(Error::UnknownColumn { column: op.column }))
    } else {
        match op.value {
            None => if full {
                (table, Some(Error::Synthesis { region, column: op.column, offset: op.offset }))
            } else {
                (table, None)
            },
            Some(v) => match table.put_error(op.column, (start + op.offset) as usize) {
                Some(e) => (table, Some(e)),
                None => (table.put(op.column, start + op.offset, v), None),
            },
        }
    }
}

/// The table after the assignments of a region have been made in order from
/// row `start`, up to and without the first that fails, and the error of
/// that one.
pub open spec fn placed(table: TableView, region: &'static str, start: int, full: bool, ops: Seq<AssignmentView>) -> (
    TableView,
    Option<Error>,
)
    decreases ops.len(),
{
    if ops.len() == 0 {
        (table, None)
    } else {
        let before = placed(table, region, start, full, ops.drop_last());
        if before.1 is Some {
            before
        } else {
            place_one(before.0, region, start, full, ops.last())
        }
    }
}

/// Placing a region changes no cell outside the rows from `start` to
/// `start + extent(ops)`, keeps the shape and the size of the table, and
/// never unassigns a cell.
pub proof fn lemma_placed_frame(
    table: TableView,
    region: &'static str,
    start: int,
    full: bool,
    ops: Seq<AssignmentView>,
)
    requires
        0 <= start,
        start + extent(ops) <= usize::MAX,
    ensures
        placed(table, region, start, full, ops).0.rows == table.rows,
        placed(table, region, start, full, ops).0.k == table.k,
        placed(table, region, start, full, ops).0.shape == table.shape,
        forall|column: Column, row: int|
            table.assigned(column, row) ==> #[trigger] placed(table, region, start, full, ops).0.assigned(
                column,
                row,
            ) && placed(table, region, start, full, ops).0.cells[(column, row)] == table.cells[(
                column,
                row,
            )],
        forall|column: Column, row: int|
            !(start <= row < start + extent(ops)) ==> (#[trigger] placed(
                table,
                region,
                start,
                full,
                ops,
            ).0.assigned(column, row) <==> table.assigned(column, row)),
    decreases ops.len(),
{
    if ops.len() > 0 {
        let front = ops.drop_last();
        let op = ops.last();
        let before = placed(table, region, start, full, front).0;
        let after = placed(table, region, start, full, ops).0;
        lemma_placed_frame(table, region, start, full, front);
        lemma_extent_bounds(ops);
        assert(ops[ops.len() - 1].offset < extent(ops));
        assert(after == before || after == before.put(op.column, start + op.offset, op.value->0));
        assert forall|column: Column, row: int| table.assigned(column, row) implies #[trigger] after.assigned(
            column,
            row,
        ) && after.cells[(column, row)] == table.cells[(column, row)] by {
            assert(before.assigned(column, row));
            if after != before {
                assert(before.put_error(op.column, (start + op.offset) as usize) is None);
            }
        }
        assert forall|column: Column, row: int| !(start <= row < start + extent(ops)) implies (
        #[trigger] after.assigned(column, row) <==> table.assigned(column, row)) by {
            assert(before.assigned(column, row) <==> table.assigned(column, row));
        }
    }
}

/// The table after every lookup-table column that has a value in row 0 got
/// that value in each of its unassigned rows.
pub open spec fn padded(table: TableView) -> TableView {
    TableView {
        cells: Map::new(
            |key: (Column, int)|
                table.assigned(key.0, key.1) || (key.0.kind == ColumnKind::LookupTable && table.in_grid(
                    key.0,
                    key.1,
                ) && table.assigned(key.0, 0)),
            |key: (Column, int)|
                if table.assigned(key.0, key.1) {
                    table.cells[key]
                } else {
                    table.cells[(key.0, 0)]
                },
        ),
        ..table
    }
}

/// After padding, a lookup-table column that has a value in row 0 has a value
/// in every row of the domain, and no cell that was assigned has changed.
pub proof fn lemma_padded_is_full(table: TableView, column: Column)
    requires
        column.kind == ColumnKind::LookupTable,
        table.shape.has(column),
        table.assigned(column, 0),
    ensures
        forall|row: int| 0 <= row < table.rows ==> #[trigger] padded(table).assigned(column, row),
        forall|other: Column, row: int|
            table.assigned(other, row) ==> #[trigger] padded(table).read(other, row) == table.read(other, row),
{
}

/// The table while it is being padded: the lookup-table columns below
/// `columns` are done, and of column `columns` the rows below `rows`.
pub open spec fn padded_upto(table: TableView, columns: int, rows: int) -> TableView {
    TableView {
        cells: Map::new(
            |key: (Column, int)|
                table.assigned(key.0, key.1) || (key.0.kind == ColumnKind::LookupTable && table.in_grid(
                    key.0,
                    key.1,
                ) && table.assigned(key.0, 0) && (key.0.index < columns || (key.0.index == columns
                    && key.1 < rows))),
            |key: (Column, int)|
                if table.assigned(key.0, key.1) {
                    table.cells[key]
                } else {
                    table.cells[(key.0, 0)]
                },
        ),
        ..table
    }
}

/// The layouter as a mathematical object.
pub ghost struct LayouterView {
    /// The table filled so far.
    pub table: TableView,
    /// The first row that no region occupies.
    pub cursor: int,
    /// Whether the run demands a value for every assigned cell.
    pub full: bool,
}

impl LayouterView {
    /// The layouter after a region, and what the placement returns: the
    /// region's first row, or the error that stopped it. A region that does
    /// not fit is refused before anything is assigned; otherwise the
    /// assignments are made in order, and the cursor moves past the region
    /// once all of them succeeded.
    pub open spec fn assign_region(self, region: RegionView) -> (LayouterView, Result<usize, Error>) {
        if exists|i: int| first_overflow(region.ops, self.cursor, self.table.rows, i) {
            let i = choose|i: int| first_overflow(region.ops, self.cursor, self.table.rows, i);
            (
                self,
                Err(
                    Error::LayoutOverflow {
                        region: region.name,
                        column: region.ops[i].column,
                        offset: region.ops[i].offset,
                    },
                ),
            )
        } else {
            let after = placed(self.table, region.name, self.cursor, self.full, region.ops);
            match after.1 {
                Some(e) => (LayouterView { table: after.0, ..self }, Err(e)),
                None => (
                    LayouterView { table: after.0, cursor: self.cursor + extent(region.ops), ..self },
                    Ok(self.cursor as usize),
                ),
            }
        }
    }

    /// The layouter after a lookup table, and the error if loading stopped.
    /// The table's rows are absolute: offset 0 is row 0 of the domain, and
    /// the cursor of the regions does not move. After the assignments every
    /// loaded column is padded with the value of its row 0.
    pub open spec fn assign_table(self, region: RegionView) -> (LayouterView, Result<(), Error>) {
        if exists|i: int| first_overflow(region.ops, 0, self.table.rows, i) {
            let i = choose|i: int| first_overflow(region.ops, 0, self.table.rows, i);
            (
                self,
                Err(
                    Error::LayoutOverflow {
                        region: region.name,
                        column: region.ops[i].column,
                        offset: region.ops[i].offset,
                    },
                ),
            )
        } else {
            let after = placed(self.table, region.name, 0, self.full, region.ops);
            match after.1 {
                Some(e) => (LayouterView { table: after.0, ..self }, Err(e)),
                None => (LayouterView { table: padded(after.0), ..self }, Ok(())),
            }
        }
    }
}

/// Looks for the first assignment that falls outside the domain.
fn find_overflow(ops: &Vec<Assignment>, start: usize, rows: usize) -> (r: Option<usize>)
    requires
        start <= rows,
    ensures
        match r {
            Some(i) => first_overflow(assignment_views(ops@), start as int, rows as int, i as int),
            None => forall|i: int|
                !first_overflow(assignment_views(ops@), start as int, rows as int, i) && (0 <= i
                    < ops@.len() ==> start + (#[trigger] assignment_views(ops@)[i]).offset < rows),
        },
{
    let ghost views = assignment_views(ops@);
    let room = rows - start;
    let mut i: usize = 0;
    while i < ops.len()
        invariant
            i <= ops@.len(),
            room == rows - start,
            views == assignment_views(ops@),
            forall|j: int| 0 <= j < i ==> start + (#[trigger] views[j]).offset < rows,
        decreases ops@.len() - i,
    {
        if ops[i].offset >= room {
            return Some(i);
        }
        i = i + 1;
    }
    None
}

/// Makes the assignments of a region in order, from row `start`.
fn place(table: &mut WitnessTable, region: &'static str, start: usize, full: bool, ops: &Vec<Assignment>) -> (r:
    Option<Error>)
    requires
        old(table).wf(),
        forall|i: int| 0 <= i < ops@.len() ==> assignment_ok(#[trigger] assignment_views(ops@)[i]),
        forall|i: int|
            0 <= i < ops@.len() ==> start + (#[trigger] assignment_views(ops@)[i]).offset < old(table)@.rows,
    ensures
        final(table).wf(),
        (final(table)@, r) == placed(old(table)@, region, start as int, full, assignment_views(ops@)),
{
    let ghost views = assignment_views(ops@);
    let mut i: usize = 0;
    proof {
        assert(views.take(0) =~= Seq::<AssignmentView>::empty());
        table.lemma_view_wf();
    }
    while i < ops.len()
        invariant
            i <= ops@.len(),
            table.wf(),
            table@.rows == old(table)@.rows,
            table@.rows <= usize::MAX,
            views == assignment_views(ops@),
            forall|j: int| 0 <= j < ops@.len() ==> assignment_ok(#[trigger] views[j]),
            forall|j: int| 0 <= j < ops@.len() ==> start + (#[trigger] views[j]).offset < table@.rows,
            placed(old(table)@, region, start as int, full, views.take(i as int)) == (table@, None::<Error>),
        decreases ops@.len() - i,
    {
        let op = ops[i];
        proof {
            assert(views.take(i + 1).drop_last() =~= views.take(i as int));
            assert(views.take(i + 1).last() == op@);
            assert(assignment_ok(views[i as int]));
            assert(start + views[i as int].offset < table@.rows);
        }
        let ghost before = table@;
        let outcome: Option<Error> = if !table.shape().contains(op.column) {
            Some(Error::UnknownColumn { column: op.column })
        } else {
            match op.value {
                None => if full {
                    Some(Error::Synthesis { region, column: op.column, offset: op.offset })
                } else {
                    None
                },
                Some(v) => match table.put(op.column, start + op.offset, v) {
                    Ok(()) => None,
                    Err(e) => Some(e),
                },
            }
        };
        proof {
            assert((table@, outcome) == place_one(before, region, start as int, full, op@));
        }
        match outcome {
            Some(e) => {
                proof {
                    lemma_placed_stops(old(table)@, region, start as int, full, views, i + 1);
                }
                return Some(e);
            },
            None => {},
        }
        i = i + 1;
    }
    proof {
        assert(views.take(views.len() as int) =~= views);
    }
    None
}

/// The number of rows that the assignments span.
fn height(ops: &Vec<Assignment>, room: usize) -> (r: usize)
    requires
        forall|i: int| 0 <= i < ops@.len() ==> (#[trigger] assignment_views(ops@)[i]).offset < room,
    ensures
        r == extent(assignment_views(ops@)),
        r <= room,
{
    let ghost views = assignment_views(ops@);
    let mut rows: usize = 0;
    let mut i: usize = 0;
    proof {
        assert(views.take(0) =~= Seq::<AssignmentView>::empty());
    }
    while i < ops.len()
        invariant
            i <= ops@.len(),
            views == assignment_views(ops@),
            rows == extent(views.take(i as int)),
            rows <= room,
            forall|j: int| 0 <= j < ops@.len() ==> (#[trigger] views[j]).offset < room,
        decreases ops@.len() - i,
    {
        proof {
            assert(views.take(i + 1).drop_last() =~= views.take(i as int));
            assert(views.take(i + 1).last() == views[i as int]);
            assert(views[i as int].offset < room);
        }
        if ops[i].offset + 1 > rows {
            rows = ops[i].offset + 1;
        }
        i = i + 1;
    }
    proof {
        assert(views.take(views.len() as int) =~= views);
    }
    rows
}

/// Once an assignment has failed, the later ones change nothing.
pub proof fn lemma_placed_stops(
    table: TableView,
    region: &'static str,
    start: int,
    full: bool,
    ops: Seq<AssignmentView>,
    upto: int,
)
    requires
        0 <= upto <= ops.len(),
        placed(table, region, start, full, ops.take(upto)).1 is Some,
    ensures
        placed(table, region, start, full, ops) == placed(table, region, start, full, ops.take(upto)),
    decreases ops.len() - upto,
{
    if upto < ops.len() {
        assert(ops.take(upto + 1).drop_last() =~= ops.take(upto));
        lemma_placed_stops(table, region, start, full, ops, upto + 1);
    } else {
        assert(ops.take(upto) =~= ops);
    }
}

/// An assignment that was made without error stays made: its cell is
/// assigned in the table after any later assignments that did not fail.
proof fn lemma_placed_keeps(
    table: TableView,
    region: &'static str,
    start: int,
    full: bool,
    ops: Seq<AssignmentView>,
    i: int,
    upto: int,
)
    requires
        0 <= i < upto <= ops.len(),
        ops[i].value is Some,
        placed(table, region, start, full, ops.take(upto)).1 is None,
    ensures
        placed(table, region, start, full, ops.take(upto)).0.assigned(ops[i].column, start + ops[i].offset),
        placed(table, region, start, full, ops.take(upto)).0.shape == table.shape,
        placed(table, region, start, full, ops.take(upto)).0.rows == table.rows,
        table.shape.has(ops[i].column),
        ((start + ops[i].offset) as usize) < table.rows,
    decreases upto,
{
    assert(ops.take(upto).drop_last() =~= ops.take(upto - 1));
    assert(ops.take(upto).last() == ops[upto - 1]);
    let before = placed(table, region, start, full, ops.take(upto - 1));
    assert(before.1 is None);
    lemma_placed_shape(table, region, start, full, ops.take(upto - 1));
    if i < upto - 1 {
        lemma_placed_keeps(table, region, start, full, ops, i, upto - 1);
    }
}

/// Placing keeps the shape and the size of the table.
proof fn lemma_placed_shape(table: TableView, region: &'static str, start: int, full: bool, ops: Seq<AssignmentView>)
    ensures
        placed(table, region, start, full, ops).0.shape == table.shape,
        placed(table, region, start, full, ops).0.rows == table.rows,
    decreases ops.len(),
{
    if ops.len() > 0 {
        lemma_placed_shape(table, region, start, full, ops.drop_last());
    }
}

/// A region that assigns one cell twice never completes. Where nothing
/// fails before the second of the two assignments, the error is the
/// collision at that cell.
pub proof fn lemma_double_assignment(
    table: TableView,
    region: &'static str,
    start: int,
    full: bool,
    ops: Seq<AssignmentView>,
    i: int,
    j: int,
)
    requires
        0 <= i < j < ops.len(),
        ops[i].column == ops[j].column,
        ops[i].offset == ops[j].offset,
        ops[i].value is Some,
        ops[j].value is Some,
        0 <= start,
        start + ops[i].offset <= usize::MAX,
    ensures
        placed(table, region, start, full, ops).1 is Some,
        placed(table, region, start, full, ops.take(j)).1 is None ==> placed(table, region, start, full, ops).1
            == Some(Error::AssignmentCollision { column: ops[j].column, row: (start + ops[j].offset) as usize }),
{
    let before = placed(table, region, start, full, ops.take(j));
    if before.1 is Some {
        lemma_placed_stops(table, region, start, full, ops, j);
    } else {
        lemma_placed_keeps(table, region, start, full, ops, i, j);
        assert(ops.take(j + 1).drop_last() =~= ops.take(j));
        assert(ops.take(j + 1).last() == ops[j]);
        lemma_placed_stops(table, region, start, full, ops, j + 1);
    }
}

impl LayouterView {
    /// A region that assigns one cell twice is never placed: the layouter
    /// returns an error, and where the region fits and nothing else fails
    /// first, the error is the collision at the cell.
    pub proof fn lemma_double_assignment_fails(self, region: RegionView, i: int, j: int)
        requires
            0 <= self.cursor,
            self.table.rows <= usize::MAX,
            0 <= i < j < region.ops.len(),
            region.ops[i].column == region.ops[j].column,
            region.ops[i].offset == region.ops[j].offset,
            region.ops[i].value is Some,
            region.ops[j].value is Some,
        ensures
            self.assign_region(region).1 is Err,
            !(exists|c: int| first_overflow(region.ops, self.cursor, self.table.rows, c)) && placed(
                self.table,
                region.name,
                self.cursor,
                self.full,
                region.ops.take(j),
            ).1 is None ==> self.assign_region(region).1 == Err::<usize, Error>(
                Error::AssignmentCollision {
                    column: region.ops[j].column,
                    row: (self.cursor + region.ops[j].offset) as usize,
                },
            ),
    {
        if !(exists|c: int| first_overflow(region.ops, self.cursor, self.table.rows, c)) {
            if self.cursor + region.ops[i].offset >= self.table.rows {
                lemma_first_overflow_exists(region.ops, self.cursor, self.table.rows, i);
            }
            lemma_double_assignment(self.table, region.name, self.cursor, self.full, region.ops, i, j);
        }
    }
}

impl LayouterView {
    /// A region that is placed gets the block of rows from the cursor on,
    /// as many as its extent, and the cursor moves to the end of the block:
    /// blocks follow each other in the order of placement and never share a
    /// row. Placing changes no cell outside the block and overwrites none.
    pub proof fn lemma_region_block(self, region: RegionView)
        requires
            0 <= self.cursor <= self.table.rows <= usize::MAX,
            self.assign_region(region).1 is Ok,
        ensures
            self.assign_region(region).1 == Ok::<usize, Error>(self.cursor as usize),
            self.assign_region(region).0.cursor == self.cursor + extent(region.ops),
            self.assign_region(region).0.cursor <= self.table.rows,
            forall|column: Column, row: int|
                self.table.assigned(column, row) ==> #[trigger] self.assign_region(region).0.table.assigned(
                    column,
                    row,
                ) && self.assign_region(region).0.table.cells[(column, row)] == self.table.cells[(column, row)],
            forall|column: Column, row: int|
                !(self.cursor <= row < self.cursor + extent(region.ops)) ==> (#[trigger] self.assign_region(
                    region,
                ).0.table.assigned(column, row) <==> self.table.assigned(column, row)),
    {
        lemma_extent_bounds(region.ops);
        if region.ops.len() > 0 {
            let i = choose|i: int|
                0 <= i < region.ops.len() && (#[trigger] region.ops[i]).offset + 1 == extent(region.ops);
            if self.cursor + region.ops[i].offset >= self.table.rows {
                lemma_first_overflow_exists(region.ops, self.cursor, self.table.rows, i);
            }
        }
        lemma_placed_frame(self.table, region.name, self.cursor, self.full, region.ops);
    }
}

/// Where some assignment falls outside the domain, there is a first one.
proof fn lemma_first_overflow_exists(ops: Seq<AssignmentView>, start: int, rows: int, i: int)
    requires
        0 <= i < ops.len(),
        start + ops[i].offset >= rows,
    ensures
        exists|c: int| first_overflow(ops, start, rows, c),
    decreases i,
{
    if forall|j: int| 0 <= j < i ==> start + (#[trigger] ops[j]).offset < rows {
        assert(first_overflow(ops, start, rows, i));
    } else {
        let j = choose|j: int| 0 <= j < i && !(start + (#[trigger] ops[j]).offset < rows);
        lemma_first_overflow_exists(ops, start, rows, j);
    }
}

/// Places regions on a witness table.
pub struct Layouter {
    table: WitnessTable,
    cursor: usize,
    full: bool,
}

impl Layouter {
    /// The layouter as a mathematical object.
    pub closed spec fn view(&self) -> LayouterView {
        LayouterView { table: self.table@, cursor: self.cursor as int, full: self.full }
    }

    /// The invariants of the layouter: its table is well-formed and the
    /// cursor lies within the domain.
    pub closed spec fn wf(&self) -> bool {
        &&& self.table.wf()
        &&& self.cursor <= self.table@.rows
    }

    /// A well-formed layouter has a well-formed table and a cursor within
    /// the domain.
    pub proof fn lemma_view_wf(&self)
        requires
            self.wf(),
        ensures
            self@.table.wf(),
            0 <= self@.cursor <= self@.table.rows,
            self@.table.rows <= usize::MAX,
    {
        self.table.lemma_view_wf();
    }

    /// A layouter over `table`, with the cursor on row 0. In a full run a
    /// cell assigned without a value is an error.
    pub fn new(table: WitnessTable, full: bool) -> (r: Layouter)
        requires
            table.wf(),
        ensures
            r.wf(),
            r@ == (LayouterView { table: table@, cursor: 0, full }),
    {
        proof {
            table.lemma_view_wf();
        }
        Layouter { table, cursor: 0, full }
    }

    /// The first row that no region occupies.
    pub fn cursor(&self) -> (r: usize)
        ensures
            r == self@.cursor,
    {
        self.cursor
    }

    /// Whether the run demands a value for every assigned cell.
    pub fn is_full(&self) -> (r: bool)
        ensures
            r == self@.full,
    {
        self.full
    }

    /// The table filled so far.
    pub fn table(&self) -> (r: &WitnessTable)
        requires
            self.wf(),
        ensures
            r.wf(),
            r@ == self@.table,
    {
        &self.table
    }

    /// Gives up the layouter for its table.
    pub fn into_table(self) -> (r: WitnessTable)
        requires
            self.wf(),
        ensures
            r.wf(),
            r@ == self@.table,
    {
        self.table
    }

    /// Places `region` on the next free block of rows and makes its
    /// assignments there. Returns the first row of the block.
    pub fn assign_region(&mut self, region: &Region) -> (r: Result<usize, Error>)
        requires
            old(self).wf(),
            region.wf(),
        ensures
            final(self).wf(),
            (final(self)@, r) == old(self)@.assign_region(region@),
            final(self)@.table.k == old(self)@.table.k,
            final(self)@.table.rows == old(self)@.table.rows,
            final(self)@.table.shape == old(self)@.table.shape,
            final(self)@.full == old(self)@.full,
    {
        let start = self.cursor;
        let ops = region.assignments();
        let ghost views = assignment_views(ops@);
        proof {
            self.table.lemma_view_wf();
        }
        let rows = self.table.domain_size();
        match find_overflow(ops, start, rows) {
            Some(i) => {
                proof {
                    let c = choose|c: int| first_overflow(views, start as int, rows as int, c);
                    if c < i {
                        assert(start + views[c].offset < rows);
                    } else if c > i {
                        assert(start + views[i as int].offset < rows);
                    }
                    assert(views[i as int] == ops@[i as int]@);
                }
                return Err(
                    Error::LayoutOverflow { region: region.name(), column: ops[i].column, offset: ops[i].offset },
                );
            },
            None => {},
        }
        let ghost before = self.table@;
        let failure = place(&mut self.table, region.name(), start, self.full, ops);
        proof {
            lemma_extent_bounds(views);
            lemma_placed_frame(before, region@.name, start as int, self.full, views);
        }
        match failure {
            Some(e) => Err(e),
            None => {
                proof {
                    assert forall|i: int| 0 <= i < ops@.len() implies (#[trigger] views[i]).offset < rows - start by {
                        assert(start + views[i].offset < rows);
                    }
                }
                let rows_used = height(ops, rows - start);
                self.cursor = start + rows_used;
                Ok(start)
            },
        }
    }

    /// Loads a lookup table: makes the assignments of `region` from row 0 of
    /// the domain, then pads every lookup-table column that has a value in
    /// row 0 with that value, so that a loaded column has a value in every
    /// row of the domain.
    pub fn assign_table(&mut self, region: &TableRegion) -> (r: Result<(), Error>)
        requires
            old(self).wf(),
            region.wf(),
        ensures
            final(self).wf(),
            (final(self)@, r) == old(self)@.assign_table(region@),
            final(self)@.table.k == old(self)@.table.k,
            final(self)@.table.rows == old(self)@.table.rows,
            final(self)@.table.shape == old(self)@.table.shape,
            final(self)@.cursor == old(self)@.cursor,
            final(self)@.full == old(self)@.full,
    {
        let ops = region.assignments();
        let ghost views = assignment_views(ops@);
        proof {
            self.table.lemma_view_wf();
        }
        let rows = self.table.domain_size();
        match find_overflow(ops, 0, rows) {
            Some(i) => {
                proof {
                    let c = choose|c: int| first_overflow(views, 0, rows as int, c);
                    if c < i {
                        assert(0 + views[c].offset < rows);
                    } else if c > i {
                        assert(0 + views[i as int].offset < rows);
                    }
                    assert(views[i as int] == ops@[i as int]@);
                }
                return Err(
                    Error::LayoutOverflow { region: region.name(), column: ops[i].column, offset: ops[i].offset },
                );
            },
            None => {},
        }
        let ghost before = self.table@;
        let failure = place(&mut self.table, region.name(), 0, self.full, ops);
        proof {
            lemma_extent_bounds(views);
            lemma_placed_frame(before, region@.name, 0, self.full, views);
        }
        match failure {
            Some(e) => Err(e),
            None => {
                pad(&mut self.table);
                Ok(())
            },
        }
    }
}

/// Pads every lookup-table column that has a value in row 0.
fn pad(table: &mut WitnessTable)
    requires
        old(table).wf(),
    ensures
        final(table).wf(),
        final(table)@ == padded(old(table)@),
{
    let ghost start = table@;
    proof {
        table.lemma_view_wf();
    }
    let rows = table.domain_size();
    let columns = table.shape().tables;
    let mut c: usize = 0;
    proof {
        assert(padded_upto(start, 0, 0).cells =~= start.cells);
    }
    while c < columns
        invariant
            c <= columns,
            columns == start.shape.tables,
            rows == start.rows,
            start.wf(),
            table.wf(),
            table@ == padded_upto(start, c as int, 0),
        decreases columns - c,
    {
        let column = Column { kind: ColumnKind::LookupTable, index: c };
        match table.get(column, 0) {
            Some(default) => {
                let mut row: usize = 0;
                while row < rows
                    invariant
                        row <= rows,
                        c < columns,
                        columns == start.shape.tables,
                        rows == start.rows,
                        start.wf(),
                        table.wf(),
                        column == (Column { kind: ColumnKind::LookupTable, index: c }),
                        start.assigned(column, 0),
                        default.value() == start.cells[(column, 0)],
                        table@ == padded_upto(start, c as int, row as int),
                    decreases rows - row,
                {
                    if table.get(column, row).is_none() {
                        let ghost before = table@;
                        proof {
                            assert(before.set_error(column, row) is None);
                        }
                        match table.set(column, row, default) {
                            Ok(()) => {},
                            Err(_) => {},
                        }
                        proof {
                            assert(table@.cells =~= padded_upto(start, c as int, row + 1).cells);
                        }
                    } else {
                        proof {
                            assert(table@.cells =~= padded_upto(start, c as int, row + 1).cells);
                        }
                    }
                    row = row + 1;
                }
                proof {
                    assert(table@.cells =~= padded_upto(start, c + 1, 0).cells);
                }
            },
            None => {
                proof {
                    assert(table@.cells =~= padded_upto(start, c + 1, 0).cells);
                }
            },
        }
        c = c + 1;
    }
    proof {
        assert(table@.cells =~= padded(start).cells) by {
            assert forall|key: (Column, int)|
                start.in_grid(key.0, key.1) && key.0.kind == ColumnKind::LookupTable implies key.0.index
                < columns by {}
        }
    }
}

} // verus!
