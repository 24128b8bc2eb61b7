//! Regions: relocatable blocks of rows, recorded as assignments at offsets
//! relative to the block's first row.

use crate::column::{Column, ColumnKind};
use crate::error::Error;
use crate::field::{modulus, Felt};
use vstd::prelude::*;

verus! {

/// One recorded assignment: a value, or the lack of one, for the cell of
/// `column` at `offset` rows from the start of the region.
#[derive(Clone, Copy, Debug)]
pub struct Assignment {
    pub column: Column,
    pub offset: usize,
    pub value: Option<Felt>,
}

/// A recorded assignment as a mathematical object: the representative stands
/// in the place of the field element.
pub ghost struct AssignmentView {
    pub column: Column,
    pub offset: usize,
    pub value: Option<int>,
}

impl View for Assignment {
    type V = AssignmentView;

    open spec fn view(&self) -> AssignmentView {
        AssignmentView {
            column: self.column,
            offset: self.offset,
            value: match self.value {
                Some(v) => Some(v.value()),
                None => None,
            },
        }
    }
}

/// What a list of recorded assignments stands for.
pub open spec fn assignment_views(ops: Seq<Assignment>) -> Seq<AssignmentView> {
    Seq::new(ops.len(), |i: int| ops[i]@)
}

/// Recording one more assignment adds its view to the views.
pub proof fn lemma_assignment_views_push(ops: Seq<Assignment>, op: Assignment)
    ensures
        assignment_views(ops.push(op)) == assignment_views(ops).push(op@),
{
    assert(assignment_views(ops.push(op)) =~= assignment_views(ops).push(op@));
}

/// The handle of an assigned cell.
#[derive(Clone, Copy, Debug, PartialEq, Eq)]
pub struct Cell {
    pub column: Column,
    pub offset: usize,
}

/// The number of rows that the assignments span: one more than the largest
/// offset, and zero where there is no assignment.
pub open spec fn extent(ops: Seq<AssignmentView>) -> int
    decreases ops.len(),
{
    if ops.len() == 0 {
        0
    } else {
        let before = extent(ops.drop_last());
        if ops.last().offset + 1 > before {
            ops.last().offset + 1
        } else {
            before
        }
    }
}

/// Every offset lies below the extent.
pub proof fn lemma_extent_bounds(ops: Seq<AssignmentView>)
    ensures
        extent(ops) >= 0,
        forall|i: int| 0 <= i < ops.len() ==> (#[trigger] ops[i]).offset < extent(ops),
        ops.len() > 0 ==> exists|i: int| 0 <= i < ops.len() && (#[trigger] ops[i]).offset + 1 == extent(ops),
    decreases ops.len(),
{
    if ops.len() > 0 {
        let front = ops.drop_last();
        lemma_extent_bounds(front);
        assert forall|i: int| 0 <= i < ops.len() implies (#[trigger] ops[i]).offset < extent(ops) by {
            if i < front.len() {
                assert(front[i] == ops[i]);
            }
        }
        if ops.last().offset + 1 > extent(front) {
            assert(ops[ops.len() - 1].offset + 1 == extent(ops));
        } else {
            let i = choose|i: int| 0 <= i < front.len() && (#[trigger] front[i]).offset + 1 == extent(front);
            assert(ops[i] == front[i]);
        }
    }
}

/// Whether a recorded assignment carries what its column can hold: a
/// selector is only ever switched on, which records the value 1.
pub open spec fn assignment_ok(op: AssignmentView) -> bool {
    &&& op.value matches Some(v) ==> 0 <= v < modulus()
    &&& op.column.kind == ColumnKind::Selector ==> op.value == Some(1int)
}

/// A region as a mathematical object.
pub ghost struct RegionView {
    pub name: &'static str,
    pub ops: Seq<AssignmentView>,
}

/// A block of rows under construction: assignments to advice and fixed
/// cells, and selector activations.
#[derive(Debug)]
pub struct Region {
    name: &'static str,
    ops: Vec<Assignment>,
}

impl Region {
    /// The name and the recorded assignments, in the order of recording.
    pub closed spec fn view(&self) -> RegionView {
        RegionView { name: self.name, ops: assignment_views(self.ops@) }
    }

    /// The invariants of a region: it holds assignments to advice, fixed and
    /// selector columns only, and a selector only ever gets the value 1.
    pub open spec fn wf(&self) -> bool {
        forall|i: int|
            0 <= i < self@.ops.len() ==> {
                &&& assignment_ok(#[trigger] self@.ops[i])
                &&& (self@.ops[i].column.kind == ColumnKind::Advice || self@.ops[i].column.kind
                    == ColumnKind::Fixed || self@.ops[i].column.kind == ColumnKind::Selector)
            }
    }

    /// An empty region.
    pub fn new(name: &'static str) -> (r: Region)
        ensures
            r.wf(),
            r@ == (RegionView { name, ops: Seq::empty() }),
    {
        let r = Region { name, ops: Vec::new() };
        proof {
            assert(r@.ops =~= Seq::<AssignmentView>::empty());
        }
        r
    }

    /// The name of the region.
    pub fn name(&self) -> (r: &'static str)
        ensures
            r == self@.name,
    {
        self.name
    }

    /// The recorded assignments.
    pub fn assignments(&self) -> (r: &Vec<Assignment>)
        ensures
            assignment_views(r@) == self@.ops,
    {
        &self.ops
    }

    /// Records the assignment of `value` to the cell of an advice column at
    /// `offset`. `None` records a cell whose witness is not known. A column
    /// of another kind is refused and nothing is recorded.
    pub fn assign_advice(&mut self, column: Column, offset: usize, value: Option<Felt>) -> (r: Result<
        Cell,
        Error,
    >)
        requires
            old(self).wf(),
        ensures
            final(self).wf(),
            final(self)@.name == old(self)@.name,
            column.kind == ColumnKind::Advice ==> r == Ok::<Cell, Error>(Cell { column, offset })
                && final(self)@.ops == old(self)@.ops.push(
                (Assignment { column, offset, value })@,
            ),
            column.kind != ColumnKind::Advice ==> r == Err::<Cell, Error>(
                Error::WrongColumnKind { column },
            ) && final(self)@ == old(self)@,
    {
        match column.kind {
            ColumnKind::Advice => {
                proof {
                    if let Some(v) = value {
                        use_type_invariant(&v);
                        v.lemma_canonical_range();
                    }
                    lemma_assignment_views_push(self.ops@, Assignment { column, offset, value });
                }
                self.ops.push(Assignment { column, offset, value });
                Ok(Cell { column, offset })
            },
            _ => Err(Error::WrongColumnKind { column }),
        }
    }

    /// Records the assignment of `value` to the cell of a fixed column at
    /// `offset`. A column of another kind is refused and nothing is recorded.
    pub fn assign_fixed(&mut self, column: Column, offset: usize, value: Option<Felt>) -> (r: Result<
        Cell,
        Error,
    >)
        requires
            old(self).wf(),
        ensures
            final(self).wf(),
            final(self)@.name == old(self)@.name,
            column.kind == ColumnKind::Fixed ==> r == Ok::<Cell, Error>(Cell { column, offset })
                && final(self)@.ops == old(self)@.ops.push(
                (Assignment { column, offset, value })@,
            ),
            column.kind != ColumnKind::Fixed ==> r == Err::<Cell, Error>(
                Error::WrongColumnKind { column },
            ) && final(self)@ == old(self)@,
    {
        match column.kind {
            ColumnKind::Fixed => {
                proof {
                    if let Some(v) = value {
                        use_type_invariant(&v);
                        v.lemma_canonical_range();
                    }
                    lemma_assignment_views_push(self.ops@, Assignment { column, offset, value });
                }
                self.ops.push(Assignment { column, offset, value });
                Ok(Cell { column, offset })
            },
            _ => Err(Error::WrongColumnKind { column }),
        }
    }

    /// Records that `selector` is switched on at `offset`. A column that is
    /// no selector is refused and nothing is recorded.
    pub fn enable_selector(&mut self, selector: Column, offset: usize) -> (r: Result<(), Error>)
        requires
            old(self).wf(),
        ensures
            final(self).wf(),
            final(self)@.name == old(self)@.name,
            selector.kind == ColumnKind::Selector ==> r == Ok::<(), Error>(()) && final(self)@.ops
                == old(self)@.ops.push(AssignmentView { column: selector, offset, value: Some(1int) }),
            selector.kind != ColumnKind::Selector ==> r == Err::<(), Error>(
                Error::WrongColumnKind { column: selector },
            ) && final(self)@ == old(self)@,
    {
        match selector.kind {
            ColumnKind::Selector => {
                let one = Felt::one();
                proof {
                    one.lemma_canonical_range();
                    lemma_assignment_views_push(self.ops@, Assignment { column: selector, offset, value: Some(one) });
                }
                self.ops.push(Assignment { column: selector, offset, value: Some(one) });
                Ok(())
            },
            _ => Err(Error::WrongColumnKind { column: selector }),
        }
    }
}

/// A lookup table under construction: assignments to the cells of
/// lookup-table columns, at offsets from the first row of the table.
#[derive(Debug)]
pub struct TableRegion {
    name: &'static str,
    ops: Vec<Assignment>,
}

impl TableRegion {
    /// The name and the recorded assignments, in the order of recording.
    pub closed spec fn view(&self) -> RegionView {
        RegionView { name: self.name, ops: assignment_views(self.ops@) }
    }

    /// The invariants of a table region: it holds assignments to
    /// lookup-table columns only.
    pub open spec fn wf(&self) -> bool {
        forall|i: int|
            0 <= i < self@.ops.len() ==> {
                &&& assignment_ok(#[trigger] self@.ops[i])
                &&& self@.ops[i].column.kind == ColumnKind::LookupTable
            }
    }

    /// An empty table region.
    pub fn new(name: &'static str) -> (r: TableRegion)
        ensures
            r.wf(),
            r@ == (RegionView { name, ops: Seq::empty() }),
    {
        let r = TableRegion { name, ops: Vec::new() };
        proof {
            assert(r@.ops =~= Seq::<AssignmentView>::empty());
        }
        r
    }

    /// The name of the region.
    pub fn name(&self) -> (r: &'static str)
        ensures
            r == self@.name,
    {
        self.name
    }

    /// The recorded assignments.
    pub fn assignments(&self) -> (r: &Vec<Assignment>)
        ensures
            assignment_views(r@) == self@.ops,
    {
        &self.ops
    }

    /// Records the assignment of `value` to the cell of a lookup-table column
    /// at `offset`. A column of another kind is refused and nothing is
    /// recorded.
    pub fn assign_table_cell(&mut self, column: Column, offset: usize, value: Option<Felt>) -> (r: Result<
        (),
        Error,
    >)
        requires
            old(self).wf(),
        ensures
            final(self).wf(),
            final(self)@.name == old(self)@.name,
            column.kind == ColumnKind::LookupTable ==> r == Ok::<(), Error>(()) && final(self)@.ops
                == old(self)@.ops.push((Assignment { column, offset, value })@),
            column.kind != ColumnKind::LookupTable ==> r == Err::<(), Error>(
                Error::WrongColumnKind { column },
            ) && final(self)@ == old(self)@,
    {
        match column.kind {
            ColumnKind::LookupTable => {
                proof {
                    if let Some(v) = value {
                        use_type_invariant(&v);
                        v.lemma_canonical_range();
                    }
                    lemma_assignment_views_push(self.ops@, Assignment { column, offset, value });
                }
                self.ops.push(Assignment { column, offset, value });
                Ok(())
            },
            _ => Err(Error::WrongColumnKind { column }),
        }
    }
}

} // verus!
