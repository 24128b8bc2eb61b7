//! The constraint checker: it evaluates every gate and every lookup at every
//! row of the domain and reports each violation with its location.

use crate::constraint_system::{
    gate_views, lookup_views, ConstraintSystem, ConstraintSystemView, GateView, Lookup, LookupView,
};
use crate::field::Felt;
use crate::witness::{TableView, WitnessTable};
use vstd::prelude::*;

verus! {

/// A constraint that does not hold, and where.
#[derive(Clone, Copy, Debug, PartialEq, Eq)]
pub enum Violation {
    /// Identity number `identity` of gate number `gate` is not zero at `row`.
    Gate { gate: usize, gate_name: &'static str, identity: usize, identity_name: &'static str, row: usize },
    /// The inputs of lookup number `lookup` at `row` equal no row of its
    /// table.
    Lookup { lookup: usize, lookup_name: &'static str, row: usize },
}

/// Whether the inputs of `lookup` at `row` equal what its table columns hold
/// at row `at`.
pub open spec fn lookup_matches(lookup: LookupView, row: int, at: int, table: TableView) -> bool {
    forall|j: int|
        0 <= j < lookup.pairs.len() ==> (#[trigger] lookup.pairs[j]).0.eval(row, table) == table.read(
            lookup.pairs[j].1,
            at,
        )
}

/// Whether the inputs of `lookup` at `row` equal some row of its table.
pub open spec fn lookup_satisfied(lookup: LookupView, row: int, table: TableView) -> bool {
    exists|at: int| 0 <= at < table.rows && lookup_matches(lookup, row, at, table)
}

/// The violation of identity `identity` of gate `gate` at `row`.
pub open spec fn gate_violation(gates: Seq<GateView>, gate: int, identity: int, row: int) -> Violation {
    Violation::Gate {
        gate: gate as usize,
        gate_name: gates[gate].name,
        identity: identity as usize,
        identity_name: gates[gate].identities[identity].0,
        row: row as usize,
    }
}

/// The violation of lookup `lookup` at `row`.
pub open spec fn lookup_violation(lookups: Seq<LookupView>, lookup: int, row: int) -> Violation {
    Violation::Lookup { lookup: lookup as usize, lookup_name: lookups[lookup].name, row: row as usize }
}

/// The violations at `row` of the first `upto` identities of gate `gate`, in
/// order.
pub open spec fn identity_violations(gates: Seq<GateView>, gate: int, row: int, table: TableView, upto: int) -> Seq<
    Violation,
>
    decreases upto,
{
    if upto <= 0 {
        Seq::empty()
    } else {
        let before = identity_violations(gates, gate, row, table, upto - 1);
        if gates[gate].identities[upto - 1].1.eval(row, table) != 0 {
            before.push(gate_violation(gates, gate, upto - 1, row))
        } else {
            before
        }
    }
}

/// The violations at `row` of the first `upto` gates, in order.
pub open spec fn gate_violations(gates: Seq<GateView>, row: int, table: TableView, upto: int) -> Seq<Violation>
    decreases upto,
{
    if upto <= 0 {
        Seq::empty()
    } else {
        gate_violations(gates, row, table, upto - 1) + identity_violations(
            gates,
            upto - 1,
            row,
            table,
            gates[upto - 1].identities.len() as int,
        )
    }
}

/// The violations at `row` of the first `upto` lookups, in order.
pub open spec fn lookup_violations(lookups: Seq<LookupView>, row: int, table: TableView, upto: int) -> Seq<Violation>
    decreases upto,
{
    if upto <= 0 {
        Seq::empty()
    } else {
        let before = lookup_violations(lookups, row, table, upto - 1);
        if lookup_satisfied(lookups[upto - 1], row, table) {
            before
        } else {
            before.push(lookup_violation(lookups, upto - 1, row))
        }
    }
}

/// The violations at `row`: those of the gates, then those of the lookups,
/// each in the order of registration.
pub open spec fn row_violations(cs: ConstraintSystemView, row: int, table: TableView) -> Seq<Violation> {
    gate_violations(cs.gates, row, table, cs.gates.len() as int) + lookup_violations(
        cs.lookups,
        row,
        table,
        cs.lookups.len() as int,
    )
}

/// The violations in the first `rows` rows, row by row.
pub open spec fn violations_upto(cs: ConstraintSystemView, table: TableView, rows: int) -> Seq<Violation>
    decreases rows,
{
    if rows <= 0 {
        Seq::empty()
    } else {
        violations_upto(cs, table, rows - 1) + row_violations(cs, rows - 1, table)
    }
}

/// Every violation of the constraint system on the table, ordered by row and
/// within a row by registration.
pub open spec fn violations(cs: ConstraintSystemView, table: TableView) -> Seq<Violation> {
    violations_upto(cs, table, table.rows)
}

/// What the checker returns for a constraint system and a table: `Ok` where
/// nothing is violated, and otherwise the full list of violations.
pub open spec fn verdict(cs: ConstraintSystemView, table: TableView, r: Result<(), Vec<Violation>>) -> bool {
    match r {
        Ok(()) => violations(cs, table).len() == 0,
        Err(found) => found@ == violations(cs, table) && found@.len() > 0,
    }
}

/// Whether every identity of every gate is zero at `row`.
pub open spec fn gates_hold(cs: ConstraintSystemView, row: int, table: TableView) -> bool {
    forall|g: int, i: int|
        0 <= g < cs.gates.len() && 0 <= i < cs.gates[g].identities.len() ==> (
        #[trigger] cs.gates[g].identities[i]).1.eval(row, table) == 0
}

/// Whether the inputs of every lookup at `row` are found in its table.
pub open spec fn lookups_hold(cs: ConstraintSystemView, row: int, table: TableView) -> bool {
    forall|l: int| 0 <= l < cs.lookups.len() ==> lookup_satisfied(#[trigger] cs.lookups[l], row, table)
}

/// Whether every gate and every lookup holds at `row`.
pub open spec fn row_holds(cs: ConstraintSystemView, row: int, table: TableView) -> bool {
    gates_hold(cs, row, table) && lookups_hold(cs, row, table)
}

/// Whether the table satisfies the constraint system: every gate and every
/// lookup holds at every row of the domain.
pub open spec fn satisfied(cs: ConstraintSystemView, table: TableView) -> bool {
    forall|row: int| 0 <= row < table.rows ==> row_holds(cs, row, table)
}

/// The first `upto` identities of a gate report nothing at a row exactly
/// when each of them is zero there.
proof fn lemma_identities_quiet(gates: Seq<GateView>, gate: int, row: int, table: TableView, upto: int)
    requires
        0 <= upto <= gates[gate].identities.len(),
    ensures
        identity_violations(gates, gate, row, table, upto).len() == 0 <==> forall|i: int|
            0 <= i < upto ==> (#[trigger] gates[gate].identities[i]).1.eval(row, table) == 0,
    decreases upto,
{
    if upto > 0 {
        lemma_identities_quiet(gates, gate, row, table, upto - 1);
        if identity_violations(gates, gate, row, table, upto).len() == 0 {
            assert(gates[gate].identities[upto - 1].1.eval(row, table) == 0);
        }
    }
}

/// The first `upto` gates report nothing at a row exactly when each of
/// their identities is zero there.
proof fn lemma_gates_quiet(gates: Seq<GateView>, row: int, table: TableView, upto: int)
    requires
        0 <= upto <= gates.len(),
    ensures
        gate_violations(gates, row, table, upto).len() == 0 <==> forall|g: int, i: int|
            0 <= g < upto && 0 <= i < gates[g].identities.len() ==> (#[trigger] gates[g].identities[i]).1.eval(
                row,
                table,
            ) == 0,
    decreases upto,
{
    if upto > 0 {
        lemma_gates_quiet(gates, row, table, upto - 1);
        lemma_identities_quiet(gates, upto - 1, row, table, gates[upto - 1].identities.len() as int);
        if gate_violations(gates, row, table, upto).len() == 0 {
            assert forall|g: int, i: int| 0 <= g < upto && 0 <= i < gates[g].identities.len() implies (
            #[trigger] gates[g].identities[i]).1.eval(row, table) == 0 by {
                if g == upto - 1 {
                    assert(gates[upto - 1].identities[i].1.eval(row, table) == 0);
                }
            }
        }
    }
}

/// The first `upto` lookups report nothing at a row exactly when each of
/// them is satisfied there.
proof fn lemma_lookups_quiet(lookups: Seq<LookupView>, row: int, table: TableView, upto: int)
    requires
        0 <= upto <= lookups.len(),
    ensures
        lookup_violations(lookups, row, table, upto).len() == 0 <==> forall|l: int|
            0 <= l < upto ==> lookup_satisfied(#[trigger] lookups[l], row, table),
    decreases upto,
{
    if upto > 0 {
        lemma_lookups_quiet(lookups, row, table, upto - 1);
        if lookup_violations(lookups, row, table, upto).len() == 0 {
            assert(lookup_satisfied(lookups[upto - 1], row, table));
        }
    }
}

/// The first `rows` rows report nothing exactly when every constraint holds
/// at each of them.
proof fn lemma_rows_quiet(cs: ConstraintSystemView, table: TableView, rows: int)
    requires
        0 <= rows,
    ensures
        violations_upto(cs, table, rows).len() == 0 <==> forall|row: int|
            0 <= row < rows ==> row_holds(cs, row, table),
    decreases rows,
{
    if rows > 0 {
        lemma_rows_quiet(cs, table, rows - 1);
        lemma_gates_quiet(cs.gates, rows - 1, table, cs.gates.len() as int);
        lemma_lookups_quiet(cs.lookups, rows - 1, table, cs.lookups.len() as int);
        let last = row_violations(cs, rows - 1, table);
        assert(last.len() == 0 <==> row_holds(cs, rows - 1, table));
        assert(violations_upto(cs, table, rows).len() == violations_upto(cs, table, rows - 1).len() + last.len());
        if violations_upto(cs, table, rows).len() == 0 {
            assert forall|row: int| 0 <= row < rows implies row_holds(cs, row, table) by {
                if row < rows - 1 {
                } else {
                    assert(row == rows - 1);
                }
            }
        }
        if forall|row: int| 0 <= row < rows ==> row_holds(cs, row, table) {
            assert(row_holds(cs, rows - 1, table));
            assert forall|row: int| 0 <= row < rows - 1 implies row_holds(cs, row, table) by {}
        }
    }
}

/// The checker finds nothing exactly when the table satisfies the
/// constraint system: a witness that meets every gate and every lookup at
/// every row is accepted, and any other is reported.
pub proof fn lemma_no_violation_iff_satisfied(cs: ConstraintSystemView, table: TableView)
    requires
        0 <= table.rows,
    ensures
        violations(cs, table).len() == 0 <==> satisfied(cs, table),
{
    lemma_rows_quiet(cs, table, table.rows);
}

/// Whether identity `i` of gate `g` is not zero at `row`.
pub open spec fn gate_fails(cs: ConstraintSystemView, table: TableView, g: int, i: int, row: int) -> bool {
    &&& 0 <= g < cs.gates.len()
    &&& 0 <= i < cs.gates[g].identities.len()
    &&& 0 <= row < table.rows
    &&& cs.gates[g].identities[i].1.eval(row, table) != 0
}

/// Whether the inputs of lookup `l` at `row` are not found in its table.
pub open spec fn lookup_fails(cs: ConstraintSystemView, table: TableView, l: int, row: int) -> bool {
    &&& 0 <= l < cs.lookups.len()
    &&& 0 <= row < table.rows
    &&& !lookup_satisfied(cs.lookups[l], row, table)
}

/// Whether `v` reports a constraint that does fail where `v` says.
pub open spec fn is_real(cs: ConstraintSystemView, table: TableView, v: Violation) -> bool {
    ||| exists|g: int, i: int, row: int| #[trigger]
        gate_fails(cs, table, g, i, row) && v == gate_violation(cs.gates, g, i, row)
    ||| exists|l: int, row: int| #[trigger]
        lookup_fails(cs, table, l, row) && v == lookup_violation(cs.lookups, l, row)
}

/// The row that a violation reports.
pub open spec fn row_of(v: Violation) -> usize {
    match v {
        Violation::Gate { row, .. } => row,
        Violation::Lookup { row, .. } => row,
    }
}

/// What the identities of a gate report at a row is real and names that
/// row.
proof fn lemma_identities_sound(cs: ConstraintSystemView, table: TableView, g: int, row: int, upto: int, n: int)
    requires
        0 <= g < cs.gates.len(),
        0 <= row < table.rows,
        0 <= upto <= cs.gates[g].identities.len(),
        0 <= n < identity_violations(cs.gates, g, row, table, upto).len(),
    ensures
        is_real(cs, table, identity_violations(cs.gates, g, row, table, upto)[n]),
        row_of(identity_violations(cs.gates, g, row, table, upto)[n]) == row as usize,
    decreases upto,
{
    let before = identity_violations(cs.gates, g, row, table, upto - 1);
    if n < before.len() {
        lemma_identities_sound(cs, table, g, row, upto - 1, n);
    } else {
        assert(gate_fails(cs, table, g, upto - 1, row));
    }
}

/// What the gates report at a row is real and names that row.
proof fn lemma_gates_sound(cs: ConstraintSystemView, table: TableView, row: int, upto: int, n: int)
    requires
        0 <= row < table.rows,
        0 <= upto <= cs.gates.len(),
        0 <= n < gate_violations(cs.gates, row, table, upto).len(),
    ensures
        is_real(cs, table, gate_violations(cs.gates, row, table, upto)[n]),
        row_of(gate_violations(cs.gates, row, table, upto)[n]) == row as usize,
    decreases upto,
{
    let before = gate_violations(cs.gates, row, table, upto - 1);
    if n < before.len() {
        lemma_gates_sound(cs, table, row, upto - 1, n);
    } else {
        lemma_identities_sound(
            cs,
            table,
            upto - 1,
            row,
            cs.gates[upto - 1].identities.len() as int,
            n - before.len(),
        );
    }
}

/// What the lookups report at a row is real and names that row.
proof fn lemma_lookups_sound(cs: ConstraintSystemView, table: TableView, row: int, upto: int, n: int)
    requires
        0 <= row < table.rows,
        0 <= upto <= cs.lookups.len(),
        0 <= n < lookup_violations(cs.lookups, row, table, upto).len(),
    ensures
        is_real(cs, table, lookup_violations(cs.lookups, row, table, upto)[n]),
        row_of(lookup_violations(cs.lookups, row, table, upto)[n]) == row as usize,
    decreases upto,
{
    let before = lookup_violations(cs.lookups, row, table, upto - 1);
    if n < before.len() {
        lemma_lookups_sound(cs, table, row, upto - 1, n);
    } else {
        assert(lookup_fails(cs, table, upto - 1, row));
    }
}

/// What is reported at a row is real and names that row.
proof fn lemma_row_sound(cs: ConstraintSystemView, table: TableView, row: int, n: int)
    requires
        0 <= row < table.rows,
        0 <= n < row_violations(cs, row, table).len(),
    ensures
        is_real(cs, table, row_violations(cs, row, table)[n]),
        row_of(row_violations(cs, row, table)[n]) == row as usize,
{
    let gated = gate_violations(cs.gates, row, table, cs.gates.len() as int);
    if n < gated.len() {
        lemma_gates_sound(cs, table, row, cs.gates.len() as int, n);
    } else {
        lemma_lookups_sound(cs, table, row, cs.lookups.len() as int, n - gated.len());
    }
}

/// What is reported in the first `rows` rows is real and names one of
/// them.
proof fn lemma_rows_sound(cs: ConstraintSystemView, table: TableView, rows: int, n: int)
    requires
        0 <= rows <= table.rows,
        0 <= n < violations_upto(cs, table, rows).len(),
    ensures
        is_real(cs, table, violations_upto(cs, table, rows)[n]),
        row_of(violations_upto(cs, table, rows)[n]) < rows,
    decreases rows,
{
    let before = violations_upto(cs, table, rows - 1);
    if n < before.len() {
        lemma_rows_sound(cs, table, rows - 1, n);
    } else {
        lemma_row_sound(cs, table, rows - 1, n - before.len());
    }
}

/// In the list of the first `rows` rows, rows never decrease.
proof fn lemma_rows_ordered(cs: ConstraintSystemView, table: TableView, rows: int, a: int, b: int)
    requires
        0 <= rows <= table.rows <= usize::MAX,
        0 <= a <= b < violations_upto(cs, table, rows).len(),
    ensures
        row_of(violations_upto(cs, table, rows)[a]) <= row_of(violations_upto(cs, table, rows)[b]),
    decreases rows,
{
    let before = violations_upto(cs, table, rows - 1);
    if b < before.len() {
        lemma_rows_ordered(cs, table, rows - 1, a, b);
    } else {
        lemma_row_sound(cs, table, rows - 1, b - before.len());
        if a < before.len() {
            lemma_rows_sound(cs, table, rows - 1, a);
        } else {
            lemma_row_sound(cs, table, rows - 1, a - before.len());
        }
    }
}

/// An identity that is not zero at a row is among what its gate reports
/// there.
proof fn lemma_identities_complete(gates: Seq<GateView>, g: int, row: int, table: TableView, upto: int, i: int)
    requires
        0 <= i < upto <= gates[g].identities.len(),
        gates[g].identities[i].1.eval(row, table) != 0,
    ensures
        identity_violations(gates, g, row, table, upto).contains(gate_violation(gates, g, i, row)),
    decreases upto,
{
    let all = identity_violations(gates, g, row, table, upto);
    let before = identity_violations(gates, g, row, table, upto - 1);
    if i == upto - 1 {
        assert(all[before.len() as int] == gate_violation(gates, g, i, row));
    } else {
        lemma_identities_complete(gates, g, row, table, upto - 1, i);
        let n = choose|n: int| 0 <= n < before.len() && before[n] == gate_violation(gates, g, i, row);
        assert(all[n] == gate_violation(gates, g, i, row));
    }
}

/// An identity that is not zero at a row is among what the gates report
/// there.
proof fn lemma_gates_complete(gates: Seq<GateView>, row: int, table: TableView, upto: int, g: int, i: int)
    requires
        0 <= g < upto <= gates.len(),
        0 <= i < gates[g].identities.len(),
        gates[g].identities[i].1.eval(row, table) != 0,
    ensures
        gate_violations(gates, row, table, upto).contains(gate_violation(gates, g, i, row)),
    decreases upto,
{
    let all = gate_violations(gates, row, table, upto);
    let before = gate_violations(gates, row, table, upto - 1);
    let v = gate_violation(gates, g, i, row);
    if g == upto - 1 {
        let last = identity_violations(gates, g, row, table, gates[g].identities.len() as int);
        lemma_identities_complete(gates, g, row, table, gates[g].identities.len() as int, i);
        let n = choose|n: int| 0 <= n < last.len() && last[n] == v;
        assert(all[before.len() + n] == v);
    } else {
        lemma_gates_complete(gates, row, table, upto - 1, g, i);
        let n = choose|n: int| 0 <= n < before.len() && before[n] == v;
        assert(all[n] == v);
    }
}

/// A lookup that fails at a row is among what the lookups report there.
proof fn lemma_lookups_complete(lookups: Seq<LookupView>, row: int, table: TableView, upto: int, l: int)
    requires
        0 <= l < upto <= lookups.len(),
        !lookup_satisfied(lookups[l], row, table),
    ensures
        lookup_violations(lookups, row, table, upto).contains(lookup_violation(lookups, l, row)),
    decreases upto,
{
    let all = lookup_violations(lookups, row, table, upto);
    let before = lookup_violations(lookups, row, table, upto - 1);
    let v = lookup_violation(lookups, l, row);
    if l == upto - 1 {
        assert(all[before.len() as int] == v);
    } else {
        lemma_lookups_complete(lookups, row, table, upto - 1, l);
        let n = choose|n: int| 0 <= n < before.len() && before[n] == v;
        assert(all[n] == v);
    }
}

/// What is reported at a row is in the list of every larger number of rows.
proof fn lemma_rows_complete(cs: ConstraintSystemView, table: TableView, rows: int, row: int, v: Violation)
    requires
        0 <= row < rows,
        row_violations(cs, row, table).contains(v),
    ensures
        violations_upto(cs, table, rows).contains(v),
    decreases rows,
{
    let all = violations_upto(cs, table, rows);
    let before = violations_upto(cs, table, rows - 1);
    if row == rows - 1 {
        let last = row_violations(cs, row, table);
        let n = choose|n: int| 0 <= n < last.len() && last[n] == v;
        assert(all[before.len() + n] == v);
    } else {
        lemma_rows_complete(cs, table, rows - 1, row, v);
        let n = choose|n: int| 0 <= n < before.len() && before[n] == v;
        assert(all[n] == v);
    }
}

/// Every violation that the checker lists is real: the constraint it names
/// fails at the row it names.
pub proof fn lemma_listed_violation_is_real(cs: ConstraintSystemView, table: TableView, n: int)
    requires
        0 <= n < violations(cs, table).len(),
    ensures
        is_real(cs, table, violations(cs, table)[n]),
        row_of(violations(cs, table)[n]) < table.rows,
{
    if table.rows > 0 {
        lemma_rows_sound(cs, table, table.rows, n);
    }
}

/// Every failing identity is listed: no violation of a gate is left out.
pub proof fn lemma_failing_gate_is_listed(cs: ConstraintSystemView, table: TableView, g: int, i: int, row: int)
    requires
        gate_fails(cs, table, g, i, row),
    ensures
        violations(cs, table).contains(gate_violation(cs.gates, g, i, row)),
{
    let v = gate_violation(cs.gates, g, i, row);
    lemma_gates_complete(cs.gates, row, table, cs.gates.len() as int, g, i);
    let gated = gate_violations(cs.gates, row, table, cs.gates.len() as int);
    let n = choose|n: int| 0 <= n < gated.len() && gated[n] == v;
    assert(row_violations(cs, row, table)[n] == v);
    lemma_rows_complete(cs, table, table.rows, row, v);
}

/// Every failing lookup is listed: no violation of a lookup is left out.
pub proof fn lemma_failing_lookup_is_listed(cs: ConstraintSystemView, table: TableView, l: int, row: int)
    requires
        lookup_fails(cs, table, l, row),
    ensures
        violations(cs, table).contains(lookup_violation(cs.lookups, l, row)),
{
    let v = lookup_violation(cs.lookups, l, row);
    lemma_lookups_complete(cs.lookups, row, table, cs.lookups.len() as int, l);
    let gated = gate_violations(cs.gates, row, table, cs.gates.len() as int);
    let looked = lookup_violations(cs.lookups, row, table, cs.lookups.len() as int);
    let n = choose|n: int| 0 <= n < looked.len() && looked[n] == v;
    assert(row_violations(cs, row, table)[gated.len() + n] == v);
    lemma_rows_complete(cs, table, table.rows, row, v);
}

/// The list is ordered by row: a violation never stands before one of an
/// earlier row.
pub proof fn lemma_violations_ordered_by_row(cs: ConstraintSystemView, table: TableView, a: int, b: int)
    requires
        table.rows <= usize::MAX,
        0 <= a <= b < violations(cs, table).len(),
    ensures
        row_of(violations(cs, table)[a]) <= row_of(violations(cs, table)[b]),
{
    if table.rows > 0 {
        lemma_rows_ordered(cs, table, table.rows, a, b);
    }
}

/// The checker is a function of the constraint system and the table: two
/// results for the same pair agree, on whether anything is violated and on
/// the list of violations.
pub proof fn lemma_verdict_is_unique(
    cs: ConstraintSystemView,
    table: TableView,
    first: Result<(), Vec<Violation>>,
    second: Result<(), Vec<Violation>>,
)
    requires
        verdict(cs, table, first),
        verdict(cs, table, second),
    ensures
        first is Ok <==> second is Ok,
        first is Err ==> first->Err_0@ == second->Err_0@,
{
}

/// What a constraint reads at a cell.
fn read(table: &WitnessTable, column: crate::column::Column, row: usize) -> (r: Felt)
    requires
        table.wf(),
    ensures
        r.value() == table@.read(column, row as int),
{
    match table.get(column, row) {
        Some(v) => v,
        None => Felt::zero(),
    }
}

/// Whether the inputs of `lookup` at `row` equal some row of its table.
pub fn lookup_holds(lookup: &Lookup, row: usize, table: &WitnessTable) -> (r: bool)
    requires
        table.wf(),
    ensures
        r == lookup_satisfied(lookup@, row as int, table@),
{
    let width = lookup.pairs.len();
    let mut inputs: Vec<Felt> = Vec::new();
    let mut j: usize = 0;
    while j < width
        invariant
            j <= width,
            width == lookup.pairs@.len(),
            table.wf(),
            inputs@.len() == j,
            forall|t: int|
                0 <= t < j ==> (#[trigger] inputs@[t]).value() == lookup.pairs@[t].0@.eval(row as int, table@),
        decreases width - j,
    {
        inputs.push(lookup.pairs[j].0.evaluate(row, table));
        j = j + 1;
    }
    let rows = table.domain_size();
    let mut at: usize = 0;
    while at < rows
        invariant
            at <= rows,
            rows == table@.rows,
            width == lookup.pairs@.len(),
            table.wf(),
            inputs@.len() == width,
            forall|t: int|
                0 <= t < width ==> (#[trigger] inputs@[t]).value() == lookup.pairs@[t].0@.eval(
                    row as int,
                    table@,
                ),
            forall|a: int| 0 <= a < at ==> !lookup_matches(lookup@, row as int, a, table@),
        decreases rows - at,
    {
        let mut equal = true;
        let mut t: usize = 0;
        while t < width && equal
            invariant
                t <= width,
                at < rows,
                width == lookup.pairs@.len(),
                table.wf(),
                inputs@.len() == width,
                forall|s: int|
                    0 <= s < width ==> (#[trigger] inputs@[s]).value() == lookup.pairs@[s].0@.eval(
                        row as int,
                        table@,
                    ),
                equal ==> forall|s: int|
                    0 <= s < t ==> (#[trigger] lookup.pairs@[s]).0@.eval(row as int, table@) == table@.read(
                        lookup.pairs@[s].1,
                        at as int,
                    ),
                !equal ==> !lookup_matches(lookup@, row as int, at as int, table@),
            decreases width - t,
        {
            let held = read(table, lookup.pairs[t].1, at);
            if !(inputs[t] == held) {
                equal = false;
                proof {
                    assert(inputs@[t as int].value() == lookup.pairs@[t as int].0@.eval(row as int, table@));
                    assert(lookup@.pairs[t as int].0.eval(row as int, table@) != table@.read(
                        lookup@.pairs[t as int].1,
                        at as int,
                    ));
                }
            }
            t = t + 1;
        }
        if equal {
            proof {
                assert forall|j: int| 0 <= j < lookup@.pairs.len() implies (#[trigger] lookup@.pairs[j]).0.eval(
                    row as int,
                    table@,
                ) == table@.read(lookup@.pairs[j].1, at as int) by {
                    assert(lookup.pairs@[j].0@.eval(row as int, table@) == table@.read(
                        lookup.pairs@[j].1,
                        at as int,
                    ));
                }
                assert(lookup_matches(lookup@, row as int, at as int, table@));
            }
            return true;
        }
        at = at + 1;
    }
    false
}

/// Checks every gate and every lookup at every row of the table.
///
/// Returns `Ok(())` where every identity evaluates to zero and every lookup
/// input is found in its table; otherwise every violation, ordered by row
/// and within a row by registration, gates before lookups. The checker reads
/// its arguments and changes nothing.
pub fn check(cs: &ConstraintSystem, table: &WitnessTable) -> (r: Result<(), Vec<Violation>>)
    requires
        table.wf(),
    ensures
        verdict(cs@, table@, r),
{
    let gates = cs.gates();
    let lookups = cs.lookups();
    let rows = table.domain_size();
    let mut found: Vec<Violation> = Vec::new();
    let mut row: usize = 0;
    while row < rows
        invariant
            row <= rows,
            rows == table@.rows,
            table.wf(),
            gate_views(gates@) == cs@.gates,
            lookup_views(lookups@) == cs@.lookups,
            found@ == violations_upto(cs@, table@, row as int),
        decreases rows - row,
    {
        let ghost done = found@;
        let mut g: usize = 0;
        while g < gates.len()
            invariant
                g <= gates@.len(),
                row < rows,
                table.wf(),
                found@ == done + gate_violations(gate_views(gates@), row as int, table@, g as int),
            decreases gates@.len() - g,
        {
            let ghost earlier = found@;
            let gate = &gates[g];
            let mut i: usize = 0;
            while i < gate.identities.len()
                invariant
                    i <= gate.identities@.len(),
                    g < gates@.len(),
                    *gate == gates@[g as int],
                    row < rows,
                    table.wf(),
                    found@ == earlier + identity_violations(gate_views(gates@), g as int, row as int, table@, i as int),
                decreases gate.identities@.len() - i,
            {
                let value = gate.identities[i].1.evaluate(row, table);
                if !value.is_zero() {
                    found.push(
                        Violation::Gate {
                            gate: g,
                            gate_name: gate.name,
                            identity: i,
                            identity_name: gate.identities[i].0,
                            row,
                        },
                    );
                }
                proof {
                    assert(found@ =~= earlier + identity_violations(
                        gate_views(gates@),
                        g as int,
                        row as int,
                        table@,
                        i + 1,
                    ));
                }
                i = i + 1;
            }
            proof {
                assert(found@ =~= done + gate_violations(gate_views(gates@), row as int, table@, g + 1));
            }
            g = g + 1;
        }
        let ghost gated = found@;
        let mut l: usize = 0;
        while l < lookups.len()
            invariant
                l <= lookups@.len(),
                row < rows,
                table.wf(),
                found@ == gated + lookup_violations(lookup_views(lookups@), row as int, table@, l as int),
            decreases lookups@.len() - l,
        {
            if !lookup_holds(&lookups[l], row, table) {
                found.push(Violation::Lookup { lookup: l, lookup_name: lookups[l].name, row });
            }
            proof {
                assert(found@ =~= gated + lookup_violations(lookup_views(lookups@), row as int, table@, l + 1));
            }
            l = l + 1;
        }
        proof {
            assert(found@ =~= violations_upto(cs@, table@, row + 1));
        }
        row = row + 1;
    }
    if found.len() == 0 {
        Ok(())
    } else {
        Err(found)
    }
}

} // verus!
