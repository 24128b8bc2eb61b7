//! A circuit with one custom gate: where the selector is on, the advice cell
//! must hold one.

use crate::checker::{
    gate_violation, gate_violations, identity_violations, lookup_violations, row_violations, verdict, violations,
    violations_upto, Violation,
};
use crate::circuit::{initial_layouter, run_outcome, Circuit, MockProver, ProverView};
use crate::column::{Column, ColumnKind, Rotation};
use crate::constraint_system::{identity_views, ConstraintSystem, ConstraintSystemView};
use crate::error::Error;
use crate::expression::{Expression, Poly};
use crate::field::{
    field_add, field_neg, lemma_difference_zero, lemma_modulus_large, lemma_mul_one, lemma_mul_zero, modulus, Felt,
};
use crate::layouter::{first_overflow, place_one, placed, Layouter, LayouterView};
use crate::region::{extent, AssignmentView, Region, RegionView};
use crate::witness::{initial_error, initial_table, TableView};
use vstd::arithmetic::div_mod::lemma_small_mod;
use vstd::arithmetic::power2::{lemma_pow2_pos, pow2};
use vstd::prelude::*;

verus! {

/// The identity of the "a is one" gate: `q_enable * (a - 1)`.
pub open spec fn eq_one_identity(q_enable: Column, a: Column) -> Poly {
    Poly::Selector(q_enable).times(Poly::Query(a, 0).minus(Poly::Constant(1)))
}

/// The named identities of the "a is one" gate.
pub open spec fn eq_one_identities(q_enable: Column, a: Column) -> Seq<(&'static str, Poly)> {
    seq![("check a", eq_one_identity(q_enable, a))]
}

/// The columns that the "a is one" gate reads.
#[derive(Clone, Copy, Debug)]
pub struct EqOneConfig {
    pub q_enable: Column,
    pub a: Column,
}

impl EqOneConfig {
    /// The region after `assign`, and what `assign` returns: the selector is
    /// switched on first, then the advice cell is assigned; a column of the
    /// wrong kind stops the assignment where it stands.
    pub open spec fn assigned(self, region: RegionView, offset: usize, dummy: Option<int>) -> (
        RegionView,
        Result<(), Error>,
    ) {
        if self.q_enable.kind != ColumnKind::Selector {
            (region, Err(Error::WrongColumnKind { column: self.q_enable }))
        } else {
            let enabled = RegionView {
                ops: region.ops.push(AssignmentView { column: self.q_enable, offset, value: Some(1int) }),
                ..region
            };
            if self.a.kind != ColumnKind::Advice {
                (enabled, Err(Error::WrongColumnKind { column: self.a }))
            } else {
                (
                    RegionView {
                        ops: enabled.ops.push(AssignmentView { column: self.a, offset, value: dummy }),
                        ..region
                    },
                    Ok(()),
                )
            }
        }
    }

    /// Registers a gate named "a is one" over a selector and an advice column.
    pub fn configure(meta: &mut ConstraintSystem, q_enable: Column, a: Column) -> (r: Result<EqOneConfig, Error>)
        requires
            old(meta).wf(),
        ensures
            final(meta).wf(),
            match old(meta)@.gate_error("a is one", eq_one_identities(q_enable, a)) {
                Some(e) => r == Err::<EqOneConfig, Error>(e) && final(meta)@ == old(meta)@,
                None => r == Ok::<EqOneConfig, Error>(EqOneConfig { q_enable, a }) && final(meta)@ == old(
                    meta,
                )@.with_gate("a is one", eq_one_identities(q_enable, a)),
            },
    {
        let q = meta.query_selector(q_enable);
        let cell = meta.query_advice(a, Rotation::cur());
        let one = Expression::constant(Felt::one());
        let identities = vec![("check a", q.times(cell.minus(one)))];
        proof {
            assert(identity_views(identities@) =~= eq_one_identities(q_enable, a));
        }
        match meta.create_gate("a is one", identities) {
            Ok(()) => Ok(EqOneConfig { q_enable, a }),
            Err(e) => Err(e),
        }
    }

    /// Switches the selector on at `offset` and assigns `dummy` to the advice
    /// cell there.
    pub fn assign(&self, region: &mut Region, offset: usize, dummy: Option<Felt>) -> (r: Result<(), Error>)
        requires
            old(region).wf(),
        ensures
            final(region).wf(),
            (final(region)@, r) == self.assigned(
                old(region)@,
                offset,
                match dummy {
                    Some(v) => Some(v.value()),
                    None => None,
                },
            ),
    {
        match region.enable_selector(self.q_enable, offset) {
            Ok(()) => {},
            Err(e) => {
                return Err(e);
            },
        }
        match region.assign_advice(self.a, offset, dummy) {
            Ok(_) => Ok(()),
            Err(e) => Err(e),
        }
    }
}

/// The constraint system of the circuit: one advice column, one simple
/// selector, and one gate over them.
pub open spec fn eq_one_system() -> ConstraintSystemView {
    ConstraintSystemView::empty().allocated(ColumnKind::Advice, true).allocated(
        ColumnKind::Selector,
        true,
    ).with_gate(
        "a is one",
        eq_one_identities(
            Column { kind: ColumnKind::Selector, index: 0 },
            Column { kind: ColumnKind::Advice, index: 0 },
        ),
    )
}

/// The configuration that goes with `eq_one_system`.
pub open spec fn eq_one_config() -> EqOneConfig {
    EqOneConfig {
        q_enable: Column { kind: ColumnKind::Selector, index: 0 },
        a: Column { kind: ColumnKind::Advice, index: 0 },
    }
}

/// The representative of an optional element.
pub open spec fn witness_value(a: Option<Felt>) -> Option<int> {
    match a {
        Some(v) => Some(v.value()),
        None => None,
    }
}

/// The circuit: it claims that its witness is one.
#[derive(Clone, Copy, Debug)]
pub struct MyCircuit {
    pub a: Option<Felt>,
}

impl Default for MyCircuit {
    fn default() -> (r: MyCircuit)
        ensures
            r.a is None,
    {
        MyCircuit { a: None }
    }
}

impl Circuit for MyCircuit {
    type Config = EqOneConfig;

    open spec fn configured(cs: ConstraintSystemView, outcome: Result<EqOneConfig, Error>) -> bool {
        cs == eq_one_system() && outcome == Ok::<EqOneConfig, Error>(eq_one_config())
    }

    open spec fn synthesized(
        &self,
        config: EqOneConfig,
        before: LayouterView,
        after: LayouterView,
        outcome: Result<(), Error>,
    ) -> bool {
        let recorded = config.assigned(
            RegionView { name: "assign a", ops: Seq::empty() },
            0,
            witness_value(self.a),
        );
        match recorded.1 {
            Err(e) => after == before && outcome == Err::<(), Error>(e),
            Ok(()) => {
                let laid = before.assign_region(recorded.0);
                after == laid.0 && outcome == match laid.1 {
                    Ok(_) => Ok::<(), Error>(()),
                    Err(e) => Err::<(), Error>(e),
                }
            },
        }
    }

    open spec fn witness_free(&self) -> bool {
        self.a is None
    }

    fn without_witnesses(&self) -> (r: MyCircuit) {
        MyCircuit { a: None }
    }

    fn configure(cs: &mut ConstraintSystem) -> (r: Result<EqOneConfig, Error>) {
        let a = cs.advice_column();
        let q_enable = cs.selector();
        proof {
            reveal_with_fuel(Poly::first_unknown, 5);
            reveal_with_fuel(Poly::has_simple_selector, 5);
            reveal_with_fuel(crate::constraint_system::identities_error, 3);
        }
        EqOneConfig::configure(cs, q_enable, a)
    }

    fn synthesize(&self, config: EqOneConfig, layouter: &mut Layouter) -> (r: Result<(), Error>) {
        let mut region = Region::new("assign a");
        let offset: usize = 0;
        match config.assign(&mut region, offset, self.a) {
            Ok(()) => {},
            Err(e) => {
                return Err(e);
            },
        }
        match layouter.assign_region(&region) {
            Ok(_) => Ok(()),
            Err(e) => Err(e),
        }
    }
}

/// The table that a full run leaves in a domain of `2^k` rows for the witness
/// with representative `a`: the selector is on at row 0, the advice cell of
/// row 0 holds `a`, and nothing else is assigned.
pub open spec fn eq_one_table(k: u32, a: int) -> TableView {
    initial_table(k, eq_one_system().shape, Seq::empty()).put(eq_one_config().q_enable, 0, 1).put(
        eq_one_config().a,
        0,
        a,
    )
}

/// The one violation that the circuit can have: its identity at row 0.
pub open spec fn eq_one_violation() -> Violation {
    Violation::Gate { gate: 0, gate_name: "a is one", identity: 0, identity_name: "check a", row: 0 }
}

/// What a run with no public input returns, in every domain: the domain may
/// be too large for the machine; a circuit without witness fails synthesis;
/// and otherwise the prover holds the constraint system of the circuit and
/// the table with the witness in row 0.
pub proof fn lemma_eq_one_run(k: u32, circuit: MyCircuit, r: Result<MockProver, Error>)
    requires
        run_outcome::<MyCircuit>(k, circuit, Seq::empty(), true, r),
    ensures
        pow2(k as nat) > usize::MAX ==> r == Err::<MockProver, Error>(Error::DomainTooLarge { k }),
        pow2(k as nat) <= usize::MAX && circuit.a is None ==> r == Err::<MockProver, Error>(
            Error::Synthesis { region: "assign a", column: eq_one_config().a, offset: 0 },
        ),
        pow2(k as nat) <= usize::MAX && circuit.a is Some ==> (r matches Ok(prover) && prover.wf() && prover@
            == (ProverView { cs: eq_one_system(), table: eq_one_table(k, circuit.a->0.value()) })),
{
    let cs = eq_one_system();
    let config = eq_one_config();
    let instance = Seq::<Seq<int>>::empty();
    lemma_pow2_pos(k as nat);
    assert(forall|i: int| !crate::witness::first_overlong(instance, pow2(k as nat) as int, i));
    if pow2(k as nat) <= usize::MAX {
        assert(initial_error(k, cs.shape, instance) is None);
        let before = initial_layouter(k, cs, instance, true);
        let value = witness_value(circuit.a);
        let enable = AssignmentView { column: config.q_enable, offset: 0, value: Some(1int) };
        let assign = AssignmentView { column: config.a, offset: 0, value };
        let ops = seq![enable, assign];
        let recorded = config.assigned(RegionView { name: "assign a", ops: Seq::empty() }, 0, value);
        assert(recorded.0.ops =~= ops);
        assert(forall|i: int| !first_overflow(ops, 0, before.table.rows, i));
        assert(ops.drop_last() =~= seq![enable]);
        assert(seq![enable].drop_last() =~= Seq::<AssignmentView>::empty());
        reveal_with_fuel(placed, 3);
        reveal_with_fuel(extent, 3);
        let first = place_one(before.table, "assign a", 0, true, enable);
        assert(first == (before.table.put(config.q_enable, 0, 1), None::<Error>));
        assert(placed(before.table, "assign a", 0, true, seq![enable]) == first);
        assert(placed(before.table, "assign a", 0, true, ops) == place_one(first.0, "assign a", 0, true, assign));
        assert(extent(ops) == 1);
    }
}

/// In a row other than row 0 the identity is zero, because the selector is
/// off there.
proof fn lemma_eq_one_quiet_row(k: u32, a: int, row: int)
    requires
        1 <= row,
    ensures
        row_violations(eq_one_system(), row, eq_one_table(k, a)) == Seq::<Violation>::empty(),
{
    let cs = eq_one_system();
    let table = eq_one_table(k, a);
    let config = eq_one_config();
    assert(cs.gates =~= seq![cs.gates[0]]);
    assert(cs.gates[0].identities =~= eq_one_identities(config.q_enable, config.a));
    assert(cs.lookups =~= Seq::empty());
    reveal_with_fuel(gate_violations, 2);
    reveal_with_fuel(identity_violations, 2);
    reveal_with_fuel(lookup_violations, 1);
    reveal_with_fuel(crate::expression::Poly::eval, 5);
    assert(!table.assigned(config.q_enable, row));
    lemma_mul_zero(eq_one_identity(config.q_enable, config.a)->Product_1.eval(row, table));
    assert(eq_one_identity(config.q_enable, config.a).eval(row, table) == 0);
    assert(row_violations(cs, row, table) =~= Seq::<Violation>::empty());
}

/// At row 0 the identity is `a - 1`.
proof fn lemma_eq_one_first_row(k: u32, a: int)
    requires
        0 <= a < modulus(),
    ensures
        row_violations(eq_one_system(), 0, eq_one_table(k, a)) == if a == 1 {
            Seq::<Violation>::empty()
        } else {
            seq![eq_one_violation()]
        },
{
    let cs = eq_one_system();
    let table = eq_one_table(k, a);
    let config = eq_one_config();
    lemma_pow2_pos(k as nat);
    assert(cs.gates =~= seq![cs.gates[0]]);
    assert(cs.gates[0].identities =~= eq_one_identities(config.q_enable, config.a));
    assert(cs.lookups =~= Seq::empty());
    reveal_with_fuel(gate_violations, 2);
    reveal_with_fuel(identity_violations, 2);
    reveal_with_fuel(lookup_violations, 1);
    reveal_with_fuel(crate::expression::Poly::eval, 5);
    lemma_small_mod(0, table.rows as nat);
    assert(table.read(config.q_enable, 0) == 1);
    assert(table.read(config.a, 0) == a);
    lemma_modulus_large();
    let shifted = field_add(a, field_neg(1));
    lemma_difference_zero(a, 1);
    lemma_mul_one(shifted);
    assert(eq_one_identity(config.q_enable, config.a).eval(0, table) == shifted);
    assert(gate_violation(cs.gates, 0, 0, 0) == eq_one_violation());
    if a == 1 {
        assert(row_violations(cs, 0, table) =~= Seq::<Violation>::empty());
    } else {
        assert(row_violations(cs, 0, table) =~= seq![eq_one_violation()]);
    }
}

/// The violations in the first `rows` rows are those of row 0.
proof fn lemma_eq_one_rows(k: u32, a: int, rows: int)
    requires
        0 <= a < modulus(),
        1 <= rows,
    ensures
        violations_upto(eq_one_system(), eq_one_table(k, a), rows) == row_violations(
            eq_one_system(),
            0,
            eq_one_table(k, a),
        ),
    decreases rows,
{
    let cs = eq_one_system();
    let table = eq_one_table(k, a);
    if rows == 1 {
        reveal_with_fuel(violations_upto, 2);
        assert(violations_upto(cs, table, 1) =~= row_violations(cs, 0, table));
    } else {
        lemma_eq_one_rows(k, a, rows - 1);
        lemma_eq_one_quiet_row(k, a, rows - 1);
        assert(violations_upto(cs, table, rows) =~= row_violations(cs, 0, table));
    }
}

/// With the witness one the circuit is satisfied in every domain; with any
/// other witness the checker finds exactly one violation, that of the
/// identity at row 0, where the selector is on.
pub proof fn lemma_eq_one_violations(k: u32, a: int)
    requires
        0 <= a < modulus(),
    ensures
        violations(eq_one_system(), eq_one_table(k, a)) == if a == 1 {
            Seq::<Violation>::empty()
        } else {
            seq![eq_one_violation()]
        },
{
    lemma_pow2_pos(k as nat);
    lemma_eq_one_rows(k, a, eq_one_table(k, a).rows);
    lemma_eq_one_first_row(k, a);
}

/// Checking a full run of the circuit: the run cannot have succeeded without
/// a witness; the check passes where the witness is one, and otherwise it
/// returns the one violation of row 0.
pub proof fn lemma_eq_one_checked(k: u32, circuit: MyCircuit, prover: MockProver, r: Result<(), Vec<Violation>>)
    requires
        run_outcome::<MyCircuit>(k, circuit, Seq::empty(), true, Ok::<MockProver, Error>(prover)),
        verdict(prover@.cs, prover@.table, r),
    ensures
        circuit.a is Some,
        circuit.a->0.value() == 1 ==> r is Ok,
        circuit.a->0.value() != 1 ==> r is Err && r->Err_0@ == seq![eq_one_violation()],
{
    lemma_eq_one_run(k, circuit, Ok(prover));
    prover.lemma_view_wf();
    let a = circuit.a->0.value();
    assert(prover@.table.assigned(eq_one_config().a, 0));
    lemma_eq_one_violations(k, a);
}

} // verus!
