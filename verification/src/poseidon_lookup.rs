//! A circuit with one lookup: where the selector is on, the pair of advice
//! cells must be a row of the table of Poseidon digests of 0 to 15.
//!
//! A lookup has no selector of its own and is checked at every row. Each
//! input is therefore built as `q * cell + (1 - q) * default`, and the
//! default pair `(0, digest(0))` is row 0 of the table: a row where the
//! selector is off looks up the default pair and finds it.

use crate::checker::{
    gate_violations, lookup_matches, lookup_satisfied, lookup_violation, lookup_violations, row_violations, verdict,
    violations, violations_upto, Violation,
};
use crate::circuit::{initial_layouter, run_outcome, Circuit, MockProver, ProverView};
use crate::column::{Column, ColumnKind, Rotation};
use crate::constraint_system::{pair_views, ConstraintSystem, ConstraintSystemView};
use crate::error::Error;
use crate::expression::{Expression, Poly};
use crate::field::{
    lemma_add_neg, lemma_add_zero, lemma_modulus_large, lemma_mul_one, lemma_mul_zero, lemma_neg, modulus, Felt,
};
use crate::layouter::{first_overflow, padded, place_one, placed, Layouter, LayouterView};
use crate::poseidon::{hash, poseidon_digest};
use crate::region::{extent, AssignmentView, Region, RegionView, TableRegion};
use crate::witness::{initial_error, initial_table, TableView};
use vstd::arithmetic::div_mod::lemma_small_mod;
use vstd::arithmetic::power2::{lemma_pow2_pos, pow2};
use vstd::prelude::*;

verus! {

/// The number of rows that the table is loaded with.
pub const TABLE_ROWS: usize = 16;

/// `1 - q` for a selector `q`.
pub open spec fn off(q_enable: Column) -> Poly {
    Poly::Constant(1).minus(Poly::Selector(q_enable))
}

/// The first input of the lookup: `q * a + (1 - q) * 0`.
pub open spec fn input_a(q_enable: Column, a: Column) -> Poly {
    Poly::Selector(q_enable).times(Poly::Query(a, 0)).plus(off(q_enable).times(Poly::Constant(0)))
}

/// The second input of the lookup: `q * poseidon + (1 - q) * digest(0)`.
pub open spec fn input_poseidon(q_enable: Column, poseidon: Column) -> Poly {
    Poly::Selector(q_enable).times(Poly::Query(poseidon, 0)).plus(
        Poly::Scaled(Box::new(off(q_enable)), poseidon_digest(0)),
    )
}

/// The columns of the lookup table.
#[derive(Clone, Copy, Debug)]
pub struct PoseidonTableConfig {
    pub a: Column,
    pub poseidon: Column,
}

/// The columns of the lookup.
#[derive(Clone, Copy, Debug)]
pub struct PoseidonConfig {
    pub q_enable: Column,
    pub a: Column,
    pub poseidon: Column,
    pub table: PoseidonTableConfig,
}

/// The assignment number `i` of the table: the cells of row `i / 2`, first
/// the input and then its digest.
pub open spec fn table_assignment(table: PoseidonTableConfig, i: int) -> AssignmentView {
    if i % 2 == 0 {
        AssignmentView { column: table.a, offset: (i / 2) as usize, value: Some(i / 2) }
    } else {
        AssignmentView { column: table.poseidon, offset: (i / 2) as usize, value: Some(poseidon_digest(i / 2)) }
    }
}

/// The assignments that load the table: `(a, digest(a))` for `a` from 0 to
/// 15, at offset `a`.
pub open spec fn table_assignments(table: PoseidonTableConfig) -> Seq<AssignmentView> {
    Seq::new(2 * TABLE_ROWS as nat, |i: int| table_assignment(table, i))
}

impl PoseidonTableConfig {
    /// The layouter after `load`, and what `load` returns. A column that is
    /// no lookup-table column stops the load before the layouter is touched.
    pub open spec fn loaded(self, layouter: LayouterView) -> (LayouterView, Result<(), Error>) {
        match self.region_error() {
            Some(e) => (layouter, Err(e)),
            None => layouter.assign_table(RegionView { name: "Poseidon table", ops: table_assignments(self) }),
        }
    }

    /// Why the table region cannot be recorded, if it cannot: one of the two
    /// columns is no lookup-table column.
    pub open spec fn region_error(self) -> Option<Error> {
        if self.a.kind != ColumnKind::LookupTable {
            Some(Error::WrongColumnKind { column: self.a })
        } else if self.poseidon.kind != ColumnKind::LookupTable {
            Some(Error::WrongColumnKind { column: self.poseidon })
        } else {
            None
        }
    }

    /// Records the table: for `a` from 0 to 15, the value `a` and its digest
    /// at offset `a`.
    pub fn table_region(&self) -> (r: Result<TableRegion, Error>)
        ensures
            match r {
                Ok(region) => self.region_error() is None && region.wf() && region@ == (RegionView {
                    name: "Poseidon table",
                    ops: table_assignments(*self),
                }),
                Err(e) => self.region_error() == Some(e),
            },
    {
        let mut table = TableRegion::new("Poseidon table");
        let mut a: u64 = 0;
        while a < TABLE_ROWS as u64
            invariant
                a <= TABLE_ROWS,
                table.wf(),
                table@.name == "Poseidon table",
                a > 0 ==> self.region_error() is None,
                table@.ops == table_assignments(*self).take(2 * a),
            decreases TABLE_ROWS - a,
        {
            let offset = a as usize;
            let value = Felt::from_u64(a);
            match table.assign_table_cell(self.a, offset, Some(value)) {
                Ok(()) => {},
                Err(e) => {
                    return Err(e);
                },
            }
            let digest = hash(&value);
            match table.assign_table_cell(self.poseidon, offset, Some(digest)) {
                Ok(()) => {},
                Err(e) => {
                    return Err(e);
                },
            }
            proof {
                let all = table_assignments(*self);
                assert(all[2 * a] == table_assignment(*self, 2 * a));
                assert(all[2 * a + 1] == table_assignment(*self, 2 * a + 1));
                assert(table@.ops =~= all.take(2 * (a + 1)));
            }
            a = a + 1;
        }
        proof {
            assert(table@.ops =~= table_assignments(*self));
        }
        Ok(table)
    }

    /// Loads the table of digests into the layouter's table.
    pub fn load(&self, layouter: &mut Layouter) -> (r: Result<(), Error>)
        requires
            old(layouter).wf(),
        ensures
            final(layouter).wf(),
            (final(layouter)@, r) == self.loaded(old(layouter)@),
            final(layouter)@.table.k == old(layouter)@.table.k,
            final(layouter)@.table.rows == old(layouter)@.table.rows,
            final(layouter)@.table.shape == old(layouter)@.table.shape,
            final(layouter)@.cursor == old(layouter)@.cursor,
            final(layouter)@.full == old(layouter)@.full,
    {
        match self.table_region() {
            Ok(table) => layouter.assign_table(&table),
            Err(e) => Err(e),
        }
    }
}

/// The pairs of the lookup.
pub open spec fn poseidon_pairs(config: PoseidonConfig) -> Seq<(Poly, Column)> {
    seq![
        (input_a(config.q_enable, config.a), config.table.a),
        (input_poseidon(config.q_enable, config.poseidon), config.table.poseidon),
    ]
}

/// The columns that `configure` allocates in a system `cs`.
pub open spec fn poseidon_config(cs: ConstraintSystemView) -> PoseidonConfig {
    PoseidonConfig {
        q_enable: cs.next(ColumnKind::Selector),
        a: cs.next(ColumnKind::Advice),
        poseidon: Column { kind: ColumnKind::Advice, index: (cs.shape.advice + 1) as usize },
        table: PoseidonTableConfig {
            a: cs.next(ColumnKind::LookupTable),
            poseidon: Column { kind: ColumnKind::LookupTable, index: (cs.shape.tables + 1) as usize },
        },
    }
}

/// The system `cs` after `configure`: a complex selector, two advice columns
/// and two lookup-table columns more, and the lookup over them.
pub open spec fn poseidon_system(cs: ConstraintSystemView) -> ConstraintSystemView {
    cs.allocated(ColumnKind::Selector, false).allocated(ColumnKind::Advice, true).allocated(
        ColumnKind::Advice,
        true,
    ).allocated(ColumnKind::LookupTable, true).allocated(ColumnKind::LookupTable, true).with_lookup(
        "Poseidon lookup",
        poseidon_pairs(poseidon_config(cs)),
    )
}

impl PoseidonConfig {
    /// The region after `assign`, and what `assign` returns: the selector is
    /// switched on, then the two advice cells are assigned, the second with
    /// the digest of the first; a column of the wrong kind stops the
    /// assignment where it stands.
    pub open spec fn assigned(self, region: RegionView, offset: usize, a: Option<int>) -> (
        RegionView,
        Result<(), Error>,
    ) {
        if self.q_enable.kind != ColumnKind::Selector {
            (region, Err(Error::WrongColumnKind { column: self.q_enable }))
        } else {
            let enabled = region.ops.push(
                AssignmentView { column: self.q_enable, offset, value: Some(1int) },
            );
            if self.a.kind != ColumnKind::Advice {
                (RegionView { ops: enabled, ..region }, Err(Error::WrongColumnKind { column: self.a }))
            } else {
                let first = enabled.push(AssignmentView { column: self.a, offset, value: a });
                if self.poseidon.kind != ColumnKind::Advice {
                    (
                        RegionView { ops: first, ..region },
                        Err(Error::WrongColumnKind { column: self.poseidon }),
                    )
                } else {
                    let digest = match a {
                        Some(v) => Some(poseidon_digest(v)),
                        None => None,
                    };
                    (
                        RegionView {
                            ops: first.push(AssignmentView { column: self.poseidon, offset, value: digest }),
                            ..region
                        },
                        Ok(()),
                    )
                }
            }
        }
    }

    /// Allocates the columns of the lookup and registers it.
    pub fn configure(meta: &mut ConstraintSystem) -> (r: PoseidonConfig)
        requires
            old(meta).wf(),
            old(meta)@.shape.selectors < usize::MAX,
            old(meta)@.shape.advice + 1 < usize::MAX,
            old(meta)@.shape.tables + 1 < usize::MAX,
        ensures
            final(meta).wf(),
            r == poseidon_config(old(meta)@),
            final(meta)@ == poseidon_system(old(meta)@),
    {
        let q_enable = meta.complex_selector();
        let a = meta.advice_column();
        let poseidon = meta.advice_column();
        let table = PoseidonTableConfig { a: meta.lookup_table_column(), poseidon: meta.lookup_table_column() };
        let config = PoseidonConfig { q_enable, a, poseidon, table };

        let q = meta.query_selector(q_enable);
        let cell_a = meta.query_advice(a, Rotation::cur());
        let cell_poseidon = meta.query_advice(poseidon, Rotation::cur());
        let not_q_enable = Expression::constant(Felt::one()).minus(q.clone());
        let default_a = Expression::constant(Felt::zero());
        let default_poseidon = hash(&Felt::zero());
        let pairs = vec![
            (q.clone().times(cell_a).plus(not_q_enable.clone().times(default_a)), table.a),
            (q.times(cell_poseidon).plus(not_q_enable.scale(default_poseidon)), table.poseidon),
        ];
        proof {
            assert(pair_views(pairs@) =~= poseidon_pairs(config));
            reveal_with_fuel(Poly::first_unknown, 6);
            reveal_with_fuel(Poly::has_simple_selector, 6);
            reveal_with_fuel(crate::constraint_system::pairs_error, 3);
            assert(meta@.lookup_error("Poseidon lookup", poseidon_pairs(config)) is None);
        }
        match meta.lookup("Poseidon lookup", pairs) {
            Ok(()) => {},
            Err(_) => {},
        }
        config
    }

    /// Switches the selector on at `offset`, assigns `a` to the first advice
    /// cell there and its digest to the second.
    pub fn assign(&self, region: &mut Region, offset: usize, a: Option<Felt>) -> (r: Result<(), Error>)
        requires
            old(region).wf(),
        ensures
            final(region).wf(),
            (final(region)@, r) == self.assigned(
                old(region)@,
                offset,
                match a {
                    Some(v) => Some(v.value()),
                    None => None,
                },
            ),
    {
        match region.enable_selector(self.q_enable, offset) {
            Ok(()) => {},
            Err(e) => {
                return Err(e);
            },
        }
        match region.assign_advice(self.a, offset, a) {
            Ok(_) => {},
            Err(e) => {
                return Err(e);
            },
        }
        let poseidon = match a {
            Some(v) => Some(hash(&v)),
            None => None,
        };
        match region.assign_advice(self.poseidon, offset, poseidon) {
            Ok(_) => Ok(()),
            Err(e) => Err(e),
        }
    }
}

/// The circuit: it claims that its witness is in the table.
#[derive(Clone, Copy, Debug)]
pub struct MyCircuit {
    pub a: Option<Felt>,
}

impl Default for MyCircuit {
    fn default() -> (r: MyCircuit)
        ensures
            r.a is None,
    {
        MyCircuit { a: None }
    }
}

impl Circuit for MyCircuit {
    type Config = PoseidonConfig;

    open spec fn configured(cs: ConstraintSystemView, outcome: Result<PoseidonConfig, Error>) -> bool {
        cs == poseidon_system(ConstraintSystemView::empty()) && outcome == Ok::<PoseidonConfig, Error>(
            poseidon_config(ConstraintSystemView::empty()),
        )
    }

    open spec fn synthesized(
        &self,
        config: PoseidonConfig,
        before: LayouterView,
        after: LayouterView,
        outcome: Result<(), Error>,
    ) -> bool {
        let loaded = config.table.loaded(before);
        match loaded.1 {
            Err(e) => after == loaded.0 && outcome == Err::<(), Error>(e),
            Ok(()) => {
                let recorded = config.assigned(
                    RegionView { name: "assign a", ops: Seq::empty() },
                    0,
                    crate::custom_gates::witness_value(self.a),
                );
                match recorded.1 {
                    Err(e) => after == loaded.0 && outcome == Err::<(), Error>(e),
                    Ok(()) => {
                        let laid = loaded.0.assign_region(recorded.0);
                        after == laid.0 && outcome == match laid.1 {
                            Ok(_) => Ok::<(), Error>(()),
                            Err(e) => Err::<(), Error>(e),
                        }
                    },
                }
            },
        }
    }

    open spec fn witness_free(&self) -> bool {
        self.a is None
    }

    fn without_witnesses(&self) -> (r: MyCircuit) {
        MyCircuit { a: None }
    }

    fn configure(cs: &mut ConstraintSystem) -> (r: Result<PoseidonConfig, Error>) {
        Ok(PoseidonConfig::configure(cs))
    }

    fn synthesize(&self, config: PoseidonConfig, layouter: &mut Layouter) -> (r: Result<(), Error>) {
        match config.table.load(layouter) {
            Ok(()) => {},
            Err(e) => {
                return Err(e);
            },
        }
        let mut region = Region::new("assign a");
        let offset: usize = 0;
        match config.assign(&mut region, offset, self.a) {
            Ok(()) => {},
            Err(e) => {
                return Err(e);
            },
        }
        match layouter.assign_region(&region) {
            Ok(_) => Ok(()),
            Err(e) => Err(e),
        }
    }
}

/// The constraint system of the circuit.
pub open spec fn lookup_system() -> ConstraintSystemView {
    poseidon_system(ConstraintSystemView::empty())
}

/// The columns of the circuit.
pub open spec fn lookup_config() -> PoseidonConfig {
    poseidon_config(ConstraintSystemView::empty())
}

/// The table while the lookup table is being loaded: the first `n`
/// assignments have been made.
pub open spec fn partial_table(k: u32, n: int) -> TableView {
    let config = lookup_config();
    TableView {
        cells: Map::new(
            |key: (Column, int)|
                0 <= key.1 && ((key.0 == config.table.a && 2 * key.1 < n) || (key.0 == config.table.poseidon
                    && 2 * key.1 + 1 < n)),
            |key: (Column, int)|
                if key.0 == config.table.a {
                    key.1
                } else {
                    poseidon_digest(key.1)
                },
        ),
        ..initial_table(k, lookup_system().shape, Seq::empty())
    }
}

/// The table once the lookup table is loaded into a domain of `2^k` rows:
/// row `i` below 16 holds `(i, digest(i))`, and every later row holds the
/// pair of row 0.
pub open spec fn loaded_table(k: u32) -> TableView {
    padded(partial_table(k, 2 * TABLE_ROWS as int))
}

/// The table that a full run leaves for the witness with representative
/// `a`: the lookup table, and in row 0 the selector, the witness and its
/// digest.
pub open spec fn lookup_table(k: u32, a: int) -> TableView {
    let config = lookup_config();
    loaded_table(k).put(config.q_enable, 0, 1).put(config.a, 0, a).put(config.poseidon, 0, poseidon_digest(a))
}

/// The one violation that the circuit can have: its lookup at row 0.
pub open spec fn lookup_violation_at_row_zero() -> Violation {
    Violation::Lookup { lookup: 0, lookup_name: "Poseidon lookup", row: 0 }
}

/// Loading makes the first `n` assignments without error.
proof fn lemma_loading(k: u32, n: int)
    requires
        0 <= n <= 2 * TABLE_ROWS,
        TABLE_ROWS <= pow2(k as nat) <= usize::MAX,
    ensures
        placed(
            initial_table(k, lookup_system().shape, Seq::empty()),
            "Poseidon table",
            0,
            true,
            table_assignments(lookup_config().table).take(n),
        ) == (partial_table(k, n), None::<Error>),
    decreases n,
{
    let start = initial_table(k, lookup_system().shape, Seq::empty());
    let ops = table_assignments(lookup_config().table);
    if n == 0 {
        assert(partial_table(k, 0).cells =~= start.cells);
    } else {
        lemma_loading(k, n - 1);
        assert(ops.take(n).drop_last() =~= ops.take(n - 1));
        let op = ops[n - 1];
        assert(ops.take(n).last() == op);
        let before = partial_table(k, n - 1);
        let row = (n - 1) / 2;
        assert(op == table_assignment(lookup_config().table, n - 1));
        assert(!before.assigned(op.column, row));
        assert(before.put_error(op.column, row as usize) is None);
        let after = place_one(before, "Poseidon table", 0, true, op);
        assert(after.0.cells =~= partial_table(k, n).cells);
    }
}

/// What the loaded table holds in its two columns.
proof fn lemma_loaded_table(k: u32, row: int)
    requires
        TABLE_ROWS <= pow2(k as nat) <= usize::MAX,
        0 <= row < pow2(k as nat),
    ensures
        loaded_table(k).read(lookup_config().table.a, row) == if row < TABLE_ROWS {
            row
        } else {
            0
        },
        loaded_table(k).read(lookup_config().table.poseidon, row) == if row < TABLE_ROWS {
            poseidon_digest(row)
        } else {
            poseidon_digest(0)
        },
        lookup_table(k, 0).rows == pow2(k as nat),
{
    let partial = partial_table(k, 2 * TABLE_ROWS as int);
    assert(partial.assigned(lookup_config().table.a, 0));
    assert(partial.assigned(lookup_config().table.poseidon, 0));
}

/// What a run with no public input returns, in every domain: the domain may
/// be too large for the machine or too small for the table; a circuit
/// without witness fails synthesis; and otherwise the prover holds the
/// lookup's system and the table with the witness and its digest in row 0.
pub proof fn lemma_lookup_run(k: u32, circuit: MyCircuit, r: Result<MockProver, Error>)
    requires
        run_outcome::<MyCircuit>(k, circuit, Seq::empty(), true, r),
    ensures
        pow2(k as nat) > usize::MAX ==> r == Err::<MockProver, Error>(Error::DomainTooLarge { k }),
        pow2(k as nat) < TABLE_ROWS ==> r == Err::<MockProver, Error>(
            Error::LayoutOverflow {
                region: "Poseidon table",
                column: lookup_config().table.a,
                offset: pow2(k as nat) as usize,
            },
        ),
        TABLE_ROWS <= pow2(k as nat) <= usize::MAX && circuit.a is None ==> r == Err::<MockProver, Error>(
            Error::Synthesis { region: "assign a", column: lookup_config().a, offset: 0 },
        ),
        TABLE_ROWS <= pow2(k as nat) <= usize::MAX && circuit.a is Some ==> (r matches Ok(prover) && prover.wf()
            && prover@ == (ProverView { cs: lookup_system(), table: lookup_table(k, circuit.a->0.value()) })),
{
    let cs = lookup_system();
    let config = lookup_config();
    let instance = Seq::<Seq<int>>::empty();
    let rows = pow2(k as nat) as int;
    lemma_pow2_pos(k as nat);
    assert(forall|i: int| !crate::witness::first_overlong(instance, rows, i));
    if rows <= usize::MAX {
        assert(initial_error(k, cs.shape, instance) is None);
        let before = initial_layouter(k, cs, instance, true);
        let loading = table_assignments(config.table);
        if rows < TABLE_ROWS {
            let at = 2 * rows;
            assert(loading[at] == table_assignment(config.table, at));
            assert(first_overflow(loading, 0, rows, at)) by {
                assert forall|j: int| 0 <= j < at implies 0 + (#[trigger] loading[j]).offset < rows by {
                    assert(loading[j] == table_assignment(config.table, j));
                }
            }
            let c = choose|c: int| first_overflow(loading, 0, rows, c);
            if c < at {
                assert(loading[c] == table_assignment(config.table, c));
            } else if c > at {
                assert(0 + loading[at].offset < rows);
            }
        } else {
            assert forall|i: int| !first_overflow(loading, 0, rows, i) by {
                if 0 <= i < loading.len() {
                    assert(loading[i] == table_assignment(config.table, i));
                }
            }
            lemma_loading(k, 2 * TABLE_ROWS as int);
            assert(loading.take(2 * TABLE_ROWS as int) =~= loading);
            let loaded = config.table.loaded(before);
            assert(loaded.1 == Ok::<(), Error>(()));
            assert(loaded.0.table == loaded_table(k));
            assert(loaded.0.cursor == 0);

            let value = crate::custom_gates::witness_value(circuit.a);
            let digest: Option<int> = match value {
                Some(v) => Some(poseidon_digest(v)),
                None => None,
            };
            let enable = AssignmentView { column: config.q_enable, offset: 0, value: Some(1int) };
            let first = AssignmentView { column: config.a, offset: 0, value };
            let second = AssignmentView { column: config.poseidon, offset: 0, value: digest };
            let ops = seq![enable, first, second];
            let recorded = config.assigned(RegionView { name: "assign a", ops: Seq::empty() }, 0, value);
            assert(recorded.0.ops =~= ops);
            assert(forall|i: int| !first_overflow(ops, 0, rows, i));
            assert(ops.drop_last() =~= seq![enable, first]);
            assert(seq![enable, first].drop_last() =~= seq![enable]);
            assert(seq![enable].drop_last() =~= Seq::<AssignmentView>::empty());
            reveal_with_fuel(placed, 4);
            reveal_with_fuel(extent, 4);
            let table = loaded_table(k);
            let step1 = place_one(table, "assign a", 0, true, enable);
            assert(!table.assigned(config.q_enable, 0));
            assert(step1 == (table.put(config.q_enable, 0, 1), None::<Error>));
            assert(placed(table, "assign a", 0, true, seq![enable]) == step1);
            let step2 = place_one(step1.0, "assign a", 0, true, first);
            assert(!step1.0.assigned(config.a, 0));
            assert(placed(table, "assign a", 0, true, seq![enable, first]) == step2);
            if value is Some {
                let step3 = place_one(step2.0, "assign a", 0, true, second);
                assert(!step2.0.assigned(config.poseidon, 0));
                assert(placed(table, "assign a", 0, true, ops) == step3);
            } else {
                assert(placed(table, "assign a", 0, true, ops) == step2);
            }
            assert(extent(ops) == 1);
        }
    }
}

/// Where the selector is off, the inputs of the lookup are the default
/// pair, whatever the advice cells hold.
pub proof fn lemma_disabled_row_inputs(config: PoseidonConfig, row: int, table: TableView)
    requires
        table.read(config.q_enable, row) == 0,
        0 <= poseidon_digest(0) < modulus(),
    ensures
        input_a(config.q_enable, config.a).eval(row, table) == 0,
        input_poseidon(config.q_enable, config.poseidon).eval(row, table) == poseidon_digest(0),
{
    reveal_with_fuel(Poly::eval, 6);
    lemma_modulus_large();
    lemma_neg(0);
    lemma_add_zero(1);
    lemma_add_zero(0);
    lemma_mul_zero(1);
    lemma_mul_zero(table.read(config.a, crate::column::rotated_row(row, 0, table.rows)));
    lemma_mul_zero(table.read(config.poseidon, crate::column::rotated_row(row, 0, table.rows)));
    lemma_mul_one(poseidon_digest(0));
    lemma_add_zero(poseidon_digest(0));
}

/// Where the selector is on, the inputs of the lookup are the two advice
/// cells of the row.
pub proof fn lemma_enabled_row_inputs(config: PoseidonConfig, row: int, table: TableView)
    requires
        table.wf(),
        0 <= row < table.rows,
        table.read(config.q_enable, row) == 1,
    ensures
        input_a(config.q_enable, config.a).eval(row, table) == table.read(config.a, row),
        input_poseidon(config.q_enable, config.poseidon).eval(row, table) == table.read(config.poseidon, row),
{
    reveal_with_fuel(Poly::eval, 6);
    lemma_modulus_large();
    lemma_small_mod(row as nat, table.rows as nat);
    let a = table.read(config.a, row);
    let p = table.read(config.poseidon, row);
    assert(0 <= a < modulus()) by {
        if table.assigned(config.a, row) {
        }
    }
    assert(0 <= p < modulus()) by {
        if table.assigned(config.poseidon, row) {
        }
    }
    lemma_add_neg(1);
    lemma_mul_one(a);
    lemma_mul_one(p);
    lemma_mul_zero(0);
    lemma_mul_zero(poseidon_digest(0));
    lemma_add_zero(a);
    lemma_add_zero(p);
}

/// Whether `table` holds the loaded lookup table in a domain of at least 16
/// rows.
pub open spec fn holds_lookup_table(table: TableView) -> bool {
    &&& table.wf()
    &&& TABLE_ROWS <= table.rows
    &&& 0 <= poseidon_digest(0) < modulus()
    &&& forall|row: int|
        0 <= row < table.rows ==> #[trigger] table.read(lookup_config().table.a, row) == if row < TABLE_ROWS {
            row
        } else {
            0
        }
    &&& forall|row: int|
        0 <= row < table.rows ==> #[trigger] table.read(lookup_config().table.poseidon, row) == if row
            < TABLE_ROWS {
            poseidon_digest(row)
        } else {
            poseidon_digest(0)
        }
}

/// A row where the selector is off violates nothing: it looks up the
/// default pair, which is row 0 of the table.
pub proof fn lemma_disabled_row_is_satisfied(table: TableView, row: int)
    requires
        holds_lookup_table(table),
        0 <= row < table.rows,
        table.read(lookup_config().q_enable, row) == 0,
    ensures
        lookup_satisfied(lookup_system().lookups[0], row, table),
        row_violations(lookup_system(), row, table) == Seq::<Violation>::empty(),
{
    let cs = lookup_system();
    let config = lookup_config();
    let lookup = cs.lookups[0];
    assert(cs.gates =~= Seq::empty());
    assert(cs.lookups =~= seq![lookup]);
    assert(lookup.pairs =~= poseidon_pairs(config));
    lemma_disabled_row_inputs(config, row, table);
    assert(table.read(config.table.a, 0) == 0);
    assert(table.read(config.table.poseidon, 0) == poseidon_digest(0));
    assert(lookup_matches(lookup, row, 0, table));
    reveal_with_fuel(lookup_violations, 2);
    reveal_with_fuel(gate_violations, 1);
    assert(row_violations(cs, row, table) =~= Seq::<Violation>::empty());
}

/// A row where the selector is on, with the digest beside the value, is
/// satisfied exactly when the value is one of 0 to 15; another value is one
/// violation of the lookup at that row.
pub proof fn lemma_enabled_row(table: TableView, row: int)
    requires
        holds_lookup_table(table),
        0 <= row < table.rows,
        table.read(lookup_config().q_enable, row) == 1,
        table.read(lookup_config().poseidon, row) == poseidon_digest(table.read(lookup_config().a, row)),
    ensures
        row_violations(lookup_system(), row, table) == if table.read(lookup_config().a, row) < TABLE_ROWS {
            Seq::<Violation>::empty()
        } else {
            seq![lookup_violation(lookup_system().lookups, 0, row)]
        },
{
    let cs = lookup_system();
    let config = lookup_config();
    let lookup = cs.lookups[0];
    let a = table.read(config.a, row);
    assert(cs.gates =~= Seq::empty());
    assert(cs.lookups =~= seq![lookup]);
    assert(lookup.pairs =~= poseidon_pairs(config));
    lemma_enabled_row_inputs(config, row, table);
    assert(0 <= a) by {
        if table.assigned(config.a, row) {
        }
    }
    reveal_with_fuel(lookup_violations, 2);
    reveal_with_fuel(gate_violations, 1);
    if a < TABLE_ROWS {
        assert(table.read(config.table.a, a) == a);
        assert(table.read(config.table.poseidon, a) == poseidon_digest(a));
        assert(lookup_matches(lookup, row, a, table));
        assert(row_violations(cs, row, table) =~= Seq::<Violation>::empty());
    } else {
        assert forall|at: int| 0 <= at < table.rows implies !lookup_matches(lookup, row, at, table) by {
            assert(table.read(config.table.a, at) < TABLE_ROWS);
            assert(lookup.pairs[0].0.eval(row, table) != table.read(lookup.pairs[0].1, at));
        }
        assert(row_violations(cs, row, table) =~= seq![lookup_violation(cs.lookups, 0, row)]);
    }
}

/// The loaded table holds the lookup table.
proof fn lemma_loaded_holds(k: u32)
    requires
        TABLE_ROWS <= pow2(k as nat) <= usize::MAX,
        loaded_table(k).wf(),
    ensures
        holds_lookup_table(loaded_table(k)),
        forall|row: int| loaded_table(k).read(lookup_config().q_enable, row) == 0,
{
    let config = lookup_config();
    let loaded = loaded_table(k);
    lemma_loaded_table(k, 0);
    assert(loaded.assigned(config.table.poseidon, 0));
    assert forall|row: int| 0 <= row < loaded.rows implies #[trigger] loaded.read(config.table.a, row) == if row
        < TABLE_ROWS {
        row
    } else {
        0
    } by {
        lemma_loaded_table(k, row);
    }
    assert forall|row: int| 0 <= row < loaded.rows implies #[trigger] loaded.read(config.table.poseidon, row)
        == if row < TABLE_ROWS {
        poseidon_digest(row)
    } else {
        poseidon_digest(0)
    } by {
        lemma_loaded_table(k, row);
    }
}

/// The table of a run holds the lookup table, and its selector is on at row
/// 0 only.
proof fn lemma_run_table_holds(k: u32, a: int)
    requires
        TABLE_ROWS <= pow2(k as nat) <= usize::MAX,
        lookup_table(k, a).wf(),
    ensures
        holds_lookup_table(lookup_table(k, a)),
        forall|row: int| 1 <= row ==> lookup_table(k, a).read(lookup_config().q_enable, row) == 0,
        lookup_table(k, a).read(lookup_config().q_enable, 0) == 1,
        lookup_table(k, a).read(lookup_config().a, 0) == a,
        lookup_table(k, a).read(lookup_config().poseidon, 0) == poseidon_digest(a),
{
    let config = lookup_config();
    let loaded = loaded_table(k);
    let table = lookup_table(k, a);
    lemma_loaded_table(k, 0);
    assert(loaded.assigned(config.table.poseidon, 0));
    assert(table.assigned(config.table.poseidon, 0));
    assert(table.cells[(config.table.poseidon, 0)] == poseidon_digest(0));
    assert forall|row: int| 0 <= row < table.rows implies #[trigger] table.read(config.table.a, row) == if row
        < TABLE_ROWS {
        row
    } else {
        0
    } by {
        lemma_loaded_table(k, row);
    }
    assert forall|row: int| 0 <= row < table.rows implies #[trigger] table.read(config.table.poseidon, row)
        == if row < TABLE_ROWS {
        poseidon_digest(row)
    } else {
        poseidon_digest(0)
    } by {
        lemma_loaded_table(k, row);
    }
}

/// In the table of a run, the violations of the first `rows` rows are those
/// of row 0.
proof fn lemma_lookup_rows(k: u32, a: int, rows: int)
    requires
        TABLE_ROWS <= pow2(k as nat) <= usize::MAX,
        lookup_table(k, a).wf(),
        1 <= rows <= pow2(k as nat),
    ensures
        violations_upto(lookup_system(), lookup_table(k, a), rows) == row_violations(
            lookup_system(),
            0,
            lookup_table(k, a),
        ),
    decreases rows,
{
    let cs = lookup_system();
    let table = lookup_table(k, a);
    lemma_run_table_holds(k, a);
    if rows == 1 {
        reveal_with_fuel(violations_upto, 2);
        assert(violations_upto(cs, table, 1) =~= row_violations(cs, 0, table));
    } else {
        lemma_lookup_rows(k, a, rows - 1);
        lemma_disabled_row_is_satisfied(table, rows - 1);
        assert(violations_upto(cs, table, rows) =~= row_violations(cs, 0, table));
    }
}

/// In the loaded table, the first `rows` rows violate nothing.
proof fn lemma_loaded_rows(k: u32, rows: int)
    requires
        TABLE_ROWS <= pow2(k as nat) <= usize::MAX,
        loaded_table(k).wf(),
        0 <= rows <= pow2(k as nat),
    ensures
        violations_upto(lookup_system(), loaded_table(k), rows) == Seq::<Violation>::empty(),
    decreases rows,
{
    let cs = lookup_system();
    let table = loaded_table(k);
    lemma_loaded_holds(k);
    if rows > 0 {
        lemma_loaded_rows(k, rows - 1);
        lemma_disabled_row_is_satisfied(table, rows - 1);
        assert(violations_upto(cs, table, rows) =~= Seq::<Violation>::empty());
    }
}

/// A synthesis that loads the table and switches the selector on nowhere is
/// satisfied: every row looks up the default pair.
pub proof fn lemma_all_rows_disabled(k: u32)
    requires
        TABLE_ROWS <= pow2(k as nat) <= usize::MAX,
        loaded_table(k).wf(),
    ensures
        violations(lookup_system(), loaded_table(k)) == Seq::<Violation>::empty(),
{
    lemma_loaded_rows(k, loaded_table(k).rows);
}

/// With a witness from 0 to 15 the circuit is satisfied in every domain
/// that holds the table; with any other witness the checker finds exactly
/// one violation, that of the lookup at row 0, where the selector is on.
pub proof fn lemma_lookup_violations(k: u32, a: int)
    requires
        TABLE_ROWS <= pow2(k as nat) <= usize::MAX,
        lookup_table(k, a).wf(),
    ensures
        violations(lookup_system(), lookup_table(k, a)) == if a < TABLE_ROWS {
            Seq::<Violation>::empty()
        } else {
            seq![lookup_violation_at_row_zero()]
        },
{
    let table = lookup_table(k, a);
    lemma_run_table_holds(k, a);
    lemma_lookup_rows(k, a, table.rows);
    lemma_enabled_row(table, 0);
}

/// Checking a full run of the circuit: the run cannot have succeeded without
/// a witness or in a domain too small for the table; the check passes where
/// the witness is one of 0 to 15, and otherwise it returns the one violation
/// of row 0.
pub proof fn lemma_lookup_checked(k: u32, circuit: MyCircuit, prover: MockProver, r: Result<(), Vec<Violation>>)
    requires
        run_outcome::<MyCircuit>(k, circuit, Seq::empty(), true, Ok::<MockProver, Error>(prover)),
        verdict(prover@.cs, prover@.table, r),
    ensures
        circuit.a is Some,
        TABLE_ROWS <= pow2(k as nat),
        circuit.a->0.value() < TABLE_ROWS ==> r is Ok,
        circuit.a->0.value() >= TABLE_ROWS ==> r is Err && r->Err_0@ == seq![lookup_violation_at_row_zero()],
{
    lemma_lookup_run(k, circuit, Ok(prover));
    prover.lemma_view_wf();
    lemma_lookup_violations(k, circuit.a->0.value());
}

} // verus!
