//! The contract between a circuit and the system, and the prover that runs a
//! circuit through both of its phases.

use crate::checker::{check, verdict, Violation};
use crate::constraint_system::{ConstraintSystem, ConstraintSystemView};
use crate::error::Error;
use crate::field::Felt;
use crate::layouter::{Layouter, LayouterView};
use crate::witness::{initial_error, initial_table, instance_values, TableView, WitnessTable};
use vstd::prelude::*;

verus! {

/// A circuit: `configure` builds the constraint system without looking at
/// any witness, and `synthesize` fills the witness table through the
/// layouter.
///
/// The two relations say what an implementation's phases do; the prover
/// states its own result in their terms.
pub trait Circuit: Sized {
    /// The column handles that `configure` hands to `synthesize`.
    type Config;

    /// Whether `configure`, run on an empty constraint system, may leave the
    /// system `cs` and return `outcome`.
    spec fn configured(cs: ConstraintSystemView, outcome: Result<Self::Config, Error>) -> bool;

    /// Whether `synthesize`, run with `config` on the layouter `before`, may
    /// leave the layouter `after` and return `outcome`.
    spec fn synthesized(
        &self,
        config: Self::Config,
        before: LayouterView,
        after: LayouterView,
        outcome: Result<(), Error>,
    ) -> bool;

    /// Whether the circuit carries no witness.
    spec fn witness_free(&self) -> bool;

    /// The same circuit with every witness cleared.
    fn without_witnesses(&self) -> (r: Self)
        ensures
            r.witness_free(),
    ;

    /// Allocates the columns and registers the gates and lookups.
    fn configure(cs: &mut ConstraintSystem) -> (r: Result<Self::Config, Error>)
        requires
            old(cs).wf(),
            old(cs)@ == ConstraintSystemView::empty(),
        ensures
            final(cs).wf(),
            Self::configured(final(cs)@, r),
    ;

    /// Assigns the witness, region by region.
    fn synthesize(&self, config: Self::Config, layouter: &mut Layouter) -> (r: Result<(), Error>)
        requires
            old(layouter).wf(),
        ensures
            final(layouter).wf(),
            final(layouter)@.table.k == old(layouter)@.table.k,
            final(layouter)@.table.shape == old(layouter)@.table.shape,
            self.synthesized(config, old(layouter)@, final(layouter)@, r),
    ;
}

/// A constraint system together with a witness table for it.
pub ghost struct ProverView {
    pub cs: ConstraintSystemView,
    pub table: TableView,
}

/// The layouter that a run starts from: the public inputs are in the table
/// and the cursor is on row 0. In a full run every assigned cell needs a
/// value.
pub open spec fn initial_layouter(
    k: u32,
    cs: ConstraintSystemView,
    instance: Seq<Seq<int>>,
    full: bool,
) -> LayouterView {
    LayouterView { table: initial_table(k, cs.shape, instance), cursor: 0, full }
}

/// Whether a run of `circuit` in a domain of `2^k` rows may return `r`.
///
/// The run configures an empty constraint system, makes the table with the
/// public inputs, and synthesizes with a layouter that demands full
/// witnesses or, for `full == false`, does not. The first phase that fails
/// gives the error; where none fails, the prover holds the constraint system
/// and the table as the two phases left them.
pub open spec fn run_outcome<C: Circuit>(
    k: u32,
    circuit: C,
    instance: Seq<Seq<int>>,
    full: bool,
    r: Result<MockProver, Error>,
) -> bool {
    exists|cs: ConstraintSystemView, configured: Result<C::Config, Error>|
        {
            &&& cs.wf()
            &&& #[trigger] C::configured(cs, configured)
            &&& match configured {
                Err(e) => r == Err::<MockProver, Error>(e),
                Ok(config) => match initial_error(k, cs.shape, instance) {
                    Some(e) => r == Err::<MockProver, Error>(e),
                    None => exists|after: LayouterView, outcome: Result<(), Error>|
                        {
                            &&& #[trigger] circuit.synthesized(
                                config,
                                initial_layouter(k, cs, instance, full),
                                after,
                                outcome,
                            )
                            &&& after.table.wf()
                            &&& after.table.k == k
                            &&& after.table.shape == cs.shape
                            &&& match outcome {
                                Err(e) => r == Err::<MockProver, Error>(e),
                                Ok(()) => r matches Ok(prover) && prover.wf() && prover@ == (ProverView {
                                    cs,
                                    table: after.table,
                                }),
                            }
                        },
                },
            }
        }
}

/// A configured and synthesized circuit, ready to be checked.
pub struct MockProver {
    cs: ConstraintSystem,
    table: WitnessTable,
}

impl MockProver {
    /// The constraint system and the table.
    pub closed spec fn view(&self) -> ProverView {
        ProverView { cs: self.cs@, table: self.table@ }
    }

    /// The invariants of the prover: both parts are well-formed, and the
    /// table has the columns of the constraint system.
    pub closed spec fn wf(&self) -> bool {
        &&& self.cs.wf()
        &&& self.table.wf()
        &&& self.table@.shape == self.cs@.shape
    }

    /// A well-formed prover has well-formed parts that fit each other.
    pub proof fn lemma_view_wf(&self)
        requires
            self.wf(),
        ensures
            self@.cs.wf(),
            self@.table.wf(),
            self@.table.shape == self@.cs.shape,
    {
        self.table.lemma_view_wf();
    }

    /// Runs both phases of `circuit`.
    fn drive<C: Circuit>(k: u32, circuit: &C, instance: &Vec<Vec<Felt>>, full: bool) -> (r: Result<
        MockProver,
        Error,
    >)
        ensures
            run_outcome::<C>(k, *circuit, instance_values(instance@), full, r),
    {
        let mut cs = ConstraintSystem::new();
        let configured = C::configure(&mut cs);
        let config = match configured {
            Ok(config) => config,
            Err(e) => {
                return Err(e);
            },
        };
        let table = match WitnessTable::new(k, cs.shape(), instance) {
            Ok(table) => table,
            Err(e) => {
                return Err(e);
            },
        };
        let mut layouter = Layouter::new(table, full);
        let outcome = circuit.synthesize(config, &mut layouter);
        proof {
            layouter.lemma_view_wf();
            assert(circuit.synthesized(
                config,
                initial_layouter(k, cs@, instance_values(instance@), full),
                layouter@,
                outcome,
            ));
        }
        match outcome {
            Ok(()) => Ok(MockProver { cs, table: layouter.into_table() }),
            Err(e) => Err(e),
        }
    }

    /// Configures and synthesizes `circuit` in a domain of `2^k` rows, with
    /// `instance` as the values of the instance columns. The run is full: a
    /// cell assigned without a value fails it.
    pub fn run<C: Circuit>(k: u32, circuit: &C, instance: Vec<Vec<Felt>>) -> (r: Result<MockProver, Error>)
        ensures
            run_outcome::<C>(k, *circuit, instance_values(instance@), true, r),
    {
        MockProver::drive(k, circuit, &instance, true)
    }

    /// Configures and synthesizes `circuit` with its witnesses cleared, as a
    /// setup does that knows no witness: a cell assigned without a value is
    /// left unassigned.
    pub fn setup<C: Circuit>(k: u32, circuit: &C) -> (r: Result<MockProver, Error>)
        ensures
            exists|bare: C| #[trigger] bare.witness_free() && run_outcome::<C>(k, bare, Seq::empty(), false, r),
    {
        let bare = circuit.without_witnesses();
        let instance: Vec<Vec<Felt>> = Vec::new();
        proof {
            assert(instance_values(instance@) =~= Seq::<Seq<int>>::empty());
        }
        MockProver::drive(k, &bare, &instance, false)
    }

    /// Checks the circuit: `Ok(())` where every constraint holds at every
    /// row, and otherwise every violation, ordered by row and within a row
    /// by registration.
    pub fn verify(&self) -> (r: Result<(), Vec<Violation>>)
        requires
            self.wf(),
        ensures
            verdict(self@.cs, self@.table, r),
    {
        check(&self.cs, &self.table)
    }

    /// The constraint system.
    pub fn constraint_system(&self) -> (r: &ConstraintSystem)
        requires
            self.wf(),
        ensures
            r.wf(),
            r@ == self@.cs,
    {
        &self.cs
    }

    /// The witness table.
    pub fn table(&self) -> (r: &WitnessTable)
        requires
            self.wf(),
        ensures
            r.wf(),
            r@ == self@.table,
    {
        &self.table
    }
}

} // verus!
