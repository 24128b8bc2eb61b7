use halo2_gadgets::poseidon::primitives;
use halo2_proofs::circuit::{Layouter, Region, SimpleFloorPlanner, Value};
use halo2_proofs::dev::{FailureLocation, VerifyFailure};
use halo2_proofs::pasta::group::ff::PrimeField;
use halo2_proofs::pasta::Fp;
use halo2_proofs::plonk::{Advice, Circuit, Column, ConstraintSystem, Expression, Selector, TableColumn};
use halo2_proofs::poly::Rotation;
use plonkish::checker::Violation;
use plonkish::circuit::MockProver;
use plonkish::Felt;

fn digest(a: Fp) -> Fp {
    primitives::Hash::<Fp, primitives::P128Pow5T3, primitives::ConstantLength<1>, 3, 2>::init().hash([a])
}

fn to_fp(value: Felt) -> Fp {
    Fp::from_repr(value.to_repr()).unwrap()
}

#[derive(Clone)]
struct EqOneConfig {
    q_enable: Selector,
    a: Column<Advice>,
}

#[derive(Default)]
struct EqOneCircuit {
    a: Option<Fp>,
}

impl Circuit<Fp> for EqOneCircuit {
    type Config = EqOneConfig;
    type FloorPlanner = SimpleFloorPlanner;

    fn without_witnesses(&self) -> Self {
        Self::default()
    }

    fn configure(meta: &mut ConstraintSystem<Fp>) -> EqOneConfig {
        let a = meta.advice_column();
        let q_enable = meta.selector();
        meta.create_gate("a is one", |meta| {
            let q = meta.query_selector(q_enable);
            let a = meta.query_advice(a, Rotation::cur());
            let one = Expression::Constant(Fp::one());
            vec![("check a", q * (a - one))]
        });
        EqOneConfig { q_enable, a }
    }

    fn synthesize(
        &self,
        config: EqOneConfig,
        mut layouter: impl Layouter<Fp>,
    ) -> Result<(), halo2_proofs::plonk::Error> {
        layouter.assign_region(
            || "assign a",
            |mut region: Region<'_, Fp>| {
                config.q_enable.enable(&mut region, 0)?;
                region.assign_advice(
                    || "a",
                    config.a,
                    0,
                    || match self.a {
                        Some(a) => Value::known(a),
                        None => Value::unknown(),
                    },
                )?;
                Ok(())
            },
        )
    }
}

#[derive(Clone)]
struct PoseidonConfig {
    q_enable: Selector,
    a: Column<Advice>,
    poseidon: Column<Advice>,
    table_a: TableColumn,
    table_poseidon: TableColumn,
}

#[derive(Default)]
struct PoseidonCircuit {
    a: Value<Fp>,
}

impl Circuit<Fp> for PoseidonCircuit {
    type Config = PoseidonConfig;
    type FloorPlanner = SimpleFloorPlanner;

    fn without_witnesses(&self) -> Self {
        Self::default()
    }

    fn configure(meta: &mut ConstraintSystem<Fp>) -> PoseidonConfig {
        let q_enable = meta.complex_selector();
        let a = meta.advice_column();
        let poseidon = meta.advice_column();
        let table_a = meta.lookup_table_column();
        let table_poseidon = meta.lookup_table_column();
        meta.lookup(|meta| {
            let q_enable = meta.query_selector(q_enable);
            let a = meta.query_advice(a, Rotation::cur());
            let poseidon = meta.query_advice(poseidon, Rotation::cur());
            let not_q_enable = Expression::Constant(Fp::one()) - q_enable.clone();
            let default_a = Expression::Constant(Fp::zero());
            let default_poseidon = digest(Fp::zero());
            vec![
                (q_enable.clone() * a + not_q_enable.clone() * default_a, table_a),
                (q_enable * poseidon + not_q_enable * default_poseidon, table_poseidon),
            ]
        });
        PoseidonConfig { q_enable, a, poseidon, table_a, table_poseidon }
    }

    fn synthesize(
        &self,
        config: PoseidonConfig,
        mut layouter: impl Layouter<Fp>,
    ) -> Result<(), halo2_proofs::plonk::Error> {
        layouter.assign_table(
            || "Poseidon table",
            |mut table| {
                for offset in 0..16usize {
                    let a = Fp::from(offset as u64);
                    table.assign_cell(|| "a", config.table_a, offset, || Value::known(a))?;
                    table.assign_cell(|| "Poseidon", config.table_poseidon, offset, || Value::known(digest(a)))?;
                }
                Ok(())
            },
        )?;
        layouter.assign_region(
            || "assign a",
            |mut region: Region<'_, Fp>| {
                config.q_enable.enable(&mut region, 0)?;
                region.assign_advice(|| "a", config.a, 0, || self.a)?;
                region.assign_advice(|| "poseidon", config.poseidon, 0, || self.a.map(digest))?;
                Ok(())
            },
        )
    }
}

fn witnesses() -> Vec<Felt> {
    let mut all: Vec<Felt> = (0..20).map(Felt::from_u64).collect();
    all.push(Felt::from_u64(u64::MAX));
    all.push(Felt::one().negated());
    all.push(Felt::from_u64(3).negated());
    all
}

#[test]
fn the_field_agrees_with_the_pasta_field() {
    for a in witnesses() {
        for b in witnesses() {
            assert_eq!(to_fp(a.plus(&b)), to_fp(a) + to_fp(b));
            assert_eq!(to_fp(a.times(&b)), to_fp(a) * to_fp(b));
        }
        assert_eq!(to_fp(a.negated()), -to_fp(a));
        assert_eq!(a.is_zero(), to_fp(a) == Fp::zero());
    }
    assert_eq!(to_fp(Felt::zero()), Fp::zero());
    assert_eq!(to_fp(Felt::one()), Fp::one());
    assert_eq!(to_fp(Felt::from_u64(u64::MAX)), Fp::from(u64::MAX));
}

#[test]
fn the_digest_agrees_with_the_hasher() {
    for a in witnesses() {
        assert_eq!(to_fp(plonkish::poseidon::hash(&a)), digest(to_fp(a)));
    }
}

#[test]
fn the_gate_circuit_is_judged_as_the_mock_prover_of_halo2_judges_it() {
    for k in 3..6 {
        for a in witnesses() {
            let ours = MockProver::run(k, &plonkish::custom_gates::MyCircuit { a: Some(a) }, vec![])
                .unwrap()
                .verify();
            let theirs = halo2_proofs::dev::MockProver::run(k, &EqOneCircuit { a: Some(to_fp(a)) }, vec![])
                .unwrap()
                .verify();
            assert_eq!(ours.is_ok(), theirs.is_ok());
            if let (Err(ours), Err(theirs)) = (ours, theirs) {
                assert_eq!(ours.len(), 1);
                assert_eq!(theirs.len(), 1);
                assert!(matches!(ours[0], Violation::Gate { gate: 0, identity: 0, row: 0, .. }));
                assert!(matches!(
                    &theirs[0],
                    VerifyFailure::ConstraintNotSatisfied {
                        location: FailureLocation::InRegion { offset: 0, .. },
                        ..
                    }
                ));
            }
        }
    }
}

#[test]
fn the_lookup_circuit_is_judged_as_the_mock_prover_of_halo2_judges_it() {
    for k in 5..7 {
        for a in witnesses() {
            let ours = MockProver::run(k, &plonkish::poseidon_lookup::MyCircuit { a: Some(a) }, vec![])
                .unwrap()
                .verify();
            let theirs = halo2_proofs::dev::MockProver::run(
                k,
                &PoseidonCircuit { a: Value::known(to_fp(a)) },
                vec![],
            )
            .unwrap()
            .verify();
            assert_eq!(ours.is_ok(), theirs.is_ok());
            if let (Err(ours), Err(theirs)) = (ours, theirs) {
                assert_eq!(ours, vec![Violation::Lookup { lookup: 0, lookup_name: "Poseidon lookup", row: 0 }]);
                assert_eq!(theirs.len(), 1);
                assert!(matches!(
                    &theirs[0],
                    VerifyFailure::Lookup {
                        lookup_index: 0,
                        location: FailureLocation::InRegion { offset: 0, .. },
                    }
                ));
            }
        }
    }
}

#[test]
fn a_missing_witness_fails_both_provers() {
    let ours = MockProver::run(3, &plonkish::custom_gates::MyCircuit { a: None }, vec![]);
    let theirs = halo2_proofs::dev::MockProver::run(3, &EqOneCircuit { a: None }, vec![]);
    assert!(matches!(ours.err(), Some(plonkish::error::Error::Synthesis { .. })));
    assert!(theirs.is_err() || theirs.unwrap().verify().is_err());
}
