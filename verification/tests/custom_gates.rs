use plonkish::checker::Violation;
use plonkish::circuit::{Circuit, MockProver};
use plonkish::column::{Column, ColumnKind};
use plonkish::constraint_system::ConstraintSystem;
use plonkish::custom_gates::{EqOneConfig, MyCircuit};
use plonkish::error::Error;
use plonkish::region::Region;
use plonkish::Felt;

#[test]
fn example01_custom_gates_test_successful_case() {
    let circuit = MyCircuit { a: Some(Felt::one()) };
    let k = 3;
    let prover = MockProver::run(k, &circuit, vec![]).unwrap();
    assert_eq!(prover.verify(), Ok(()));
}

#[test]
fn main_test_successful_case() {
    let circuit = MyCircuit { a: Some(Felt::one()) };
    let prover = MockProver::run(3, &circuit, vec![]).unwrap();
    assert_eq!(prover.verify(), Ok(()));
}

#[test]
fn a_witness_other_than_one_violates_the_gate_at_row_zero() {
    let circuit = MyCircuit { a: Some(Felt::from_u64(2)) };
    let prover = MockProver::run(3, &circuit, vec![]).unwrap();
    assert_eq!(
        prover.verify(),
        Err(vec![Violation::Gate {
            gate: 0,
            gate_name: "a is one",
            identity: 0,
            identity_name: "check a",
            row: 0,
        }])
    );
}

#[test]
fn satisfied_in_every_domain_from_one_row_on() {
    for k in 0..8 {
        let circuit = MyCircuit { a: Some(Felt::one()) };
        let prover = MockProver::run(k, &circuit, vec![]).unwrap();
        assert_eq!(prover.verify(), Ok(()));
        assert_eq!(prover.table().domain_size(), 1usize << k);
    }
}

#[test]
fn a_missing_witness_fails_synthesis() {
    let circuit = MyCircuit { a: Some(Felt::one()) }.without_witnesses();
    assert!(circuit.a.is_none());
    let outcome = MockProver::run(3, &circuit, vec![]);
    assert_eq!(
        outcome.err(),
        Some(Error::Synthesis {
            region: "assign a",
            column: Column { kind: ColumnKind::Advice, index: 0 },
            offset: 0,
        })
    );
}

#[test]
fn checking_twice_gives_the_same_result() {
    let circuit = MyCircuit { a: Some(Felt::from_u64(5)) };
    let prover = MockProver::run(4, &circuit, vec![]).unwrap();
    let first = prover.verify();
    let second = prover.verify();
    assert!(first.is_err());
    assert_eq!(first, second);
}

#[test]
fn a_setup_needs_no_witness_and_leaves_the_advice_cell_free() {
    let circuit = MyCircuit { a: Some(Felt::one()) };
    let prover = MockProver::setup(3, &circuit).unwrap();
    let table = prover.table();
    assert_eq!(table.get(Column { kind: ColumnKind::Selector, index: 0 }, 0), Some(Felt::one()));
    assert_eq!(table.get(Column { kind: ColumnKind::Advice, index: 0 }, 0), None);
    assert_eq!(prover.constraint_system().gates().len(), 1);
    assert_eq!(
        prover.verify(),
        Err(vec![Violation::Gate {
            gate: 0,
            gate_name: "a is one",
            identity: 0,
            identity_name: "check a",
            row: 0,
        }])
    );
}

#[test]
fn the_default_circuit_has_no_witness() {
    assert!(MyCircuit::default().a.is_none());
}

#[test]
fn public_inputs_without_an_instance_column_are_refused() {
    let circuit = MyCircuit { a: Some(Felt::one()) };
    let outcome = MockProver::run(3, &circuit, vec![vec![Felt::one()]]);
    assert_eq!(
        outcome.err(),
        Some(Error::UnknownColumn { column: Column { kind: ColumnKind::Instance, index: 0 } })
    );
}

#[test]
fn a_domain_beyond_the_machine_fails_the_run() {
    let circuit = MyCircuit { a: Some(Felt::one()) };
    let outcome = MockProver::run(usize::BITS, &circuit, vec![]);
    assert_eq!(outcome.err(), Some(Error::DomainTooLarge { k: usize::BITS }));
}

#[test]
fn the_config_refuses_columns_that_were_never_allocated() {
    let mut cs = ConstraintSystem::new();
    let a = cs.advice_column();
    let stranger = Column { kind: ColumnKind::Selector, index: 0 };
    assert_eq!(
        EqOneConfig::configure(&mut cs, stranger, a).err(),
        Some(Error::UnknownColumn { column: stranger })
    );
    assert!(cs.gates().is_empty());
    let q = cs.selector();
    let config = EqOneConfig::configure(&mut cs, q, a).unwrap();
    assert_eq!((config.q_enable, config.a), (q, a));
    assert_eq!(cs.gates().len(), 1);
}

#[test]
fn the_config_records_the_selector_and_then_the_cell() {
    let config = EqOneConfig {
        q_enable: Column { kind: ColumnKind::Selector, index: 0 },
        a: Column { kind: ColumnKind::Advice, index: 0 },
    };
    let mut region = Region::new("assign a");
    assert_eq!(config.assign(&mut region, 4, None), Ok(()));
    let recorded = region.assignments();
    assert_eq!(recorded.len(), 2);
    assert_eq!((recorded[0].column, recorded[0].offset, recorded[0].value), (config.q_enable, 4, Some(Felt::one())));
    assert_eq!((recorded[1].column, recorded[1].offset, recorded[1].value), (config.a, 4, None));

    let swapped = EqOneConfig { q_enable: config.a, a: config.q_enable };
    let mut region = Region::new("swapped");
    assert_eq!(
        swapped.assign(&mut region, 0, None),
        Err(Error::WrongColumnKind { column: config.a })
    );
    assert!(region.assignments().is_empty());
}
