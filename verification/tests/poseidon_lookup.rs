use plonkish::checker::{check, Violation};
use plonkish::circuit::{Circuit, MockProver};
use plonkish::column::{Column, ColumnKind};
use plonkish::constraint_system::ConstraintSystem;
use plonkish::error::Error;
use plonkish::layouter::Layouter;
use plonkish::poseidon::hash;
use plonkish::poseidon_lookup::{MyCircuit, PoseidonConfig, PoseidonTableConfig, TABLE_ROWS};
use plonkish::region::Region;
use plonkish::witness::WitnessTable;
use plonkish::Felt;

fn lookup_violation_at(row: usize) -> Violation {
    Violation::Lookup { lookup: 0, lookup_name: "Poseidon lookup", row }
}

#[test]
fn example02_lookup_test_successful_case() {
    let circuit = MyCircuit { a: Some(Felt::one()) };
    let k = 5;
    let prover = MockProver::run(k, &circuit, vec![]).unwrap();
    assert_eq!(prover.verify(), Ok(()));
}

#[test]
fn every_value_of_the_table_is_found() {
    for t in 0..16u64 {
        let circuit = MyCircuit { a: Some(Felt::from_u64(t)) };
        let prover = MockProver::run(5, &circuit, vec![]).unwrap();
        assert_eq!(prover.verify(), Ok(()));
    }
}

#[test]
fn a_value_outside_the_table_is_one_violation_at_its_row() {
    let circuit = MyCircuit { a: Some(Felt::from_u64(16)) };
    let prover = MockProver::run(5, &circuit, vec![]).unwrap();
    assert_eq!(prover.verify(), Err(vec![lookup_violation_at(0)]));

    let circuit = MyCircuit { a: Some(Felt::one().negated()) };
    let prover = MockProver::run(5, &circuit, vec![]).unwrap();
    assert_eq!(prover.verify(), Err(vec![lookup_violation_at(0)]));
}

#[test]
fn the_table_fills_a_domain_of_sixteen_rows() {
    let circuit = MyCircuit { a: Some(Felt::from_u64(3)) };
    let prover = MockProver::run(4, &circuit, vec![]).unwrap();
    assert_eq!(prover.verify(), Ok(()));
}

#[test]
fn a_domain_smaller_than_the_table_overflows() {
    let circuit = MyCircuit { a: Some(Felt::from_u64(3)) };
    let outcome = MockProver::run(3, &circuit, vec![]);
    assert_eq!(
        outcome.err(),
        Some(Error::LayoutOverflow {
            region: "Poseidon table",
            column: Column { kind: ColumnKind::LookupTable, index: 0 },
            offset: 8,
        })
    );
}

#[test]
fn the_table_is_padded_with_its_first_row() {
    let circuit = MyCircuit { a: Some(Felt::from_u64(3)) };
    let prover = MockProver::run(5, &circuit, vec![]).unwrap();
    let table = prover.table();
    let input = Column { kind: ColumnKind::LookupTable, index: 0 };
    let digest = Column { kind: ColumnKind::LookupTable, index: 1 };
    for row in 0..16usize {
        let value = Felt::from_u64(row as u64);
        assert_eq!(table.get(input, row), Some(value));
        assert_eq!(table.get(digest, row), Some(hash(&value)));
    }
    for row in 16..32usize {
        assert_eq!(table.get(input, row), Some(Felt::zero()));
        assert_eq!(table.get(digest, row), Some(hash(&Felt::zero())));
    }
    assert_eq!(table.get(input, 32), None);
}

#[test]
fn the_digest_is_not_the_input() {
    let zero = Felt::zero();
    assert_ne!(hash(&zero), zero);
    assert_ne!(hash(&Felt::one()), hash(&zero));
    assert_eq!(hash(&Felt::one()), hash(&Felt::from_u64(1)));
}

#[test]
fn a_table_without_any_enabled_row_is_satisfied() {
    let mut cs = ConstraintSystem::new();
    let config = PoseidonConfig::configure(&mut cs);
    let table = WitnessTable::new(5, cs.shape(), &vec![]).unwrap();
    let mut layouter = Layouter::new(table, true);
    config.table.load(&mut layouter).unwrap();
    let table = layouter.into_table();
    assert_eq!(check(&cs, &table), Ok(()));
}

#[test]
fn without_the_table_only_the_zero_pair_would_be_found() {
    let mut cs = ConstraintSystem::new();
    let _config = PoseidonConfig::configure(&mut cs);
    let table = WitnessTable::new(2, cs.shape(), &vec![]).unwrap();
    let expected: Vec<Violation> = (0..4).map(lookup_violation_at).collect();
    assert_eq!(check(&cs, &table), Err(expected));
}

#[test]
fn the_table_region_holds_sixteen_pairs_in_order() {
    let table = PoseidonTableConfig {
        a: Column { kind: ColumnKind::LookupTable, index: 0 },
        poseidon: Column { kind: ColumnKind::LookupTable, index: 1 },
    };
    let region = table.table_region().unwrap();
    assert_eq!(region.name(), "Poseidon table");
    let recorded = region.assignments();
    assert_eq!(recorded.len(), 2 * TABLE_ROWS);
    for a in 0..TABLE_ROWS {
        let value = Felt::from_u64(a as u64);
        let input = &recorded[2 * a];
        let digest = &recorded[2 * a + 1];
        assert_eq!((input.column, input.offset, input.value), (table.a, a, Some(value)));
        assert_eq!((digest.column, digest.offset, digest.value), (table.poseidon, a, Some(hash(&value))));
    }
}

#[test]
fn a_table_config_over_other_columns_is_refused() {
    let advice = Column { kind: ColumnKind::Advice, index: 0 };
    let table = Column { kind: ColumnKind::LookupTable, index: 0 };
    let first = PoseidonTableConfig { a: advice, poseidon: table };
    assert_eq!(first.table_region().err(), Some(Error::WrongColumnKind { column: advice }));
    let second = PoseidonTableConfig { a: table, poseidon: advice };
    assert_eq!(second.table_region().err(), Some(Error::WrongColumnKind { column: advice }));

    let shape = plonkish::column::Shape { advice: 1, fixed: 0, instance: 0, selectors: 0, tables: 1 };
    let mut layouter = Layouter::new(WitnessTable::new(5, shape, &vec![]).unwrap(), true);
    assert_eq!(second.load(&mut layouter), Err(Error::WrongColumnKind { column: advice }));
    assert_eq!(layouter.table().get(table, 0), None);
}

#[test]
fn configure_allocates_after_the_columns_that_are_there() {
    let mut cs = ConstraintSystem::new();
    cs.advice_column();
    cs.selector();
    let config = PoseidonConfig::configure(&mut cs);
    assert_eq!(config.q_enable, Column { kind: ColumnKind::Selector, index: 1 });
    assert_eq!(config.a, Column { kind: ColumnKind::Advice, index: 1 });
    assert_eq!(config.poseidon, Column { kind: ColumnKind::Advice, index: 2 });
    assert_eq!(config.table.a, Column { kind: ColumnKind::LookupTable, index: 0 });
    assert_eq!(config.table.poseidon, Column { kind: ColumnKind::LookupTable, index: 1 });
    assert!(!cs.is_simple(config.q_enable));
    assert_eq!(cs.lookups().len(), 1);
    assert_eq!(cs.lookups()[0].name, "Poseidon lookup");
    assert_eq!(cs.lookups()[0].pairs.len(), 2);
    assert_eq!(cs.lookups()[0].pairs[0].1, config.table.a);
    assert_eq!(cs.lookups()[0].pairs[1].1, config.table.poseidon);
}

#[test]
fn assign_records_the_selector_the_value_and_its_digest() {
    let mut cs = ConstraintSystem::new();
    let config = PoseidonConfig::configure(&mut cs);
    let mut region = Region::new("assign a");
    assert_eq!(config.assign(&mut region, 2, Some(Felt::from_u64(9))), Ok(()));
    let recorded = region.assignments();
    assert_eq!(recorded.len(), 3);
    assert_eq!((recorded[0].column, recorded[0].offset, recorded[0].value), (config.q_enable, 2, Some(Felt::one())));
    assert_eq!((recorded[1].column, recorded[1].offset, recorded[1].value), (config.a, 2, Some(Felt::from_u64(9))));
    assert_eq!(
        (recorded[2].column, recorded[2].offset, recorded[2].value),
        (config.poseidon, 2, Some(hash(&Felt::from_u64(9))))
    );

    let mut bare = Region::new("bare");
    assert_eq!(config.assign(&mut bare, 0, None), Ok(()));
    assert_eq!(bare.assignments()[1].value, None);
    assert_eq!(bare.assignments()[2].value, None);
}

#[test]
fn a_missing_witness_fails_a_full_run_and_not_a_setup() {
    let circuit = MyCircuit { a: Some(Felt::one()) }.without_witnesses();
    assert_eq!(
        MockProver::run(5, &circuit, vec![]).err(),
        Some(Error::Synthesis {
            region: "assign a",
            column: Column { kind: ColumnKind::Advice, index: 0 },
            offset: 0,
        })
    );
    let prover = MockProver::setup(5, &MyCircuit { a: Some(Felt::one()) }).unwrap();
    assert_eq!(prover.table().get(Column { kind: ColumnKind::Advice, index: 0 }, 0), None);
    assert_eq!(prover.table().get(Column { kind: ColumnKind::Selector, index: 0 }, 0), Some(Felt::one()));
    assert_eq!(prover.verify(), Err(vec![lookup_violation_at(0)]));
    assert!(MyCircuit::default().a.is_none());
}
