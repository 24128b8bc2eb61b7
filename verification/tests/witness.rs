use plonkish::column::{Column, ColumnKind, Shape};
use plonkish::error::Error;
use plonkish::witness::{domain_rows, WitnessTable};
use plonkish::Felt;

fn shape() -> Shape {
    Shape { advice: 2, fixed: 1, instance: 1, selectors: 1, tables: 1 }
}

fn advice(index: usize) -> Column {
    Column { kind: ColumnKind::Advice, index }
}

#[test]
fn the_domain_has_two_to_the_k_rows() {
    assert_eq!(domain_rows(0), Some(1));
    assert_eq!(domain_rows(3), Some(8));
    assert_eq!(domain_rows(usize::BITS - 1), Some(1usize << (usize::BITS - 1)));
    assert_eq!(domain_rows(usize::BITS), None);
    let table = WitnessTable::new(5, shape(), &vec![]).unwrap();
    assert_eq!(table.domain_size(), 32);
    assert_eq!(table.k(), 5);
    assert_eq!(table.shape(), shape());
}

#[test]
fn a_domain_beyond_the_machine_is_refused() {
    let outcome = WitnessTable::new(usize::BITS, Shape::empty(), &vec![]);
    assert_eq!(outcome.err(), Some(Error::DomainTooLarge { k: usize::BITS }));
}

#[test]
fn a_fresh_table_is_unassigned() {
    let table = WitnessTable::new(2, shape(), &vec![]).unwrap();
    for row in 0..4 {
        assert_eq!(table.get(advice(0), row), None);
        assert_eq!(table.get(Column { kind: ColumnKind::Selector, index: 0 }, row), None);
    }
}

#[test]
fn a_cell_holds_what_was_set() {
    let mut table = WitnessTable::new(2, shape(), &vec![]).unwrap();
    assert_eq!(table.set(advice(1), 3, Felt::from_u64(9)), Ok(()));
    assert_eq!(table.get(advice(1), 3), Some(Felt::from_u64(9)));
    assert_eq!(table.get(advice(1), 2), None);
    assert_eq!(table.get(advice(0), 3), None);
}

#[test]
fn a_second_assignment_to_a_cell_is_a_collision() {
    let mut table = WitnessTable::new(2, shape(), &vec![]).unwrap();
    assert_eq!(table.set(advice(0), 1, Felt::from_u64(4)), Ok(()));
    assert_eq!(
        table.set(advice(0), 1, Felt::from_u64(5)),
        Err(Error::AssignmentCollision { column: advice(0), row: 1 })
    );
    assert_eq!(
        table.set(advice(0), 1, Felt::from_u64(4)),
        Err(Error::AssignmentCollision { column: advice(0), row: 1 })
    );
    assert_eq!(table.get(advice(0), 1), Some(Felt::from_u64(4)));
}

#[test]
fn a_cell_outside_the_grid_cannot_be_set() {
    let mut table = WitnessTable::new(2, shape(), &vec![]).unwrap();
    assert_eq!(
        table.set(advice(2), 0, Felt::one()),
        Err(Error::UnknownColumn { column: advice(2) })
    );
    assert_eq!(
        table.set(advice(0), 4, Felt::one()),
        Err(Error::RowOutOfDomain { column: advice(0), row: 4 })
    );
    assert_eq!(table.get(advice(2), 0), None);
    assert_eq!(table.get(advice(0), 4), None);
}

#[test]
fn a_selector_is_switched_on_and_never_set() {
    let selector = Column { kind: ColumnKind::Selector, index: 0 };
    let mut table = WitnessTable::new(2, shape(), &vec![]).unwrap();
    assert_eq!(
        table.set(selector, 0, Felt::from_u64(2)),
        Err(Error::WrongColumnKind { column: selector })
    );
    assert_eq!(table.get(selector, 0), None);
    assert_eq!(table.enable_selector(selector, 0), Ok(()));
    assert_eq!(table.get(selector, 0), Some(Felt::one()));
    assert_eq!(
        table.enable_selector(selector, 0),
        Err(Error::AssignmentCollision { column: selector, row: 0 })
    );
    assert_eq!(
        table.enable_selector(advice(0), 0),
        Err(Error::WrongColumnKind { column: advice(0) })
    );
    assert_eq!(
        table.enable_selector(Column { kind: ColumnKind::Selector, index: 1 }, 0),
        Err(Error::UnknownColumn { column: Column { kind: ColumnKind::Selector, index: 1 } })
    );
}

#[test]
fn public_inputs_stand_in_the_instance_columns() {
    let instance = vec![vec![Felt::from_u64(10), Felt::from_u64(11)]];
    let table = WitnessTable::new(2, shape(), &instance).unwrap();
    let column = Column { kind: ColumnKind::Instance, index: 0 };
    assert_eq!(table.get(column, 0), Some(Felt::from_u64(10)));
    assert_eq!(table.get(column, 1), Some(Felt::from_u64(11)));
    assert_eq!(table.get(column, 2), None);
    assert_eq!(table.get(column, 3), None);
}

#[test]
fn public_inputs_for_a_column_that_does_not_exist_are_refused() {
    let instance = vec![vec![Felt::one()], vec![]];
    let outcome = WitnessTable::new(2, shape(), &instance);
    assert_eq!(
        outcome.err(),
        Some(Error::UnknownColumn { column: Column { kind: ColumnKind::Instance, index: 1 } })
    );
}

#[test]
fn more_public_inputs_than_rows_are_refused() {
    let five: Vec<Felt> = (0..5).map(Felt::from_u64).collect();
    let outcome = WitnessTable::new(2, shape(), &vec![five]);
    assert_eq!(
        outcome.err(),
        Some(Error::RowOutOfDomain { column: Column { kind: ColumnKind::Instance, index: 0 }, row: 4 })
    );
    let four: Vec<Felt> = (0..4).map(Felt::from_u64).collect();
    assert!(WitnessTable::new(2, shape(), &vec![four]).is_ok());
}
