use plonkish::column::{Column, ColumnKind, Rotation, Shape};
use plonkish::expression::Expression;
use plonkish::witness::WitnessTable;
use plonkish::Felt;

fn advice(index: usize) -> Column {
    Column { kind: ColumnKind::Advice, index }
}

fn selector(index: usize) -> Column {
    Column { kind: ColumnKind::Selector, index }
}

fn shape() -> Shape {
    Shape { advice: 2, fixed: 1, instance: 0, selectors: 2, tables: 0 }
}

/// Rows 0 to 7 of advice column 0 hold 10 to 17; selector 0 is on at row 2.
fn table() -> WitnessTable {
    let mut table = WitnessTable::new(3, shape(), &vec![]).unwrap();
    for row in 0..8usize {
        table.set(advice(0), row, Felt::from_u64(10 + row as u64)).unwrap();
    }
    table.enable_selector(selector(0), 2).unwrap();
    table
}

fn constant(v: u64) -> Expression {
    Expression::constant(Felt::from_u64(v))
}

#[test]
fn a_constant_evaluates_to_itself() {
    let table = table();
    assert_eq!(constant(7).evaluate(0, &table), Felt::from_u64(7));
    assert_eq!(constant(7).evaluate(5, &table), Felt::from_u64(7));
}

#[test]
fn a_query_reads_the_rotated_row() {
    let table = table();
    let cur = Expression::query(advice(0), Rotation::cur());
    let next = Expression::query(advice(0), Rotation::next());
    let prev = Expression::query(advice(0), Rotation::prev());
    assert_eq!(cur.evaluate(3, &table), Felt::from_u64(13));
    assert_eq!(next.evaluate(3, &table), Felt::from_u64(14));
    assert_eq!(prev.evaluate(3, &table), Felt::from_u64(12));
}

#[test]
fn a_query_at_the_edge_of_the_domain_wraps_around() {
    let table = table();
    let next = Expression::query(advice(0), Rotation::next());
    let prev = Expression::query(advice(0), Rotation::prev());
    assert_eq!(next.evaluate(7, &table), Felt::from_u64(10));
    assert_eq!(prev.evaluate(0, &table), Felt::from_u64(17));
    let far = Expression::query(advice(0), Rotation(8 + 3));
    assert_eq!(far.evaluate(6, &table), Felt::from_u64(11));
}

#[test]
fn an_unassigned_cell_reads_as_zero() {
    let table = table();
    let cell = Expression::query(advice(1), Rotation::cur());
    assert_eq!(cell.evaluate(0, &table), Felt::zero());
    let absent = Expression::query(advice(9), Rotation::cur());
    assert_eq!(absent.evaluate(0, &table), Felt::zero());
}

#[test]
fn a_selector_reads_one_where_it_is_on_and_zero_elsewhere() {
    let table = table();
    let q = Expression::selector(selector(0));
    assert_eq!(q.evaluate(2, &table), Felt::one());
    assert_eq!(q.evaluate(1, &table), Felt::zero());
    assert_eq!(q.evaluate(3, &table), Felt::zero());
    assert_eq!(Expression::selector(selector(1)).evaluate(2, &table), Felt::zero());
}

#[test]
fn sum_product_negation_and_scaling_are_those_of_the_field() {
    let table = table();
    let cell = || Expression::query(advice(0), Rotation::cur());
    assert_eq!(cell().plus(constant(5)).evaluate(1, &table), Felt::from_u64(16));
    assert_eq!(cell().times(constant(5)).evaluate(1, &table), Felt::from_u64(55));
    assert_eq!(cell().scale(Felt::from_u64(3)).evaluate(1, &table), Felt::from_u64(33));
    assert_eq!(cell().minus(constant(5)).evaluate(1, &table), Felt::from_u64(6));
    assert_eq!(cell().negate().evaluate(1, &table), Felt::from_u64(11).negated());
    assert_eq!(cell().minus(cell()).evaluate(1, &table), Felt::zero());
    assert_eq!(
        constant(5).minus(cell()).evaluate(1, &table),
        Felt::from_u64(6).negated()
    );
}

#[test]
fn a_gated_difference_is_zero_where_the_selector_is_off() {
    let table = table();
    let identity = Expression::selector(selector(0))
        .times(Expression::query(advice(0), Rotation::cur()).minus(constant(1)));
    assert_eq!(identity.evaluate(2, &table), Felt::from_u64(11));
    assert_eq!(identity.evaluate(0, &table), Felt::zero());
    assert_eq!(identity.evaluate(7, &table), Felt::zero());
}

#[test]
fn a_clone_evaluates_like_its_source() {
    let table = table();
    let identity = Expression::selector(selector(0))
        .times(Expression::query(advice(0), Rotation::next()).scale(Felt::from_u64(2)))
        .plus(constant(3).negate());
    let copy = identity.clone();
    for row in 0..8 {
        assert_eq!(identity.evaluate(row, &table), copy.evaluate(row, &table));
    }
    assert_eq!(copy.evaluate(2, &table), Felt::from_u64(2 * 13 - 3));
}

#[test]
fn the_first_unknown_column_is_found_from_the_left() {
    let known = Expression::query(advice(1), Rotation::cur())
        .plus(Expression::selector(selector(1)));
    assert_eq!(known.find_unknown(&shape()), None);

    let unknown = Expression::query(advice(1), Rotation::cur())
        .times(Expression::query(advice(2), Rotation::cur()))
        .plus(Expression::query(advice(3), Rotation::cur()));
    assert_eq!(unknown.find_unknown(&shape()), Some(advice(2)));

    let misused = Expression::query(selector(0), Rotation::cur());
    assert_eq!(misused.find_unknown(&shape()), Some(selector(0)));
    let table_query = Expression::query(Column { kind: ColumnKind::LookupTable, index: 0 }, Rotation::cur());
    assert!(table_query.find_unknown(&shape()).is_some());
    let not_a_selector = Expression::selector(advice(0));
    assert_eq!(not_a_selector.find_unknown(&shape()), Some(advice(0)));
}

#[test]
fn simple_selectors_are_found_and_their_place_is_checked() {
    let simple = vec![true, false];
    let q = || Expression::selector(selector(0));
    let complex = || Expression::selector(selector(1));
    let cell = || Expression::query(advice(0), Rotation::cur());

    assert!(q().contains_simple_selector(&simple));
    assert!(!complex().contains_simple_selector(&simple));
    assert!(!cell().contains_simple_selector(&simple));
    assert!(cell().plus(q().negate()).contains_simple_selector(&simple));

    assert!(q().times(cell()).is_well_gated(&simple));
    assert!(cell().times(q()).is_well_gated(&simple));
    assert!(cell().is_well_gated(&simple));
    assert!(complex().plus(cell()).is_well_gated(&simple));
    assert!(!q().is_well_gated(&simple));
    assert!(!q().plus(cell()).is_well_gated(&simple));
    assert!(!q().times(q()).is_well_gated(&simple));
    assert!(!q().times(cell()).times(cell()).is_well_gated(&simple));
    assert!(!q().times(cell()).negate().is_well_gated(&simple));
    assert!(q().is_selector_query());
    assert!(!cell().is_selector_query());
}
