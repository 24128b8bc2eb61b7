use plonkish::column::{Column, ColumnKind, Rotation, Shape};
use plonkish::constraint_system::ConstraintSystem;
use plonkish::error::Error;
use plonkish::expression::Expression;
use plonkish::Felt;

fn column(kind: ColumnKind, index: usize) -> Column {
    Column { kind, index }
}

#[test]
fn a_new_system_is_empty() {
    let cs = ConstraintSystem::new();
    assert_eq!(cs.shape(), Shape::empty());
    assert!(cs.gates().is_empty());
    assert!(cs.lookups().is_empty());
}

#[test]
fn indices_grow_by_one_within_each_kind() {
    let mut cs = ConstraintSystem::new();
    assert_eq!(cs.advice_column(), column(ColumnKind::Advice, 0));
    assert_eq!(cs.advice_column(), column(ColumnKind::Advice, 1));
    assert_eq!(cs.fixed_column(), column(ColumnKind::Fixed, 0));
    assert_eq!(cs.allocate(ColumnKind::Advice), column(ColumnKind::Advice, 2));
    assert_eq!(cs.instance_column(), column(ColumnKind::Instance, 0));
    assert_eq!(cs.selector(), column(ColumnKind::Selector, 0));
    assert_eq!(cs.complex_selector(), column(ColumnKind::Selector, 1));
    assert_eq!(cs.allocate_selector(true), column(ColumnKind::Selector, 2));
    assert_eq!(cs.allocate(ColumnKind::Selector), column(ColumnKind::Selector, 3));
    assert_eq!(cs.lookup_table_column(), column(ColumnKind::LookupTable, 0));
    assert_eq!(cs.allocate(ColumnKind::LookupTable), column(ColumnKind::LookupTable, 1));
    assert_eq!(cs.allocate(ColumnKind::Fixed), column(ColumnKind::Fixed, 1));
    assert_eq!(cs.allocate(ColumnKind::Instance), column(ColumnKind::Instance, 1));
    assert_eq!(
        cs.shape(),
        Shape { advice: 3, fixed: 2, instance: 2, selectors: 4, tables: 2 }
    );
}

#[test]
fn a_selector_keeps_its_tag() {
    let mut cs = ConstraintSystem::new();
    let simple = cs.selector();
    let complex = cs.complex_selector();
    let by_kind = cs.allocate(ColumnKind::Selector);
    let advice = cs.advice_column();
    assert!(cs.is_simple(simple));
    assert!(!cs.is_simple(complex));
    assert!(cs.is_simple(by_kind));
    assert!(!cs.is_simple(advice));
    assert!(!cs.is_simple(column(ColumnKind::Selector, 3)));
}

#[test]
fn a_gate_over_allocated_columns_is_registered() {
    let mut cs = ConstraintSystem::new();
    let a = cs.advice_column();
    let q = cs.selector();
    let identity = cs
        .query_selector(q)
        .times(cs.query_advice(a, Rotation::cur()).minus(Expression::constant(Felt::one())));
    assert_eq!(cs.create_gate("a is one", vec![("check a", identity)]), Ok(()));
    assert_eq!(cs.gates().len(), 1);
    assert_eq!(cs.gates()[0].name, "a is one");
    assert_eq!(cs.gates()[0].identities.len(), 1);
    assert_eq!(cs.gates()[0].identities[0].0, "check a");
}

#[test]
fn a_gate_without_identities_is_refused() {
    let mut cs = ConstraintSystem::new();
    assert_eq!(cs.create_gate("empty", vec![]), Err(Error::EmptyGate { gate: "empty" }));
    assert!(cs.gates().is_empty());
}

#[test]
fn a_gate_over_a_column_that_was_never_allocated_is_refused() {
    let mut cs = ConstraintSystem::new();
    let a = cs.advice_column();
    let stranger = column(ColumnKind::Advice, 1);
    let good = cs.query_advice(a, Rotation::cur());
    let bad = cs.query_advice(a, Rotation::cur()).plus(cs.query_advice(stranger, Rotation::next()));
    assert_eq!(
        cs.create_gate("strange", vec![("good", good), ("bad", bad)]),
        Err(Error::UnknownColumn { column: stranger })
    );
    assert!(cs.gates().is_empty());

    let selector = column(ColumnKind::Selector, 0);
    let gated = cs.query_selector(selector).times(cs.query_advice(a, Rotation::cur()));
    assert_eq!(
        cs.create_gate("ungated", vec![("gated", gated)]),
        Err(Error::UnknownColumn { column: selector })
    );
    let fixed = cs.query_fixed(column(ColumnKind::Fixed, 0), Rotation::cur());
    assert_eq!(
        cs.create_gate("unfixed", vec![("fixed", fixed)]),
        Err(Error::UnknownColumn { column: column(ColumnKind::Fixed, 0) })
    );
    let instance = cs.query_instance(column(ColumnKind::Instance, 0), Rotation::cur());
    assert_eq!(
        cs.create_gate("no input", vec![("instance", instance)]),
        Err(Error::UnknownColumn { column: column(ColumnKind::Instance, 0) })
    );
}

#[test]
fn a_simple_selector_may_only_gate_the_whole_identity() {
    let mut cs = ConstraintSystem::new();
    let a = cs.advice_column();
    let q = cs.selector();
    let inside = cs
        .query_advice(a, Rotation::cur())
        .plus(cs.query_selector(q).times(cs.query_advice(a, Rotation::next())));
    let well = cs.query_selector(q).times(cs.query_advice(a, Rotation::cur()));
    assert_eq!(
        cs.create_gate("misplaced", vec![("well", well), ("inside", inside)]),
        Err(Error::SelectorMisuse { constraint: "misplaced", index: 1 })
    );
    assert!(cs.gates().is_empty());

    let alone = cs.query_selector(q);
    assert_eq!(
        cs.create_gate("alone", vec![("alone", alone)]),
        Err(Error::SelectorMisuse { constraint: "alone", index: 0 })
    );
}

#[test]
fn a_complex_selector_may_stand_anywhere() {
    let mut cs = ConstraintSystem::new();
    let a = cs.advice_column();
    let q = cs.complex_selector();
    let inside = cs
        .query_advice(a, Rotation::cur())
        .plus(cs.query_selector(q).times(cs.query_advice(a, Rotation::next())));
    assert_eq!(cs.create_gate("complex", vec![("inside", inside)]), Ok(()));
    assert_eq!(cs.gates().len(), 1);
}

#[test]
fn gates_and_lookups_keep_the_order_of_registration() {
    let mut cs = ConstraintSystem::new();
    let a = cs.advice_column();
    let t = cs.lookup_table_column();
    for name in ["first", "second", "third"] {
        let identity = cs.query_advice(a, Rotation::cur());
        cs.create_gate(name, vec![("identity", identity)]).unwrap();
    }
    for name in ["one", "two"] {
        let input = cs.query_advice(a, Rotation::cur());
        cs.lookup(name, vec![(input, t)]).unwrap();
    }
    let gates: Vec<&str> = cs.gates().iter().map(|gate| gate.name).collect();
    assert_eq!(gates, vec!["first", "second", "third"]);
    let lookups: Vec<&str> = cs.lookups().iter().map(|lookup| lookup.name).collect();
    assert_eq!(lookups, vec!["one", "two"]);
}

#[test]
fn a_lookup_into_something_that_is_no_table_is_refused() {
    let mut cs = ConstraintSystem::new();
    let a = cs.advice_column();
    let t = cs.lookup_table_column();
    let input = cs.query_advice(a, Rotation::cur());
    assert_eq!(
        cs.lookup("into advice", vec![(input, a)]),
        Err(Error::UndeclaredTable { lookup: "into advice", column: a })
    );
    let undeclared = column(ColumnKind::LookupTable, 1);
    let first = cs.query_advice(a, Rotation::cur());
    let second = cs.query_advice(a, Rotation::next());
    assert_eq!(
        cs.lookup("undeclared", vec![(first, t), (second, undeclared)]),
        Err(Error::UndeclaredTable { lookup: "undeclared", column: undeclared })
    );
    assert!(cs.lookups().is_empty());
}

#[test]
fn a_lookup_input_may_not_query_unknown_columns_or_simple_selectors() {
    let mut cs = ConstraintSystem::new();
    let a = cs.advice_column();
    let q = cs.selector();
    let t = cs.lookup_table_column();
    let stranger = column(ColumnKind::Advice, 7);
    let input = cs.query_advice(stranger, Rotation::cur());
    assert_eq!(
        cs.lookup("strange", vec![(input, t)]),
        Err(Error::UnknownColumn { column: stranger })
    );
    let plain = cs.query_advice(a, Rotation::cur());
    let gated = cs.query_selector(q).times(cs.query_advice(a, Rotation::cur()));
    assert_eq!(
        cs.lookup("gated", vec![(plain, t), (gated, t)]),
        Err(Error::SelectorMisuse { constraint: "gated", index: 1 })
    );
    assert!(cs.lookups().is_empty());

    let complex = cs.complex_selector();
    let switched = cs.query_selector(complex).times(cs.query_advice(a, Rotation::cur()));
    assert_eq!(cs.lookup("switched", vec![(switched, t)]), Ok(()));
    assert_eq!(cs.lookups().len(), 1);
    assert_eq!(cs.lookups()[0].name, "switched");
}
