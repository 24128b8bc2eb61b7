use plonkish::checker::{check, lookup_holds, Violation};
use plonkish::column::{Column, ColumnKind, Rotation};
use plonkish::constraint_system::ConstraintSystem;
use plonkish::expression::Expression;
use plonkish::layouter::Layouter;
use plonkish::region::{Region, TableRegion};
use plonkish::witness::WitnessTable;
use plonkish::Felt;

fn value(v: u64) -> Option<Felt> {
    Some(Felt::from_u64(v))
}

fn gate(gate: usize, gate_name: &'static str, identity: usize, identity_name: &'static str, row: usize) -> Violation {
    Violation::Gate { gate, gate_name, identity, identity_name, row }
}

/// Two gates over one advice column, and a lookup of that column into a
/// table of the even numbers 0, 2 and 4:
/// "step": q * (a(next) - a - 1), and "small": two identities without
/// selector, a * (a - 1) * (a - 2) and a - a.
fn system() -> (ConstraintSystem, Column, Column, Column) {
    let mut cs = ConstraintSystem::new();
    let a = cs.advice_column();
    let q = cs.selector();
    let t = cs.lookup_table_column();
    let cell = |cs: &ConstraintSystem| cs.query_advice(a, Rotation::cur());
    let constant = |v: u64| Expression::constant(Felt::from_u64(v));

    let step = cs.query_selector(q).times(
        cs.query_advice(a, Rotation::next()).minus(cell(&cs)).minus(constant(1)),
    );
    cs.create_gate("step", vec![("next is one more", step)]).unwrap();

    let small = cell(&cs).times(cell(&cs).minus(constant(1))).times(cell(&cs).minus(constant(2)));
    let nothing = cell(&cs).minus(cell(&cs));
    cs.create_gate("small", vec![("at most two", small), ("nothing", nothing)]).unwrap();

    let doubled = cell(&cs).scale(Felt::from_u64(2));
    cs.lookup("double is even", vec![(doubled, t)]).unwrap();
    (cs, a, q, t)
}

fn table(cs: &ConstraintSystem, a: Column, q: Column, t: Column, cells: [u64; 4], steps: &[usize]) -> WitnessTable {
    let mut layouter = Layouter::new(WitnessTable::new(2, cs.shape(), &vec![]).unwrap(), true);
    let mut loading = TableRegion::new("even");
    for (i, v) in [0u64, 2, 4].iter().enumerate() {
        loading.assign_table_cell(t, i, value(*v)).unwrap();
    }
    layouter.assign_table(&loading).unwrap();
    let mut region = Region::new("cells");
    for (offset, v) in cells.iter().enumerate() {
        region.assign_advice(a, offset, value(*v)).unwrap();
    }
    for offset in steps {
        region.enable_selector(q, *offset).unwrap();
    }
    layouter.assign_region(&region).unwrap();
    layouter.into_table()
}

#[test]
fn a_table_that_meets_every_constraint_is_satisfied() {
    let (cs, a, q, t) = system();
    let table = table(&cs, a, q, t, [0, 1, 2, 0], &[0, 1]);
    assert_eq!(check(&cs, &table), Ok(()));
}

#[test]
fn a_step_over_the_edge_of_the_domain_reads_row_zero() {
    let (cs, a, q, t) = system();
    let wrapped = table(&cs, a, q, t, [1, 2, 0, 0], &[3]);
    assert_eq!(check(&cs, &wrapped), Ok(()));
    let broken = table(&cs, a, q, t, [2, 2, 0, 0], &[3]);
    assert_eq!(check(&cs, &broken), Err(vec![gate(0, "step", 0, "next is one more", 3)]));
}

#[test]
fn violations_are_ordered_by_row_and_then_by_registration() {
    let (cs, a, q, t) = system();
    let table = table(&cs, a, q, t, [3, 0, 5, 1], &[0, 2]);
    assert_eq!(
        check(&cs, &table),
        Err(vec![
            gate(0, "step", 0, "next is one more", 0),
            gate(1, "small", 0, "at most two", 0),
            Violation::Lookup { lookup: 0, lookup_name: "double is even", row: 0 },
            gate(0, "step", 0, "next is one more", 2),
            gate(1, "small", 0, "at most two", 2),
            Violation::Lookup { lookup: 0, lookup_name: "double is even", row: 2 },
        ])
    );
}

#[test]
fn every_violation_is_reported_not_only_the_first() {
    let (cs, a, q, t) = system();
    let table = table(&cs, a, q, t, [7, 7, 7, 7], &[]);
    let found = check(&cs, &table).unwrap_err();
    assert_eq!(found.len(), 8);
    for row in 0..4 {
        assert_eq!(found[2 * row], gate(1, "small", 0, "at most two", row));
        assert_eq!(
            found[2 * row + 1],
            Violation::Lookup { lookup: 0, lookup_name: "double is even", row }
        );
    }
}

#[test]
fn the_checker_changes_nothing_and_repeats_itself() {
    let (cs, a, q, t) = system();
    let table = table(&cs, a, q, t, [3, 0, 5, 1], &[0, 2]);
    let first = check(&cs, &table);
    let second = check(&cs, &table);
    assert_eq!(first, second);
    assert_eq!(table.get(a, 2), value(5));
    assert_eq!(cs.gates().len(), 2);
}

#[test]
fn a_lookup_holds_where_some_row_of_the_table_matches() {
    let (cs, a, q, t) = system();
    let table = table(&cs, a, q, t, [0, 1, 2, 3], &[]);
    let lookup = &cs.lookups()[0];
    assert!(lookup_holds(lookup, 0, &table));
    assert!(lookup_holds(lookup, 1, &table));
    assert!(lookup_holds(lookup, 2, &table));
    assert!(!lookup_holds(lookup, 3, &table));
}

#[test]
fn a_lookup_of_several_columns_matches_whole_rows_only() {
    let mut cs = ConstraintSystem::new();
    let a = cs.advice_column();
    let b = cs.advice_column();
    let t = cs.lookup_table_column();
    let u = cs.lookup_table_column();
    let first = cs.query_advice(a, Rotation::cur());
    let second = cs.query_advice(b, Rotation::cur());
    cs.lookup("pair", vec![(first, t), (second, u)]).unwrap();

    let mut layouter = Layouter::new(WitnessTable::new(1, cs.shape(), &vec![]).unwrap(), true);
    let mut loading = TableRegion::new("pairs");
    loading.assign_table_cell(t, 0, value(1)).unwrap();
    loading.assign_table_cell(u, 0, value(2)).unwrap();
    loading.assign_table_cell(t, 1, value(3)).unwrap();
    loading.assign_table_cell(u, 1, value(4)).unwrap();
    layouter.assign_table(&loading).unwrap();
    let mut region = Region::new("cells");
    region.assign_advice(a, 0, value(3)).unwrap();
    region.assign_advice(b, 0, value(4)).unwrap();
    region.assign_advice(a, 1, value(1)).unwrap();
    region.assign_advice(b, 1, value(4)).unwrap();
    layouter.assign_region(&region).unwrap();
    let table = layouter.into_table();
    assert_eq!(
        check(&cs, &table),
        Err(vec![Violation::Lookup { lookup: 0, lookup_name: "pair", row: 1 }])
    );
}

#[test]
fn public_inputs_are_read_like_any_cell() {
    let mut cs = ConstraintSystem::new();
    let a = cs.advice_column();
    let input = cs.instance_column();
    let same = cs.query_advice(a, Rotation::cur()).minus(cs.query_instance(input, Rotation::cur()));
    cs.create_gate("public", vec![("a is the input", same)]).unwrap();

    let instance = vec![vec![Felt::from_u64(5), Felt::from_u64(6)]];
    let mut layouter = Layouter::new(WitnessTable::new(1, cs.shape(), &instance).unwrap(), true);
    let mut region = Region::new("cells");
    region.assign_advice(a, 0, value(5)).unwrap();
    region.assign_advice(a, 1, value(7)).unwrap();
    layouter.assign_region(&region).unwrap();
    let table = layouter.into_table();
    assert_eq!(check(&cs, &table), Err(vec![gate(0, "public", 0, "a is the input", 1)]));
}

#[test]
fn a_system_without_constraints_is_satisfied_by_any_table() {
    let mut cs = ConstraintSystem::new();
    let a = cs.advice_column();
    let mut table = WitnessTable::new(2, cs.shape(), &vec![]).unwrap();
    table.set(a, 1, Felt::from_u64(3)).unwrap();
    assert_eq!(check(&cs, &table), Ok(()));
}
