//! The constraint system: the column registry, the custom gates and the
//! lookup arguments of a circuit.

use crate::column::{Column, ColumnKind, Rotation, Shape};
use crate::error::Error;
use crate::expression::{Expression, Poly};
use vstd::prelude::*;

verus! {

/// A custom gate: named polynomial identities, each required to evaluate to
/// zero at every row.
#[derive(Debug)]
pub struct Gate {
    pub name: &'static str,
    pub identities: Vec<(&'static str, Expression)>,
}

/// A lookup argument: at every row the tuple of the inputs must equal the
/// tuple that the table columns hold at some row.
#[derive(Debug)]
pub struct Lookup {
    pub name: &'static str,
    pub pairs: Vec<(Expression, Column)>,
}

/// A gate as a mathematical object.
pub ghost struct GateView {
    pub name: &'static str,
    pub identities: Seq<(&'static str, Poly)>,
}

/// A lookup as a mathematical object.
pub ghost struct LookupView {
    pub name: &'static str,
    pub pairs: Seq<(Poly, Column)>,
}

/// The named polynomials that named expressions stand for.
pub open spec fn identity_views(identities: Seq<(&'static str, Expression)>) -> Seq<(&'static str, Poly)> {
    Seq::new(identities.len(), |i: int| (identities[i].0, identities[i].1@))
}

/// The pairs of polynomial and table column that pairs of expression and
/// table column stand for.
pub open spec fn pair_views(pairs: Seq<(Expression, Column)>) -> Seq<(Poly, Column)> {
    Seq::new(pairs.len(), |j: int| (pairs[j].0@, pairs[j].1))
}

impl View for Gate {
    type V = GateView;

    open spec fn view(&self) -> GateView {
        GateView { name: self.name, identities: identity_views(self.identities@) }
    }
}

impl View for Lookup {
    type V = LookupView;

    open spec fn view(&self) -> LookupView {
        LookupView { name: self.name, pairs: pair_views(self.pairs@) }
    }
}

/// The gates that a list of gates stands for.
pub open spec fn gate_views(gates: Seq<Gate>) -> Seq<GateView> {
    Seq::new(gates.len(), |g: int| gates[g]@)
}

/// The lookups that a list of lookups stands for.
pub open spec fn lookup_views(lookups: Seq<Lookup>) -> Seq<LookupView> {
    Seq::new(lookups.len(), |l: int| lookups[l]@)
}

/// Whether every count of `small` is at most that of `large`.
pub open spec fn shape_within(small: Shape, large: Shape) -> bool {
    forall|kind: ColumnKind| small.count(kind) <= #[trigger] large.count(kind)
}

/// An expression that queries only columns of a shape queries only columns
/// of every larger shape.
pub proof fn lemma_unknown_monotone(e: Poly, small: Shape, large: Shape)
    requires
        shape_within(small, large),
        e.first_unknown(small) is None,
    ensures
        e.first_unknown(large) is None,
    decreases e,
{
    match e {
        Poly::Constant(_) => {},
        Poly::Query(column, _) => {
            assert(small.count(column.kind) <= large.count(column.kind));
        },
        Poly::Selector(column) => {
            assert(small.count(column.kind) <= large.count(column.kind));
        },
        Poly::Negated(a) => {
            lemma_unknown_monotone(*a, small, large);
        },
        Poly::Sum(a, b) => {
            lemma_unknown_monotone(*a, small, large);
            lemma_unknown_monotone(*b, small, large);
        },
        Poly::Product(a, b) => {
            lemma_unknown_monotone(*a, small, large);
            lemma_unknown_monotone(*b, small, large);
        },
        Poly::Scaled(a, _) => {
            lemma_unknown_monotone(*a, small, large);
        },
    }
}

/// Tagging one more selector changes nothing for an expression that queries
/// only the selectors tagged so far.
pub proof fn lemma_simple_extension(e: Poly, shape: Shape, simple: Seq<bool>, tag: bool)
    requires
        e.first_unknown(shape) is None,
        shape.selectors == simple.len(),
    ensures
        e.has_simple_selector(simple.push(tag)) == e.has_simple_selector(simple),
    decreases e,
{
    match e {
        Poly::Constant(_) => {},
        Poly::Query(_, _) => {},
        Poly::Selector(_) => {},
        Poly::Negated(a) => {
            lemma_simple_extension(*a, shape, simple, tag);
        },
        Poly::Sum(a, b) => {
            lemma_simple_extension(*a, shape, simple, tag);
            lemma_simple_extension(*b, shape, simple, tag);
        },
        Poly::Product(a, b) => {
            lemma_simple_extension(*a, shape, simple, tag);
            lemma_simple_extension(*b, shape, simple, tag);
        },
        Poly::Scaled(a, _) => {
            lemma_simple_extension(*a, shape, simple, tag);
        },
    }
}

/// Why an identity cannot stand in a gate, if it cannot: it queries an
/// unallocated column, or it misplaces a simple selector.
pub open spec fn identity_error(
    shape: Shape,
    simple: Seq<bool>,
    gate: &'static str,
    index: int,
    poly: Poly,
) -> Option<Error> {
    match poly.first_unknown(shape) {
        Some(column) => Some(Error::UnknownColumn { column }),
        None => if poly.well_gated(simple) {
            None
        } else {
            Some(Error::SelectorMisuse { constraint: gate, index: index as usize })
        },
    }
}

/// The error of the first identity from `from` on that cannot stand in a
/// gate.
pub open spec fn identities_error(
    shape: Shape,
    simple: Seq<bool>,
    gate: &'static str,
    identities: Seq<(&'static str, Poly)>,
    from: int,
) -> Option<Error>
    decreases identities.len() - from,
{
    if from < 0 || from >= identities.len() {
        None
    } else {
        match identity_error(shape, simple, gate, from, identities[from].1) {
            Some(e) => Some(e),
            None => identities_error(shape, simple, gate, identities, from + 1),
        }
    }
}

/// Why a pair cannot stand in a lookup, if it cannot: the table column is no
/// allocated lookup-table column, or the input queries an unallocated column
/// or a simple selector.
pub open spec fn pair_error(
    shape: Shape,
    simple: Seq<bool>,
    lookup: &'static str,
    index: int,
    pair: (Poly, Column),
) -> Option<Error> {
    if !(pair.1.kind == ColumnKind::LookupTable && shape.has(pair.1)) {
        Some(Error::UndeclaredTable { lookup, column: pair.1 })
    } else {
        match pair.0.first_unknown(shape) {
            Some(column) => Some(Error::UnknownColumn { column }),
            None => if pair.0.has_simple_selector(simple) {
                Some(Error::SelectorMisuse { constraint: lookup, index: index as usize })
            } else {
                None
            },
        }
    }
}

/// The error of the first pair from `from` on that cannot stand in a lookup.
pub open spec fn pairs_error(
    shape: Shape,
    simple: Seq<bool>,
    lookup: &'static str,
    pairs: Seq<(Poly, Column)>,
    from: int,
) -> Option<Error>
    decreases pairs.len() - from,
{
    if from < 0 || from >= pairs.len() {
        None
    } else {
        match pair_error(shape, simple, lookup, from, pairs[from]) {
            Some(e) => Some(e),
            None => pairs_error(shape, simple, lookup, pairs, from + 1),
        }
    }
}

/// The constraint system as a mathematical object.
pub ghost struct ConstraintSystemView {
    /// The columns allocated so far.
    pub shape: Shape,
    /// For each selector, whether it is simple.
    pub simple: Seq<bool>,
    /// The gates, in the order of their registration.
    pub gates: Seq<GateView>,
    /// The lookups, in the order of their registration.
    pub lookups: Seq<LookupView>,
}

impl ConstraintSystemView {
    /// The system with no column and no constraint.
    pub open spec fn empty() -> ConstraintSystemView {
        ConstraintSystemView {
            shape: Shape { advice: 0, fixed: 0, instance: 0, selectors: 0, tables: 0 },
            simple: Seq::empty(),
            gates: Seq::empty(),
            lookups: Seq::empty(),
        }
    }

    /// Whether `gate` may stand in this system.
    pub open spec fn gate_ok(self, gate: GateView) -> bool {
        &&& gate.identities.len() > 0
        &&& forall|i: int|
            0 <= i < gate.identities.len() ==> identity_error(
                self.shape,
                self.simple,
                gate.name,
                i,
                (#[trigger] gate.identities[i]).1,
            ) is None
    }

    /// Whether `lookup` may stand in this system.
    pub open spec fn lookup_ok(self, lookup: LookupView) -> bool {
        forall|j: int|
            0 <= j < lookup.pairs.len() ==> pair_error(
                self.shape,
                self.simple,
                lookup.name,
                j,
                #[trigger] lookup.pairs[j],
            ) is None
    }

    /// The invariants of a constraint system: every selector has its tag, and
    /// every registered constraint queries allocated columns only and keeps
    /// simple selectors in their place.
    pub open spec fn wf(self) -> bool {
        &&& self.simple.len() == self.shape.selectors
        &&& forall|g: int| 0 <= g < self.gates.len() ==> self.gate_ok(#[trigger] self.gates[g])
        &&& forall|l: int| 0 <= l < self.lookups.len() ==> self.lookup_ok(#[trigger] self.lookups[l])
    }

    /// The index that the next column of `kind` gets.
    pub open spec fn next(self, kind: ColumnKind) -> Column {
        Column { kind, index: self.shape.count(kind) as usize }
    }

    /// The system with one more column of `kind`; a selector gets the tag
    /// `simple`.
    pub open spec fn allocated(self, kind: ColumnKind, simple: bool) -> ConstraintSystemView {
        let shape = self.shape;
        match kind {
            ColumnKind::Advice => ConstraintSystemView {
                shape: Shape { advice: (shape.advice + 1) as usize, ..shape },
                ..self
            },
            ColumnKind::Fixed => ConstraintSystemView {
                shape: Shape { fixed: (shape.fixed + 1) as usize, ..shape },
                ..self
            },
            ColumnKind::Instance => ConstraintSystemView {
                shape: Shape { instance: (shape.instance + 1) as usize, ..shape },
                ..self
            },
            ColumnKind::Selector => ConstraintSystemView {
                shape: Shape { selectors: (shape.selectors + 1) as usize, ..shape },
                simple: self.simple.push(simple),
                ..self
            },
            ColumnKind::LookupTable => ConstraintSystemView {
                shape: Shape { tables: (shape.tables + 1) as usize, ..shape },
                ..self
            },
        }
    }

    /// The system with one more gate.
    pub open spec fn with_gate(
        self,
        name: &'static str,
        identities: Seq<(&'static str, Poly)>,
    ) -> ConstraintSystemView {
        ConstraintSystemView { gates: self.gates.push(GateView { name, identities }), ..self }
    }

    /// The system with one more lookup.
    pub open spec fn with_lookup(self, name: &'static str, pairs: Seq<(Poly, Column)>) -> ConstraintSystemView {
        ConstraintSystemView { lookups: self.lookups.push(LookupView { name, pairs }), ..self }
    }

    /// Why a gate of these identities cannot be registered, if it cannot.
    pub open spec fn gate_error(
        self,
        name: &'static str,
        identities: Seq<(&'static str, Poly)>,
    ) -> Option<Error> {
        if identities.len() == 0 {
            Some(Error::EmptyGate { gate: name })
        } else {
            identities_error(self.shape, self.simple, name, identities, 0)
        }
    }

    /// Why the lookup cannot be registered, if it cannot.
    pub open spec fn lookup_error(self, name: &'static str, pairs: Seq<(Poly, Column)>) -> Option<
        Error,
    > {
        pairs_error(self.shape, self.simple, name, pairs, 0)
    }

    /// The column that an allocation hands out is new, and no column is lost:
    /// an index is never used twice within its kind.
    pub proof fn lemma_allocation_is_fresh(self, kind: ColumnKind, simple: bool)
        requires
            self.shape.count(kind) < usize::MAX,
        ensures
            !self.shape.has(self.next(kind)),
            self.allocated(kind, simple).shape.has(self.next(kind)),
            forall|column: Column| self.shape.has(column) ==> #[trigger] self.allocated(kind, simple).shape.has(column),
    {
    }

    /// Allocating a column keeps a well-formed system well-formed.
    pub proof fn lemma_allocated_wf(self, kind: ColumnKind, simple: bool)
        requires
            self.wf(),
            self.shape.count(kind) < usize::MAX,
        ensures
            self.allocated(kind, simple).wf(),
            self.allocated(kind, simple).shape.count(kind) == self.shape.count(kind) + 1,
            forall|other: ColumnKind|
                other != kind ==> #[trigger] self.allocated(kind, simple).shape.count(other)
                    == self.shape.count(other),
    {
        let after = self.allocated(kind, simple);
        assert(shape_within(self.shape, after.shape)) by {
            assert forall|other: ColumnKind| self.shape.count(other) <= #[trigger] after.shape.count(
                other,
            ) by {
                match kind {
                    ColumnKind::Advice => {},
                    ColumnKind::Fixed => {},
                    ColumnKind::Instance => {},
                    ColumnKind::Selector => {},
                    ColumnKind::LookupTable => {},
                }
            }
        }
        assert forall|g: int| 0 <= g < after.gates.len() implies after.gate_ok(
            #[trigger] after.gates[g],
        ) by {
            let gate = self.gates[g];
            assert(self.gate_ok(gate));
            assert forall|i: int| 0 <= i < gate.identities.len() implies identity_error(
                after.shape,
                after.simple,
                gate.name,
                i,
                (#[trigger] gate.identities[i]).1,
            ) is None by {
                let poly = gate.identities[i].1;
                assert(identity_error(self.shape, self.simple, gate.name, i, poly) is None);
                lemma_unknown_monotone(poly, self.shape, after.shape);
                if kind == ColumnKind::Selector {
                    lemma_simple_extension(poly, self.shape, self.simple, simple);
                    match poly {
                        Poly::Product(a, b) => {
                            lemma_simple_extension(*a, self.shape, self.simple, simple);
                            lemma_simple_extension(*b, self.shape, self.simple, simple);
                        },
                        _ => {},
                    }
                }
            }
        }
        assert forall|l: int| 0 <= l < after.lookups.len() implies after.lookup_ok(
            #[trigger] after.lookups[l],
        ) by {
            let lookup = self.lookups[l];
            assert(self.lookup_ok(lookup));
            assert forall|j: int| 0 <= j < lookup.pairs.len() implies pair_error(
                after.shape,
                after.simple,
                lookup.name,
                j,
                #[trigger] lookup.pairs[j],
            ) is None by {
                let pair = lookup.pairs[j];
                assert(pair_error(self.shape, self.simple, lookup.name, j, pair) is None);
                assert(self.shape.count(pair.1.kind) <= after.shape.count(pair.1.kind));
                lemma_unknown_monotone(pair.0, self.shape, after.shape);
                if kind == ColumnKind::Selector {
                    lemma_simple_extension(pair.0, self.shape, self.simple, simple);
                }
            }
        }
    }
}

/// Where no identity from `from` on has an error, each of them is free of
/// error.
pub proof fn lemma_identities_all_ok(
    shape: Shape,
    simple: Seq<bool>,
    gate: &'static str,
    identities: Seq<(&'static str, Poly)>,
    from: int,
)
    requires
        0 <= from,
        identities_error(shape, simple, gate, identities, from) is None,
    ensures
        forall|i: int|
            from <= i < identities.len() ==> identity_error(
                shape,
                simple,
                gate,
                i,
                (#[trigger] identities[i]).1,
            ) is None,
    decreases identities.len() - from,
{
    if from < identities.len() {
        lemma_identities_all_ok(shape, simple, gate, identities, from + 1);
    }
}

/// Where no pair from `from` on has an error, each of them is free of error.
pub proof fn lemma_pairs_all_ok(
    shape: Shape,
    simple: Seq<bool>,
    lookup: &'static str,
    pairs: Seq<(Poly, Column)>,
    from: int,
)
    requires
        0 <= from,
        pairs_error(shape, simple, lookup, pairs, from) is None,
    ensures
        forall|j: int|
            from <= j < pairs.len() ==> pair_error(shape, simple, lookup, j, #[trigger] pairs[j]) is None,
    decreases pairs.len() - from,
{
    if from < pairs.len() {
        lemma_pairs_all_ok(shape, simple, lookup, pairs, from + 1);
    }
}

/// The constraint system of a circuit.
pub struct ConstraintSystem {
    shape: Shape,
    simple: Vec<bool>,
    gates: Vec<Gate>,
    lookups: Vec<Lookup>,
}

impl ConstraintSystem {
    /// The system as a mathematical object.
    pub closed spec fn view(&self) -> ConstraintSystemView {
        ConstraintSystemView {
            shape: self.shape,
            simple: self.simple@,
            gates: gate_views(self.gates@),
            lookups: lookup_views(self.lookups@),
        }
    }

    /// The invariants of the system.
    pub open spec fn wf(&self) -> bool {
        self@.wf()
    }

    /// A system with no column and no constraint.
    pub fn new() -> (r: ConstraintSystem)
        ensures
            r.wf(),
            r@ == ConstraintSystemView::empty(),
    {
        let r = ConstraintSystem {
            shape: Shape::empty(),
            simple: Vec::new(),
            gates: Vec::new(),
            lookups: Vec::new(),
        };
        proof {
            assert(r@.simple =~= Seq::<bool>::empty());
            assert(r@.gates =~= Seq::<GateView>::empty());
            assert(r@.lookups =~= Seq::<LookupView>::empty());
        }
        r
    }

    /// Allocates a selector, tagged complex or simple. A simple selector may
    /// only gate a whole identity; a complex one may stand anywhere.
    pub fn allocate_selector(&mut self, complex: bool) -> (r: Column)
        requires
            old(self).wf(),
            old(self)@.shape.selectors < usize::MAX,
        ensures
            final(self).wf(),
            r == old(self)@.next(ColumnKind::Selector),
            final(self)@ == old(self)@.allocated(ColumnKind::Selector, !complex),
    {
        proof {
            self@.lemma_allocated_wf(ColumnKind::Selector, !complex);
        }
        let index = self.shape.selectors;
        self.shape.selectors = index + 1;
        self.simple.push(!complex);
        Column { kind: ColumnKind::Selector, index }
    }

    /// Allocates a fresh column of `kind`: its index is the number of columns
    /// of that kind allocated before, so no index is ever handed out twice. A
    /// selector allocated this way is simple.
    pub fn allocate(&mut self, kind: ColumnKind) -> (r: Column)
        requires
            old(self).wf(),
            old(self)@.shape.count(kind) < usize::MAX,
        ensures
            final(self).wf(),
            r == old(self)@.next(kind),
            final(self)@ == old(self)@.allocated(kind, true),
    {
        proof {
            self@.lemma_allocated_wf(kind, true);
        }
        match kind {
            ColumnKind::Advice => {
                let index = self.shape.advice;
                self.shape.advice = index + 1;
                Column { kind, index }
            },
            ColumnKind::Fixed => {
                let index = self.shape.fixed;
                self.shape.fixed = index + 1;
                Column { kind, index }
            },
            ColumnKind::Instance => {
                let index = self.shape.instance;
                self.shape.instance = index + 1;
                Column { kind, index }
            },
            ColumnKind::Selector => self.allocate_selector(false),
            ColumnKind::LookupTable => {
                let index = self.shape.tables;
                self.shape.tables = index + 1;
                Column { kind, index }
            },
        }
    }

    /// Allocates an advice column.
    pub fn advice_column(&mut self) -> (r: Column)
        requires
            old(self).wf(),
            old(self)@.shape.advice < usize::MAX,
        ensures
            final(self).wf(),
            r == old(self)@.next(ColumnKind::Advice),
            final(self)@ == old(self)@.allocated(ColumnKind::Advice, true),
    {
        self.allocate(ColumnKind::Advice)
    }

    /// Allocates a fixed column.
    pub fn fixed_column(&mut self) -> (r: Column)
        requires
            old(self).wf(),
            old(self)@.shape.fixed < usize::MAX,
        ensures
            final(self).wf(),
            r == old(self)@.next(ColumnKind::Fixed),
            final(self)@ == old(self)@.allocated(ColumnKind::Fixed, true),
    {
        self.allocate(ColumnKind::Fixed)
    }

    /// Allocates an instance column.
    pub fn instance_column(&mut self) -> (r: Column)
        requires
            old(self).wf(),
            old(self)@.shape.instance < usize::MAX,
        ensures
            final(self).wf(),
            r == old(self)@.next(ColumnKind::Instance),
            final(self)@ == old(self)@.allocated(ColumnKind::Instance, true),
    {
        self.allocate(ColumnKind::Instance)
    }

    /// Allocates a simple selector.
    pub fn selector(&mut self) -> (r: Column)
        requires
            old(self).wf(),
            old(self)@.shape.selectors < usize::MAX,
        ensures
            final(self).wf(),
            r == old(self)@.next(ColumnKind::Selector),
            final(self)@ == old(self)@.allocated(ColumnKind::Selector, true),
    {
        self.allocate_selector(false)
    }

    /// Allocates a complex selector.
    pub fn complex_selector(&mut self) -> (r: Column)
        requires
            old(self).wf(),
            old(self)@.shape.selectors < usize::MAX,
        ensures
            final(self).wf(),
            r == old(self)@.next(ColumnKind::Selector),
            final(self)@ == old(self)@.allocated(ColumnKind::Selector, false),
    {
        self.allocate_selector(true)
    }

    /// Allocates a column of a lookup table.
    pub fn lookup_table_column(&mut self) -> (r: Column)
        requires
            old(self).wf(),
            old(self)@.shape.tables < usize::MAX,
        ensures
            final(self).wf(),
            r == old(self)@.next(ColumnKind::LookupTable),
            final(self)@ == old(self)@.allocated(ColumnKind::LookupTable, true),
    {
        self.allocate(ColumnKind::LookupTable)
    }

    /// The query of an advice column at a rotation.
    pub fn query_advice(&self, column: Column, at: Rotation) -> (r: Expression)
        ensures
            r@ == Poly::Query(column, at.0 as int),
    {
        Expression::Query(column, at)
    }

    /// The query of a fixed column at a rotation.
    pub fn query_fixed(&self, column: Column, at: Rotation) -> (r: Expression)
        ensures
            r@ == Poly::Query(column, at.0 as int),
    {
        Expression::Query(column, at)
    }

    /// The query of an instance column at a rotation.
    pub fn query_instance(&self, column: Column, at: Rotation) -> (r: Expression)
        ensures
            r@ == Poly::Query(column, at.0 as int),
    {
        Expression::Query(column, at)
    }

    /// The query of a selector at the current row.
    pub fn query_selector(&self, selector: Column) -> (r: Expression)
        ensures
            r@ == Poly::Selector(selector),
    {
        Expression::Selector(selector)
    }

    /// The columns allocated so far.
    pub fn shape(&self) -> (r: Shape)
        ensures
            r == self@.shape,
    {
        self.shape
    }

    /// Whether the selector was allocated as a simple one.
    pub fn is_simple(&self, selector: Column) -> (r: bool)
        ensures
            r == (selector.kind == ColumnKind::Selector && selector.index < self@.simple.len()
                && self@.simple[selector.index as int]),
    {
        let selector_kind = match selector.kind {
            ColumnKind::Selector => true,
            _ => false,
        };
        selector_kind && selector.index < self.simple.len() && self.simple[selector.index]
    }

    /// The gates, in the order of their registration.
    pub fn gates(&self) -> (r: &Vec<Gate>)
        ensures
            gate_views(r@) == self@.gates,
    {
        &self.gates
    }

    /// The lookups, in the order of their registration.
    pub fn lookups(&self) -> (r: &Vec<Lookup>)
        ensures
            lookup_views(r@) == self@.lookups,
    {
        &self.lookups
    }

    /// Registers a gate. It is refused, and the system left as it was,
    /// when it has no identity, when an identity queries a column that was
    /// never allocated, or when a simple selector stands anywhere but as a
    /// factor of a whole identity; the first identity at fault gives the
    /// error.
    pub fn create_gate(&mut self, name: &'static str, identities: Vec<(&'static str, Expression)>) -> (r:
        Result<(), Error>)
        requires
            old(self).wf(),
        ensures
            final(self).wf(),
            match old(self)@.gate_error(name, identity_views(identities@)) {
                Some(e) => r == Err::<(), Error>(e) && final(self)@ == old(self)@,
                None => r == Ok::<(), Error>(()) && final(self)@ == old(self)@.with_gate(
                    name,
                    identity_views(identities@),
                ),
            },
    {
        if identities.len() == 0 {
            return Err(Error::EmptyGate { gate: name });
        }
        let mut i: usize = 0;
        while i < identities.len()
            invariant
                i <= identities@.len(),
                *self == *old(self),
                self.wf(),
                identities_error(self@.shape, self@.simple, name, identity_views(identities@), 0)
                    == identities_error(
                    self@.shape,
                    self@.simple,
                    name,
                    identity_views(identities@),
                    i as int,
                ),
            decreases identities@.len() - i,
        {
            match identities[i].1.find_unknown(&self.shape) {
                Some(column) => {
                    return Err(Error::UnknownColumn { column });
                },
                None => {},
            }
            if !identities[i].1.is_well_gated(&self.simple) {
                return Err(Error::SelectorMisuse { constraint: name, index: i });
            }
            i = i + 1;
        }
        proof {
            lemma_identities_all_ok(self@.shape, self@.simple, name, identity_views(identities@), 0);
        }
        let gate = Gate { name, identities };
        self.gates.push(gate);
        proof {
            let after = self@;
            assert(after.gates =~= old(self)@.gates.push(gate@));
            assert forall|g: int| 0 <= g < after.gates.len() implies after.gate_ok(
                #[trigger] after.gates[g],
            ) by {
                if g < old(self)@.gates.len() {
                    assert(old(self)@.gate_ok(old(self)@.gates[g]));
                }
            }
            assert forall|l: int| 0 <= l < after.lookups.len() implies after.lookup_ok(
                #[trigger] after.lookups[l],
            ) by {
                assert(old(self)@.lookup_ok(old(self)@.lookups[l]));
            }
        }
        Ok(())
    }

    /// Registers a lookup argument. The lookup is refused, and the system
    /// left as it was, when a table column is no allocated lookup-table
    /// column, or when an input queries a column that was never allocated or
    /// a simple selector; the first pair at fault gives the error.
    pub fn lookup(&mut self, name: &'static str, pairs: Vec<(Expression, Column)>) -> (r: Result<(), Error>)
        requires
            old(self).wf(),
        ensures
            final(self).wf(),
            match old(self)@.lookup_error(name, pair_views(pairs@)) {
                Some(e) => r == Err::<(), Error>(e) && final(self)@ == old(self)@,
                None => r == Ok::<(), Error>(()) && final(self)@ == old(self)@.with_lookup(
                    name,
                    pair_views(pairs@),
                ),
            },
    {
        let mut j: usize = 0;
        while j < pairs.len()
            invariant
                j <= pairs@.len(),
                *self == *old(self),
                self.wf(),
                pairs_error(self@.shape, self@.simple, name, pair_views(pairs@), 0) == pairs_error(
                    self@.shape,
                    self@.simple,
                    name,
                    pair_views(pairs@),
                    j as int,
                ),
            decreases pairs@.len() - j,
        {
            let table = pairs[j].1;
            let table_kind = match table.kind {
                ColumnKind::LookupTable => true,
                _ => false,
            };
            if !(table_kind && self.shape.contains(table)) {
                return Err(Error::UndeclaredTable { lookup: name, column: table });
            }
            match pairs[j].0.find_unknown(&self.shape) {
                Some(column) => {
                    return Err(Error::UnknownColumn { column });
                },
                None => {},
            }
            if pairs[j].0.contains_simple_selector(&self.simple) {
                return Err(Error::SelectorMisuse { constraint: name, index: j });
            }
            j = j + 1;
        }
        proof {
            lemma_pairs_all_ok(self@.shape, self@.simple, name, pair_views(pairs@), 0);
        }
        let lookup = Lookup { name, pairs };
        self.lookups.push(lookup);
        proof {
            let after = self@;
            assert(after.lookups =~= old(self)@.lookups.push(lookup@));
            assert forall|g: int| 0 <= g < after.gates.len() implies after.gate_ok(
                #[trigger] after.gates[g],
            ) by {
                assert(old(self)@.gate_ok(old(self)@.gates[g]));
            }
            assert forall|l: int| 0 <= l < after.lookups.len() implies after.lookup_ok(
                #[trigger] after.lookups[l],
            ) by {
                if l < old(self)@.lookups.len() {
                    assert(old(self)@.lookup_ok(old(self)@.lookups[l]));
                }
            }
        }
        Ok(())
    }
}

} // verus!
