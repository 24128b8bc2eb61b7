//! Elements of the Pallas base field.
//!
//! An element is held as the 32 little-endian bytes of its canonical
//! representative. The arithmetic itself is done by the `pasta` field
//! implementation; this module states what each operation returns as integer
//! arithmetic modulo the field's prime.

use halo2_proofs::pasta::group::ff::PrimeField;
use halo2_proofs::pasta::Fp;
use vstd::arithmetic::div_mod::{lemma_mod_multiples_vanish, lemma_small_mod};
use vstd::prelude::*;
use vstd::std_specs::cmp::PartialEqSpecImpl;

verus! {

/// The prime `p` of the field, written limb by limb (least significant limb
/// first, 64 bits each).
pub open spec fn modulus() -> int {
    0x992d30ed00000001int + 0x224698fc094cf91b * 0x1_0000_0000_0000_0000
        + 0x4000000000000000 * 0x1_0000_0000_0000_0000 * 0x1_0000_0000_0000_0000
        * 0x1_0000_0000_0000_0000
}

/// Sum of two residues.
pub open spec fn field_add(a: int, b: int) -> int {
    (a + b) % modulus()
}

/// Product of two residues.
pub open spec fn field_mul(a: int, b: int) -> int {
    (a * b) % modulus()
}

/// Additive inverse of a residue.
pub open spec fn field_neg(a: int) -> int {
    (-a) % modulus()
}

/// The prime is larger than one.
pub proof fn lemma_modulus_large()
    ensures
        modulus() > 1,
{
}

/// Zero annihilates: `0 * x = x * 0 = 0`.
pub proof fn lemma_mul_zero(x: int)
    ensures
        field_mul(0, x) == 0,
        field_mul(x, 0) == 0,
{
    assert(0 * x == 0);
    assert(x * 0 == 0);
    lemma_small_mod(0, modulus() as nat);
}

/// One is the multiplicative identity: `1 * x = x * 1 = x`.
pub proof fn lemma_mul_one(x: int)
    requires
        0 <= x < modulus(),
    ensures
        field_mul(1, x) == x,
        field_mul(x, 1) == x,
{
    assert(1 * x == x);
    assert(x * 1 == x);
    lemma_small_mod(x as nat, modulus() as nat);
}

/// Zero is the additive identity: `0 + x = x + 0 = x`.
pub proof fn lemma_add_zero(x: int)
    requires
        0 <= x < modulus(),
    ensures
        field_add(0, x) == x,
        field_add(x, 0) == x,
{
    lemma_small_mod(x as nat, modulus() as nat);
}

/// The negation of `x` is `p - x`, and that of zero is zero.
pub proof fn lemma_neg(x: int)
    requires
        0 <= x < modulus(),
    ensures
        field_neg(x) == if x == 0 {
            0
        } else {
            modulus() - x
        },
{
    let p = modulus();
    if x == 0 {
        lemma_small_mod(0, p as nat);
    } else {
        lemma_mod_multiples_vanish(1, -x, p);
        lemma_small_mod((p - x) as nat, p as nat);
    }
}

/// `x + (-x) = 0`.
pub proof fn lemma_add_neg(x: int)
    requires
        0 <= x < modulus(),
    ensures
        field_add(x, field_neg(x)) == 0,
{
    let p = modulus();
    lemma_neg(x);
    if x == 0 {
        lemma_small_mod(0, p as nat);
    } else {
        lemma_mod_multiples_vanish(1, 0, p);
        lemma_small_mod(0, p as nat);
    }
}

/// `x - y` is zero exactly when `x` and `y` are equal.
pub proof fn lemma_difference_zero(x: int, y: int)
    requires
        0 <= x < modulus(),
        0 <= y < modulus(),
    ensures
        field_add(x, field_neg(y)) == 0 <==> x == y,
        0 <= field_add(x, field_neg(y)) < modulus(),
{
    let p = modulus();
    lemma_neg(y);
    if y == 0 {
        lemma_small_mod(x as nat, p as nat);
    } else if x >= y {
        lemma_mod_multiples_vanish(1, x - y, p);
        lemma_small_mod((x - y) as nat, p as nat);
    } else {
        lemma_small_mod((x + p - y) as nat, p as nat);
    }
}

/// The integer that a little-endian byte string stands for.
pub open spec fn le_value(bytes: Seq<u8>) -> int
    decreases bytes.len(),
{
    if bytes.len() == 0 {
        0
    } else {
        bytes[0] as int + 256 * le_value(bytes.skip(1))
    }
}

/// Two byte strings of one length that stand for the same integer are equal.
pub proof fn lemma_le_value_injective(a: Seq<u8>, b: Seq<u8>)
    requires
        a.len() == b.len(),
        le_value(a) == le_value(b),
    ensures
        a == b,
    decreases a.len(),
{
    if a.len() > 0 {
        let ra = le_value(a.skip(1));
        let rb = le_value(b.skip(1));
        assert(a[0] as int + 256 * ra == b[0] as int + 256 * rb);
        assert(a[0] == b[0] && ra == rb) by (nonlinear_arith)
            requires
                a[0] as int + 256 * ra == b[0] as int + 256 * rb,
                0 <= a[0] as int <= 255,
                0 <= b[0] as int <= 255,
        ;
        lemma_le_value_injective(a.skip(1), b.skip(1));
        assert(a =~= seq![a[0]] + a.skip(1));
        assert(b =~= seq![b[0]] + b.skip(1));
    } else {
        assert(a =~= b);
    }
}

/// A field element.
#[derive(Clone, Copy, Debug)]
pub struct Felt {
    pub(crate) repr: [u8; 32],
}

impl Felt {
    /// The canonical representative of the element, in `[0, p)`.
    pub closed spec fn value(self) -> int {
        le_value(self.repr@)
    }

    /// Whether the bytes are those of a canonical representative. This holds
    /// of every element that exists at run time.
    #[verifier::type_invariant]
    pub closed spec fn canonical(self) -> bool {
        0 <= self.value() < modulus()
    }

    /// The additive identity.
    pub fn zero() -> (r: Felt)
        ensures
            r.value() == 0,
            r.canonical(),
    {
        fp_zero()
    }

    /// The multiplicative identity.
    pub fn one() -> (r: Felt)
        ensures
            r.value() == 1,
            r.canonical(),
    {
        fp_one()
    }

    /// The element that the integer `v` stands for.
    pub fn from_u64(v: u64) -> (r: Felt)
        ensures
            r.value() == v,
            r.canonical(),
    {
        fp_from_u64(v)
    }

    /// `self + rhs`.
    pub fn plus(&self, rhs: &Felt) -> (r: Felt)
        ensures
            r.value() == field_add(self.value(), rhs.value()),
            r.canonical(),
    {
        proof {
            use_type_invariant(self);
            use_type_invariant(rhs);
        }
        fp_add(self, rhs)
    }

    /// `self * rhs`.
    pub fn times(&self, rhs: &Felt) -> (r: Felt)
        ensures
            r.value() == field_mul(self.value(), rhs.value()),
            r.canonical(),
    {
        proof {
            use_type_invariant(self);
            use_type_invariant(rhs);
        }
        fp_mul(self, rhs)
    }

    /// `-self`.
    pub fn negated(&self) -> (r: Felt)
        ensures
            r.value() == field_neg(self.value()),
            r.canonical(),
    {
        proof {
            use_type_invariant(self);
        }
        fp_neg(self)
    }

    /// Whether this is the additive identity.
    pub fn is_zero(&self) -> (r: bool)
        ensures
            r == (self.value() == 0),
    {
        let zero = Felt::zero();
        *self == zero
    }

    /// The canonical little-endian bytes.
    pub fn to_repr(&self) -> (r: [u8; 32])
        ensures
            le_value(r@) == self.value(),
    {
        self.repr
    }

    /// Elements are equal exactly when their representatives are.
    pub proof fn lemma_value_determines(a: Felt, b: Felt)
        ensures
            (a.value() == b.value()) <==> a == b,
    {
        if a.value() == b.value() {
            lemma_le_value_injective(a.repr@, b.repr@);
            assert(a.repr =~= b.repr);
        }
    }

    /// A valid element's representative lies in `[0, p)`.
    pub proof fn lemma_canonical_range(self)
        requires
            self.canonical(),
        ensures
            0 <= self.value() < modulus(),
    {
    }
}

impl PartialEq for Felt {
    fn eq(&self, other: &Felt) -> (r: bool) {
        let mut i: usize = 0;
        while i < 32
            invariant
                i <= 32,
                forall|j: int| 0 <= j < i ==> self.repr@[j] == other.repr@[j],
            decreases 32 - i,
        {
            if self.repr[i] != other.repr[i] {
                proof {
                    if self.value() == other.value() {
                        lemma_le_value_injective(self.repr@, other.repr@);
                    }
                }
                return false;
            }
            i = i + 1;
        }
        proof {
            assert(self.repr@ =~= other.repr@);
        }
        true
    }
}

impl PartialEqSpecImpl for Felt {
    open spec fn obeys_eq_spec() -> bool {
        true
    }

    open spec fn eq_spec(&self, other: &Felt) -> bool {
        self.value() == other.value()
    }
}

impl Eq for Felt {}

/// `Fp::zero`, turned into canonical bytes by `PrimeField::to_repr`: the
/// element whose representative is 0.
#[verifier::external_body]
fn fp_zero() -> (r: Felt)
    ensures
        r.value() == 0,
        r.canonical(),
{
    Felt { repr: Fp::zero().to_repr() }
}

/// `Fp::one`, turned into canonical bytes by `PrimeField::to_repr`: the
/// element whose representative is 1.
#[verifier::external_body]
fn fp_one() -> (r: Felt)
    ensures
        r.value() == 1,
        r.canonical(),
{
    Felt { repr: Fp::one().to_repr() }
}

/// `Fp::from(u64)`, turned into canonical bytes by `PrimeField::to_repr`:
/// the element whose representative is `v` (every 64-bit integer is below
/// the prime).
#[verifier::external_body]
fn fp_from_u64(v: u64) -> (r: Felt)
    ensures
        r.value() == v,
        r.canonical(),
{
    Felt { repr: Fp::from(v).to_repr() }
}

/// `Fp::add`, between `PrimeField::from_repr` (which accepts canonical bytes
/// only) and `PrimeField::to_repr`: the sum modulo the prime, again as
/// canonical bytes.
#[verifier::external_body]
fn fp_add(a: &Felt, b: &Felt) -> (r: Felt)
    requires
        a.canonical(),
        b.canonical(),
    ensures
        r.value() == field_add(a.value(), b.value()),
        r.canonical(),
{
    let x = Fp::from_repr(a.repr).unwrap();
    let y = Fp::from_repr(b.repr).unwrap();
    Felt { repr: Fp::add(&x, &y).to_repr() }
}

/// `Fp::mul`, between `PrimeField::from_repr` and `PrimeField::to_repr`: the
/// product modulo the prime, again as canonical bytes.
#[verifier::external_body]
fn fp_mul(a: &Felt, b: &Felt) -> (r: Felt)
    requires
        a.canonical(),
        b.canonical(),
    ensures
        r.value() == field_mul(a.value(), b.value()),
        r.canonical(),
{
    let x = Fp::from_repr(a.repr).unwrap();
    let y = Fp::from_repr(b.repr).unwrap();
    Felt { repr: Fp::mul(&x, &y).to_repr() }
}

/// `Fp::neg`, between `PrimeField::from_repr` and `PrimeField::to_repr`: the
/// additive inverse modulo the prime, again as canonical bytes.
#[verifier::external_body]
fn fp_neg(a: &Felt) -> (r: Felt)
    requires
        a.canonical(),
    ensures
        r.value() == field_neg(a.value()),
        r.canonical(),
{
    let x = Fp::from_repr(a.repr).unwrap();
    Felt { repr: Fp::neg(&x).to_repr() }
}

} // verus!
