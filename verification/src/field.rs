//! Scalars: residues modulo 2^64, held in a `u64`.
//!
//! Addition, multiplication and negation wrap, so every operation is total
//! and the scalars form a commutative ring with identity. The ring laws that
//! flattening relies on are proved at the end of this file.

use vstd::arithmetic::div_mod::{
    lemma_add_mod_noop, lemma_mul_mod_noop_left, lemma_mul_mod_noop_right,
};
use vstd::arithmetic::mul::{
    lemma_mul_is_associative, lemma_mul_is_commutative, lemma_mul_is_distributive_add,
};
use vstd::prelude::*;

verus! {

/// The number of residues.
pub open spec fn modulus() -> int {
    0x1_0000_0000_0000_0000
}

/// A scalar. Every `u64` stands for exactly one residue, so two scalars are
/// equal exactly when their residues are.
#[derive(Debug, Clone, Copy, PartialEq, Eq, Structural)]
pub struct FieldElement(pub u64);

impl View for FieldElement {
    type V = int;

    /// The residue, in `0 .. modulus()`.
    open spec fn view(&self) -> int {
        self.0 as int
    }
}

impl FieldElement {
    /// The scalar that stands for the residue class of `x`.
    pub open spec fn of_int(x: int) -> FieldElement {
        FieldElement((x % modulus()) as u64)
    }

    /// The additive identity.
    pub open spec fn spec_zero() -> FieldElement {
        FieldElement(0)
    }

    /// The multiplicative identity.
    pub open spec fn spec_one() -> FieldElement {
        FieldElement(1)
    }

    /// The sum of two scalars.
    pub open spec fn spec_add(self, rhs: FieldElement) -> FieldElement {
        FieldElement::of_int(self@ + rhs@)
    }

    /// The product of two scalars.
    pub open spec fn spec_mul(self, rhs: FieldElement) -> FieldElement {
        FieldElement::of_int(self@ * rhs@)
    }

    /// The additive inverse of a scalar.
    pub open spec fn spec_neg(self) -> FieldElement {
        FieldElement::of_int(-self@)
    }

    pub fn zero() -> (r: Self)
        ensures
            r == Self::spec_zero(),
    {
        FieldElement(0)
    }

    pub fn one() -> (r: Self)
        ensures
            r == Self::spec_one(),
    {
        FieldElement(1)
    }

    pub fn is_zero(&self) -> (b: bool)
        ensures
            b <==> *self == Self::spec_zero(),
    {
        self.0 == 0
    }
}

impl vstd::std_specs::ops::AddSpecImpl for FieldElement {
    open spec fn obeys_add_spec() -> bool {
        true
    }

    open spec fn add_req(self, rhs: FieldElement) -> bool {
        true
    }

    open spec fn add_spec(self, rhs: FieldElement) -> FieldElement {
        self.spec_add(rhs)
    }
}

impl std::ops::Add for FieldElement {
    type Output = FieldElement;

    fn add(self, other: FieldElement) -> (r: FieldElement)
        ensures
            r == self.spec_add(other),
    {
        FieldElement(self.0.wrapping_add(other.0))
    }
}

impl vstd::std_specs::ops::MulSpecImpl for FieldElement {
    open spec fn obeys_mul_spec() -> bool {
        true
    }

    open spec fn mul_req(self, rhs: FieldElement) -> bool {
        true
    }

    open spec fn mul_spec(self, rhs: FieldElement) -> FieldElement {
        self.spec_mul(rhs)
    }
}

impl std::ops::Mul for FieldElement {
    type Output = FieldElement;

    fn mul(self, other: FieldElement) -> (r: FieldElement)
        ensures
            r == self.spec_mul(other),
    {
        FieldElement(self.0.wrapping_mul(other.0))
    }
}

impl vstd::std_specs::ops::NegSpecImpl for FieldElement {
    open spec fn obeys_neg_spec() -> bool {
        true
    }

    open spec fn neg_req(self) -> bool {
        true
    }

    open spec fn neg_spec(self) -> FieldElement {
        self.spec_neg()
    }
}

impl std::ops::Neg for FieldElement {
    type Output = FieldElement;

    fn neg(self) -> (r: FieldElement)
        ensures
            r == self.spec_neg(),
    {
        FieldElement(0u64.wrapping_sub(self.0))
    }
}

/// Addition is commutative.
pub proof fn lemma_add_commutative(a: FieldElement, b: FieldElement)
    ensures
        a.spec_add(b) == b.spec_add(a),
{
}

/// Addition is associative.
pub proof fn lemma_add_associative(a: FieldElement, b: FieldElement, c: FieldElement)
    ensures
        a.spec_add(b).spec_add(c) == a.spec_add(b.spec_add(c)),
{
}

/// Two sums can be added up pairwise.
pub proof fn lemma_add_interchange(
    a: FieldElement,
    b: FieldElement,
    c: FieldElement,
    d: FieldElement,
)
    ensures
        a.spec_add(b).spec_add(c.spec_add(d)) == a.spec_add(c).spec_add(b.spec_add(d)),
{
    lemma_add_mod_noop(a@ + b@, c@ + d@, modulus());
    lemma_add_mod_noop(a@ + c@, b@ + d@, modulus());
}

/// Zero is the identity of addition, on either side.
pub proof fn lemma_add_zero(a: FieldElement)
    ensures
        a.spec_add(FieldElement::spec_zero()) == a,
        FieldElement::spec_zero().spec_add(a) == a,
{
}

/// A scalar and its negation sum to zero.
pub proof fn lemma_add_neg(a: FieldElement)
    ensures
        a.spec_add(a.spec_neg()) == FieldElement::spec_zero(),
{
}

/// Multiplication is commutative.
pub proof fn lemma_mul_commutative(a: FieldElement, b: FieldElement)
    ensures
        a.spec_mul(b) == b.spec_mul(a),
{
    lemma_mul_is_commutative(a@, b@);
}

/// Multiplication is associative.
pub proof fn lemma_mul_associative(a: FieldElement, b: FieldElement, c: FieldElement)
    ensures
        a.spec_mul(b).spec_mul(c) == a.spec_mul(b.spec_mul(c)),
{
    let m = modulus();
    lemma_mul_mod_noop_left(a@ * b@, c@, m);
    lemma_mul_mod_noop_right(a@, b@ * c@, m);
    lemma_mul_is_associative(a@, b@, c@);
}

/// One is the identity of multiplication, on either side.
pub proof fn lemma_mul_one(a: FieldElement)
    ensures
        a.spec_mul(FieldElement::spec_one()) == a,
        FieldElement::spec_one().spec_mul(a) == a,
{
}

/// Zero absorbs under multiplication, on either side.
pub proof fn lemma_mul_zero(a: FieldElement)
    ensures
        a.spec_mul(FieldElement::spec_zero()) == FieldElement::spec_zero(),
        FieldElement::spec_zero().spec_mul(a) == FieldElement::spec_zero(),
{
}

/// Multiplication distributes over addition.
pub proof fn lemma_mul_distributive(a: FieldElement, b: FieldElement, c: FieldElement)
    ensures
        a.spec_mul(b.spec_add(c)) == a.spec_mul(b).spec_add(a.spec_mul(c)),
{
    let m = modulus();
    lemma_mul_mod_noop_right(a@, b@ + c@, m);
    lemma_mul_is_distributive_add(a@, b@, c@);
    lemma_add_mod_noop(a@ * b@, a@ * c@, m);
}

} // verus!
