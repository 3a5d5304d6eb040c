//! Elements of the BN254 scalar field, held as their canonical bytes.
//!
//! The arithmetic is done by `ark_ff`; this module states what it computes.
use vstd::prelude::*;
use ark_bn254::Fr;
use ark_ff::{BigInteger, PrimeField};
use crate::codec::{be_value, field_modulus, le_value, lemma_be_value_injective};

verus! {

/// `Fr::from_be_bytes_mod_order`: the bytes are read as one big-endian integer
/// of any length and reduced modulo the field order. The result comes back as
/// the 32 canonical big-endian bytes of the element.
#[verifier::external_body]
fn ark_reduce_be(bytes: &[u8]) -> (canonical: [u8; 32])
    ensures
        be_value(canonical@) == be_value(bytes@) % field_modulus(),
{
    let mut canonical = [0u8; 32];
    canonical.copy_from_slice(&Fr::from_be_bytes_mod_order(bytes).into_bigint().to_bytes_be());
    canonical
}

/// `Fr::from_le_bytes_mod_order`: as `ark_reduce_be`, with the input read
/// least significant byte first.
#[verifier::external_body]
fn ark_reduce_le(bytes: &[u8]) -> (canonical: [u8; 32])
    ensures
        be_value(canonical@) == le_value(bytes@) % field_modulus(),
{
    let mut canonical = [0u8; 32];
    canonical.copy_from_slice(&Fr::from_le_bytes_mod_order(bytes).into_bigint().to_bytes_be());
    canonical
}

/// `Fr::from(u64)`: the field element with that value.
#[verifier::external_body]
fn ark_from_u64(value: u64) -> (canonical: [u8; 32])
    ensures
        be_value(canonical@) == value,
{
    let mut canonical = [0u8; 32];
    canonical.copy_from_slice(&Fr::from(value).into_bigint().to_bytes_be());
    canonical
}

/// Addition in `Fr`: the sum of the two numbers modulo the field order.
#[verifier::external_body]
fn ark_add(a: &[u8; 32], b: &[u8; 32]) -> (canonical: [u8; 32])
    ensures
        be_value(canonical@) == (be_value(a@) + be_value(b@)) % field_modulus(),
{
    let sum = Fr::from_be_bytes_mod_order(a) + Fr::from_be_bytes_mod_order(b);
    let mut canonical = [0u8; 32];
    canonical.copy_from_slice(&sum.into_bigint().to_bytes_be());
    canonical
}

/// Subtraction in `Fr`: the difference of the two numbers modulo the field
/// order, a number from zero up to the order.
#[verifier::external_body]
fn ark_sub(a: &[u8; 32], b: &[u8; 32]) -> (canonical: [u8; 32])
    ensures
        be_value(canonical@) == (be_value(a@) - be_value(b@)) % (field_modulus() as int),
{
    let difference = Fr::from_be_bytes_mod_order(a) - Fr::from_be_bytes_mod_order(b);
    let mut canonical = [0u8; 32];
    canonical.copy_from_slice(&difference.into_bigint().to_bytes_be());
    canonical
}

/// Negation in `Fr`: the additive inverse modulo the field order.
#[verifier::external_body]
fn ark_neg(a: &[u8; 32]) -> (canonical: [u8; 32])
    ensures
        be_value(canonical@) == (-(be_value(a@) as int)) % (field_modulus() as int),
{
    let negated = -Fr::from_be_bytes_mod_order(a);
    let mut canonical = [0u8; 32];
    canonical.copy_from_slice(&negated.into_bigint().to_bytes_be());
    canonical
}

/// An element of the scalar field: 32 bytes that spell, most significant byte
/// first, a number below the field order.
#[derive(Clone, Copy, Debug)]
pub struct FieldElement {
    pub be_bytes: [u8; 32],
}

impl FieldElement {
    /// The number that the element stands for.
    pub open spec fn value(self) -> nat {
        be_value(self.be_bytes@)
    }

    /// The bytes are canonical: the number is below the field order.
    pub open spec fn wf(self) -> bool {
        self.value() < field_modulus()
    }

    /// The element with the value of `number`.
    pub fn from_u64(number: u64) -> (element: FieldElement)
        ensures
            element.wf(),
            element.value() == number,
    {
        FieldElement { be_bytes: ark_from_u64(number) }
    }

    /// The sum in the field.
    pub fn plus(&self, other: &FieldElement) -> (sum: FieldElement)
        ensures
            sum.wf(),
            sum.value() == (self.value() + other.value()) % field_modulus(),
    {
        FieldElement { be_bytes: ark_add(&self.be_bytes, &other.be_bytes) }
    }

    /// The difference in the field.
    pub fn minus(&self, other: &FieldElement) -> (difference: FieldElement)
        ensures
            difference.wf(),
            difference.value() == (self.value() - other.value()) % (field_modulus() as int),
    {
        FieldElement { be_bytes: ark_sub(&self.be_bytes, &other.be_bytes) }
    }

    /// The additive inverse in the field.
    pub fn negated(&self) -> (inverse: FieldElement)
        ensures
            inverse.wf(),
            inverse.value() == (-(self.value() as int)) % (field_modulus() as int),
    {
        FieldElement { be_bytes: ark_neg(&self.be_bytes) }
    }

    /// Whether two elements stand for the same number.
    pub fn equals(&self, other: &FieldElement) -> (same: bool)
        ensures
            same == (self.value() == other.value()),
            same == (*self == *other),
    {
        let mut i: usize = 0;
        while i < 32
            invariant
                i <= 32,
                forall|j: int| 0 <= j < i ==> self.be_bytes[j] == other.be_bytes[j],
            decreases 32 - i,
        {
            if self.be_bytes[i] != other.be_bytes[i] {
                proof {
                    if self.value() == other.value() {
                        lemma_be_value_injective(self.be_bytes@, other.be_bytes@);
                    }
                }
                return false;
            }
            i += 1;
        }
        assert(self.be_bytes@ =~= other.be_bytes@);
        assert(self.be_bytes == other.be_bytes);
        true
    }

    /// The canonical bytes, most significant first.
    pub fn to_be_bytes(&self) -> (bytes: [u8; 32])
        ensures
            bytes == self.be_bytes,
            be_value(bytes@) == self.value(),
    {
        self.be_bytes
    }
}

/// Reads 32 bytes, most significant first, and reduces the number modulo the
/// field order. Never fails.
pub fn fr_from_be(bytes: &[u8; 32]) -> (element: FieldElement)
    ensures
        element.wf(),
        element.value() == be_value(bytes@) % field_modulus(),
{
    FieldElement { be_bytes: ark_reduce_be(bytes.as_slice()) }
}

/// Reads 32 bytes, least significant first, and reduces the number modulo the
/// field order. Never fails.
pub fn fr_from_le(bytes: &[u8; 32]) -> (element: FieldElement)
    ensures
        element.wf(),
        element.value() == le_value(bytes@) % field_modulus(),
{
    FieldElement { be_bytes: ark_reduce_le(bytes.as_slice()) }
}

/// Reading the big-endian bytes of a field element gives the element back:
/// whatever `fr_from_be` returns for the bytes of `element` is `element`.
pub proof fn law_field_round_trip(element: FieldElement, read: FieldElement)
    requires
        element.wf(),
        read.value() == be_value(element.be_bytes@) % field_modulus(),
    ensures
        read == element,
{
    lemma_be_value_injective(read.be_bytes@, element.be_bytes@);
    assert(read.be_bytes == element.be_bytes);
}

} // verus!
