//! Byte strings read as integers, and the order of the BN254 scalar field.
use vstd::prelude::*;

verus! {

/// The integer that `bytes` spell with the most significant byte first.
pub open spec fn be_value(bytes: Seq<u8>) -> nat
    decreases bytes.len(),
{
    if bytes.len() == 0 {
        0
    } else {
        be_value(bytes.drop_last()) * 256 + bytes.last() as nat
    }
}

/// The integer that `bytes` spell with the least significant byte first.
pub open spec fn le_value(bytes: Seq<u8>) -> nat {
    be_value(bytes.reverse())
}

/// The order of the BN254 scalar field.
pub open spec fn field_modulus() -> nat {
    0x30644e72e131a029b85045b68181585d2833e84879b9709143e1f593f0000001nat
}

/// Whether `bytes`, most significant byte first, spell a number below the
/// order of the scalar field.
pub open spec fn in_field(bytes: Seq<u8>) -> bool {
    be_value(bytes) < field_modulus()
}

/// The order of the scalar field, most significant byte first.
pub const FIELD_MODULUS_BE: [u8; 32] = [
    48, 100, 78, 114, 225, 49, 160, 41, 184, 80, 69, 182, 129, 129, 88, 93,
    40, 51, 232, 72, 121, 185, 112, 145, 67, 225, 245, 147, 240, 0, 0, 1,
];

/// Reading one byte more multiplies what was read by 256 and adds the byte.
pub proof fn lemma_be_value_step(bytes: Seq<u8>, k: int)
    requires
        0 <= k < bytes.len(),
    ensures
        be_value(bytes.take(k + 1)) == be_value(bytes.take(k)) * 256 + bytes[k] as nat,
{
    assert(bytes.take(k + 1).drop_last() =~= bytes.take(k));
}

/// Of two byte strings of one length, the one with the smaller byte at the
/// first place where they differ spells the smaller number.
pub proof fn lemma_be_value_order(a: Seq<u8>, b: Seq<u8>, i: int)
    requires
        a.len() == b.len(),
        0 <= i < a.len(),
        forall|j: int| 0 <= j < i ==> a[j] == b[j],
        a[i] < b[i],
    ensures
        be_value(a) < be_value(b),
    decreases a.len(),
{
    let a0 = a.drop_last();
    let b0 = b.drop_last();
    if i == a.len() - 1 {
        assert(a0 =~= b0);
    } else {
        lemma_be_value_order(a0, b0, i);
    }
}

/// Two byte strings of one length that spell the same number are equal.
pub proof fn lemma_be_value_injective(a: Seq<u8>, b: Seq<u8>)
    requires
        a.len() == b.len(),
        be_value(a) == be_value(b),
    ensures
        a == b,
    decreases a.len(),
{
    if a.len() > 0 {
        lemma_be_value_injective(a.drop_last(), b.drop_last());
        assert(a =~= a.drop_last().push(a.last()));
        assert(b =~= b.drop_last().push(b.last()));
    } else {
        assert(a =~= b);
    }
}

/// The bytes of `FIELD_MODULUS_BE` spell the order of the scalar field.
pub proof fn lemma_modulus_bytes()
    ensures
        be_value(FIELD_MODULUS_BE@) == field_modulus(),
{
    let m = FIELD_MODULUS_BE@;
    assert(m.take(0).len() == 0);
    lemma_be_value_step(m, 0);
    lemma_be_value_step(m, 1);
    lemma_be_value_step(m, 2);
    lemma_be_value_step(m, 3);
    lemma_be_value_step(m, 4);
    lemma_be_value_step(m, 5);
    lemma_be_value_step(m, 6);
    lemma_be_value_step(m, 7);
    assert(be_value(m.take(8)) == 0x30644e72e131a029);
    lemma_be_value_step(m, 8);
    lemma_be_value_step(m, 9);
    lemma_be_value_step(m, 10);
    lemma_be_value_step(m, 11);
    lemma_be_value_step(m, 12);
    lemma_be_value_step(m, 13);
    lemma_be_value_step(m, 14);
    lemma_be_value_step(m, 15);
    assert(be_value(m.take(16)) == 0x30644e72e131a029b85045b68181585dnat);
    lemma_be_value_step(m, 16);
    lemma_be_value_step(m, 17);
    lemma_be_value_step(m, 18);
    lemma_be_value_step(m, 19);
    lemma_be_value_step(m, 20);
    lemma_be_value_step(m, 21);
    lemma_be_value_step(m, 22);
    lemma_be_value_step(m, 23);
    assert(be_value(m.take(24)) == 0x30644e72e131a029b85045b68181585d2833e84879b97091nat);
    lemma_be_value_step(m, 24);
    lemma_be_value_step(m, 25);
    lemma_be_value_step(m, 26);
    lemma_be_value_step(m, 27);
    lemma_be_value_step(m, 28);
    lemma_be_value_step(m, 29);
    lemma_be_value_step(m, 30);
    lemma_be_value_step(m, 31);
    assert(m.take(32) =~= m);
}

} // verus!

verus! {

/// A table of fixed-width rows as a sequence of byte strings.
pub open spec fn rows<const N: usize>(table: Seq<[u8; N]>) -> Seq<Seq<u8>> {
    Seq::new(table.len(), |i: int| table[i]@)
}

/// Appends `bytes` to `buffer`.
pub fn extend_with(buffer: &mut Vec<u8>, bytes: &[u8])
    ensures
        final(buffer)@ == old(buffer)@ + bytes@,
{
    let mut i: usize = 0;
    while i < bytes.len()
        invariant
            i <= bytes.len(),
            buffer@ == old(buffer)@ + bytes@.take(i as int),
        decreases bytes.len() - i,
    {
        buffer.push(bytes[i]);
        i += 1;
        assert(buffer@ =~= old(buffer)@ + bytes@.take(i as int));
    }
    assert(bytes@.take(bytes.len() as int) =~= bytes@);
}

/// Whether two byte strings are the same.
pub fn same_bytes(a: &[u8], b: &[u8]) -> (same: bool)
    ensures
        same == (a@ == b@),
{
    if a.len() != b.len() {
        return false;
    }
    let mut i: usize = 0;
    while i < a.len()
        invariant
            a.len() == b.len(),
            i <= a.len(),
            forall|j: int| 0 <= j < i ==> a[j] == b[j],
        decreases a.len() - i,
    {
        if a[i] != b[i] {
            return false;
        }
        i += 1;
    }
    assert(a@ =~= b@);
    true
}

} // verus!
