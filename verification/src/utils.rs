//! The checks that a transaction has to pass, one function for each.
use vstd::prelude::*;
use std::ops::Neg;
use ark_bn254::G1Affine;
use ark_serialize::{CanonicalDeserialize, CanonicalSerialize, Compress, Validate};
use crate::codec::{be_value, extend_with, field_modulus, rows};
use crate::errors::{EncodingError, ErrorCode};
use crate::field::{fr_from_be, FieldElement};
use crate::groth16::{
    bytes_of, checked_verdict, equation_holds, g1_point_from_output, Groth16Verifier,
    Groth16Verifyingkey, KeyModel, ProofModel,
};
use crate::state::Proof;

verus! {

/// Where the byte at place `i` of a string of `len` bytes comes from when
/// every chunk of 32 bytes, and the shorter rest, is reversed.
pub open spec fn mirrored(i: int, len: int) -> int {
    let start = i - i % 32;
    let end = if len - start > 32 {
        start + 32
    } else {
        len
    };
    start + end - 1 - i
}

/// `bytes` with every chunk of 32 bytes reversed; a rest that is shorter than
/// 32 bytes is reversed as one last chunk.
pub open spec fn endianness_changed(bytes: Seq<u8>) -> Seq<u8> {
    Seq::new(bytes.len(), |i: int| bytes[mirrored(i, bytes.len() as int)])
}

/// Reverses every chunk of 32 bytes; a rest that is shorter than 32 bytes is
/// reversed as one last chunk.
pub fn change_endianness(bytes: &[u8]) -> (changed: Vec<u8>)
    ensures
        changed@ == endianness_changed(bytes@),
{
    let mut changed: Vec<u8> = Vec::new();
    let mut start: usize = 0;
    while start < bytes.len()
        invariant
            start <= bytes.len(),
            start % 32 == 0 || start == bytes.len(),
            changed@ == endianness_changed(bytes@).take(start as int),
        decreases bytes.len() - start,
    {
        let end = if bytes.len() - start > 32 {
            start + 32
        } else {
            bytes.len()
        };
        let mut i: usize = end;
        while i > start
            invariant
                start <= i <= end <= bytes.len(),
                start % 32 == 0,
                end == if bytes.len() - start > 32 {
                    start + 32
                } else {
                    bytes.len() as int
                },
                changed@ == endianness_changed(bytes@).take(start + (end - i)),
            decreases i,
        {
            i -= 1;
            changed.push(bytes[i]);
            proof {
                let place = start + (end - 1 - i);
                assert(place - place % 32 == start);
                assert(mirrored(place, bytes.len() as int) == i);
                assert(changed@ =~= endianness_changed(bytes@).take(place + 1));
            }
        }
        start = end;
    }
    assert(endianness_changed(bytes@).take(bytes.len() as int) =~= endianness_changed(bytes@));
    changed
}

/// Changing the byte order twice gives the bytes back.
pub proof fn law_change_endianness_twice(bytes: Seq<u8>)
    ensures
        endianness_changed(endianness_changed(bytes)) == bytes,
{
    let once = endianness_changed(bytes);
    let len = bytes.len() as int;
    assert forall|i: int| 0 <= i < len implies endianness_changed(once)[i] == bytes[i] by {
        let j = mirrored(i, len);
        assert(j - j % 32 == i - i % 32);
        assert(mirrored(j, len) == i);
    }
    assert(endianness_changed(once) =~= bytes);
}

/// The public amount that a proof has to carry for `ext_amount` and `fee`:
/// the amount less the fee, as an element of the scalar field. For a
/// withdrawal, where the amount is negative, this is the additive inverse of
/// what leaves the pool.
pub open spec fn expected_public_amount(ext_amount: int, fee: int) -> int {
    (ext_amount - fee) % (field_modulus() as int)
}

/// Whether `public_amount`, a big-endian field element, is the public amount
/// of `ext_amount` and `fee`. An amount from zero up must be larger than the
/// fee, and the smallest 64-bit integer is no amount.
pub open spec fn public_amount_matches(ext_amount: int, fee: int, public_amount: Seq<u8>) -> bool {
    &&& ext_amount != i64::MIN
    &&& ext_amount >= 0 ==> fee < ext_amount
    &&& expected_public_amount(ext_amount, fee) == be_value(public_amount) % field_modulus()
}

/// Checks the public amount of a proof against the external amount and fee.
pub fn check_public_amount(ext_amount: i64, fee: u64, public_amount_bytes: [u8; 32]) -> (matches: bool)
    ensures
        matches == public_amount_matches(ext_amount as int, fee as int, public_amount_bytes@),
{
    if ext_amount == i64::MIN {
        return false;
    }
    let fee_element = FieldElement::from_u64(fee);
    let expected = if ext_amount >= 0 {
        let deposit = ext_amount as u64;
        if fee >= deposit {
            return false;
        }
        FieldElement::from_u64(deposit).minus(&fee_element)
    } else {
        let withdrawal = (-ext_amount) as u64;
        let leaving = FieldElement::from_u64(withdrawal).plus(&fee_element);
        assert(leaving.value() == withdrawal + fee);
        leaving.negated()
    };
    let provided = fr_from_be(&public_amount_bytes);
    expected.equals(&provided)
}

/// The least fee that is accepted for `ext_amount`: the fee at `rate` basis
/// points, rounded down, less the margin of `margin` basis points, rounded
/// down again.
pub open spec fn minimum_fee(ext_amount: int, rate: int, margin: int) -> int {
    let amount = if ext_amount >= 0 {
        ext_amount
    } else {
        -ext_amount
    };
    let expected = amount * rate / 10_000;
    expected * (10_000 - margin) / 10_000
}

/// Whether working out the least fee leaves the range of 64-bit numbers.
pub open spec fn fee_overflows(ext_amount: int, rate: int, margin: int) -> bool {
    let amount = if ext_amount >= 0 {
        ext_amount
    } else {
        -ext_amount
    };
    ||| ext_amount == i64::MIN
    ||| amount * rate > u64::MAX
    ||| margin > 10_000
}

/// The rate that applies to `ext_amount`: that of deposits for an amount from
/// zero up, that of withdrawals below.
pub open spec fn applicable_rate(ext_amount: int, deposit_fee_rate: int, withdrawal_fee_rate: int) -> int {
    if ext_amount >= 0 {
        deposit_fee_rate
    } else {
        withdrawal_fee_rate
    }
}

/// What the fee policy says of a transaction.
pub open spec fn fee_verdict(
    ext_amount: int,
    provided_fee: int,
    deposit_fee_rate: int,
    withdrawal_fee_rate: int,
    fee_error_margin: int,
) -> Result<(), ErrorCode> {
    let rate = applicable_rate(ext_amount, deposit_fee_rate, withdrawal_fee_rate);
    if ext_amount == 0 {
        Ok(())
    } else if fee_overflows(ext_amount, rate, fee_error_margin) {
        Err(ErrorCode::ArithmeticOverflow)
    } else if provided_fee < minimum_fee(ext_amount, rate, fee_error_margin) {
        Err(ErrorCode::InvalidFeeAmount)
    } else {
        Ok(())
    }
}

/// Holds the fee of a transaction to the policy. An amount of zero passes
/// whatever the fee.
pub fn validate_fee(
    ext_amount: i64,
    provided_fee: u64,
    deposit_fee_rate: u16,
    withdrawal_fee_rate: u16,
    fee_error_margin: u16,
) -> (verdict: Result<(), ErrorCode>)
    ensures
        verdict == fee_verdict(
            ext_amount as int,
            provided_fee as int,
            deposit_fee_rate as int,
            withdrawal_fee_rate as int,
            fee_error_margin as int,
        ),
{
    if ext_amount == 0 {
        return Ok(());
    }
    if ext_amount == i64::MIN {
        return Err(ErrorCode::ArithmeticOverflow);
    }
    let (amount, rate): (u64, u16) = if ext_amount > 0 {
        (ext_amount as u64, deposit_fee_rate)
    } else {
        ((-ext_amount) as u64, withdrawal_fee_rate)
    };
    let scaled = match amount.checked_mul(rate as u64) {
        Some(scaled) => scaled,
        None => {
            return Err(ErrorCode::ArithmeticOverflow);
        },
    };
    let expected: u64 = scaled / 10_000;
    let share: u64 = match 10_000u64.checked_sub(fee_error_margin as u64) {
        Some(share) => share,
        None => {
            return Err(ErrorCode::ArithmeticOverflow);
        },
    };
    assert(expected * share <= scaled) by (nonlinear_arith)
        requires
            expected == scaled / 10_000,
            share <= 10_000,
            scaled >= 0,
            share >= 0,
    ;
    let minimum: u64 = expected * share / 10_000;
    if provided_fee < minimum {
        return Err(ErrorCode::InvalidFeeAmount);
    }
    Ok(())
}

/// What `solana_sha256_hasher::hash` returns for `data`: its SHA-256 digest.
pub uninterp spec fn sha256(data: Seq<u8>) -> Seq<u8>;

/// `solana_sha256_hasher::hash`: the SHA-256 digest of `data`, 32 bytes.
#[verifier::external_body]
fn sha256_digest(data: &[u8]) -> (digest: [u8; 32])
    ensures
        digest@ == sha256(data@),
{
    solana_sha256_hasher::hash(data).to_bytes()
}

/// The `width` low bytes of `value`, least significant first.
pub open spec fn le_bytes(value: nat, width: nat) -> Seq<u8>
    decreases width,
{
    if width == 0 {
        Seq::empty()
    } else {
        seq![(value % 256) as u8] + le_bytes(value / 256, (width - 1) as nat)
    }
}

/// A signed 64-bit number as the unsigned number with the same bits.
pub open spec fn as_unsigned(value: int) -> nat {
    if value >= 0 {
        value as nat
    } else {
        (value + 0x1_0000_0000_0000_0000) as nat
    }
}

/// The external data of a transaction as bytes: the fields in their order,
/// integers little-endian, each encrypted output behind its length in four
/// bytes.
pub open spec fn ext_data_encoding(
    recipient: Seq<u8>,
    ext_amount: int,
    encrypted_output1: Seq<u8>,
    encrypted_output2: Seq<u8>,
    fee: nat,
    fee_recipient: Seq<u8>,
    mint_address: Seq<u8>,
) -> Seq<u8> {
    recipient + le_bytes(as_unsigned(ext_amount), 8) + le_bytes(encrypted_output1.len(), 4)
        + encrypted_output1 + le_bytes(encrypted_output2.len(), 4) + encrypted_output2 + le_bytes(
        fee,
        8,
    ) + fee_recipient + mint_address
}

/// The external data of a transaction, field by field.
pub struct ExtData {
    pub recipient: Seq<u8>,
    pub ext_amount: int,
    pub encrypted_output1: Seq<u8>,
    pub encrypted_output2: Seq<u8>,
    pub fee: nat,
    pub fee_recipient: Seq<u8>,
    pub mint_address: Seq<u8>,
}

impl ExtData {
    /// The keys have 32 bytes, the amounts are 64-bit numbers, and the length
    /// of each encrypted output fits in four bytes.
    pub open spec fn wf(self) -> bool {
        &&& self.recipient.len() == 32
        &&& self.fee_recipient.len() == 32
        &&& self.mint_address.len() == 32
        &&& i64::MIN <= self.ext_amount <= i64::MAX
        &&& self.fee <= u64::MAX
        &&& self.encrypted_output1.len() <= u32::MAX
        &&& self.encrypted_output2.len() <= u32::MAX
    }

    /// The bytes that are hashed.
    pub open spec fn encoding(self) -> Seq<u8> {
        ext_data_encoding(
            self.recipient,
            self.ext_amount,
            self.encrypted_output1,
            self.encrypted_output2,
            self.fee,
            self.fee_recipient,
            self.mint_address,
        )
    }
}

/// Appends the `width` low bytes of `value`, least significant first.
fn push_le(buffer: &mut Vec<u8>, value: u64, width: usize)
    requires
        width <= 8,
    ensures
        final(buffer)@ == old(buffer)@ + le_bytes(value as nat, width as nat),
{
    let mut rest: u64 = value;
    let mut done: usize = 0;
    while done < width
        invariant
            done <= width,
            old(buffer)@ + le_bytes(value as nat, width as nat) == buffer@ + le_bytes(
                rest as nat,
                (width - done) as nat,
            ),
        decreases width - done,
    {
        let ghost before = buffer@;
        buffer.push((rest % 256) as u8);
        proof {
            let tail = le_bytes((rest / 256) as nat, (width - done - 1) as nat);
            assert(before + (seq![(rest % 256) as u8] + tail) =~= buffer@ + tail);
        }
        rest = rest / 256;
        done += 1;
    }
    assert(buffer@ + Seq::<u8>::empty() =~= buffer@);
}

/// The SHA-256 digest of the external data, encoded as `ext_data_encoding`
/// says. An encrypted output whose length does not fit in four bytes cannot
/// be encoded.
pub fn calculate_complete_ext_data_hash(
    recipient: [u8; 32],
    ext_amount: i64,
    encrypted_output1: &[u8],
    encrypted_output2: &[u8],
    fee: u64,
    fee_recipient: [u8; 32],
    mint_address: [u8; 32],
) -> (hash: Result<[u8; 32], EncodingError>)
    ensures
        match hash {
            Ok(digest) => {
                &&& encrypted_output1@.len() <= u32::MAX
                &&& encrypted_output2@.len() <= u32::MAX
                &&& digest@ == sha256(
                    ext_data_encoding(
                        recipient@,
                        ext_amount as int,
                        encrypted_output1@,
                        encrypted_output2@,
                        fee as nat,
                        fee_recipient@,
                        mint_address@,
                    ),
                )
            },
            Err(error) => {
                &&& error == EncodingError::OutputTooLong
                &&& (encrypted_output1@.len() > u32::MAX || encrypted_output2@.len() > u32::MAX)
            },
        },
{
    if encrypted_output1.len() > 0xffff_ffff || encrypted_output2.len() > 0xffff_ffff {
        return Err(EncodingError::OutputTooLong);
    }
    let amount_bits: u64 = if ext_amount >= 0 {
        ext_amount as u64
    } else {
        ((ext_amount + 1 + i64::MAX) as u64) + 0x8000_0000_0000_0000
    };
    let mut encoded: Vec<u8> = Vec::new();
    extend_with(&mut encoded, recipient.as_slice());
    push_le(&mut encoded, amount_bits, 8);
    push_le(&mut encoded, encrypted_output1.len() as u64, 4);
    extend_with(&mut encoded, encrypted_output1);
    push_le(&mut encoded, encrypted_output2.len() as u64, 4);
    extend_with(&mut encoded, encrypted_output2);
    push_le(&mut encoded, fee, 8);
    extend_with(&mut encoded, fee_recipient.as_slice());
    extend_with(&mut encoded, mint_address.as_slice());
    assert(encoded@ =~= ext_data_encoding(
        recipient@,
        ext_amount as int,
        encrypted_output1@,
        encrypted_output2@,
        fee as nat,
        fee_recipient@,
        mint_address@,
    ));
    Ok(sha256_digest(encoded.as_slice()))
}

/// What comes back when `encoded`, an uncompressed G1 point as `ark_serialize`
/// writes it (both coordinates little-endian, then one byte of flags), is
/// read with validation, negated and written again without the flags; `None`
/// where `ark_serialize` reports an error.
pub uninterp spec fn g1_negation(encoded: Seq<u8>) -> Option<Seq<u8>>;

/// Reads a G1 point with `deserialize_with_mode` of `ark_serialize`, negates it
/// and writes its two coordinates with `serialize_with_mode`.
#[verifier::external_body]
fn ark_g1_negate(encoded: &[u8]) -> (negated: Option<Vec<u8>>)
    ensures
        bytes_of(negated) == g1_negation(encoded@),
{
    let point = G1Affine::deserialize_with_mode(encoded, Compress::No, Validate::Yes).ok()?;
    let negated = point.neg();
    let mut bytes = vec![0u8; 64];
    negated.x.serialize_with_mode(&mut bytes[..32], Compress::No).ok()?;
    negated.y.serialize_with_mode(&mut bytes[32..], Compress::No).ok()?;
    Some(bytes)
}

/// The seven public inputs of a proof, in the order of the circuit.
pub open spec fn public_inputs_of(proof: Proof) -> Seq<Seq<u8>> {
    seq![
        proof.root@,
        proof.public_amount@,
        proof.ext_data_hash@,
        proof.input_nullifiers[0]@,
        proof.input_nullifiers[1]@,
        proof.output_commitments[0]@,
        proof.output_commitments[1]@,
    ]
}

/// The point `proof_a` of a proof, negated: the bytes are taken to the byte
/// order of `ark_serialize`, read, negated, written and taken back. `None`
/// where `proof_a` is no point of the curve.
pub open spec fn negated_proof_a(proof_a: Seq<u8>) -> Option<Seq<u8>> {
    match g1_negation(endianness_changed(proof_a) + seq![0u8]) {
        Some(bytes) => if bytes.len() == 64 {
            Some(endianness_changed(bytes))
        } else {
            None
        },
        None => None,
    }
}

/// Whether `proof` holds under the key: its point `proof_a` can be negated,
/// and the verifier accepts the negated point, the rest of the proof and the
/// seven public inputs.
pub open spec fn proof_accepted(proof: Proof, key: KeyModel) -> bool {
    match negated_proof_a(proof.proof_a@) {
        Some(negated) => checked_verdict(
            ProofModel {
                proof_a: negated,
                proof_b: proof.proof_b@,
                proof_c: proof.proof_c@,
                public_inputs: public_inputs_of(proof),
                key,
            },
        ) is Ok,
        None => false,
    }
}

/// Takes what negating a point returned and hands out the point in the byte
/// order of the verifier: nothing where negating failed.
pub fn negated_point_from_output(output: Option<Vec<u8>>) -> (point: Option<[u8; 64]>)
    ensures
        match point {
            Some(bytes) => bytes_of(output) is Some && bytes_of(output)->0.len() == 64 && bytes@
                == endianness_changed(bytes_of(output)->0),
            None => bytes_of(output) is None || bytes_of(output)->0.len() != 64,
        },
{
    match output {
        Some(bytes) => {
            if bytes.len() != 64 {
                return None;
            }
            let changed = change_endianness(bytes.as_slice());
            g1_point_from_output(Some(changed))
        },
        None => None,
    }
}

/// Verifies a proof as the prover emits it: negates `proof_a` and asks the
/// verifier. Whatever the bytes are, the answer is `true` or `false`.
pub fn verify_proof(proof: Proof, verifying_key: Groth16Verifyingkey) -> (accepted: bool)
    ensures
        accepted == proof_accepted(proof, verifying_key@),
{
    let mut encoded = change_endianness(proof.proof_a.as_slice());
    encoded.push(0u8);
    assert(encoded@ =~= endianness_changed(proof.proof_a@) + seq![0u8]);
    let proof_a = match negated_point_from_output(ark_g1_negate(encoded.as_slice())) {
        Some(point) => point,
        None => {
            return false;
        },
    };
    let public_inputs: [[u8; 32]; 7] = [
        proof.root,
        proof.public_amount,
        proof.ext_data_hash,
        proof.input_nullifiers[0],
        proof.input_nullifiers[1],
        proof.output_commitments[0],
        proof.output_commitments[1],
    ];
    assert(rows(public_inputs@) =~= public_inputs_of(proof));
    let ghost model = ProofModel {
        proof_a: proof_a@,
        proof_b: proof.proof_b@,
        proof_c: proof.proof_c@,
        public_inputs: public_inputs_of(proof),
        key: verifying_key@,
    };
    assert(negated_proof_a(proof.proof_a@) == Some(proof_a@));
    let verifier = Groth16Verifier::new(
        &proof_a,
        &proof.proof_b,
        &proof.proof_c,
        &public_inputs,
        &verifying_key,
    );
    match verifier {
        Ok(mut verifier) => {
            assert(verifier@ == model);
            verifier.verify().is_ok()
        },
        Err(_) => {
            assert(!equation_holds(model));
            false
        },
    }
}

} // verus!
