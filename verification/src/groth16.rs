//! Groth16 verification over BN254.
//!
//! The group operations and the pairing are those of `solana_bn254`. What they
//! return is named here, and the verifier's result is stated over those names.
use vstd::prelude::*;
use solana_bn254::prelude::{
    alt_bn128_g1_addition_be, alt_bn128_g1_multiplication_be, alt_bn128_pairing_be,
};
use crate::codec::{
    extend_with, in_field, lemma_be_value_order, lemma_modulus_bytes, rows, FIELD_MODULUS_BE,
};
use crate::errors::Groth16Error;

verus! {

/// What `alt_bn128_g1_multiplication_be` returns for `input`, a G1 point
/// followed by a scalar, all big-endian; `None` where it reports an error.
pub uninterp spec fn g1_multiplication(input: Seq<u8>) -> Option<Seq<u8>>;

/// What `alt_bn128_g1_addition_be` returns for `input`, two G1 points, all
/// big-endian; `None` where it reports an error.
pub uninterp spec fn g1_addition(input: Seq<u8>) -> Option<Seq<u8>>;

/// What `alt_bn128_pairing_be` returns for `input`, pairs of a G1 and a G2
/// point, all big-endian; `None` where it reports an error.
pub uninterp spec fn pairing_check(input: Seq<u8>) -> Option<Seq<u8>>;

/// The bytes of an optional buffer.
pub open spec fn bytes_of(output: Option<Vec<u8>>) -> Option<Seq<u8>> {
    match output {
        Some(bytes) => Some(bytes@),
        None => None,
    }
}

/// `alt_bn128_g1_multiplication_be` of `solana_bn254`: the product of a G1
/// point and a scalar, or nothing where the crate reports an error.
#[verifier::external_body]
fn bn254_g1_multiplication(input: &[u8]) -> (output: Option<Vec<u8>>)
    ensures
        bytes_of(output) == g1_multiplication(input@),
{
    alt_bn128_g1_multiplication_be(input).ok()
}

/// `alt_bn128_g1_addition_be` of `solana_bn254`: the sum of two G1 points, or
/// nothing where the crate reports an error.
#[verifier::external_body]
fn bn254_g1_addition(input: &[u8]) -> (output: Option<Vec<u8>>)
    ensures
        bytes_of(output) == g1_addition(input@),
{
    alt_bn128_g1_addition_be(input).ok()
}

/// `alt_bn128_pairing_be` of `solana_bn254`: 32 bytes that spell one where the
/// product of the pairings is the identity and zero where it is not, or
/// nothing where the crate reports an error.
#[verifier::external_body]
fn bn254_pairing(input: &[u8]) -> (output: Option<Vec<u8>>)
    ensures
        bytes_of(output) == pairing_check(input@),
{
    alt_bn128_pairing_be(input).ok()
}

/// True iff `bytes`, read as a big-endian integer, is strictly below the order
/// of the BN254 scalar field.
pub fn is_less_than_bn254_field_size_be(bytes: &[u8; 32]) -> (less: bool)
    ensures
        less == in_field(bytes@),
{
    let modulus = FIELD_MODULUS_BE;
    let mut i: usize = 0;
    while i < 32
        invariant
            i <= 32,
            modulus == FIELD_MODULUS_BE,
            forall|j: int| 0 <= j < i ==> bytes[j] == modulus[j],
        decreases 32 - i,
    {
        if bytes[i] < modulus[i] {
            proof {
                lemma_modulus_bytes();
                lemma_be_value_order(bytes@, modulus@, i as int);
            }
            return true;
        }
        if bytes[i] > modulus[i] {
            proof {
                lemma_modulus_bytes();
                lemma_be_value_order(modulus@, bytes@, i as int);
            }
            return false;
        }
        i += 1;
    }
    proof {
        lemma_modulus_bytes();
        assert(bytes@ =~= modulus@);
    }
    false
}


/// A Groth16 verifying key: the points alpha, beta, gamma and delta, and one
/// point of `vk_ic` for the constant term and for each public input. All
/// points are uncompressed and big-endian.
#[derive(Clone, Copy, Debug)]
pub struct Groth16Verifyingkey<'a> {
    pub nr_pubinputs: usize,
    pub vk_alpha_g1: [u8; 64],
    pub vk_beta_g2: [u8; 128],
    pub vk_gamme_g2: [u8; 128],
    pub vk_delta_g2: [u8; 128],
    pub vk_ic: &'a [[u8; 64]],
}

/// What a verifying key holds, as byte strings.
pub struct KeyModel {
    pub alpha_g1: Seq<u8>,
    pub beta_g2: Seq<u8>,
    pub gamma_g2: Seq<u8>,
    pub delta_g2: Seq<u8>,
    pub ic: Seq<Seq<u8>>,
}

impl<'a> View for Groth16Verifyingkey<'a> {
    type V = KeyModel;

    open spec fn view(&self) -> KeyModel {
        KeyModel {
            alpha_g1: self.vk_alpha_g1@,
            beta_g2: self.vk_beta_g2@,
            gamma_g2: self.vk_gamme_g2@,
            delta_g2: self.vk_delta_g2@,
            ic: rows(self.vk_ic@),
        }
    }
}

/// One verification: a proof, its public inputs and the key to hold it to.
pub struct ProofModel {
    pub proof_a: Seq<u8>,
    pub proof_b: Seq<u8>,
    pub proof_c: Seq<u8>,
    pub public_inputs: Seq<Seq<u8>>,
    pub key: KeyModel,
}

/// A buffer that came back from a group operation, where it is a G1 point.
pub open spec fn as_g1_point(output: Option<Seq<u8>>) -> Option<Seq<u8>> {
    match output {
        Some(bytes) => if bytes.len() == 64 {
            Some(bytes)
        } else {
            None
        },
        None => None,
    }
}

/// The point `ic[0] + inputs[0] * ic[1] + ... + inputs[count - 1] * ic[count]`,
/// taken one input at a time, or `None` where a group operation fails.
pub open spec fn prepared_inputs(ic: Seq<Seq<u8>>, inputs: Seq<Seq<u8>>, count: nat) -> Option<
    Seq<u8>,
>
    decreases count,
{
    if count == 0 {
        Some(ic[0])
    } else {
        match prepared_inputs(ic, inputs, (count - 1) as nat) {
            None => None,
            Some(sum) => match as_g1_point(g1_multiplication(ic[count as int] + inputs[count - 1])) {
                None => None,
                Some(term) => as_g1_point(g1_addition(term + sum)),
            },
        }
    }
}

/// The four pairs that the pairing is asked about: `(proof_a, proof_b)`,
/// `(prepared, gamma)`, `(proof_c, delta)` and `(alpha, beta)`.
pub open spec fn pairing_input(proof: ProofModel, prepared: Seq<u8>) -> Seq<u8> {
    proof.proof_a + proof.proof_b + prepared + proof.key.gamma_g2 + proof.proof_c
        + proof.key.delta_g2 + proof.key.alpha_g1 + proof.key.beta_g2
}

/// Whether what the pairing returned says that the product is the identity.
pub open spec fn pairing_accepts(output: Option<Seq<u8>>) -> bool {
    match output {
        Some(bytes) => bytes.len() == 32 && bytes[31] == 1,
        None => false,
    }
}

/// Whether every public input is below the field order.
pub open spec fn inputs_in_field(inputs: Seq<Seq<u8>>) -> bool {
    forall|i: int| 0 <= i < inputs.len() ==> in_field(#[trigger] inputs[i])
}

/// Whether the pairing equation holds for `proof`: the key has one point more
/// than there are public inputs, every group operation succeeds, and the
/// pairing returns one.
pub open spec fn equation_holds(proof: ProofModel) -> bool {
    &&& proof.key.ic.len() == proof.public_inputs.len() + 1
    &&& match prepared_inputs(proof.key.ic, proof.public_inputs, proof.public_inputs.len()) {
        Some(prepared) => pairing_accepts(pairing_check(pairing_input(proof, prepared))),
        None => false,
    }
}

/// The result of verifying without the bounds check on the public inputs.
pub open spec fn unchecked_verdict(proof: ProofModel) -> Result<(), Groth16Error> {
    if equation_holds(proof) {
        Ok(())
    } else {
        Err(Groth16Error::ProofVerificationFailed)
    }
}

/// The result of verifying: a public input that is not below the field order
/// is refused before anything else is looked at.
pub open spec fn checked_verdict(proof: ProofModel) -> Result<(), Groth16Error> {
    if !inputs_in_field(proof.public_inputs) {
        Err(Groth16Error::PublicInputGreaterThanFieldSize)
    } else {
        unchecked_verdict(proof)
    }
}

/// Takes what a group operation returned and hands out the G1 point in it:
/// the 64 bytes, or nothing where the operation failed or returned another
/// number of bytes.
pub fn g1_point_from_output(output: Option<Vec<u8>>) -> (point: Option<[u8; 64]>)
    ensures
        match point {
            Some(bytes) => as_g1_point(bytes_of(output)) == Some(bytes@),
            None => as_g1_point(bytes_of(output)) is None,
        },
{
    match output {
        Some(bytes) => {
            if bytes.len() != 64 {
                return None;
            }
            let mut point = [0u8; 64];
            let mut i: usize = 0;
            while i < 64
                invariant
                    i <= 64,
                    bytes.len() == 64,
                    forall|j: int| 0 <= j < i ==> point[j] == bytes[j],
                decreases 64 - i,
            {
                point[i] = bytes[i];
                i += 1;
            }
            assert(point@ =~= bytes@);
            Some(point)
        },
        None => None,
    }
}

/// Takes what the pairing returned and decides: the proof holds iff 32 bytes
/// came back and the last of them is one.
pub fn pairing_verdict(output: &Option<Vec<u8>>) -> (verdict: Result<(), Groth16Error>)
    ensures
        verdict == if pairing_accepts(bytes_of(*output)) {
            Ok::<(), Groth16Error>(())
        } else {
            Err(Groth16Error::ProofVerificationFailed)
        },
{
    match output {
        Some(bytes) => {
            if bytes.len() == 32 && bytes[31] == 1 {
                Ok(())
            } else {
                Err(Groth16Error::ProofVerificationFailed)
            }
        },
        None => Err(Groth16Error::ProofVerificationFailed),
    }
}

/// A Groth16 verifier for one proof with `NR_INPUTS` public inputs.
///
/// `proof_a` is taken as it stands into the pairing: the caller hands in the
/// negated point `-A`.
#[derive(Debug)]
pub struct Groth16Verifier<'a, const NR_INPUTS: usize> {
    proof_a: &'a [u8; 64],
    proof_b: &'a [u8; 128],
    proof_c: &'a [u8; 64],
    public_inputs: &'a [[u8; 32]; NR_INPUTS],
    prepared_public_inputs: [u8; 64],
    verifyingkey: &'a Groth16Verifyingkey<'a>,
}

/// The verification that a proof, its inputs and a key make up.
pub open spec fn proof_model<const NR_INPUTS: usize>(
    proof_a: &[u8; 64],
    proof_b: &[u8; 128],
    proof_c: &[u8; 64],
    public_inputs: &[[u8; 32]; NR_INPUTS],
    verifyingkey: &Groth16Verifyingkey,
) -> ProofModel {
    ProofModel {
        proof_a: proof_a@,
        proof_b: proof_b@,
        proof_c: proof_c@,
        public_inputs: rows(public_inputs@),
        key: verifyingkey@,
    }
}

impl<'a, const NR_INPUTS: usize> View for Groth16Verifier<'a, NR_INPUTS> {
    type V = ProofModel;

    closed spec fn view(&self) -> ProofModel {
        proof_model(
            self.proof_a,
            self.proof_b,
            self.proof_c,
            self.public_inputs,
            self.verifyingkey,
        )
    }
}

impl<'a, const NR_INPUTS: usize> Groth16Verifier<'a, NR_INPUTS> {
    /// Sets up the verification of one proof. The key must hold one point
    /// more than there are public inputs.
    pub fn new(
        proof_a: &'a [u8; 64],
        proof_b: &'a [u8; 128],
        proof_c: &'a [u8; 64],
        public_inputs: &'a [[u8; 32]; NR_INPUTS],
        verifyingkey: &'a Groth16Verifyingkey<'a>,
    ) -> (verifier: Result<Groth16Verifier<'a, NR_INPUTS>, Groth16Error>)
        ensures
            match verifier {
                Ok(v) => verifyingkey.vk_ic@.len() == NR_INPUTS + 1 && v@ == proof_model(
                    proof_a,
                    proof_b,
                    proof_c,
                    public_inputs,
                    verifyingkey,
                ),
                Err(e) => verifyingkey.vk_ic@.len() != NR_INPUTS + 1 && e
                    == Groth16Error::ProofVerificationFailed,
            },
    {
        let points = verifyingkey.vk_ic.len();
        if NR_INPUTS == usize::MAX || points != NR_INPUTS + 1 {
            return Err(Groth16Error::ProofVerificationFailed);
        }
        Ok(
            Groth16Verifier {
                proof_a,
                proof_b,
                proof_c,
                public_inputs,
                prepared_public_inputs: [0u8; 64],
                verifyingkey,
            },
        )
    }

    /// Whether every public input is below the field order.
    fn public_inputs_in_field(&self) -> (all: bool)
        ensures
            all == inputs_in_field(self@.public_inputs),
    {
        let mut i: usize = 0;
        while i < NR_INPUTS
            invariant
                i <= NR_INPUTS,
                forall|j: int| 0 <= j < i ==> in_field(#[trigger] rows(self.public_inputs@)[j]),
            decreases NR_INPUTS - i,
        {
            if !is_less_than_bn254_field_size_be(&self.public_inputs[i]) {
                assert(!in_field(rows(self.public_inputs@)[i as int]));
                return false;
            }
            i += 1;
        }
        true
    }

    /// Adds up the public inputs' share of the key into
    /// `prepared_public_inputs`. The key must have the right number of points.
    fn prepare_inputs(&mut self) -> (done: bool)
        requires
            old(self)@.key.ic.len() == NR_INPUTS + 1,
        ensures
            final(self)@ == old(self)@,
            match prepared_inputs(old(self)@.key.ic, old(self)@.public_inputs, NR_INPUTS as nat) {
                Some(prepared) => done && final(self).prepared_public_inputs@ == prepared,
                None => !done,
            },
    {
        let ghost ic = self@.key.ic;
        let ghost inputs = self@.public_inputs;
        let mut prepared: [u8; 64] = self.verifyingkey.vk_ic[0];
        let mut i: usize = 0;
        while i < NR_INPUTS
            invariant
                i <= NR_INPUTS,
                self@.key.ic == ic,
                self@.public_inputs == inputs,
                ic.len() == NR_INPUTS + 1,
                inputs.len() == NR_INPUTS,
                self@ == old(self)@,
                prepared_inputs(ic, inputs, i as nat) == Some(prepared@),
            decreases NR_INPUTS - i,
        {
            let mut factors: Vec<u8> = Vec::new();
            extend_with(&mut factors, self.verifyingkey.vk_ic[i + 1].as_slice());
            extend_with(&mut factors, self.public_inputs[i].as_slice());
            assert(factors@ =~= ic[i + 1] + inputs[i as int]);
            let term = match g1_point_from_output(bn254_g1_multiplication(factors.as_slice())) {
                Some(term) => term,
                None => {
                    proof {
                        lemma_prepared_inputs_fails(ic, inputs, (i + 1) as nat, NR_INPUTS as nat);
                    }
                    return false;
                },
            };
            let mut terms: Vec<u8> = Vec::new();
            extend_with(&mut terms, term.as_slice());
            extend_with(&mut terms, prepared.as_slice());
            assert(terms@ =~= term@ + prepared@);
            prepared = match g1_point_from_output(bn254_g1_addition(terms.as_slice())) {
                Some(sum) => sum,
                None => {
                    proof {
                        lemma_prepared_inputs_fails(ic, inputs, (i + 1) as nat, NR_INPUTS as nat);
                    }
                    return false;
                },
            };
            i += 1;
        }
        self.prepared_public_inputs = prepared;
        true
    }

    /// Verifies the proof without looking at the size of the public inputs:
    /// `Ok` iff the pairing equation holds, `ProofVerificationFailed` for
    /// every other outcome.
    pub fn verify_unchecked(&mut self) -> (verdict: Result<(), Groth16Error>)
        ensures
            verdict == unchecked_verdict(old(self)@),
            final(self)@ == old(self)@,
    {
        let points = self.verifyingkey.vk_ic.len();
        if NR_INPUTS == usize::MAX || points != NR_INPUTS + 1 {
            return Err(Groth16Error::ProofVerificationFailed);
        }
        if !self.prepare_inputs() {
            return Err(Groth16Error::ProofVerificationFailed);
        }
        let mut pairs: Vec<u8> = Vec::new();
        extend_with(&mut pairs, self.proof_a.as_slice());
        extend_with(&mut pairs, self.proof_b.as_slice());
        extend_with(&mut pairs, self.prepared_public_inputs.as_slice());
        extend_with(&mut pairs, self.verifyingkey.vk_gamme_g2.as_slice());
        extend_with(&mut pairs, self.proof_c.as_slice());
        extend_with(&mut pairs, self.verifyingkey.vk_delta_g2.as_slice());
        extend_with(&mut pairs, self.verifyingkey.vk_alpha_g1.as_slice());
        extend_with(&mut pairs, self.verifyingkey.vk_beta_g2.as_slice());
        assert(pairs@ =~= pairing_input(self@, self.prepared_public_inputs@));
        pairing_verdict(&bn254_pairing(pairs.as_slice()))
    }

    /// Verifies the proof. A public input that is not below the field order
    /// gives `PublicInputGreaterThanFieldSize`; after that the result is that
    /// of `verify_unchecked`.
    pub fn verify(&mut self) -> (verdict: Result<(), Groth16Error>)
        ensures
            verdict == checked_verdict(old(self)@),
            final(self)@ == old(self)@,
    {
        if !self.public_inputs_in_field() {
            return Err(Groth16Error::PublicInputGreaterThanFieldSize);
        }
        self.verify_unchecked()
    }
}

/// Once the sum has failed at some input it has failed for good.
proof fn lemma_prepared_inputs_fails(ic: Seq<Seq<u8>>, inputs: Seq<Seq<u8>>, at: nat, count: nat)
    requires
        at <= count,
        prepared_inputs(ic, inputs, at) is None,
    ensures
        prepared_inputs(ic, inputs, count) is None,
    decreases count - at,
{
    if at < count {
        lemma_prepared_inputs_fails(ic, inputs, at, (count - 1) as nat);
    }
}

} // verus!
