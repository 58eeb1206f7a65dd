//! Groth16 verification over BN254: construction, preparation of the public
//! inputs, and the pairing check.
use crate::arith::{
    be_nat, fr_modulus, lemma_be_nat_swapped, lemma_moduli_bytes, lt_le, FR_MODULUS_LE,
};
use crate::curve::{
    g1_add, g1_decodes, g1_is_valid, g1_mul, g1_scaled, g1_sum, g2_decodes, g2_is_valid,
    pairing_check, pairing_product_is_one,
};
use crate::endian::{append_range, swap_chunks, swap_whole_chunks};
use vstd::prelude::*;

verus! {

/// Why a proof was not accepted.
#[derive(Clone, Copy, Debug, PartialEq, Eq, Structural)]
pub enum Groth16Error {
    /// The verifying key is not sized for the number of public inputs.
    IncompatibleVerifyingKeyWithNrPublicInputs,
    /// The pairing check ran and the proof is not valid.
    ProofVerificationFailed,
    /// Adding up the weighted key points failed.
    PreparingInputsG1AdditionFailed,
    /// Weighting a key point by a public input failed.
    PreparingInputsG1MulFailed,
    /// A G1 block is not 64 bytes.
    InvalidG1Length,
    /// A G2 block is not 128 bytes.
    InvalidG2Length,
    /// There are not as many public inputs as the verifier is built for.
    InvalidPublicInputsLength,
    /// A G1 block is not a point of the group.
    DecompressingG1Failed,
    /// A G2 block is not a point of the group.
    DecompressingG2Failed,
    /// A public input is not below the scalar field modulus.
    PublicInputGreaterThenFieldSize,
    /// A step was called out of order: preparing the inputs other than from
    /// `Constructed`, or verifying other than from `InputsPrepared` with
    /// prepared inputs of 64 bytes.
    InvalidVerifierState,
}

/// A verifying key, every point in the canonical big-endian layout.
pub struct Groth16Verifyingkey {
    pub vk_alpha_g1: [u8; 64],
    pub vk_beta_g2: [u8; 128],
    pub vk_gamme_g2: [u8; 128],
    pub vk_delta_g2: [u8; 128],
    /// One point more than there are public inputs.
    pub vk_ic: Vec<[u8; 64]>,
}

/// Where a verifier stands.
#[derive(Clone, Copy, Debug, PartialEq, Eq, Structural)]
pub enum VerifierState {
    Constructed,
    InputsPrepared,
    Verified,
    Failed,
}

/// One verification of one proof. It goes from `Constructed` to
/// `InputsPrepared` to `Verified` or `Failed`; `prepare_inputs` and `verify`
/// each require the state before them, so neither runs twice.
pub struct Groth16Verifier<'a> {
    pub proof_a: &'a [u8],
    pub proof_b: &'a [u8],
    pub proof_c: &'a [u8],
    pub public_inputs: &'a [[u8; 32]],
    pub nr_inputs: usize,
    pub verifyingkey: &'a Groth16Verifyingkey,
    /// The prepared inputs, in the little-endian encoding the curve crate reads.
    pub prepared_public_inputs: Vec<u8>,
    pub state: VerifierState,
}

/// The little-endian encoding of a canonical G1 block.
pub open spec fn g1_le_of(be: Seq<u8>) -> Seq<u8> {
    swap_chunks(be, 32)
}

/// The little-endian encoding of a canonical G2 block.
pub open spec fn g2_le_of(be: Seq<u8>) -> Seq<u8> {
    swap_chunks(be, 64)
}

/// Whether a 32-byte big-endian scalar is below the scalar field modulus.
pub open spec fn scalar_in_field(limbs: Seq<u8>) -> bool {
    be_nat(limbs) < fr_modulus()
}

/// The views of the public inputs.
pub open spec fn inputs_view(inputs: Seq<[u8; 32]>) -> Seq<Seq<u8>> {
    inputs.map_values(|x: [u8; 32]| x@)
}

/// The views of the key's points `gamma_abc`.
pub open spec fn ic_view(ic: Seq<[u8; 64]>) -> Seq<Seq<u8>> {
    ic.map_values(|x: [u8; 64]| x@)
}

/// The checks of construction, in order: the block lengths, the number of
/// inputs and the key's size, each input's range, then each block's point.
pub open spec fn construction(
    a: Seq<u8>,
    b: Seq<u8>,
    c: Seq<u8>,
    inputs: Seq<Seq<u8>>,
    n: nat,
    ic_len: nat,
) -> Result<(), Groth16Error> {
    if a.len() != 64 {
        Err(Groth16Error::InvalidG1Length)
    } else if b.len() != 128 {
        Err(Groth16Error::InvalidG2Length)
    } else if c.len() != 64 {
        Err(Groth16Error::InvalidG1Length)
    } else if inputs.len() != n {
        Err(Groth16Error::InvalidPublicInputsLength)
    } else if ic_len != n + 1 {
        Err(Groth16Error::IncompatibleVerifyingKeyWithNrPublicInputs)
    } else if exists|i: int| 0 <= i < inputs.len() && !scalar_in_field(#[trigger] inputs[i]) {
        Err(Groth16Error::PublicInputGreaterThenFieldSize)
    } else if !g1_decodes(g1_le_of(a)) {
        Err(Groth16Error::DecompressingG1Failed)
    } else if !g2_decodes(g2_le_of(b)) {
        Err(Groth16Error::DecompressingG2Failed)
    } else if !g1_decodes(g1_le_of(c)) {
        Err(Groth16Error::DecompressingG1Failed)
    } else {
        Ok(())
    }
}

/// gamma_abc[0] plus the first `n` public inputs times gamma_abc[1..=n], in
/// the little-endian encoding, or the first failure.
pub open spec fn prepared_inputs(ic: Seq<Seq<u8>>, inputs: Seq<Seq<u8>>, n: nat) -> Result<
    Seq<u8>,
    Groth16Error,
>
    decreases n,
{
    if n == 0 {
        Ok(g1_le_of(ic[0]))
    } else {
        match prepared_inputs(ic, inputs, (n - 1) as nat) {
            Err(e) => Err(e),
            Ok(acc) => match g1_scaled(g1_le_of(ic[n as int]), swap_chunks(inputs[n - 1], 32)) {
                None => Err(Groth16Error::PreparingInputsG1MulFailed),
                Some(m) => match g1_sum(m, acc) {
                    None => Err(Groth16Error::PreparingInputsG1AdditionFailed),
                    Some(s) => Ok(s),
                },
            },
        }
    }
}

/// The G1 side of the pairing product: -A, the prepared inputs, C, alpha.
pub open spec fn pairing_g1s(a: Seq<u8>, prepared: Seq<u8>, c: Seq<u8>, alpha: Seq<u8>) -> Seq<u8> {
    g1_le_of(a) + prepared + g1_le_of(c) + g1_le_of(alpha)
}

/// The G2 side of the pairing product: B, gamma, delta, beta.
pub open spec fn pairing_g2s(b: Seq<u8>, gamma: Seq<u8>, delta: Seq<u8>, beta: Seq<u8>) -> Seq<u8> {
    g2_le_of(b) + g2_le_of(gamma) + g2_le_of(delta) + g2_le_of(beta)
}

/// Checks that a 32-byte big-endian scalar is below the scalar field modulus.
pub fn scalar_is_valid(limbs: &[u8; 32]) -> (r: bool)
    ensures
        r == scalar_in_field(limbs@),
{
    let le = swap_whole_chunks(limbs.as_slice(), 32);
    proof {
        lemma_be_nat_swapped(limbs@);
        lemma_moduli_bytes();
    }
    let modulus = FR_MODULUS_LE.as_slice();
    assert(modulus@ == FR_MODULUS_LE@);
    lt_le(le.as_slice(), modulus)
}


/// What verifying a proof gives: construction, then preparation of the
/// inputs, then the pairing check.
pub open spec fn verification_outcome(
    a: Seq<u8>,
    b: Seq<u8>,
    c: Seq<u8>,
    inputs: Seq<Seq<u8>>,
    n: nat,
    vk: &Groth16Verifyingkey,
) -> Result<(), Groth16Error> {
    match construction(a, b, c, inputs, n, vk.vk_ic@.len()) {
        Err(e) => Err(e),
        Ok(()) => match prepared_inputs(ic_view(vk.vk_ic@), inputs, n) {
            Err(e) => Err(e),
            Ok(p) => if pairing_product_is_one(
                pairing_g1s(a, p, c, vk.vk_alpha_g1@),
                pairing_g2s(b, vk.vk_gamme_g2@, vk.vk_delta_g2@, vk.vk_beta_g2@),
            ) == Some(true) {
                Ok(())
            } else {
                Err(Groth16Error::ProofVerificationFailed)
            },
        },
    }
}

/// Once preparing the inputs has failed, it stays failed with the same error.
pub proof fn lemma_prepared_error_persists(ic: Seq<Seq<u8>>, inputs: Seq<Seq<u8>>, k: nat, m: nat)
    requires
        k <= m,
        prepared_inputs(ic, inputs, k) is Err,
    ensures
        prepared_inputs(ic, inputs, m) == prepared_inputs(ic, inputs, k),
    decreases m,
{
    if m > k {
        lemma_prepared_error_persists(ic, inputs, k, (m - 1) as nat);
    }
}

/// gamma_abc[0] plus the sum of each public input times the key point that
/// follows it, in the little-endian encoding.
fn accumulate_inputs(ic: &Vec<[u8; 64]>, inputs: &[[u8; 32]], n: usize) -> (r: Result<
    Vec<u8>,
    Groth16Error,
>)
    requires
        n == inputs@.len(),
        ic@.len() == n + 1,
    ensures
        match prepared_inputs(ic_view(ic@), inputs_view(inputs@), n as nat) {
            Ok(p) => r matches Ok(v) && v@ == p,
            Err(e) => r is Err && r->Err_0 == e,
        },
        r matches Ok(v) ==> v@.len() == 64,
{
    let ghost icv = ic_view(ic@);
    let ghost inv = inputs_view(inputs@);
    let mut acc = swap_whole_chunks(ic[0].as_slice(), 32);
    let mut i: usize = 0;
    while i < n
        invariant
            i <= n,
            n == inputs@.len(),
            ic@.len() == n + 1,
            icv == ic_view(ic@),
            inv == inputs_view(inputs@),
            prepared_inputs(icv, inv, i as nat) == Ok::<Seq<u8>, Groth16Error>(acc@),
            acc@.len() == 64,
        decreases n - i,
    {
        let point = swap_whole_chunks(ic[i + 1].as_slice(), 32);
        let scalar = swap_whole_chunks(inputs[i].as_slice(), 32);
        assert(icv[i + 1] == ic@[i + 1]@);
        assert(inv[i as int] == inputs@[i as int]@);
        let m = match g1_mul(point.as_slice(), scalar.as_slice()) {
            Some(m) => m,
            None => {
                proof {
                    lemma_prepared_error_persists(icv, inv, (i + 1) as nat, n as nat);
                }
                return Err(Groth16Error::PreparingInputsG1MulFailed);
            },
        };
        acc = match g1_add(m.as_slice(), acc.as_slice()) {
            Some(s) => s,
            None => {
                proof {
                    lemma_prepared_error_persists(icv, inv, (i + 1) as nat, n as nat);
                }
                return Err(Groth16Error::PreparingInputsG1AdditionFailed);
            },
        };
        i += 1;
    }
    Ok(acc)
}

impl<'a> Groth16Verifier<'a> {
    /// Whether construction accepted what the verifier holds.
    pub open spec fn wf(&self) -> bool {
        construction(
            self.proof_a@,
            self.proof_b@,
            self.proof_c@,
            inputs_view(self.public_inputs@),
            self.nr_inputs as nat,
            self.verifyingkey.vk_ic@.len(),
        ) is Ok
    }

    /// Whether two verifiers hold the same proof, inputs and key.
    pub open spec fn same_request(&self, other: &Self) -> bool {
        &&& self.proof_a == other.proof_a
        &&& self.proof_b == other.proof_b
        &&& self.proof_c == other.proof_c
        &&& self.public_inputs == other.public_inputs
        &&& self.nr_inputs == other.nr_inputs
        &&& self.verifyingkey == other.verifyingkey
    }

    /// Checks the proof blocks, the inputs and the key against each other,
    /// for a verifier built for `nr_inputs` public inputs.
    pub fn new(
        proof_a: &'a [u8],
        proof_b: &'a [u8],
        proof_c: &'a [u8],
        public_inputs: &'a [[u8; 32]],
        nr_inputs: usize,
        verifyingkey: &'a Groth16Verifyingkey,
    ) -> (r: Result<Self, Groth16Error>)
        ensures
            match construction(
                proof_a@,
                proof_b@,
                proof_c@,
                inputs_view(public_inputs@),
                nr_inputs as nat,
                verifyingkey.vk_ic@.len(),
            ) {
                Ok(()) => r matches Ok(v) && {
                    &&& v.proof_a == proof_a
                    &&& v.proof_b == proof_b
                    &&& v.proof_c == proof_c
                    &&& v.public_inputs == public_inputs
                    &&& v.nr_inputs == nr_inputs
                    &&& v.verifyingkey == verifyingkey
                    &&& v.state == VerifierState::Constructed
                    &&& v.wf()
                },
                Err(e) => r is Err && r->Err_0 == e,
            },
    {
        if proof_a.len() != 64 {
            return Err(Groth16Error::InvalidG1Length);
        }
        if proof_b.len() != 128 {
            return Err(Groth16Error::InvalidG2Length);
        }
        if proof_c.len() != 64 {
            return Err(Groth16Error::InvalidG1Length);
        }
        if public_inputs.len() != nr_inputs {
            return Err(Groth16Error::InvalidPublicInputsLength);
        }
        if verifyingkey.vk_ic.len() == 0 || verifyingkey.vk_ic.len() - 1 != nr_inputs {
            return Err(Groth16Error::IncompatibleVerifyingKeyWithNrPublicInputs);
        }
        let ghost inputs = inputs_view(public_inputs@);
        let mut i: usize = 0;
        while i < public_inputs.len()
            invariant
                i <= public_inputs@.len(),
                proof_a@.len() == 64,
                proof_b@.len() == 128,
                proof_c@.len() == 64,
                public_inputs@.len() == nr_inputs,
                verifyingkey.vk_ic@.len() == nr_inputs + 1,
                inputs == inputs_view(public_inputs@),
                forall|j: int| 0 <= j < i ==> scalar_in_field(#[trigger] inputs[j]),
            decreases public_inputs@.len() - i,
        {
            if !scalar_is_valid(&public_inputs[i]) {
                assert(!scalar_in_field(inputs[i as int]));
                return Err(Groth16Error::PublicInputGreaterThenFieldSize);
            }
            i += 1;
        }
        assert(!exists|j: int| 0 <= j < inputs.len() && !scalar_in_field(#[trigger] inputs[j]));
        let a_le = swap_whole_chunks(proof_a, 32);
        if !g1_is_valid(a_le.as_slice()) {
            return Err(Groth16Error::DecompressingG1Failed);
        }
        let b_le = swap_whole_chunks(proof_b, 64);
        if !g2_is_valid(b_le.as_slice()) {
            return Err(Groth16Error::DecompressingG2Failed);
        }
        let c_le = swap_whole_chunks(proof_c, 32);
        if !g1_is_valid(c_le.as_slice()) {
            return Err(Groth16Error::DecompressingG1Failed);
        }
        Ok(
            Groth16Verifier {
                proof_a,
                proof_b,
                proof_c,
                public_inputs,
                nr_inputs,
                verifyingkey,
                prepared_public_inputs: Vec::new(),
                state: VerifierState::Constructed,
            },
        )
    }

    /// Computes gamma_abc[0] plus the sum of each public input times the
    /// key point that follows, once, from the state `Constructed`.
    pub fn prepare_inputs(&mut self) -> (r: Result<(), Groth16Error>)
        requires
            old(self).wf(),
        ensures
            final(self).same_request(old(self)),
            final(self).wf(),
            old(self).state != VerifierState::Constructed ==> r == Err::<(), Groth16Error>(
                Groth16Error::InvalidVerifierState,
            ) && *final(self) == *old(self),
            old(self).state == VerifierState::Constructed ==> match prepared_inputs(
                ic_view(old(self).verifyingkey.vk_ic@),
                inputs_view(old(self).public_inputs@),
                old(self).nr_inputs as nat,
            ) {
                Ok(p) => {
                    &&& r is Ok
                    &&& final(self).prepared_public_inputs@ == p
                    &&& final(self).prepared_public_inputs@.len() == 64
                    &&& final(self).state == VerifierState::InputsPrepared
                },
                Err(e) => r == Err::<(), Groth16Error>(e) && final(self).state
                    == VerifierState::Failed,
            },
    {
        if self.state != VerifierState::Constructed {
            return Err(Groth16Error::InvalidVerifierState);
        }
        match accumulate_inputs(&self.verifyingkey.vk_ic, self.public_inputs, self.nr_inputs) {
            Ok(p) => {
                self.prepared_public_inputs = p;
                self.state = VerifierState::InputsPrepared;
                Ok(())
            },
            Err(e) => {
                self.state = VerifierState::Failed;
                Err(e)
            },
        }
    }

    /// Runs the pairing check, once, from the state `InputsPrepared`. Block A
    /// holds the proof's A already negated, so the proof is accepted exactly
    /// when the product of e(-A, B), e(prepared, gamma), e(C, delta) and
    /// e(alpha, beta) is one.
    pub fn verify(&mut self) -> (r: Result<(), Groth16Error>)
        requires
            old(self).wf(),
        ensures
            final(self).same_request(old(self)),
            final(self).wf(),
            final(self).prepared_public_inputs == old(self).prepared_public_inputs,
            !(old(self).state == VerifierState::InputsPrepared
                && old(self).prepared_public_inputs@.len() == 64) ==> r == Err::<(), Groth16Error>(
                Groth16Error::InvalidVerifierState,
            ) && *final(self) == *old(self),
            old(self).state == VerifierState::InputsPrepared
                && old(self).prepared_public_inputs@.len() == 64 ==> ({
                let vk = old(self).verifyingkey;
                let accepted = pairing_product_is_one(
                    pairing_g1s(
                        old(self).proof_a@,
                        old(self).prepared_public_inputs@,
                        old(self).proof_c@,
                        vk.vk_alpha_g1@,
                    ),
                    pairing_g2s(
                        old(self).proof_b@,
                        vk.vk_gamme_g2@,
                        vk.vk_delta_g2@,
                        vk.vk_beta_g2@,
                    ),
                ) == Some(true);
                if accepted {
                    r == Ok::<(), Groth16Error>(()) && final(self).state == VerifierState::Verified
                } else {
                    r == Err::<(), Groth16Error>(Groth16Error::ProofVerificationFailed)
                        && final(self).state == VerifierState::Failed
                }
            }),
    {
        if self.state != VerifierState::InputsPrepared || self.prepared_public_inputs.len() != 64 {
            return Err(Groth16Error::InvalidVerifierState);
        }
        let vk = self.verifyingkey;
        let mut g1s = swap_whole_chunks(self.proof_a, 32);
        append_range(
            &mut g1s,
            self.prepared_public_inputs.as_slice(),
            0,
            self.prepared_public_inputs.len(),
        );
        let c_le = swap_whole_chunks(self.proof_c, 32);
        append_range(&mut g1s, c_le.as_slice(), 0, 64);
        let alpha_le = swap_whole_chunks(vk.vk_alpha_g1.as_slice(), 32);
        append_range(&mut g1s, alpha_le.as_slice(), 0, 64);
        let mut g2s = swap_whole_chunks(self.proof_b, 64);
        let gamma_le = swap_whole_chunks(vk.vk_gamme_g2.as_slice(), 64);
        append_range(&mut g2s, gamma_le.as_slice(), 0, 128);
        let delta_le = swap_whole_chunks(vk.vk_delta_g2.as_slice(), 64);
        append_range(&mut g2s, delta_le.as_slice(), 0, 128);
        let beta_le = swap_whole_chunks(vk.vk_beta_g2.as_slice(), 64);
        append_range(&mut g2s, beta_le.as_slice(), 0, 128);
        proof {
            assert(self.prepared_public_inputs@.subrange(0, self.prepared_public_inputs@.len() as int)
                =~= self.prepared_public_inputs@);
            assert(c_le@.subrange(0, 64) =~= c_le@);
            assert(alpha_le@.subrange(0, 64) =~= alpha_le@);
            assert(gamma_le@.subrange(0, 128) =~= gamma_le@);
            assert(delta_le@.subrange(0, 128) =~= delta_le@);
            assert(beta_le@.subrange(0, 128) =~= beta_le@);
        }
        if pairing_check(g1s.as_slice(), g2s.as_slice()) == Some(true) {
            self.state = VerifierState::Verified;
            Ok(())
        } else {
            self.state = VerifierState::Failed;
            Err(Groth16Error::ProofVerificationFailed)
        }
    }
}

/// Verifies a proof given as its three canonical blocks against public
/// inputs and a key, with a verifier built for `nr_inputs` inputs: new, then
/// prepare_inputs, then verify.
pub fn verify_proof(
    proof_a: &[u8],
    proof_b: &[u8],
    proof_c: &[u8],
    public_inputs: &[[u8; 32]],
    nr_inputs: usize,
    verifyingkey: &Groth16Verifyingkey,
) -> (r: Result<(), Groth16Error>)
    ensures
        r == verification_outcome(
            proof_a@,
            proof_b@,
            proof_c@,
            inputs_view(public_inputs@),
            nr_inputs as nat,
            verifyingkey,
        ),
{
    let mut verifier = match Groth16Verifier::new(
        proof_a,
        proof_b,
        proof_c,
        public_inputs,
        nr_inputs,
        verifyingkey,
    ) {
        Ok(v) => v,
        Err(e) => return Err(e),
    };
    match verifier.prepare_inputs() {
        Ok(()) => {},
        Err(e) => return Err(e),
    }
    verifier.verify()
}

/// Verifying the same proof against the same inputs and key twice gives the
/// same outcome: the outcome depends on nothing else.
pub proof fn lemma_verification_deterministic(
    a: Seq<u8>,
    b: Seq<u8>,
    c: Seq<u8>,
    inputs: Seq<Seq<u8>>,
    n: nat,
    vk: &Groth16Verifyingkey,
    first: Result<(), Groth16Error>,
    second: Result<(), Groth16Error>,
)
    requires
        first == verification_outcome(a, b, c, inputs, n, vk),
        second == verification_outcome(a, b, c, inputs, n, vk),
    ensures
        first == second,
{
}

/// A block A of 63 or 65 bytes fails construction with a length error,
/// whatever else is given, so no block is decoded.
pub proof fn lemma_g1_length_guard(
    a: Seq<u8>,
    b: Seq<u8>,
    c: Seq<u8>,
    inputs: Seq<Seq<u8>>,
    n: nat,
    ic_len: nat,
)
    requires
        a.len() == 63 || a.len() == 65,
    ensures
        construction(a, b, c, inputs, n, ic_len) == Err::<(), Groth16Error>(
            Groth16Error::InvalidG1Length,
        ),
{
}

/// The largest scalar below the modulus is accepted; the modulus itself is not.
pub proof fn lemma_field_bound(below: Seq<u8>, at: Seq<u8>)
    requires
        be_nat(below) == fr_modulus() - 1,
        be_nat(at) == fr_modulus(),
    ensures
        scalar_in_field(below),
        !scalar_in_field(at),
{
}

/// A public input equal to the modulus makes construction fail with the
/// range error once the blocks and the key have the right sizes.
pub proof fn lemma_field_bound_rejected(
    a: Seq<u8>,
    b: Seq<u8>,
    c: Seq<u8>,
    inputs: Seq<Seq<u8>>,
    n: nat,
    ic_len: nat,
    k: int,
)
    requires
        a.len() == 64,
        b.len() == 128,
        c.len() == 64,
        inputs.len() == n,
        ic_len == n + 1,
        0 <= k < n,
        be_nat(inputs[k]) == fr_modulus(),
    ensures
        construction(a, b, c, inputs, n, ic_len) == Err::<(), Groth16Error>(
            Groth16Error::PublicInputGreaterThenFieldSize,
        ),
{
    assert(!scalar_in_field(inputs[k]));
}

/// A key made for two public inputs, used by a verifier built for one,
/// fails construction with the key-size error.
pub proof fn lemma_key_for_other_input_count(
    a: Seq<u8>,
    b: Seq<u8>,
    c: Seq<u8>,
    inputs: Seq<Seq<u8>>,
)
    requires
        a.len() == 64,
        b.len() == 128,
        c.len() == 64,
        inputs.len() == 1,
    ensures
        construction(a, b, c, inputs, 1, 3) == Err::<(), Groth16Error>(
            Groth16Error::IncompatibleVerifyingKeyWithNrPublicInputs,
        ),
{
}

} // verus!
