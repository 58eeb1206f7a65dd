//! The verification that the program runs for its one instruction.
use crate::groth16::{
    inputs_view, verification_outcome, verify_proof, Groth16Error, Groth16Verifyingkey,
};
use vstd::prelude::*;

verus! {

/// The number of public inputs of the program's circuit.
pub const NR_PUBLIC_INPUTS: usize = 1;

/// Errors of the program itself.
#[derive(Clone, Copy, Debug, PartialEq, Eq, Structural)]
pub enum ZkFactorError {
    PoolLocked,
}

/// The instruction's data: a proof as three canonical blocks.
pub struct InitializeInput {
    pub proof_a: [u8; 64],
    pub proof_b: [u8; 128],
    pub proof_c: [u8; 64],
}

/// Verifies the instruction's proof against the circuit's public inputs and
/// verifying key, with a verifier built for the circuit's input count.
pub fn initialize(
    input: &InitializeInput,
    public_inputs: &[[u8; 32]],
    verifyingkey: &Groth16Verifyingkey,
) -> (r: Result<(), Groth16Error>)
    ensures
        r == verification_outcome(
            input.proof_a@,
            input.proof_b@,
            input.proof_c@,
            inputs_view(public_inputs@),
            NR_PUBLIC_INPUTS as nat,
            verifyingkey,
        ),
{
    verify_proof(
        input.proof_a.as_slice(),
        input.proof_b.as_slice(),
        input.proof_c.as_slice(),
        public_inputs,
        NR_PUBLIC_INPUTS,
        verifyingkey,
    )
}

} // verus!
