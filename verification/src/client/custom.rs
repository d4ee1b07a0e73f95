//! What the virtual machine is set up with.

use vstd::prelude::*;

use crate::primitives::Address;

verus! {

/// Builds virtual machines that replay blocks.
#[derive(Debug, Default, Clone, Copy)]
pub struct CustomEvmFactory;

/// The address is a number of one byte.
pub open spec fn is_small_address(address: Address) -> bool {
    forall|i: int| 0 <= i < 19 ==> #[trigger] address@[i] == 0
}

/// The name of the precompile at an address that is a number of one byte.
pub open spec fn small_precompile_name(number: u8) -> Seq<char> {
    if number == 1 {
        "ecrecover"@
    } else if number == 2 {
        "sha256"@
    } else if number == 3 {
        "ripemd160"@
    } else if number == 4 {
        "identity"@
    } else if number == 5 {
        "modexp"@
    } else if number == 6 {
        "bn-add"@
    } else if number == 7 {
        "bn-mul"@
    } else if number == 8 {
        "bn-pair"@
    } else if number == 9 {
        "blake2f"@
    } else if number == 10 {
        "kzg-point-evaluation"@
    } else if number == 11 {
        "bls-g1add"@
    } else if number == 12 {
        "bls-g1msm"@
    } else if number == 13 {
        "bls-g2add"@
    } else if number == 14 {
        "bls-g2msm"@
    } else if number == 15 {
        "bls-pairing"@
    } else if number == 16 {
        "bls-map-fp-to-g1"@
    } else if number == 17 {
        "bls-map-fp2-to-g2"@
    } else {
        "unknown"@
    }
}

/// The name of the precompile at an address.
pub open spec fn precompile_name_of(address: Address) -> Seq<char> {
    if is_small_address(address) {
        small_precompile_name(address@[19])
    } else {
        "unknown"@
    }
}

impl CustomEvmFactory {
    /// Names the precompile at an address, for the cycle report.
    pub fn precompile_name(&self, address: &Address) -> (r: &'static str)
        ensures
            r@ == precompile_name_of(*address),
    {
        let mut i: usize = 0;
        while i < 19
            invariant
                i <= 19,
                forall|j: int| 0 <= j < i ==> #[trigger] address@[j] == 0,
            decreases 19 - i,
        {
            if address[i] != 0 {
                return "unknown";
            }
            i = i + 1;
        }
        match address[19] {
            1 => "ecrecover",
            2 => "sha256",
            3 => "ripemd160",
            4 => "identity",
            5 => "modexp",
            6 => "bn-add",
            7 => "bn-mul",
            8 => "bn-pair",
            9 => "blake2f",
            10 => "kzg-point-evaluation",
            11 => "bls-g1add",
            12 => "bls-g1msm",
            13 => "bls-g2add",
            14 => "bls-g2msm",
            15 => "bls-pairing",
            16 => "bls-map-fp-to-g1",
            17 => "bls-map-fp2-to-g2",
            _ => "unknown",
        }
    }
}

/// The cryptography of the precompiles.
#[derive(Debug, Default, Clone, Copy)]
pub struct CustomCrypto;

/// Why a precompile failed.
#[derive(Debug)]
pub enum PrecompileError {
    /// The KZG proof does not hold.
    BlobVerifyKzgProofFailed,
    /// An argument is malformed.
    Other(String),
}

/// Whether a KZG proof holds under the trusted setup of Ethereum, or the text of the error on a
/// malformed argument.
pub uninterp spec fn kzg_verdict(
    commitment: [u8; 48],
    z: [u8; 32],
    y: [u8; 32],
    kzg_proof: [u8; 48],
) -> Result<bool, Seq<char>>;

/// Calls `kzg_rs::KzgProof::verify_kzg_proof` with the settings that
/// `kzg_rs::KzgSettings::load_trusted_setup_file` gives, which are built into the crate. The
/// verdict, or the error and its text, is a function of the four byte strings.
#[verifier::external_body]
fn kzg_verify(commitment: [u8; 48], z: [u8; 32], y: [u8; 32], kzg_proof: [u8; 48]) -> (r: Result<
    bool,
    String,
>)
    ensures
        match r {
            Ok(holds) => kzg_verdict(commitment, z, y, kzg_proof) == Ok::<bool, Seq<char>>(holds),
            Err(message) => kzg_verdict(commitment, z, y, kzg_proof) == Err::<bool, Seq<char>>(
                message@,
            ),
        },
{
    let settings = kzg_rs::KzgSettings::load_trusted_setup_file().map_err(|e| e.to_string())?;
    kzg_rs::KzgProof::verify_kzg_proof(
        &kzg_rs::Bytes48(commitment),
        &kzg_rs::Bytes32(z),
        &kzg_rs::Bytes32(y),
        &kzg_rs::Bytes48(kzg_proof),
        &settings,
    ).map_err(|e| e.to_string())
}

/// Turns the verdict on a KZG proof into the result of the precompile.
pub fn kzg_result(verdict: Result<bool, String>) -> (r: Result<(), PrecompileError>)
    ensures
        match (r, verdict) {
            (Ok(()), Ok(holds)) => holds,
            (Err(PrecompileError::BlobVerifyKzgProofFailed), Ok(holds)) => !holds,
            (Err(PrecompileError::Other(message)), Err(reason)) => message == reason,
            _ => false,
        },
{
    match verdict {
        Ok(true) => Ok(()),
        Ok(false) => Err(PrecompileError::BlobVerifyKzgProofFailed),
        Err(message) => Err(PrecompileError::Other(message)),
    }
}

impl CustomCrypto {
    /// Verifies a KZG proof.
    pub fn verify_kzg_proof(
        &self,
        z: &[u8; 32],
        y: &[u8; 32],
        commitment: &[u8; 48],
        kzg_proof: &[u8; 48],
    ) -> (r: Result<(), PrecompileError>)
        ensures
            match (r, kzg_verdict(*commitment, *z, *y, *kzg_proof)) {
                (Ok(()), Ok(holds)) => holds,
                (Err(PrecompileError::BlobVerifyKzgProofFailed), Ok(holds)) => !holds,
                (Err(PrecompileError::Other(message)), Err(reason)) => message@ == reason,
                _ => false,
            },
    {
        kzg_result(kzg_verify(*commitment, *z, *y, *kzg_proof))
    }
}

/// The precompiles stand at the addresses from one on, in this order of their names. At any other
/// address there is none that is known.
pub proof fn law_precompiles_in_order(address: Address)
    ensures
        ({
            let names = seq![
                "ecrecover"@,
                "sha256"@,
                "ripemd160"@,
                "identity"@,
                "modexp"@,
                "bn-add"@,
                "bn-mul"@,
                "bn-pair"@,
                "blake2f"@,
                "kzg-point-evaluation"@,
                "bls-g1add"@,
                "bls-g1msm"@,
                "bls-g2add"@,
                "bls-g2msm"@,
                "bls-pairing"@,
                "bls-map-fp-to-g1"@,
                "bls-map-fp2-to-g2"@,
            ];
            let number = address@[19] as int;
            let is_number = forall|i: int| 0 <= i < 19 ==> #[trigger] address@[i] == 0;
            precompile_name_of(address) == (if is_number && 1 <= number <= names.len() {
                names[number - 1]
            } else {
                "unknown"@
            })
        }),
{
}

} // verus!
