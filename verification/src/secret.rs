//! Wormhole secrets: proof-of-work validation, burn address, nullifiers.
//!
//! A secret is an opaque byte string. It is valid when the SHA-256 of the
//! proof-of-work salt followed by the secret ends in three zero bytes —
//! equivalently, when that digest read as a big-endian 256-bit integer is
//! divisible by 2^24. From a valid secret the depositor derives the burn
//! address (where the deposit is sent) and one nullifier per withdrawal.

use vstd::prelude::*;

use crate::hash::{sha256, sha256_of};
use crate::u256::{le_bytes, U256};

verus! {

/// The salt byte for deriving the burn address.
pub const MAGIC_ADDRESS: u8 = 0xfe;

/// The salt byte for deriving nullifiers.
pub const MAGIC_NULLIFIER: u8 = 0x01;

/// The salt byte for the proof-of-work condition on the secret.
pub const MAGIC_POW: u8 = 0x02;

/// How many low bits of the proof-of-work hash must be zero.
pub const POW_LOG_DIFFICULTY: u8 = 24;

/// The SHA-256 digest that the proof-of-work condition constrains.
pub open spec fn pow_hash_of(secret: Seq<u8>) -> Seq<u8> {
    sha256_of(seq![MAGIC_POW] + secret)
}

/// A secret is valid when the low 24 bits of its proof-of-work hash are
/// zero: the last three of its 32 bytes.
pub open spec fn valid_secret(secret: Seq<u8>) -> bool {
    let h = pow_hash_of(secret);
    h.len() == 32 && h[29] == 0 && h[30] == 0 && h[31] == 0
}

/// The burn address derived from a secret: the low 20 bytes of the SHA-256
/// of the address salt followed by the secret.
pub open spec fn burn_address_of(secret: Seq<u8>) -> Seq<u8> {
    sha256_of(seq![MAGIC_ADDRESS] + secret).subrange(12, 32)
}

/// The nullifier for a secret at a withdrawal index: the SHA-256 of the
/// nullifier salt, the secret, and the 32-byte little-endian index.
pub open spec fn nullifier_of(secret: Seq<u8>, index: U256) -> Seq<u8> {
    sha256_of(seq![MAGIC_NULLIFIER] + secret + le_bytes(index))
}

/// The secret preimage for a burn address.
#[derive(Clone, Debug, PartialEq, Eq, Hash)]
pub struct WormholeSecret {
    bytes: Vec<u8>,
}

impl View for WormholeSecret {
    type V = Seq<u8>;

    closed spec fn view(&self) -> Seq<u8> {
        self.bytes@
    }
}

impl WormholeSecret {
    /// Wrap bytes as a secret without checking the proof-of-work.
    pub fn new_unchecked(bytes: Vec<u8>) -> (r: WormholeSecret)
        ensures
            r@ == bytes@,
    {
        WormholeSecret { bytes }
    }

    /// Wrap bytes as a secret; `Ok` exactly when the proof-of-work holds.
    /// The rejected secret is handed back unchanged.
    pub fn try_new(bytes: Vec<u8>) -> (r: Result<WormholeSecret, WormholeSecret>)
        ensures
            valid_secret(bytes@) ==> (r matches Ok(s) && s@ == bytes@),
            !valid_secret(bytes@) ==> (r matches Err(s) && s@ == bytes@),
    {
        let secret = WormholeSecret { bytes };
        if secret.is_valid() {
            Ok(secret)
        } else {
            Err(secret)
        }
    }

    /// The wrapped bytes.
    pub fn as_bytes(&self) -> (r: &Vec<u8>)
        ensures
            r@ == self@,
    {
        &self.bytes
    }

    /// Whether the proof-of-work condition holds of this secret.
    pub fn is_valid(&self) -> (r: bool)
        ensures
            r <==> valid_secret(self@),
    {
        is_valid_wormhole_secret(&self.bytes)
    }

    /// The proof-of-work hash of this secret:
    /// `SHA256(MAGIC_POW ‖ secret)`.
    pub fn proof_of_work_hash(&self) -> (r: Vec<u8>)
        ensures
            r@ == pow_hash_of(self@),
            r@.len() == 32,
    {
        proof_of_work_secret_hash(&self.bytes)
    }

    /// The burn address of this secret:
    /// `SHA256(MAGIC_ADDRESS ‖ secret)[12..32]`.
    pub fn burn_address(&self) -> (r: Vec<u8>)
        ensures
            r@ == burn_address_of(self@),
            r@.len() == 20,
    {
        let mut preimage: Vec<u8> = Vec::new();
        preimage.push(MAGIC_ADDRESS);
        crate::bytes::push_all(&mut preimage, &self.bytes);
        proof {
            assert(preimage@ =~= seq![MAGIC_ADDRESS] + self@);
        }
        let digest = sha256(&preimage);
        crate::bytes::copy_range(&digest, 12, 32)
    }

    /// The nullifier of this secret at a withdrawal index:
    /// `SHA256(MAGIC_NULLIFIER ‖ secret ‖ LE32(index))`.
    pub fn nullifier(&self, index: U256) -> (r: Vec<u8>)
        ensures
            r@ == nullifier_of(self@, index),
            r@.len() == 32,
    {
        let mut preimage: Vec<u8> = Vec::new();
        preimage.push(MAGIC_NULLIFIER);
        crate::bytes::push_all(&mut preimage, &self.bytes);
        let index_le = index.to_le_bytes();
        crate::bytes::push_all(&mut preimage, &index_le);
        proof {
            assert(preimage@ =~= seq![MAGIC_NULLIFIER] + self@ + le_bytes(index));
        }
        sha256(&preimage)
    }

    /// Mine a valid secret from 32-byte random draws. `None` when the
    /// randomness source fails or the draws are exhausted.
    pub fn try_random() -> (r: Option<WormholeSecret>)
        ensures
            r matches Some(s) ==> valid_secret(s@) && s@.len() == 32,
    {
        let mut attempts: u64 = 0;
        while attempts < u64::MAX
            invariant
                true,
            decreases u64::MAX - attempts,
        {
            let bytes = match random_bytes32() {
                Some(b) => b,
                None => {
                    return None;
                },
            };
            if is_valid_wormhole_secret(&bytes) {
                return Some(WormholeSecret { bytes });
            }
            attempts = attempts + 1;
        }
        None
    }
}

/// The proof-of-work hash of a secret: `SHA256(MAGIC_POW ‖ secret)`.
pub fn proof_of_work_secret_hash(secret: &Vec<u8>) -> (r: Vec<u8>)
    ensures
        r@ == pow_hash_of(secret@),
        r@.len() == 32,
{
    let mut preimage: Vec<u8> = Vec::new();
    preimage.push(MAGIC_POW);
    crate::bytes::push_all(&mut preimage, secret);
    proof {
        assert(preimage@ =~= seq![MAGIC_POW] + secret@);
    }
    sha256(&preimage)
}

/// Whether the proof-of-work condition holds of a secret: the last three
/// bytes of `SHA256(MAGIC_POW ‖ secret)` are zero.
pub fn is_valid_wormhole_secret(secret: &Vec<u8>) -> (r: bool)
    ensures
        r <==> valid_secret(secret@),
{
    let h = proof_of_work_secret_hash(secret);
    h[29] == 0 && h[30] == 0 && h[31] == 0
}

/// Relies on getrandom: 32 bytes from the operating system's randomness
/// source, or `None` when that source reports failure. Nothing is assumed
/// about the bytes themselves.
#[verifier::external_body]
fn random_bytes32() -> (r: Option<Vec<u8>>)
    ensures
        r matches Some(b) ==> b@.len() == 32,
{
    let mut bytes = vec![0u8; 32];
    match getrandom::getrandom(&mut bytes) {
        Ok(()) => Some(bytes),
        Err(_) => None,
    }
}

} // verus!
