//! Verifier core for Wormhole, a privacy-preserving Ether transfer scheme.
//!
//! A depositor burns Ether by sending it to an address derived from a secret;
//! a later withdrawal proves, against a committed Ethereum state root, that
//! the burn account holds the claimed balance, that the amount withdrawn so
//! far leaves room for this withdrawal, and that a fresh nullifier is being
//! committed. The whole argument is a pure function from a structured input
//! to a structured output, verified here: 256-bit amount arithmetic, the
//! proof-of-work secret with its derived addresses and nullifiers, a
//! canonical RLP codec, a Merkle-Patricia trie proof verifier, and the
//! executor that strings them together.

pub mod bytes;
pub mod command;
pub mod executor;
pub mod hash;
pub mod json;
pub mod mpt;
pub mod rlp;
pub mod secret;
pub mod u256;
