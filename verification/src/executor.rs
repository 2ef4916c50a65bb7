//! The withdrawal verifier: one pure function from input to output.
//!
//! The executor checks the secret's proof-of-work, the withdrawal amount
//! against the deposit and what was already withdrawn, the first-withdrawal
//! shape, and three Merkle-Patricia proofs against the committed state
//! root: the burn account with the claimed balance, the nullifier-registry
//! account, and — past the first withdrawal — the previous nullifier's
//! slot in the registry's storage trie. On success it emits the public
//! output: the echoed state root, amount and registry address, the fresh
//! nullifier, and the hash commitment to the cumulative withdrawn amount.

use vstd::prelude::*;

use crate::hash::{keccak256, keccak256_of};
use crate::mpt::{
    decode_node, empty_root, empty_root_spec, key_nibbles, nibbles_of, opt_view,
    spec_decode_node, spec_verify_proof, verify_proof, NodeModel, ProofError, TrieNode, views_of,
};
use crate::rlp::{
    decode_account, encode_account, rlp_account, rlp_encode_bytes, spec_decode_account,
    RlpError, TrieAccount, TrieAccountModel,
};
use crate::secret::{burn_address_of, nullifier_of, valid_secret, WormholeSecret};
use crate::u256::{be_bytes, pow256, U256};

verus! {

/// The Keccak-256 of the empty byte string: the code hash of an account
/// without code.
pub open spec fn keccak_empty_spec() -> Seq<u8> {
    seq![
        0xc5u8, 0xd2, 0x46, 0x01, 0x86, 0xf7, 0x23, 0x3c, 0x92, 0x7e, 0x7d, 0xb2, 0xdc, 0xc7,
        0x03, 0xc0, 0xe5, 0x00, 0xb6, 0x53, 0xca, 0x82, 0x27, 0x3b, 0x7b, 0xfa, 0xd8, 0x04, 0x5d,
        0x85, 0xa4, 0x70,
    ]
}

/// The Keccak-256 of the empty byte string, as bytes.
pub fn keccak_empty() -> (r: Vec<u8>)
    ensures
        r@ == keccak_empty_spec(),
{
    let mut r: Vec<u8> = Vec::new();
    r.push(0xc5);
    r.push(0xd2);
    r.push(0x46);
    r.push(0x01);
    r.push(0x86);
    r.push(0xf7);
    r.push(0x23);
    r.push(0x3c);
    r.push(0x92);
    r.push(0x7e);
    r.push(0x7d);
    r.push(0xb2);
    r.push(0xdc);
    r.push(0xc7);
    r.push(0x03);
    r.push(0xc0);
    r.push(0xe5);
    r.push(0x00);
    r.push(0xb6);
    r.push(0x53);
    r.push(0xca);
    r.push(0x82);
    r.push(0x27);
    r.push(0x3b);
    r.push(0x7b);
    r.push(0xfa);
    r.push(0xd8);
    r.push(0x04);
    r.push(0x5d);
    r.push(0x85);
    r.push(0xa4);
    r.push(0x70);
    proof {
        assert(r@ =~= keccak_empty_spec());
    }
    r
}

/// The input consumed by the verifier, once.
#[derive(Clone, Debug, PartialEq, Eq)]
pub struct WormholeProgramInput {
    /// The Wormhole secret.
    pub secret: WormholeSecret,
    /// The deposit (burn) amount.
    pub deposit_amount: U256,
    /// The withdraw amount.
    pub withdraw_amount: U256,
    /// The cumulative withdrawn amount before this withdrawal.
    pub cumulative_withdrawn_amount: U256,
    /// The index of the current withdrawal.
    pub withdrawal_index: U256,
    /// The state root of the block to validate against, 32 bytes.
    pub state_root: Vec<u8>,
    /// The deposit account proof.
    pub deposit_account_proof: Vec<Vec<u8>>,
    /// The address of the nullifier registry contract, 20 bytes.
    pub nullifier_address: Vec<u8>,
    /// The nullifier registry account proof.
    pub nullifier_account_proof: Vec<Vec<u8>>,
    /// The inclusion storage proof of the previous nullifier.
    /// Must be empty exactly when the withdrawal index is zero.
    pub previous_nullifier_storage_proof: Vec<Vec<u8>>,
}

/// The mathematical content of a [`WormholeProgramInput`].
#[verifier::ext_equal]
pub struct InputModel {
    /// The secret bytes.
    pub secret: Seq<u8>,
    /// The deposit (burn) amount.
    pub deposit_amount: U256,
    /// The withdraw amount.
    pub withdraw_amount: U256,
    /// The cumulative withdrawn amount before this withdrawal.
    pub cumulative_withdrawn_amount: U256,
    /// The index of the current withdrawal.
    pub withdrawal_index: U256,
    /// The state root of the block to validate against.
    pub state_root: Seq<u8>,
    /// The deposit account proof.
    pub deposit_account_proof: Seq<Seq<u8>>,
    /// The address of the nullifier registry contract.
    pub nullifier_address: Seq<u8>,
    /// The nullifier registry account proof.
    pub nullifier_account_proof: Seq<Seq<u8>>,
    /// The inclusion storage proof of the previous nullifier.
    pub previous_nullifier_storage_proof: Seq<Seq<u8>>,
}

impl View for WormholeProgramInput {
    type V = InputModel;

    open spec fn view(&self) -> InputModel {
        InputModel {
            secret: self.secret@,
            deposit_amount: self.deposit_amount,
            withdraw_amount: self.withdraw_amount,
            cumulative_withdrawn_amount: self.cumulative_withdrawn_amount,
            withdrawal_index: self.withdrawal_index,
            state_root: self.state_root@,
            deposit_account_proof: views_of(self.deposit_account_proof@),
            nullifier_address: self.nullifier_address@,
            nullifier_account_proof: views_of(self.nullifier_account_proof@),
            previous_nullifier_storage_proof: views_of(self.previous_nullifier_storage_proof@),
        }
    }
}

impl Default for WormholeProgramInput {
    /// All amounts zero, an empty secret, a zero state root and registry
    /// address, and empty proofs.
    fn default() -> (r: WormholeProgramInput)
        ensures
            r@.secret == Seq::<u8>::empty(),
            r@.deposit_amount.as_nat() == 0,
            r@.withdraw_amount.as_nat() == 0,
            r@.cumulative_withdrawn_amount.as_nat() == 0,
            r@.withdrawal_index.as_nat() == 0,
            r@.state_root == crate::rlp::zeros(32),
            r@.deposit_account_proof == Seq::<Seq<u8>>::empty(),
            r@.nullifier_address == crate::rlp::zeros(20),
            r@.nullifier_account_proof == Seq::<Seq<u8>>::empty(),
            r@.previous_nullifier_storage_proof == Seq::<Seq<u8>>::empty(),
    {
        let mut state_root: Vec<u8> = Vec::new();
        let mut i: usize = 0;
        while i < 32
            invariant
                i <= 32,
                state_root@ =~= crate::rlp::zeros(i as int),
            decreases 32 - i,
        {
            state_root.push(0);
            i = i + 1;
            proof {
                assert(state_root@ =~= crate::rlp::zeros(i as int));
            }
        }
        let mut nullifier_address: Vec<u8> = Vec::new();
        let mut j: usize = 0;
        while j < 20
            invariant
                j <= 20,
                nullifier_address@ =~= crate::rlp::zeros(j as int),
            decreases 20 - j,
        {
            nullifier_address.push(0);
            j = j + 1;
            proof {
                assert(nullifier_address@ =~= crate::rlp::zeros(j as int));
            }
        }
        let r = WormholeProgramInput {
            secret: WormholeSecret::new_unchecked(Vec::new()),
            deposit_amount: U256::zero(),
            withdraw_amount: U256::zero(),
            cumulative_withdrawn_amount: U256::zero(),
            withdrawal_index: U256::zero(),
            state_root,
            deposit_account_proof: Vec::new(),
            nullifier_address,
            nullifier_account_proof: Vec::new(),
            previous_nullifier_storage_proof: Vec::new(),
        };
        proof {
            assert(views_of(r.deposit_account_proof@) =~= Seq::<Seq<u8>>::empty());
            assert(views_of(r.nullifier_account_proof@) =~= Seq::<Seq<u8>>::empty());
            assert(views_of(r.previous_nullifier_storage_proof@) =~= Seq::<Seq<u8>>::empty());
        }
        r
    }
}

/// The public output committed by the verifier.
#[derive(Clone, Debug, PartialEq, Eq)]
pub struct WormholeProgramOutput {
    /// The address of the nullifier registry contract, echoed.
    pub nullifier_address: Vec<u8>,
    /// The state root validated against, echoed.
    pub state_root: Vec<u8>,
    /// The withdraw amount, echoed.
    pub withdraw_amount: U256,
    /// The nullifier this withdrawal commits, 32 bytes.
    pub current_nullifier: Vec<u8>,
    /// The Keccak-256 of the 32-byte big-endian cumulative withdrawn
    /// amount.
    pub cumulative_withdrawn_amount_hashed: Vec<u8>,
}

/// The mathematical content of a [`WormholeProgramOutput`].
#[verifier::ext_equal]
pub struct OutputModel {
    /// The address of the nullifier registry contract, echoed.
    pub nullifier_address: Seq<u8>,
    /// The state root validated against, echoed.
    pub state_root: Seq<u8>,
    /// The withdraw amount, echoed.
    pub withdraw_amount: U256,
    /// The nullifier this withdrawal commits.
    pub current_nullifier: Seq<u8>,
    /// The Keccak-256 of the big-endian cumulative withdrawn amount.
    pub cumulative_withdrawn_amount_hashed: Seq<u8>,
}

impl View for WormholeProgramOutput {
    type V = OutputModel;

    open spec fn view(&self) -> OutputModel {
        OutputModel {
            nullifier_address: self.nullifier_address@,
            state_root: self.state_root@,
            withdraw_amount: self.withdraw_amount,
            current_nullifier: self.current_nullifier@,
            cumulative_withdrawn_amount_hashed: self.cumulative_withdrawn_amount_hashed@,
        }
    }
}

/// Why the verifier rejected an input.
#[derive(Clone, Copy, Debug, PartialEq, Eq, Structural)]
pub enum WormholeProgramError {
    /// The secret's proof-of-work does not hold.
    InvalidSecret,
    /// The withdraw amount is zero, overflows, or exceeds the deposit.
    InvalidWithdrawAmount,
    /// The withdrawal index is zero but the cumulative amount is nonzero
    /// or a previous-nullifier proof was supplied.
    InconsistentFirstWithdrawal,
    /// The nullifier account proof is empty or does not end in a leaf.
    NullifierAccountMissing,
    /// A record failed to decode.
    Rlp(RlpError),
    /// A Merkle-Patricia proof failed to verify.
    Proof(ProofError),
}

/// The account the deposit proof must bind to the burn address: untouched
/// (nonce zero, no storage, no code) with the deposited balance.
pub open spec fn deposit_account_model(deposit_amount: U256) -> TrieAccountModel {
    TrieAccountModel {
        nonce: 0,
        balance: deposit_amount,
        storage_root: empty_root_spec(),
        code_hash: keccak_empty_spec(),
    }
}

/// The output on success: echoed fields, the fresh nullifier, and the
/// commitment to the cumulative withdrawn amount.
pub open spec fn output_model(inp: InputModel) -> OutputModel {
    OutputModel {
        nullifier_address: inp.nullifier_address,
        state_root: inp.state_root,
        withdraw_amount: inp.withdraw_amount,
        current_nullifier: nullifier_of(inp.secret, inp.withdrawal_index),
        cumulative_withdrawn_amount_hashed: keccak256_of(be_bytes(inp.cumulative_withdrawn_amount)),
    }
}

/// What the verifier returns, step by step: secret validity, amount
/// arithmetic, first-withdrawal shape, the deposit proof, the registry
/// account proof around its terminal leaf, and — past the first
/// withdrawal — the previous nullifier's storage proof.
pub open spec fn execute_model(inp: InputModel) -> Result<OutputModel, WormholeProgramError> {
    if !valid_secret(inp.secret) {
        Err(WormholeProgramError::InvalidSecret)
    } else if inp.withdraw_amount.as_nat() == 0 {
        Err(WormholeProgramError::InvalidWithdrawAmount)
    } else if inp.withdraw_amount.as_nat() + inp.cumulative_withdrawn_amount.as_nat() >= pow256() {
        Err(WormholeProgramError::InvalidWithdrawAmount)
    } else if inp.withdraw_amount.as_nat() + inp.cumulative_withdrawn_amount.as_nat()
        > inp.deposit_amount.as_nat() {
        Err(WormholeProgramError::InvalidWithdrawAmount)
    } else if inp.withdrawal_index.as_nat() == 0 && (inp.cumulative_withdrawn_amount.as_nat() != 0
        || inp.previous_nullifier_storage_proof.len() != 0) {
        Err(WormholeProgramError::InconsistentFirstWithdrawal)
    } else {
        let deposit_key = nibbles_of(keccak256_of(burn_address_of(inp.secret)));
        let expected_account = rlp_account(deposit_account_model(inp.deposit_amount));
        match spec_verify_proof(
            inp.state_root,
            deposit_key,
            Some(expected_account),
            inp.deposit_account_proof,
        ) {
            Err(e) => Err(WormholeProgramError::Proof(e)),
            Ok(()) => execute_model_nullifier_checks(inp),
        }
    }
}

/// The verifier past the deposit proof: the registry account proof, and
/// the previous nullifier's storage proof when the index is nonzero.
pub open spec fn execute_model_nullifier_checks(inp: InputModel) -> Result<
    OutputModel,
    WormholeProgramError,
> {
    if inp.nullifier_account_proof.len() == 0 {
        Err(WormholeProgramError::Proof(ProofError::ProofIncomplete))
    } else {
        match spec_decode_node(inp.nullifier_account_proof.last()) {
            Err(e) => Err(WormholeProgramError::Rlp(e)),
            Ok(node) => match node {
                NodeModel::Leaf { path, value } => match spec_decode_account(value) {
                    Err(e) => Err(WormholeProgramError::Rlp(e)),
                    Ok(acct) => {
                        let nullifier_key = nibbles_of(keccak256_of(inp.nullifier_address));
                        match spec_verify_proof(
                            inp.state_root,
                            nullifier_key,
                            Some(value),
                            inp.nullifier_account_proof,
                        ) {
                            Err(e) => Err(WormholeProgramError::Proof(e)),
                            Ok(()) => {
                                if inp.withdrawal_index.as_nat() != 0 {
                                    let prev_nullifier = nullifier_of(
                                        inp.secret,
                                        inp.withdrawal_index.pred(),
                                    );
                                    let prev_key = nibbles_of(keccak256_of(prev_nullifier));
                                    let expected_slot = rlp_encode_bytes(
                                        keccak256_of(be_bytes(inp.cumulative_withdrawn_amount)),
                                    );
                                    match spec_verify_proof(
                                        acct.storage_root,
                                        prev_key,
                                        Some(expected_slot),
                                        inp.previous_nullifier_storage_proof,
                                    ) {
                                        Err(e) => Err(WormholeProgramError::Proof(e)),
                                        Ok(()) => Ok(output_model(inp)),
                                    }
                                } else {
                                    Ok(output_model(inp))
                                }
                            },
                        }
                    },
                },
                _ => Err(WormholeProgramError::NullifierAccountMissing),
            },
        }
    }
}

/// Run the Wormhole withdrawal verifier on one input.
///
/// On success the output echoes the state root, withdraw amount and
/// registry address; commits the nullifier for the current index; and
/// commits the Keccak-256 of the big-endian cumulative withdrawn amount.
/// Success requires the amounts to satisfy
/// `withdraw + cumulative <= deposit` without 256-bit overflow, and a
/// first withdrawal to carry a zero cumulative amount and no
/// previous-nullifier proof.
pub fn execute_wormhole_program(input: WormholeProgramInput) -> (r: Result<
    WormholeProgramOutput,
    WormholeProgramError,
>)
    ensures
        match execute_model(input@) {
            Ok(m) => r matches Ok(o) && o@ == m,
            Err(e) => r matches Err(e2) && e2 == e,
        },
        r is Ok ==> input@.withdraw_amount.as_nat() + input@.cumulative_withdrawn_amount.as_nat()
            <= input@.deposit_amount.as_nat() && input@.withdraw_amount.as_nat()
            + input@.cumulative_withdrawn_amount.as_nat() < pow256()
            && input@.withdraw_amount.as_nat() > 0,
        r is Ok && input@.withdrawal_index.as_nat() == 0
            ==> input@.cumulative_withdrawn_amount.as_nat() == 0
            && input@.previous_nullifier_storage_proof.len() == 0,
        r matches Ok(o) ==> o@.state_root == input@.state_root && o@.withdraw_amount
            == input@.withdraw_amount && o@.nullifier_address == input@.nullifier_address,
        r matches Ok(o) ==> o@.current_nullifier == nullifier_of(
            input@.secret,
            input@.withdrawal_index,
        ),
        r matches Ok(o) ==> o@.cumulative_withdrawn_amount_hashed == keccak256_of(
            be_bytes(input@.cumulative_withdrawn_amount),
        ),
{
    if !input.secret.is_valid() {
        return Err(WormholeProgramError::InvalidSecret);
    }
    if input.withdraw_amount.is_zero() {
        return Err(WormholeProgramError::InvalidWithdrawAmount);
    }
    let next_cumulative = match input.withdraw_amount.checked_add(
        &input.cumulative_withdrawn_amount,
    ) {
        None => {
            return Err(WormholeProgramError::InvalidWithdrawAmount);
        },
        Some(v) => v,
    };
    if next_cumulative.gt(&input.deposit_amount) {
        return Err(WormholeProgramError::InvalidWithdrawAmount);
    }
    if input.withdrawal_index.is_zero() && (!input.cumulative_withdrawn_amount.is_zero()
        || input.previous_nullifier_storage_proof.len() != 0) {
        return Err(WormholeProgramError::InconsistentFirstWithdrawal);
    }
    // Deposit proof: the burn address must hold an untouched account with
    // the claimed balance.
    let burn = input.secret.burn_address();
    let deposit_key_hash = keccak256(&burn);
    let deposit_key = key_nibbles(&deposit_key_hash);
    let deposit_account = TrieAccount {
        nonce: 0,
        balance: input.deposit_amount,
        storage_root: empty_root(),
        code_hash: keccak_empty(),
    };
    proof {
        assert(deposit_account@ =~= deposit_account_model(input.deposit_amount));
    }
    let expected_account = Some(encode_account(&deposit_account));
    match verify_proof(
        &input.state_root,
        &deposit_key,
        &expected_account,
        &input.deposit_account_proof,
    ) {
        Err(e) => {
            return Err(WormholeProgramError::Proof(e));
        },
        Ok(()) => {},
    }
    // Registry account proof: its terminal node must be a leaf, whose
    // value decodes as the registry account.
    if input.nullifier_account_proof.len() == 0 {
        return Err(WormholeProgramError::Proof(ProofError::ProofIncomplete));
    }
    let last = &input.nullifier_account_proof[input.nullifier_account_proof.len() - 1];
    proof {
        assert(views_of(input.nullifier_account_proof@).last() == last@);
    }
    let node = match decode_node(last) {
        Err(e) => {
            return Err(WormholeProgramError::Rlp(e));
        },
        Ok(n) => n,
    };
    let leaf_value = match node {
        TrieNode::Leaf { path: _, value } => value,
        _ => {
            return Err(WormholeProgramError::NullifierAccountMissing);
        },
    };
    let registry_account = match decode_account(&leaf_value) {
        Err(e) => {
            return Err(WormholeProgramError::Rlp(e));
        },
        Ok(a) => a,
    };
    let nullifier_key_hash = keccak256(&input.nullifier_address);
    let nullifier_key = key_nibbles(&nullifier_key_hash);
    let expected_leaf = Some(leaf_value);
    match verify_proof(
        &input.state_root,
        &nullifier_key,
        &expected_leaf,
        &input.nullifier_account_proof,
    ) {
        Err(e) => {
            return Err(WormholeProgramError::Proof(e));
        },
        Ok(()) => {},
    }
    // Commitment to the cumulative withdrawn amount, and — past the first
    // withdrawal — the previous nullifier's storage slot must bind it.
    let cumulative_be = input.cumulative_withdrawn_amount.to_be_bytes();
    let cumulative_hashed = keccak256(&cumulative_be);
    if !input.withdrawal_index.is_zero() {
        let prev_index = input.withdrawal_index.sub_one();
        let prev_nullifier = input.secret.nullifier(prev_index);
        let prev_key_hash = keccak256(&prev_nullifier);
        let prev_key = key_nibbles(&prev_key_hash);
        let mut slot: Vec<u8> = Vec::new();
        crate::rlp::append_encoded_bytes(&mut slot, &cumulative_hashed);
        proof {
            assert(slot@ =~= rlp_encode_bytes(keccak256_of(be_bytes(
                input.cumulative_withdrawn_amount,
            ))));
        }
        let expected_slot = Some(slot);
        match verify_proof(
            &registry_account.storage_root,
            &prev_key,
            &expected_slot,
            &input.previous_nullifier_storage_proof,
        ) {
            Err(e) => {
                return Err(WormholeProgramError::Proof(e));
            },
            Ok(()) => {},
        }
    }
    let current_nullifier = input.secret.nullifier(input.withdrawal_index);
    let out = WormholeProgramOutput {
        nullifier_address: input.nullifier_address,
        state_root: input.state_root,
        withdraw_amount: input.withdraw_amount,
        current_nullifier,
        cumulative_withdrawn_amount_hashed: cumulative_hashed,
    };
    proof {
        assert(out@ =~= output_model(input@));
    }
    Ok(out)
}

} // verus!
