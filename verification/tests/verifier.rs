use alloy_trie::proof::ProofRetainer;
use alloy_trie::{HashBuilder, Nibbles};
use wormhole::executor::{
    execute_wormhole_program, WormholeProgramError, WormholeProgramInput,
};
use wormhole::mpt::{key_nibbles, verify_proof, ProofError};
use wormhole::secret::WormholeSecret;
use wormhole::u256::U256;

fn test_secret() -> WormholeSecret {
    WormholeSecret::new_unchecked(vec![0x00, 0x00, 0x00, 0x00, 0x01, 0x30, 0x5d, 0xc6])
}

/// A registry address whose hashed key leaves the root at a different
/// first nibble than the burn address, so the reference state trie has a
/// branch at its root.
fn registry_address(burn: &[u8]) -> Vec<u8> {
    let burn_nibble = alloy_primitives::keccak256(burn)[0] >> 4;
    for b in 0u8..=255 {
        let addr = vec![b; 20];
        if alloy_primitives::keccak256(&addr)[0] >> 4 != burn_nibble {
            return addr;
        }
    }
    unreachable!("some first nibble differs");
}

/// Build a state trie holding exactly the two given accounts, and return
/// the root plus each account's proof, root node first.
fn build_state_trie(
    burn: &[u8],
    burn_account_rlp: &[u8],
    registry: &[u8],
    registry_account_rlp: &[u8],
) -> (Vec<u8>, Vec<Vec<u8>>, Vec<Vec<u8>>) {
    let burn_key = Nibbles::unpack(alloy_primitives::keccak256(burn));
    let registry_key = Nibbles::unpack(alloy_primitives::keccak256(registry));
    let retainer = ProofRetainer::from_iter([burn_key, registry_key]);
    let mut builder = HashBuilder::default().with_proof_retainer(retainer);
    if burn_key < registry_key {
        builder.add_leaf(burn_key, burn_account_rlp);
        builder.add_leaf(registry_key, registry_account_rlp);
    } else {
        builder.add_leaf(registry_key, registry_account_rlp);
        builder.add_leaf(burn_key, burn_account_rlp);
    }
    let root = builder.root();
    let nodes = builder.take_proof_nodes();
    let burn_proof = nodes
        .matching_nodes_sorted(&burn_key)
        .into_iter()
        .map(|(_, b)| b.to_vec())
        .collect();
    let registry_proof = nodes
        .matching_nodes_sorted(&registry_key)
        .into_iter()
        .map(|(_, b)| b.to_vec())
        .collect();
    (root.as_slice().to_vec(), burn_proof, registry_proof)
}

/// Build a storage trie holding exactly one slot, and return the root plus
/// the slot's proof.
fn build_storage_trie(raw_slot_key: &[u8], value_rlp: &[u8]) -> (Vec<u8>, Vec<Vec<u8>>) {
    let slot_key = Nibbles::unpack(alloy_primitives::keccak256(raw_slot_key));
    let retainer = ProofRetainer::from_iter([slot_key]);
    let mut builder = HashBuilder::default().with_proof_retainer(retainer);
    builder.add_leaf(slot_key, value_rlp);
    let root = builder.root();
    let proof = builder
        .take_proof_nodes()
        .matching_nodes_sorted(&slot_key)
        .into_iter()
        .map(|(_, b)| b.to_vec())
        .collect();
    (root.as_slice().to_vec(), proof)
}

fn account_rlp(balance: u64, storage_root: Option<alloy_primitives::B256>) -> Vec<u8> {
    let account = alloy_trie::TrieAccount {
        balance: alloy_primitives::U256::from(balance),
        storage_root: storage_root.unwrap_or(alloy_trie::EMPTY_ROOT_HASH),
        ..Default::default()
    };
    alloy_rlp::encode(account)
}

/// A complete first-withdrawal input over a freshly built reference trie:
/// burn balance 5, withdraw 3, nothing withdrawn yet.
fn first_withdrawal_input() -> WormholeProgramInput {
    let secret = test_secret();
    let burn = secret.burn_address();
    let registry = registry_address(&burn);
    let burn_account = account_rlp(5, None);
    let registry_account = account_rlp(0, None);
    let (root, burn_proof, registry_proof) =
        build_state_trie(&burn, &burn_account, &registry, &registry_account);
    WormholeProgramInput {
        secret,
        deposit_amount: U256::from_u64(5),
        withdraw_amount: U256::from_u64(3),
        cumulative_withdrawn_amount: U256::zero(),
        withdrawal_index: U256::zero(),
        state_root: root,
        deposit_account_proof: burn_proof,
        nullifier_address: registry,
        nullifier_account_proof: registry_proof,
        previous_nullifier_storage_proof: Vec::new(),
    }
}

#[test]
fn invalid_secret() {
    let mut input = WormholeProgramInput::default();
    assert_eq!(
        execute_wormhole_program(input.clone()),
        Err(WormholeProgramError::InvalidSecret)
    );

    input.secret = WormholeSecret::new_unchecked(vec![0x1, 0x2, 0x3]);
    assert_eq!(
        execute_wormhole_program(input),
        Err(WormholeProgramError::InvalidSecret)
    );
}

#[test]
fn invalid_withdraw_amount() {
    let mut input = WormholeProgramInput::default();
    input.secret = test_secret();

    assert_eq!(
        execute_wormhole_program(input.clone()),
        Err(WormholeProgramError::InvalidWithdrawAmount)
    );

    input.cumulative_withdrawn_amount = U256::max_value();
    input.withdraw_amount = U256::from_u64(2);
    input.deposit_amount = U256::from_u64(2);
    assert_eq!(
        execute_wormhole_program(input.clone()),
        Err(WormholeProgramError::InvalidWithdrawAmount)
    );

    input.cumulative_withdrawn_amount = U256::zero();
    input.deposit_amount = U256::from_u64(1);
    assert_eq!(
        execute_wormhole_program(input.clone()),
        Err(WormholeProgramError::InvalidWithdrawAmount)
    );
}

#[test]
fn zero_withdraw_amount_rejected() {
    let mut input = first_withdrawal_input();
    input.withdraw_amount = U256::zero();
    assert_eq!(
        execute_wormhole_program(input),
        Err(WormholeProgramError::InvalidWithdrawAmount)
    );
}

#[test]
fn zero_deposit_rejected() {
    let mut input = first_withdrawal_input();
    input.deposit_amount = U256::zero();
    input.withdraw_amount = U256::from_u64(1);
    assert_eq!(
        execute_wormhole_program(input),
        Err(WormholeProgramError::InvalidWithdrawAmount)
    );
}

#[test]
fn overflowing_amounts_rejected() {
    let mut input = first_withdrawal_input();
    input.cumulative_withdrawn_amount = U256::max_value().sub_one();
    input.withdraw_amount = U256::from_u64(2);
    assert_eq!(
        execute_wormhole_program(input),
        Err(WormholeProgramError::InvalidWithdrawAmount)
    );
}

#[test]
fn first_withdrawal_with_previous_proof_rejected() {
    let mut input = first_withdrawal_input();
    input.previous_nullifier_storage_proof = vec![vec![0x01]];
    assert_eq!(
        execute_wormhole_program(input),
        Err(WormholeProgramError::InconsistentFirstWithdrawal)
    );
}

#[test]
fn first_withdrawal_succeeds() {
    let input = first_withdrawal_input();
    let state_root = input.state_root.clone();
    let nullifier_address = input.nullifier_address.clone();
    let output = execute_wormhole_program(input).unwrap();
    assert_eq!(output.state_root, state_root);
    assert_eq!(output.nullifier_address, nullifier_address);
    assert_eq!(output.withdraw_amount, U256::from_u64(3));
    assert_eq!(
        alloy_primitives::hex::encode(&output.current_nullifier),
        "665cc6d394252fe1fe480667faf68207521eed09a32a1f7091fecff37ae1ff88"
    );
    // Keccak-256 of 32 zero bytes, computed independently.
    assert_eq!(
        alloy_primitives::hex::encode(&output.cumulative_withdrawn_amount_hashed),
        "290decd9548b62a8d60345a988386fc84ba6bc95484008f6362f93160ef3e563"
    );
}

#[test]
fn partial_double_spend_rejected() {
    let mut input = first_withdrawal_input();
    input.cumulative_withdrawn_amount = U256::from_u64(3);
    assert_eq!(
        execute_wormhole_program(input),
        Err(WormholeProgramError::InvalidWithdrawAmount)
    );
}

#[test]
fn second_withdrawal_succeeds() {
    let secret = test_secret();
    let burn = secret.burn_address();
    let registry = registry_address(&burn);

    // The registry's storage binds the hash of the previous nullifier to
    // the commitment over the cumulative withdrawn amount, 4 wei.
    let previous_nullifier = secret.nullifier(U256::zero());
    let cumulative_hashed = alloy_primitives::keccak256(
        alloy_primitives::B256::from(alloy_primitives::U256::from(4u64)),
    );
    let slot_value = alloy_rlp::encode(cumulative_hashed);
    let (storage_root, storage_proof) = build_storage_trie(&previous_nullifier, &slot_value);

    let burn_account = account_rlp(10, None);
    let registry_account = account_rlp(
        0,
        Some(alloy_primitives::B256::from_slice(&storage_root)),
    );
    let (root, burn_proof, registry_proof) =
        build_state_trie(&burn, &burn_account, &registry, &registry_account);

    let input = WormholeProgramInput {
        secret,
        deposit_amount: U256::from_u64(10),
        withdraw_amount: U256::from_u64(6),
        cumulative_withdrawn_amount: U256::from_u64(4),
        withdrawal_index: U256::from_u64(1),
        state_root: root.clone(),
        deposit_account_proof: burn_proof,
        nullifier_address: registry,
        nullifier_account_proof: registry_proof,
        previous_nullifier_storage_proof: storage_proof,
    };
    let output = execute_wormhole_program(input).unwrap();
    assert_eq!(output.state_root, root);
    assert_eq!(
        alloy_primitives::hex::encode(&output.current_nullifier),
        "c44d2aae076d55736dfb0220a98d4db5a343ec3e1019b5e8b4d2c7c579955008"
    );
    assert_eq!(
        output.cumulative_withdrawn_amount_hashed,
        cumulative_hashed.as_slice().to_vec()
    );
}

#[test]
fn flipped_proof_byte_rejected() {
    let mut input = first_withdrawal_input();
    let last = input.deposit_account_proof.last_mut().unwrap();
    let end = last.len() - 1;
    last[end] ^= 0x01;
    assert_eq!(
        execute_wormhole_program(input),
        Err(WormholeProgramError::Proof(ProofError::NodeHashMismatch))
    );
}

#[test]
fn nullifier_account_terminal_branch_rejected() {
    let mut input = first_withdrawal_input();
    // Keep only the root branch of the registry proof: the walk's last
    // node is then a branch, not a leaf.
    input.nullifier_account_proof.truncate(1);
    assert_eq!(
        execute_wormhole_program(input),
        Err(WormholeProgramError::NullifierAccountMissing)
    );
}

#[test]
fn empty_nullifier_account_proof_rejected() {
    let mut input = first_withdrawal_input();
    input.nullifier_account_proof = Vec::new();
    assert_eq!(
        execute_wormhole_program(input),
        Err(WormholeProgramError::Proof(ProofError::ProofIncomplete))
    );
}

#[test]
fn built_proof_verifies_and_every_flip_fails() {
    let input = first_withdrawal_input();
    let key_hash = alloy_primitives::keccak256(&test_secret().burn_address());
    let key = key_nibbles(&key_hash.as_slice().to_vec());
    let expected = Some(account_rlp(5, None));
    assert_eq!(
        verify_proof(&input.state_root, &key, &expected, &input.deposit_account_proof),
        Ok(())
    );
    // Flipping any single byte of the root breaks verification.
    for i in 0..input.state_root.len() {
        let mut root = input.state_root.clone();
        root[i] ^= 0x01;
        assert_eq!(
            verify_proof(&root, &key, &expected, &input.deposit_account_proof),
            Err(ProofError::NodeHashMismatch),
            "root byte {i}"
        );
    }
    // Flipping any single byte of any proof node breaks verification.
    for n in 0..input.deposit_account_proof.len() {
        for i in 0..input.deposit_account_proof[n].len() {
            let mut nodes = input.deposit_account_proof.clone();
            nodes[n][i] ^= 0x01;
            assert_eq!(
                verify_proof(&input.state_root, &key, &expected, &nodes),
                Err(ProofError::NodeHashMismatch),
                "node {n} byte {i}"
            );
        }
    }
}

#[test]
fn exclusion_proof_on_empty_trie() {
    let mut builder = HashBuilder::default();
    let empty_root = builder.root().as_slice().to_vec();
    let key_hash = alloy_primitives::keccak256([0x42u8; 20]);
    let key = key_nibbles(&key_hash.as_slice().to_vec());
    assert_eq!(verify_proof(&empty_root, &key, &None, &Vec::new()), Ok(()));
    // An inclusion proof over an empty node list never verifies.
    assert_eq!(
        verify_proof(&empty_root, &key, &Some(vec![0x01]), &Vec::new()),
        Err(ProofError::ProofIncomplete)
    );
}

#[test]
fn exclusion_proof_on_missing_key() {
    // A trie with two accounts admits an exclusion proof for an absent
    // third key through the branch's empty child slot.
    let secret = test_secret();
    let burn = secret.burn_address();
    let registry = registry_address(&burn);
    let burn_account = account_rlp(5, None);
    let registry_account = account_rlp(0, None);
    let burn_key = Nibbles::unpack(alloy_primitives::keccak256(&burn));
    let registry_key = Nibbles::unpack(alloy_primitives::keccak256(&registry));
    let burn_nibble = burn_key.get_unchecked(0);
    let registry_nibble = registry_key.get_unchecked(0);
    let mut absent = None;
    for b in 0u8..=255 {
        let addr = vec![b; 20];
        let nib = alloy_primitives::keccak256(&addr)[0] >> 4;
        if nib != burn_nibble && nib != registry_nibble {
            absent = Some(addr);
            break;
        }
    }
    let absent = absent.unwrap();
    let absent_key_hash = alloy_primitives::keccak256(&absent);
    let retainer = ProofRetainer::from_iter([
        burn_key,
        registry_key,
        Nibbles::unpack(absent_key_hash),
    ]);
    let mut builder = HashBuilder::default().with_proof_retainer(retainer);
    if burn_key < registry_key {
        builder.add_leaf(burn_key, &burn_account);
        builder.add_leaf(registry_key, &registry_account);
    } else {
        builder.add_leaf(registry_key, &registry_account);
        builder.add_leaf(burn_key, &burn_account);
    }
    let root = builder.root().as_slice().to_vec();
    let proof: Vec<Vec<u8>> = builder
        .take_proof_nodes()
        .matching_nodes_sorted(&Nibbles::unpack(absent_key_hash))
        .into_iter()
        .map(|(_, b)| b.to_vec())
        .collect();
    let key = key_nibbles(&absent_key_hash.as_slice().to_vec());
    assert_eq!(verify_proof(&root, &key, &None, &proof), Ok(()));
    // The same proof cannot witness inclusion.
    assert!(verify_proof(&root, &key, &Some(vec![0x01]), &proof).is_err());
}

#[test]
fn json_profile_round_trip() {
    let input = first_withdrawal_input();
    let text = wormhole::json::to_json(&input);
    assert!(text.starts_with(b"{\"secret\":\"0x00000000"));
    assert!(text.ends_with(b"]}"));
    let back = wormhole::json::from_json(&text).unwrap();
    assert_eq!(back, input);
    // A truncated record is rejected.
    let truncated = text[..text.len() - 1].to_vec();
    assert!(wormhole::json::from_json(&truncated).is_none());
    // The record must fill the text exactly.
    let mut padded = text.clone();
    padded.push(b' ');
    assert!(wormhole::json::from_json(&padded).is_none());
}

#[test]
fn extension_and_inline_nodes_verify() {
    // Two short leaves under a shared prefix: the trie packs them as an
    // extension over a branch with inlined leaves.
    let k1 = Nibbles::unpack([0x11u8, 0x22, 0x33, 0x44]);
    let k2 = Nibbles::unpack([0x11u8, 0x22, 0x33, 0x55]);
    let absent = Nibbles::unpack([0x11u8, 0x22, 0x33, 0x66]);
    let retainer = ProofRetainer::from_iter([k1, k2, absent]);
    let mut builder = HashBuilder::default().with_proof_retainer(retainer);
    builder.add_leaf(k1, b"value-01");
    builder.add_leaf(k2, b"value-02");
    let root = builder.root().as_slice().to_vec();
    let nodes = builder.take_proof_nodes();
    // A proof lists only hash-referenced nodes; the short leaves ride
    // inline inside the branch.
    let proof1: Vec<Vec<u8>> = nodes
        .matching_nodes_sorted(&k1)
        .into_iter()
        .map(|(_, b)| b.to_vec())
        .filter(|b| b.len() >= 32)
        .collect();
    let proof_absent: Vec<Vec<u8>> = nodes
        .matching_nodes_sorted(&absent)
        .into_iter()
        .map(|(_, b)| b.to_vec())
        .filter(|b| b.len() >= 32)
        .collect();
    assert_eq!(proof1.len(), 2);

    let key1 = vec![1u8, 1, 2, 2, 3, 3, 4, 4];
    let key2 = vec![1u8, 1, 2, 2, 3, 3, 5, 5];
    let key_absent = vec![1u8, 1, 2, 2, 3, 3, 6, 6];
    assert_eq!(verify_proof(&root, &key1, &Some(b"value-01".to_vec()), &proof1), Ok(()));
    assert_eq!(verify_proof(&root, &key2, &Some(b"value-02".to_vec()), &proof1), Ok(()));
    // A wrong value is rejected.
    assert_eq!(
        verify_proof(&root, &key1, &Some(b"value-99".to_vec()), &proof1),
        Err(ProofError::ValueMismatch)
    );
    // The empty branch slot witnesses exclusion of the absent key.
    assert_eq!(verify_proof(&root, &key_absent, &None, &proof_absent), Ok(()));
    assert_eq!(
        verify_proof(&root, &key_absent, &Some(b"value-01".to_vec()), &proof_absent),
        Err(ProofError::ValueMismatch)
    );
}
