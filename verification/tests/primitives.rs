use wormhole::rlp::{
    decode_account, decode_string_at, decode_uint_at, encode_account, RlpError, TrieAccount,
};
use wormhole::secret::{is_valid_wormhole_secret, proof_of_work_secret_hash, WormholeSecret};
use wormhole::u256::U256;

fn test_secret() -> WormholeSecret {
    WormholeSecret::new_unchecked(vec![0x00, 0x00, 0x00, 0x00, 0x01, 0x30, 0x5d, 0xc6])
}

#[test]
fn test_secret_is_valid() {
    assert!(test_secret().is_valid());
}

#[test]
fn pow_rejects_near_misses() {
    // One flipped bit in the secret breaks the proof of work.
    assert!(!is_valid_wormhole_secret(&vec![
        0x00, 0x00, 0x00, 0x00, 0x01, 0x30, 0x5d, 0xc7
    ]));
    assert!(!is_valid_wormhole_secret(&vec![]));
}

#[test]
fn proof_of_work_hash_pinned() {
    // SHA256(0x02 || secret), computed independently; its low 24 bits are
    // zero.
    let h = proof_of_work_secret_hash(test_secret().as_bytes());
    assert_eq!(
        alloy_primitives::hex::encode(&h),
        "7375fd9cd289875d35f282dbf6b14c829e7129b6a9858d79c510ec609a000000"
    );
}

#[test]
fn burn_address_pinned() {
    let addr = test_secret().burn_address();
    assert_eq!(
        alloy_primitives::hex::encode(&addr),
        "587412f63bad775ee287607a220e9832d678cfe1"
    );
}

#[test]
fn nullifier_zero_pinned() {
    let n0 = test_secret().nullifier(U256::zero());
    assert_eq!(
        alloy_primitives::hex::encode(&n0),
        "665cc6d394252fe1fe480667faf68207521eed09a32a1f7091fecff37ae1ff88"
    );
    let n1 = test_secret().nullifier(U256::from_u64(1));
    assert_eq!(
        alloy_primitives::hex::encode(&n1),
        "c44d2aae076d55736dfb0220a98d4db5a343ec3e1019b5e8b4d2c7c579955008"
    );
}

#[test]
fn try_new_accepts_only_valid_secrets() {
    assert!(WormholeSecret::try_new(test_secret().as_bytes().clone()).is_ok());
    match WormholeSecret::try_new(vec![0x01, 0x02, 0x03]) {
        Ok(_) => panic!("invalid secret accepted"),
        Err(rejected) => assert_eq!(rejected.as_bytes(), &vec![0x01, 0x02, 0x03]),
    }
}

#[test]
fn u256_checked_add_carries_across_limbs() {
    let a = U256 { l0: u64::MAX, l1: u64::MAX, l2: 0, l3: 0 };
    let b = U256::from_u64(1);
    let sum = a.checked_add(&b).unwrap();
    assert_eq!(sum, U256 { l0: 0, l1: 0, l2: 1, l3: 0 });
}

#[test]
fn u256_checked_add_overflow() {
    let max = U256::max_value();
    assert_eq!(max.checked_add(&U256::from_u64(1)), None);
    assert_eq!(max.checked_add(&U256::zero()), Some(max));
}

#[test]
fn u256_sub_one_borrows_across_limbs() {
    let v = U256 { l0: 0, l1: 0, l2: 1, l3: 0 };
    assert_eq!(v.sub_one(), U256 { l0: u64::MAX, l1: u64::MAX, l2: 0, l3: 0 });
    assert_eq!(U256::from_u64(1).sub_one(), U256::zero());
}

#[test]
fn u256_comparisons() {
    let small = U256 { l0: u64::MAX, l1: 0, l2: 0, l3: 0 };
    let big = U256 { l0: 0, l1: 1, l2: 0, l3: 0 };
    assert!(small.lt(&big));
    assert!(big.gt(&small));
    assert!(!small.gt(&small));
}

#[test]
fn u256_byte_views_match_alloy() {
    let mine = U256 { l0: 0x0807060504030201, l1: 0x100f0e0d0c0b0a09, l2: 0, l3: 0xff00000000000000 };
    let theirs = alloy_primitives::U256::from_limbs([
        0x0807060504030201,
        0x100f0e0d0c0b0a09,
        0,
        0xff00000000000000,
    ]);
    assert_eq!(mine.to_be_bytes(), theirs.to_be_bytes::<32>().to_vec());
    assert_eq!(mine.to_le_bytes(), theirs.as_le_slice().to_vec());
    let back = U256::from_be_bytes(&mine.to_be_bytes());
    assert_eq!(back, mine);
}

#[test]
fn rlp_bytes_round_trip_matches_alloy() {
    let cases: Vec<Vec<u8>> = vec![
        vec![],
        vec![0x00],
        vec![0x61],
        vec![0x80],
        vec![0x61, 0x62, 0x63],
        vec![0xab; 55],
        vec![0xcd; 56],
        vec![0x11; 300],
    ];
    for case in cases {
        let mut mine: Vec<u8> = Vec::new();
        wormhole::rlp::append_encoded_bytes(&mut mine, &case);
        let theirs = alloy_rlp::encode(alloy_primitives::Bytes::from(case.clone()));
        assert_eq!(mine, theirs);
        let (decoded, consumed) = decode_string_at(&mine, 0).unwrap();
        assert_eq!(decoded, case);
        assert_eq!(consumed, mine.len());
    }
}

#[test]
fn rlp_uint_round_trip_matches_alloy() {
    let cases: Vec<u64> = vec![0, 1, 0x7f, 0x80, 0x100, 1024, 0xffff_ffff_ffff_ffff];
    for case in cases {
        let mut mine: Vec<u8> = Vec::new();
        wormhole::rlp::append_encoded_u64(&mut mine, case);
        let theirs = alloy_rlp::encode(case);
        assert_eq!(mine, theirs, "u64 {case}");
        let (digits, consumed) = decode_uint_at(&mine, 0, 8).unwrap();
        assert_eq!(consumed, mine.len());
        // The digits are the minimal big-endian bytes of the value.
        let mut expect = case.to_be_bytes().to_vec();
        while expect.first() == Some(&0) {
            expect.remove(0);
        }
        assert_eq!(digits, expect);
    }
    let mut mine: Vec<u8> = Vec::new();
    wormhole::rlp::append_encoded_u256(&mut mine, &U256 { l0: 0, l1: 1, l2: 0, l3: 0 });
    let theirs = alloy_rlp::encode(alloy_primitives::U256::from_limbs([0, 1, 0, 0]));
    assert_eq!(mine, theirs);
}

#[test]
fn rlp_rejects_non_canonical_encodings() {
    // A single byte below 0x80 must not be wrapped in a string header.
    assert_eq!(decode_string_at(&vec![0x81, 0x05], 0), Err(RlpError::NonCanonical));
    // A long length must not fit the short form.
    let mut wrapped = vec![0xb8, 0x02, 0x61, 0x62];
    assert_eq!(decode_string_at(&wrapped, 0), Err(RlpError::NonCanonical));
    // A long length must not carry leading zeros.
    wrapped = vec![0xb9, 0x00, 0x38];
    wrapped.extend(std::iter::repeat(0x61).take(0x38));
    assert_eq!(decode_string_at(&wrapped, 0), Err(RlpError::NonCanonical));
    // An integer must not carry leading zero bytes.
    assert_eq!(decode_uint_at(&vec![0x82, 0x00, 0x04], 0, 8), Err(RlpError::NonCanonical));
    assert_eq!(decode_uint_at(&vec![0x00], 0, 8), Err(RlpError::NonCanonical));
    // An integer wider than its type is rejected.
    let wide = vec![0x89, 1, 2, 3, 4, 5, 6, 7, 8, 9];
    assert_eq!(decode_uint_at(&wide, 0, 8), Err(RlpError::Overflow));
    // Truncated input.
    assert_eq!(decode_string_at(&vec![0x83, 0x61], 0), Err(RlpError::InputTooShort));
}

#[test]
fn account_round_trip_matches_alloy() {
    let mine = TrieAccount {
        nonce: 7,
        balance: U256::from_u64(1_000_000),
        storage_root: vec![0x11; 32],
        code_hash: vec![0x22; 32],
    };
    let encoded = encode_account(&mine);
    let theirs = alloy_rlp::encode(alloy_trie::TrieAccount {
        nonce: 7,
        balance: alloy_primitives::U256::from(1_000_000u64),
        storage_root: alloy_primitives::B256::repeat_byte(0x11),
        code_hash: alloy_primitives::B256::repeat_byte(0x22),
    });
    assert_eq!(encoded, theirs);
    let decoded = decode_account(&encoded).unwrap();
    assert_eq!(decoded, mine);
}

#[test]
fn account_decode_rejects_trailing_bytes() {
    let mine = TrieAccount {
        nonce: 0,
        balance: U256::zero(),
        storage_root: vec![0x00; 32],
        code_hash: vec![0x00; 32],
    };
    let mut encoded = encode_account(&mine);
    encoded.push(0x00);
    assert!(decode_account(&encoded).is_err());
}
