//! The off-guest JSON profile of the input record.
//!
//! One fixed shape: the ten fields in declaration order, camelCase names,
//! every value a 0x-prefixed lowercase hex string, 256-bit integers at
//! full 64-digit width, proof node lists as JSON arrays of hex strings.
//! The reader accepts exactly what the writer emits, and reading back a
//! written record gives the record: the two directions are proved against
//! the same spec-level text.

use vstd::prelude::*;

use crate::executor::{InputModel, WormholeProgramInput};
use crate::mpt::views_of;
use crate::secret::WormholeSecret;
use crate::u256::{be_bytes, u256_of_be_bytes, U256};

verus! {

/// The lowercase hex digit for a nibble.
pub open spec fn hex_digit(n: u8) -> u8 {
    if n < 10 {
        (0x30 + n) as u8
    } else {
        (0x57 + n) as u8
    }
}

/// The lowercase hex text of a byte string: two digits per byte, high
/// nibble first.
pub open spec fn hex_of(b: Seq<u8>) -> Seq<u8> {
    Seq::new(
        2 * b.len(),
        |i: int|
            if i % 2 == 0 {
                hex_digit(b[i / 2] >> 4)
            } else {
                hex_digit(b[i / 2] & 0xf)
            },
    )
}

/// The nibble of a hex digit, or `None` for any other byte.
pub open spec fn unhex(c: u8) -> Option<u8> {
    if 0x30 <= c <= 0x39 {
        Some((c - 0x30) as u8)
    } else if 0x61 <= c <= 0x66 {
        Some((c - 0x57) as u8)
    } else {
        None
    }
}

/// One list item: a quoted 0x-prefixed hex string.
pub open spec fn jitem_of(b: Seq<u8>) -> Seq<u8> {
    seq![0x22u8, 0x30, 0x78] + hex_of(b) + seq![0x22u8]
}

/// A list body: items joined by commas, nothing around them.
pub open spec fn jlist_of(items: Seq<Seq<u8>>) -> Seq<u8>
    decreases items.len(),
{
    if items.len() == 0 {
        seq![]
    } else if items.len() == 1 {
        jitem_of(items[0])
    } else {
        jitem_of(items[0]) + seq![0x2cu8] + jlist_of(items.drop_first())
    }
}

/// The profile text `{"secret":"0x`, as bytes.
pub open spec fn lab_secret() -> Seq<u8> {
    seq![0x7bu8, 0x22, 0x73, 0x65, 0x63, 0x72, 0x65, 0x74, 0x22, 0x3a, 0x22, 0x30, 0x78]
}

/// The profile text `","depositAmount":"0x`, as bytes.
pub open spec fn lab_deposit_amount() -> Seq<u8> {
    seq![0x22u8, 0x2c, 0x22, 0x64, 0x65, 0x70, 0x6f, 0x73, 0x69, 0x74, 0x41, 0x6d, 0x6f, 0x75, 0x6e, 0x74, 0x22, 0x3a, 0x22, 0x30, 0x78]
}

/// The profile text `","withdrawAmount":"0x`, as bytes.
pub open spec fn lab_withdraw_amount() -> Seq<u8> {
    seq![0x22u8, 0x2c, 0x22, 0x77, 0x69, 0x74, 0x68, 0x64, 0x72, 0x61, 0x77, 0x41, 0x6d, 0x6f, 0x75, 0x6e, 0x74, 0x22, 0x3a, 0x22, 0x30, 0x78]
}

/// The profile text `","cumulativeWithdrawnAmount":"0x`, as bytes.
pub open spec fn lab_cumulative() -> Seq<u8> {
    seq![0x22u8, 0x2c, 0x22, 0x63, 0x75, 0x6d, 0x75, 0x6c, 0x61, 0x74, 0x69, 0x76, 0x65, 0x57, 0x69, 0x74, 0x68, 0x64, 0x72, 0x61, 0x77, 0x6e, 0x41, 0x6d, 0x6f, 0x75, 0x6e, 0x74, 0x22, 0x3a, 0x22, 0x30, 0x78]
}

/// The profile text `","withdrawalIndex":"0x`, as bytes.
pub open spec fn lab_withdrawal_index() -> Seq<u8> {
    seq![0x22u8, 0x2c, 0x22, 0x77, 0x69, 0x74, 0x68, 0x64, 0x72, 0x61, 0x77, 0x61, 0x6c, 0x49, 0x6e, 0x64, 0x65, 0x78, 0x22, 0x3a, 0x22, 0x30, 0x78]
}

/// The profile text `","stateRoot":"0x`, as bytes.
pub open spec fn lab_state_root() -> Seq<u8> {
    seq![0x22u8, 0x2c, 0x22, 0x73, 0x74, 0x61, 0x74, 0x65, 0x52, 0x6f, 0x6f, 0x74, 0x22, 0x3a, 0x22, 0x30, 0x78]
}

/// The profile text `","depositAccountProof":[`, as bytes.
pub open spec fn lab_deposit_proof() -> Seq<u8> {
    seq![0x22u8, 0x2c, 0x22, 0x64, 0x65, 0x70, 0x6f, 0x73, 0x69, 0x74, 0x41, 0x63, 0x63, 0x6f, 0x75, 0x6e, 0x74, 0x50, 0x72, 0x6f, 0x6f, 0x66, 0x22, 0x3a, 0x5b]
}

/// The profile text `],"nullifierAddress":"0x`, as bytes.
pub open spec fn lab_nullifier_address() -> Seq<u8> {
    seq![0x5du8, 0x2c, 0x22, 0x6e, 0x75, 0x6c, 0x6c, 0x69, 0x66, 0x69, 0x65, 0x72, 0x41, 0x64, 0x64, 0x72, 0x65, 0x73, 0x73, 0x22, 0x3a, 0x22, 0x30, 0x78]
}

/// The profile text `","nullifierAccountProof":[`, as bytes.
pub open spec fn lab_nullifier_proof() -> Seq<u8> {
    seq![0x22u8, 0x2c, 0x22, 0x6e, 0x75, 0x6c, 0x6c, 0x69, 0x66, 0x69, 0x65, 0x72, 0x41, 0x63, 0x63, 0x6f, 0x75, 0x6e, 0x74, 0x50, 0x72, 0x6f, 0x6f, 0x66, 0x22, 0x3a, 0x5b]
}

/// The profile text `],"previousNullifierStorageProof":[`, as bytes.
pub open spec fn lab_previous_proof() -> Seq<u8> {
    seq![0x5du8, 0x2c, 0x22, 0x70, 0x72, 0x65, 0x76, 0x69, 0x6f, 0x75, 0x73, 0x4e, 0x75, 0x6c, 0x6c, 0x69, 0x66, 0x69, 0x65, 0x72, 0x53, 0x74, 0x6f, 0x72, 0x61, 0x67, 0x65, 0x50, 0x72, 0x6f, 0x6f, 0x66, 0x22, 0x3a, 0x5b]
}

/// The profile text `]}`, as bytes.
pub open spec fn lab_tail() -> Seq<u8> {
    seq![0x5du8, 0x7d]
}

/// The profile text from field 10 on: the closing label.
#[verifier::opaque]
pub open spec fn jsuf10(m: InputModel) -> Seq<u8> {
    lab_tail()
}

/// The profile text from field 9 on.
#[verifier::opaque]
pub open spec fn jsuf9(m: InputModel) -> Seq<u8> {
    lab_previous_proof() + (jlist_of(m.previous_nullifier_storage_proof) + jsuf10(m))
}

/// The profile text from field 8 on.
#[verifier::opaque]
pub open spec fn jsuf8(m: InputModel) -> Seq<u8> {
    lab_nullifier_proof() + (jlist_of(m.nullifier_account_proof) + jsuf9(m))
}

/// The profile text from field 7 on.
#[verifier::opaque]
pub open spec fn jsuf7(m: InputModel) -> Seq<u8> {
    lab_nullifier_address() + (hex_of(m.nullifier_address) + jsuf8(m))
}

/// The profile text from field 6 on.
#[verifier::opaque]
pub open spec fn jsuf6(m: InputModel) -> Seq<u8> {
    lab_deposit_proof() + (jlist_of(m.deposit_account_proof) + jsuf7(m))
}

/// The profile text from field 5 on.
#[verifier::opaque]
pub open spec fn jsuf5(m: InputModel) -> Seq<u8> {
    lab_state_root() + (hex_of(m.state_root) + jsuf6(m))
}

/// The profile text from field 4 on.
#[verifier::opaque]
pub open spec fn jsuf4(m: InputModel) -> Seq<u8> {
    lab_withdrawal_index() + (hex_of(be_bytes(m.withdrawal_index)) + jsuf5(m))
}

/// The profile text from field 3 on.
#[verifier::opaque]
pub open spec fn jsuf3(m: InputModel) -> Seq<u8> {
    lab_cumulative() + (hex_of(be_bytes(m.cumulative_withdrawn_amount)) + jsuf4(m))
}

/// The profile text from field 2 on.
#[verifier::opaque]
pub open spec fn jsuf2(m: InputModel) -> Seq<u8> {
    lab_withdraw_amount() + (hex_of(be_bytes(m.withdraw_amount)) + jsuf3(m))
}

/// The profile text from field 1 on.
#[verifier::opaque]
pub open spec fn jsuf1(m: InputModel) -> Seq<u8> {
    lab_deposit_amount() + (hex_of(be_bytes(m.deposit_amount)) + jsuf2(m))
}

/// The profile text from field 0 on.
#[verifier::opaque]
pub open spec fn jsuf0(m: InputModel) -> Seq<u8> {
    lab_secret() + (hex_of(m.secret) + jsuf1(m))
}

/// The JSON text of an input record.
#[verifier::opaque]
pub open spec fn json_of(m: InputModel) -> Seq<u8> {
    jsuf0(m)
}

/// Append the hex text of `src`.
fn push_hex(out: &mut Vec<u8>, src: &Vec<u8>)
    ensures
        final(out)@ == old(out)@ + hex_of(src@),
{
    let n = src.len();
    let mut i: usize = 0;
    while i < n
        invariant
            i <= n,
            n == src@.len(),
            out@ =~= old(out)@ + hex_of(src@).take(2 * i as int),
        decreases n - i,
    {
        let b0 = src[i];
        let hi = b0 >> 4;
        let lo = b0 & 0xf;
        proof {
            assert(b0 >> 4 < 16 && b0 & 0xf < 16) by (bit_vector);
        }
        out.push(if hi < 10 { 0x30 + hi } else { 0x57 + hi });
        out.push(if lo < 10 { 0x30 + lo } else { 0x57 + lo });
        i = i + 1;
        proof {
            assert(out@ =~= old(out)@ + hex_of(src@).take(2 * i as int));
        }
    }
    proof {
        assert(hex_of(src@).take(2 * n as int) =~= hex_of(src@));
    }
}

/// Append one quoted hex list item.
fn push_jitem(out: &mut Vec<u8>, b: &Vec<u8>)
    ensures
        final(out)@ == old(out)@ + jitem_of(b@),
{
    out.push(0x22);
    out.push(0x30);
    out.push(0x78);
    push_hex(out, b);
    out.push(0x22);
    proof {
        assert(out@ =~= old(out)@ + jitem_of(b@));
    }
}

/// Append a comma-joined list body.
fn push_jlist(out: &mut Vec<u8>, items: &Vec<Vec<u8>>)
    ensures
        final(out)@ == old(out)@ + jlist_of(views_of(items@)),
{
    let n = items.len();
    let mut i: usize = 0;
    while i < n
        invariant
            i <= n,
            n == items@.len(),
            out@ =~= old(out)@ + jlist_of(views_of(items@).take(i as int)),
        decreases n - i,
    {
        if i > 0 {
            out.push(0x2c);
        }
        push_jitem(out, &items[i]);
        i = i + 1;
        proof {
            lemma_jlist_take_step(views_of(items@), i as int);
            assert(views_of(items@)[i - 1] == items@[i - 1]@);
            assert(out@ =~= old(out)@ + jlist_of(views_of(items@).take(i as int)));
        }
    }
    proof {
        assert(views_of(items@).take(n as int) =~= views_of(items@));
    }
}

/// Growing a list body by one item appends a comma (past the first item)
/// and the item.
proof fn lemma_jlist_take_step(items: Seq<Seq<u8>>, i: int)
    requires
        1 <= i <= items.len(),
    ensures
        i == 1 ==> jlist_of(items.take(1)) == jitem_of(items[0]),
        i > 1 ==> jlist_of(items.take(i)) == jlist_of(items.take(i - 1)) + seq![0x2cu8]
            + jitem_of(items[i - 1]),
    decreases i,
{
    if i == 1 {
        assert(items.take(1).len() == 1);
        assert(items.take(1)[0] == items[0]);
    } else {
        lemma_jlist_take_step(items.drop_first(), i - 1);
        let t = items.take(i);
        assert(t.len() >= 2);
        assert(t[0] == items[0]);
        assert(t.drop_first() =~= items.drop_first().take(i - 1));
        assert(items.take(i - 1).drop_first() =~= items.drop_first().take(i - 2));
        assert(items.take(i - 1)[0] == items[0]);
        assert(items.take(i - 1).len() == i - 1);
        if i == 2 {
            assert(jlist_of(items.take(1)) == jitem_of(items[0]));
            assert(items.drop_first().take(1)[0] == items[1]);
            assert(jlist_of(items.drop_first().take(1)) == jitem_of(items[1]));
        } else {
            assert(jlist_of(items.take(i)) == jitem_of(items[0]) + seq![0x2cu8] + jlist_of(
                items.drop_first().take(i - 1),
            ));
            assert(jlist_of(items.take(i - 1)) == jitem_of(items[0]) + seq![0x2cu8] + jlist_of(
                items.drop_first().take(i - 2),
            ));
        }
        assert(items.drop_first()[i - 2] == items[i - 1]);
    }
}

/// Write an input record as its JSON profile text.
#[verifier::rlimit(100)]
#[verifier::spinoff_prover]
pub fn to_json(input: &WormholeProgramInput) -> (r: Vec<u8>)
    ensures
        r@ == json_of(input@),
{
    let mut out: Vec<u8> = Vec::new();
    push_lab_secret(&mut out);
    push_hex(&mut out, input.secret.as_bytes());
    push_lab_deposit_amount(&mut out);
    let deposit_be = input.deposit_amount.to_be_bytes();
    push_hex(&mut out, &deposit_be);
    push_lab_withdraw_amount(&mut out);
    let withdraw_be = input.withdraw_amount.to_be_bytes();
    push_hex(&mut out, &withdraw_be);
    push_lab_cumulative(&mut out);
    let cumulative_be = input.cumulative_withdrawn_amount.to_be_bytes();
    push_hex(&mut out, &cumulative_be);
    push_lab_withdrawal_index(&mut out);
    let index_be = input.withdrawal_index.to_be_bytes();
    push_hex(&mut out, &index_be);
    push_lab_state_root(&mut out);
    push_hex(&mut out, &input.state_root);
    push_lab_deposit_proof(&mut out);
    push_jlist(&mut out, &input.deposit_account_proof);
    push_lab_nullifier_address(&mut out);
    push_hex(&mut out, &input.nullifier_address);
    push_lab_nullifier_proof(&mut out);
    push_jlist(&mut out, &input.nullifier_account_proof);
    push_lab_previous_proof(&mut out);
    push_jlist(&mut out, &input.previous_nullifier_storage_proof);
    push_lab_tail(&mut out);
    proof {
        reveal(json_of);
        reveal(jsuf0);
        reveal(jsuf1);
        reveal(jsuf2);
        reveal(jsuf3);
        reveal(jsuf4);
        reveal(jsuf5);
        reveal(jsuf6);
        reveal(jsuf7);
        reveal(jsuf8);
        reveal(jsuf9);
        reveal(jsuf10);
        assert(out@ =~= json_of(input@));
    }
    out
}

/// Append the profile text `{"secret":"0x`.
fn push_lab_secret(out: &mut Vec<u8>)
    ensures
        final(out)@ == old(out)@ + lab_secret(),
{
    out.push(0x7b);
    out.push(0x22);
    out.push(0x73);
    out.push(0x65);
    out.push(0x63);
    out.push(0x72);
    out.push(0x65);
    out.push(0x74);
    out.push(0x22);
    out.push(0x3a);
    out.push(0x22);
    out.push(0x30);
    out.push(0x78);
    proof {
        assert(out@ =~= old(out)@ + lab_secret());
    }
}

/// Append the profile text `","depositAmount":"0x`.
fn push_lab_deposit_amount(out: &mut Vec<u8>)
    ensures
        final(out)@ == old(out)@ + lab_deposit_amount(),
{
    out.push(0x22);
    out.push(0x2c);
    out.push(0x22);
    out.push(0x64);
    out.push(0x65);
    out.push(0x70);
    out.push(0x6f);
    out.push(0x73);
    out.push(0x69);
    out.push(0x74);
    out.push(0x41);
    out.push(0x6d);
    out.push(0x6f);
    out.push(0x75);
    out.push(0x6e);
    out.push(0x74);
    out.push(0x22);
    out.push(0x3a);
    out.push(0x22);
    out.push(0x30);
    out.push(0x78);
    proof {
        assert(out@ =~= old(out)@ + lab_deposit_amount());
    }
}

/// Append the profile text `","withdrawAmount":"0x`.
fn push_lab_withdraw_amount(out: &mut Vec<u8>)
    ensures
        final(out)@ == old(out)@ + lab_withdraw_amount(),
{
    out.push(0x22);
    out.push(0x2c);
    out.push(0x22);
    out.push(0x77);
    out.push(0x69);
    out.push(0x74);
    out.push(0x68);
    out.push(0x64);
    out.push(0x72);
    out.push(0x61);
    out.push(0x77);
    out.push(0x41);
    out.push(0x6d);
    out.push(0x6f);
    out.push(0x75);
    out.push(0x6e);
    out.push(0x74);
    out.push(0x22);
    out.push(0x3a);
    out.push(0x22);
    out.push(0x30);
    out.push(0x78);
    proof {
        assert(out@ =~= old(out)@ + lab_withdraw_amount());
    }
}

/// Append the profile text `","cumulativeWithdrawnAmount":"0x`.
fn push_lab_cumulative(out: &mut Vec<u8>)
    ensures
        final(out)@ == old(out)@ + lab_cumulative(),
{
    out.push(0x22);
    out.push(0x2c);
    out.push(0x22);
    out.push(0x63);
    out.push(0x75);
    out.push(0x6d);
    out.push(0x75);
    out.push(0x6c);
    out.push(0x61);
    out.push(0x74);
    out.push(0x69);
    out.push(0x76);
    out.push(0x65);
    out.push(0x57);
    out.push(0x69);
    out.push(0x74);
    out.push(0x68);
    out.push(0x64);
    out.push(0x72);
    out.push(0x61);
    out.push(0x77);
    out.push(0x6e);
    out.push(0x41);
    out.push(0x6d);
    out.push(0x6f);
    out.push(0x75);
    out.push(0x6e);
    out.push(0x74);
    out.push(0x22);
    out.push(0x3a);
    out.push(0x22);
    out.push(0x30);
    out.push(0x78);
    proof {
        assert(out@ =~= old(out)@ + lab_cumulative());
    }
}

/// Append the profile text `","withdrawalIndex":"0x`.
fn push_lab_withdrawal_index(out: &mut Vec<u8>)
    ensures
        final(out)@ == old(out)@ + lab_withdrawal_index(),
{
    out.push(0x22);
    out.push(0x2c);
    out.push(0x22);
    out.push(0x77);
    out.push(0x69);
    out.push(0x74);
    out.push(0x68);
    out.push(0x64);
    out.push(0x72);
    out.push(0x61);
    out.push(0x77);
    out.push(0x61);
    out.push(0x6c);
    out.push(0x49);
    out.push(0x6e);
    out.push(0x64);
    out.push(0x65);
    out.push(0x78);
    out.push(0x22);
    out.push(0x3a);
    out.push(0x22);
    out.push(0x30);
    out.push(0x78);
    proof {
        assert(out@ =~= old(out)@ + lab_withdrawal_index());
    }
}

/// Append the profile text `","stateRoot":"0x`.
fn push_lab_state_root(out: &mut Vec<u8>)
    ensures
        final(out)@ == old(out)@ + lab_state_root(),
{
    out.push(0x22);
    out.push(0x2c);
    out.push(0x22);
    out.push(0x73);
    out.push(0x74);
    out.push(0x61);
    out.push(0x74);
    out.push(0x65);
    out.push(0x52);
    out.push(0x6f);
    out.push(0x6f);
    out.push(0x74);
    out.push(0x22);
    out.push(0x3a);
    out.push(0x22);
    out.push(0x30);
    out.push(0x78);
    proof {
        assert(out@ =~= old(out)@ + lab_state_root());
    }
}

/// Append the profile text `","depositAccountProof":[`.
fn push_lab_deposit_proof(out: &mut Vec<u8>)
    ensures
        final(out)@ == old(out)@ + lab_deposit_proof(),
{
    out.push(0x22);
    out.push(0x2c);
    out.push(0x22);
    out.push(0x64);
    out.push(0x65);
    out.push(0x70);
    out.push(0x6f);
    out.push(0x73);
    out.push(0x69);
    out.push(0x74);
    out.push(0x41);
    out.push(0x63);
    out.push(0x63);
    out.push(0x6f);
    out.push(0x75);
    out.push(0x6e);
    out.push(0x74);
    out.push(0x50);
    out.push(0x72);
    out.push(0x6f);
    out.push(0x6f);
    out.push(0x66);
    out.push(0x22);
    out.push(0x3a);
    out.push(0x5b);
    proof {
        assert(out@ =~= old(out)@ + lab_deposit_proof());
    }
}

/// Append the profile text `],"nullifierAddress":"0x`.
fn push_lab_nullifier_address(out: &mut Vec<u8>)
    ensures
        final(out)@ == old(out)@ + lab_nullifier_address(),
{
    out.push(0x5d);
    out.push(0x2c);
    out.push(0x22);
    out.push(0x6e);
    out.push(0x75);
    out.push(0x6c);
    out.push(0x6c);
    out.push(0x69);
    out.push(0x66);
    out.push(0x69);
    out.push(0x65);
    out.push(0x72);
    out.push(0x41);
    out.push(0x64);
    out.push(0x64);
    out.push(0x72);
    out.push(0x65);
    out.push(0x73);
    out.push(0x73);
    out.push(0x22);
    out.push(0x3a);
    out.push(0x22);
    out.push(0x30);
    out.push(0x78);
    proof {
        assert(out@ =~= old(out)@ + lab_nullifier_address());
    }
}

/// Append the profile text `","nullifierAccountProof":[`.
fn push_lab_nullifier_proof(out: &mut Vec<u8>)
    ensures
        final(out)@ == old(out)@ + lab_nullifier_proof(),
{
    out.push(0x22);
    out.push(0x2c);
    out.push(0x22);
    out.push(0x6e);
    out.push(0x75);
    out.push(0x6c);
    out.push(0x6c);
    out.push(0x69);
    out.push(0x66);
    out.push(0x69);
    out.push(0x65);
    out.push(0x72);
    out.push(0x41);
    out.push(0x63);
    out.push(0x63);
    out.push(0x6f);
    out.push(0x75);
    out.push(0x6e);
    out.push(0x74);
    out.push(0x50);
    out.push(0x72);
    out.push(0x6f);
    out.push(0x6f);
    out.push(0x66);
    out.push(0x22);
    out.push(0x3a);
    out.push(0x5b);
    proof {
        assert(out@ =~= old(out)@ + lab_nullifier_proof());
    }
}

/// Append the profile text `],"previousNullifierStorageProof":[`.
fn push_lab_previous_proof(out: &mut Vec<u8>)
    ensures
        final(out)@ == old(out)@ + lab_previous_proof(),
{
    out.push(0x5d);
    out.push(0x2c);
    out.push(0x22);
    out.push(0x70);
    out.push(0x72);
    out.push(0x65);
    out.push(0x76);
    out.push(0x69);
    out.push(0x6f);
    out.push(0x75);
    out.push(0x73);
    out.push(0x4e);
    out.push(0x75);
    out.push(0x6c);
    out.push(0x6c);
    out.push(0x69);
    out.push(0x66);
    out.push(0x69);
    out.push(0x65);
    out.push(0x72);
    out.push(0x53);
    out.push(0x74);
    out.push(0x6f);
    out.push(0x72);
    out.push(0x61);
    out.push(0x67);
    out.push(0x65);
    out.push(0x50);
    out.push(0x72);
    out.push(0x6f);
    out.push(0x6f);
    out.push(0x66);
    out.push(0x22);
    out.push(0x3a);
    out.push(0x5b);
    proof {
        assert(out@ =~= old(out)@ + lab_previous_proof());
    }
}

/// Append the profile text `]}`.
fn push_lab_tail(out: &mut Vec<u8>)
    ensures
        final(out)@ == old(out)@ + lab_tail(),
{
    out.push(0x5d);
    out.push(0x7d);
    proof {
        assert(out@ =~= old(out)@ + lab_tail());
    }
}

/// Whether `lit` stands at `pos` of `b`; the position after it if so.
pub open spec fn spec_expect(b: Seq<u8>, pos: int, lit: Seq<u8>) -> Option<int> {
    if 0 <= pos && pos + lit.len() <= b.len() && b.subrange(pos, pos + lit.len() as int) == lit {
        Some(pos + lit.len() as int)
    } else {
        None
    }
}

/// Read hex digit pairs at `pos` until the first non-digit: the bytes they
/// spell and the position after them. An odd run of digits, or digits
/// running to the end of the input, is malformed.
pub open spec fn spec_parse_hex(b: Seq<u8>, pos: int) -> Option<(Seq<u8>, int)>
    decreases b.len() - pos,
{
    if pos < 0 || pos >= b.len() {
        None
    } else if unhex(b[pos]) is Some {
        if pos + 1 < b.len() && unhex(b[pos + 1]) is Some {
            let hi = unhex(b[pos])->Some_0;
            let lo = unhex(b[pos + 1])->Some_0;
            match spec_parse_hex(b, pos + 2) {
                None => None,
                Some((rest, p)) => Some((seq![(hi * 16 + lo) as u8] + rest, p)),
            }
        } else {
            None
        }
    } else {
        Some((seq![], pos))
    }
}

/// Read one or more quoted hex items joined by commas; the position after
/// the last item's closing quote. The byte there is left unread.
pub open spec fn spec_parse_jitems(b: Seq<u8>, pos: int) -> Option<(Seq<Seq<u8>>, int)>
    decreases b.len() - pos,
{
    match spec_expect(b, pos, seq![0x22u8, 0x30, 0x78]) {
        None => None,
        Some(q) => match spec_parse_hex(b, q) {
            None => None,
            Some((v, p2)) => match spec_expect(b, p2, seq![0x22u8]) {
                None => None,
                Some(p3) => if p3 < b.len() && b[p3] == 0x2c {
                    if pos < p3 + 1 <= b.len() {
                        match spec_parse_jitems(b, p3 + 1) {
                            None => None,
                            Some((rest, p4)) => Some((seq![v] + rest, p4)),
                        }
                    } else {
                        None
                    }
                } else {
                    Some((seq![v], p3))
                },
            },
        },
    }
}

/// Read a list body at `pos`: empty when the closing bracket stands right
/// there, else comma-joined items. The closing bracket is left unread.
pub open spec fn spec_parse_jlist(b: Seq<u8>, pos: int) -> Option<(Seq<Seq<u8>>, int)> {
    if 0 <= pos < b.len() && b[pos] == 0x5d {
        Some((seq![], pos))
    } else {
        spec_parse_jitems(b, pos)
    }
}

/// Read an input record from its JSON profile text, which it must fill
/// exactly.
pub open spec fn spec_parse_json(b: Seq<u8>) -> Option<InputModel> {
    match spec_expect(b, 0int, lab_secret()) {
        None => None,
        Some(q0) => match spec_parse_hex(b, q0) {
            None => None,
            Some((v0, p0)) =>
        {
        match spec_expect(b, p0, lab_deposit_amount()) {
            None => None,
            Some(q1) => match spec_parse_hex(b, q1) {
                None => None,
                Some((v1, p1)) =>
            if v1.len() != 32 {
                None
            } else {
            match spec_expect(b, p1, lab_withdraw_amount()) {
                None => None,
                Some(q2) => match spec_parse_hex(b, q2) {
                    None => None,
                    Some((v2, p2)) =>
                if v2.len() != 32 {
                    None
                } else {
                match spec_expect(b, p2, lab_cumulative()) {
                    None => None,
                    Some(q3) => match spec_parse_hex(b, q3) {
                        None => None,
                        Some((v3, p3)) =>
                    if v3.len() != 32 {
                        None
                    } else {
                    match spec_expect(b, p3, lab_withdrawal_index()) {
                        None => None,
                        Some(q4) => match spec_parse_hex(b, q4) {
                            None => None,
                            Some((v4, p4)) =>
                        if v4.len() != 32 {
                            None
                        } else {
                        match spec_expect(b, p4, lab_state_root()) {
                            None => None,
                            Some(q5) => match spec_parse_hex(b, q5) {
                                None => None,
                                Some((v5, p5)) =>
                            {
                            match spec_expect(b, p5, lab_deposit_proof()) {
                                None => None,
                                Some(q6) => match spec_parse_jlist(b, q6) {
                                    None => None,
                                    Some((v6, p6)) =>
                                {
                                match spec_expect(b, p6, lab_nullifier_address()) {
                                    None => None,
                                    Some(q7) => match spec_parse_hex(b, q7) {
                                        None => None,
                                        Some((v7, p7)) =>
                                    {
                                    match spec_expect(b, p7, lab_nullifier_proof()) {
                                        None => None,
                                        Some(q8) => match spec_parse_jlist(b, q8) {
                                            None => None,
                                            Some((v8, p8)) =>
                                        {
                                        match spec_expect(b, p8, lab_previous_proof()) {
                                            None => None,
                                            Some(q9) => match spec_parse_jlist(b, q9) {
                                                None => None,
                                                Some((v9, p9)) =>
                                            {
                                            match spec_expect(b, p9, lab_tail()) {
                                                None => None,
                                                Some(pe) => if pe == b.len() {
                                                    Some(
                                                        InputModel {
                                                            secret: v0,
                                                            deposit_amount: u256_of_be_bytes(v1),
                                                            withdraw_amount: u256_of_be_bytes(v2),
                                                            cumulative_withdrawn_amount: u256_of_be_bytes(v3),
                                                            withdrawal_index: u256_of_be_bytes(v4),
                                                            state_root: v5,
                                                            deposit_account_proof: v6,
                                                            nullifier_address: v7,
                                                            nullifier_account_proof: v8,
                                                            previous_nullifier_storage_proof: v9,
                                                        },
                                                    )
                                                } else {
                                                    None
                                                },
                                            }
                                            },
                                            },
                                        }
                                        },
                                        },
                                    }
                                    },
                                    },
                                }
                                },
                                },
                            }
                            },
                            },
                        }
                        },
                        },
                    }
                    },
                    },
                }
                },
                },
            }
            },
            },
        }
        },
        },
    }
}

/// Whether `lit` stands at `pos` of `b`.
fn expect_lit(b: &Vec<u8>, pos: usize, lit: &Vec<u8>) -> (r: Option<usize>)
    ensures
        match spec_expect(b@, pos as int, lit@) {
            Some(p) => r matches Some(rp) && rp == p,
            None => r is None,
        },
{
    let n = b.len();
    let m = lit.len();
    if pos > n || m > n - pos {
        proof {
            assert(spec_expect(b@, pos as int, lit@) is None);
        }
        return None;
    }
    let mut j: usize = 0;
    while j < m
        invariant
            j <= m,
            m == lit@.len(),
            n == b@.len(),
            pos + m <= n,
            forall|k: int| 0 <= k < j ==> b@[pos + k] == lit@[k],
        decreases m - j,
    {
        if b[pos + j] != lit[j] {
            proof {
                assert(b@.subrange(pos as int, pos + m) != lit@);
            }
            return None;
        }
        j = j + 1;
    }
    proof {
        assert(b@.subrange(pos as int, pos + m) =~= lit@);
    }
    Some(pos + m)
}

/// The nibble of a hex digit, or `None` for any other byte.
fn unhex_byte(c: u8) -> (r: Option<u8>)
    ensures
        r == unhex(c),
{
    if 0x30 <= c && c <= 0x39 {
        Some(c - 0x30)
    } else if 0x61 <= c && c <= 0x66 {
        Some(c - 0x57)
    } else {
        None
    }
}

/// Read hex digit pairs at `pos` until the first non-digit.
fn parse_hex_at(b: &Vec<u8>, pos: usize) -> (r: Option<(Vec<u8>, usize)>)
    ensures
        match spec_parse_hex(b@, pos as int) {
            Some((v, p)) => r matches Some((rv, rp)) && rv@ == v && rp == p,
            None => r is None,
        },
    decreases b@.len() - pos,
{
    let n = b.len();
    if pos >= n {
        return None;
    }
    let d0 = unhex_byte(b[pos]);
    match d0 {
        None => Some((Vec::new(), pos)),
        Some(hi) => {
            if pos + 1 < n {
                match unhex_byte(b[pos + 1]) {
                    None => None,
                    Some(lo) => {
                        match parse_hex_at(b, pos + 2) {
                            None => None,
                            Some((rest, p)) => {
                                let mut v: Vec<u8> = Vec::new();
                                v.push(hi * 16 + lo);
                                let mut tail = rest;
                                v.append(&mut tail);
                                proof {
                                    assert(v@ =~= seq![(hi * 16 + lo) as u8]
                                        + spec_parse_hex(b@, pos + 2)->Some_0.0);
                                }
                                Some((v, p))
                            },
                        }
                    },
                }
            } else {
                None
            }
        },
    }
}

/// Read one or more quoted hex items joined by commas.
fn parse_jitems_at(b: &Vec<u8>, pos: usize) -> (r: Option<(Vec<Vec<u8>>, usize)>)
    ensures
        match spec_parse_jitems(b@, pos as int) {
            Some((items, p)) => r matches Some((rv, rp)) && views_of(rv@) == items && rp == p,
            None => r is None,
        },
    decreases b@.len() - pos,
{
    let n = b.len();
    let mut opener: Vec<u8> = Vec::new();
    opener.push(0x22);
    opener.push(0x30);
    opener.push(0x78);
    proof {
        assert(opener@ =~= seq![0x22u8, 0x30, 0x78]);
    }
    let q = match expect_lit(b, pos, &opener) {
        None => {
            return None;
        },
        Some(p) => p,
    };
    let (v, p2) = match parse_hex_at(b, q) {
        None => {
            return None;
        },
        Some(v) => v,
    };
    let mut quote: Vec<u8> = Vec::new();
    quote.push(0x22);
    proof {
        assert(quote@ =~= seq![0x22u8]);
    }
    let p3 = match expect_lit(b, p2, &quote) {
        None => {
            return None;
        },
        Some(p) => p,
    };
    if p3 < n && b[p3] == 0x2c {
        if !(pos < p3 + 1 && p3 + 1 <= n) {
            return None;
        }
        match parse_jitems_at(b, p3 + 1) {
            None => None,
            Some((rest, p4)) => {
                let ghost rest_views = views_of(rest@);
                let mut items: Vec<Vec<u8>> = Vec::new();
                items.push(v);
                let mut tail = rest;
                items.append(&mut tail);
                proof {
                    assert(views_of(items@) =~= seq![items@[0]@] + rest_views);
                }
                Some((items, p4))
            },
        }
    } else {
        let mut items: Vec<Vec<u8>> = Vec::new();
        items.push(v);
        proof {
            assert(views_of(items@) =~= seq![items@[0]@]);
        }
        Some((items, p3))
    }
}

/// Read a list body at `pos`.
fn parse_jlist_at(b: &Vec<u8>, pos: usize) -> (r: Option<(Vec<Vec<u8>>, usize)>)
    ensures
        match spec_parse_jlist(b@, pos as int) {
            Some((items, p)) => r matches Some((rv, rp)) && views_of(rv@) == items && rp == p,
            None => r is None,
        },
{
    let n = b.len();
    if pos < n && b[pos] == 0x5d {
        proof {
            assert(views_of(Seq::<Vec<u8>>::empty()) =~= Seq::<Seq<u8>>::empty());
        }
        Some((Vec::new(), pos))
    } else {
        parse_jitems_at(b, pos)
    }
}

/// The profile text of this label, as a vector.
fn lab_secret_vec() -> (r: Vec<u8>)
    ensures
        r@ == lab_secret(),
{
    let mut v: Vec<u8> = Vec::new();
    push_lab_secret(&mut v);
    v
}

/// The profile text of this label, as a vector.
fn lab_deposit_amount_vec() -> (r: Vec<u8>)
    ensures
        r@ == lab_deposit_amount(),
{
    let mut v: Vec<u8> = Vec::new();
    push_lab_deposit_amount(&mut v);
    v
}

/// The profile text of this label, as a vector.
fn lab_withdraw_amount_vec() -> (r: Vec<u8>)
    ensures
        r@ == lab_withdraw_amount(),
{
    let mut v: Vec<u8> = Vec::new();
    push_lab_withdraw_amount(&mut v);
    v
}

/// The profile text of this label, as a vector.
fn lab_cumulative_vec() -> (r: Vec<u8>)
    ensures
        r@ == lab_cumulative(),
{
    let mut v: Vec<u8> = Vec::new();
    push_lab_cumulative(&mut v);
    v
}

/// The profile text of this label, as a vector.
fn lab_withdrawal_index_vec() -> (r: Vec<u8>)
    ensures
        r@ == lab_withdrawal_index(),
{
    let mut v: Vec<u8> = Vec::new();
    push_lab_withdrawal_index(&mut v);
    v
}

/// The profile text of this label, as a vector.
fn lab_state_root_vec() -> (r: Vec<u8>)
    ensures
        r@ == lab_state_root(),
{
    let mut v: Vec<u8> = Vec::new();
    push_lab_state_root(&mut v);
    v
}

/// The profile text of this label, as a vector.
fn lab_deposit_proof_vec() -> (r: Vec<u8>)
    ensures
        r@ == lab_deposit_proof(),
{
    let mut v: Vec<u8> = Vec::new();
    push_lab_deposit_proof(&mut v);
    v
}

/// The profile text of this label, as a vector.
fn lab_nullifier_address_vec() -> (r: Vec<u8>)
    ensures
        r@ == lab_nullifier_address(),
{
    let mut v: Vec<u8> = Vec::new();
    push_lab_nullifier_address(&mut v);
    v
}

/// The profile text of this label, as a vector.
fn lab_nullifier_proof_vec() -> (r: Vec<u8>)
    ensures
        r@ == lab_nullifier_proof(),
{
    let mut v: Vec<u8> = Vec::new();
    push_lab_nullifier_proof(&mut v);
    v
}

/// The profile text of this label, as a vector.
fn lab_previous_proof_vec() -> (r: Vec<u8>)
    ensures
        r@ == lab_previous_proof(),
{
    let mut v: Vec<u8> = Vec::new();
    push_lab_previous_proof(&mut v);
    v
}
/// The profile text of the closing label, as a vector.
fn lab_tail_vec() -> (r: Vec<u8>)
    ensures
        r@ == lab_tail(),
{
    let mut v: Vec<u8> = Vec::new();
    push_lab_tail(&mut v);
    v
}

/// Read an input record from its JSON profile text.
#[verifier::rlimit(100)]
#[verifier::spinoff_prover]
pub fn from_json(b: &Vec<u8>) -> (r: Option<WormholeProgramInput>)
    ensures
        match spec_parse_json(b@) {
            Some(m) => r matches Some(inp) && inp@ == m,
            None => r is None,
        },
{
    let lit0 = lab_secret_vec();
    let q0 = match expect_lit(b, 0usize, &lit0) {
        None => {
            return None;
        },
        Some(p) => p,
    };
    let (v0, p0) = match parse_hex_at(b, q0) {
        None => {
            return None;
        },
        Some(v) => v,
    };
    let lit1 = lab_deposit_amount_vec();
    let q1 = match expect_lit(b, p0, &lit1) {
        None => {
            return None;
        },
        Some(p) => p,
    };
    let (v1, p1) = match parse_hex_at(b, q1) {
        None => {
            return None;
        },
        Some(v) => v,
    };
    if v1.len() != 32 {
        return None;
    }
    let u1 = U256::from_be_bytes(&v1);
    let lit2 = lab_withdraw_amount_vec();
    let q2 = match expect_lit(b, p1, &lit2) {
        None => {
            return None;
        },
        Some(p) => p,
    };
    let (v2, p2) = match parse_hex_at(b, q2) {
        None => {
            return None;
        },
        Some(v) => v,
    };
    if v2.len() != 32 {
        return None;
    }
    let u2 = U256::from_be_bytes(&v2);
    let lit3 = lab_cumulative_vec();
    let q3 = match expect_lit(b, p2, &lit3) {
        None => {
            return None;
        },
        Some(p) => p,
    };
    let (v3, p3) = match parse_hex_at(b, q3) {
        None => {
            return None;
        },
        Some(v) => v,
    };
    if v3.len() != 32 {
        return None;
    }
    let u3 = U256::from_be_bytes(&v3);
    let lit4 = lab_withdrawal_index_vec();
    let q4 = match expect_lit(b, p3, &lit4) {
        None => {
            return None;
        },
        Some(p) => p,
    };
    let (v4, p4) = match parse_hex_at(b, q4) {
        None => {
            return None;
        },
        Some(v) => v,
    };
    if v4.len() != 32 {
        return None;
    }
    let u4 = U256::from_be_bytes(&v4);
    let lit5 = lab_state_root_vec();
    let q5 = match expect_lit(b, p4, &lit5) {
        None => {
            return None;
        },
        Some(p) => p,
    };
    let (v5, p5) = match parse_hex_at(b, q5) {
        None => {
            return None;
        },
        Some(v) => v,
    };
    let lit6 = lab_deposit_proof_vec();
    let q6 = match expect_lit(b, p5, &lit6) {
        None => {
            return None;
        },
        Some(p) => p,
    };
    let (v6, p6) = match parse_jlist_at(b, q6) {
        None => {
            return None;
        },
        Some(v) => v,
    };
    let lit7 = lab_nullifier_address_vec();
    let q7 = match expect_lit(b, p6, &lit7) {
        None => {
            return None;
        },
        Some(p) => p,
    };
    let (v7, p7) = match parse_hex_at(b, q7) {
        None => {
            return None;
        },
        Some(v) => v,
    };
    let lit8 = lab_nullifier_proof_vec();
    let q8 = match expect_lit(b, p7, &lit8) {
        None => {
            return None;
        },
        Some(p) => p,
    };
    let (v8, p8) = match parse_jlist_at(b, q8) {
        None => {
            return None;
        },
        Some(v) => v,
    };
    let lit9 = lab_previous_proof_vec();
    let q9 = match expect_lit(b, p8, &lit9) {
        None => {
            return None;
        },
        Some(p) => p,
    };
    let (v9, p9) = match parse_jlist_at(b, q9) {
        None => {
            return None;
        },
        Some(v) => v,
    };
    let litt = lab_tail_vec();
    let pe = match expect_lit(b, p9, &litt) {
        None => {
            return None;
        },
        Some(p) => p,
    };
    if pe != b.len() {
        return None;
    }
    let out = WormholeProgramInput {
        secret: WormholeSecret::new_unchecked(v0),
        deposit_amount: u1,
        withdraw_amount: u2,
        cumulative_withdrawn_amount: u3,
        withdrawal_index: u4,
        state_root: v5,
        deposit_account_proof: v6,
        nullifier_address: v7,
        nullifier_account_proof: v8,
        previous_nullifier_storage_proof: v9,
    };
    proof {
        assert(out@ =~= spec_parse_json(b@)->Some_0);
    }
    Some(out)
}

/// Facts about a byte's nibbles: both are below 16 and reassemble to the
/// byte.
proof fn nibble_facts(x: u8)
    by (bit_vector)
    ensures
        x >> 4 < 16,
        x & 0xf < 16,
        (x >> 4) * 16 + (x & 0xf) == x,
{
}

/// Reading back the hex digit of a nibble gives the nibble.
proof fn lemma_unhex_digit(n: u8)
    requires
        n < 16,
    ensures
        unhex(hex_digit(n)) == Some(n),
{
}

/// Emitted hex text parses back to its bytes, up to the first byte after
/// it, which must not be a hex digit.
proof fn lemma_parse_hex_emitted(b: Seq<u8>, v: Seq<u8>, pos: int)
    requires
        0 <= pos,
        pos + 2 * v.len() < b.len(),
        b.subrange(pos, pos + 2 * v.len()) == hex_of(v),
        unhex(b[pos + 2 * v.len()]) is None,
    ensures
        spec_parse_hex(b, pos) == Some((v, pos + 2 * v.len() as int)),
    decreases v.len(),
{
    if v.len() == 0 {
        assert(spec_parse_hex(b, pos) == Some((Seq::<u8>::empty(), pos)));
        assert(Seq::<u8>::empty() =~= v);
    } else {
        let x = v[0];
        nibble_facts(x);
        lemma_unhex_digit(x >> 4);
        lemma_unhex_digit(x & 0xf);
        assert(b[pos] == hex_of(v)[0]);
        assert(b[pos + 1] == hex_of(v)[1]);
        assert(hex_of(v)[0] == hex_digit(x >> 4) && hex_of(v)[1] == hex_digit(x & 0xf));
        let w = v.drop_first();
        assert forall|i: int| 0 <= i < 2 * w.len() implies hex_of(v)[2 + i] == hex_of(w)[i] by {
            assert(v[(2 + i) / 2] == w[i / 2]);
        }
        assert(b.subrange(pos + 2, pos + 2 + 2 * w.len()) =~= hex_of(w));
        lemma_parse_hex_emitted(b, w, pos + 2);
        assert(seq![((x >> 4) * 16 + (x & 0xf)) as u8] + w =~= v);
    }
}

/// Emitted list items parse back to the items, up to the closing bracket
/// that follows them.
proof fn lemma_parse_jitems_emitted(b: Seq<u8>, items: Seq<Seq<u8>>, pos: int)
    requires
        items.len() >= 1,
        0 <= pos,
        pos + jlist_of(items).len() < b.len(),
        b.subrange(pos, pos + jlist_of(items).len()) == jlist_of(items),
        b[pos + jlist_of(items).len()] == 0x5d,
    ensures
        spec_parse_jitems(b, pos) == Some((items, pos + jlist_of(items).len() as int)),
    decreases items.len(),
{
    let v = items[0];
    let ji = jitem_of(v);
    let jl = jlist_of(items);
    assert(ji.len() == 4 + 2 * v.len());
    if items.len() == 1 {
        assert(jl == ji);
    } else {
        assert(jl == ji + seq![0x2cu8] + jlist_of(items.drop_first()));
    }
    assert forall|i: int| 0 <= i < ji.len() implies jl[i] == ji[i] by {}
    assert forall|i: int| 0 <= i < 2 * v.len() implies ji[3 + i] == hex_of(v)[i] by {}
    assert(b.subrange(pos, pos + 3) =~= seq![0x22u8, 0x30, 0x78]);
    assert(spec_expect(b, pos, seq![0x22u8, 0x30, 0x78]) == Some(pos + 3));
    assert(b.subrange(pos + 3, pos + 3 + 2 * v.len()) =~= hex_of(v));
    assert(b[pos + 3 + 2 * v.len()] == jl[3 + 2 * v.len() as int]);
    assert(ji[3 + 2 * v.len() as int] == 0x22);
    lemma_parse_hex_emitted(b, v, pos + 3);
    let p2 = pos + 3 + 2 * v.len() as int;
    assert(b.subrange(p2, p2 + 1) =~= seq![0x22u8]);
    assert(spec_expect(b, p2, seq![0x22u8]) == Some(p2 + 1));
    let p3 = p2 + 1;
    if items.len() == 1 {
        assert(p3 == pos + jl.len());
        assert(b[p3] == 0x5d);
        assert(seq![v] =~= items);
    } else {
        let rest = items.drop_first();
        assert(b[p3] == jl[ji.len() as int]);
        assert(jl[ji.len() as int] == 0x2c);
        assert forall|i: int| 0 <= i < jlist_of(rest).len() implies b[p3 + 1 + i] == jlist_of(
            rest,
        )[i] by {
            assert(b[p3 + 1 + i] == jl[ji.len() + 1 + i]);
            assert(jl[ji.len() + 1 + i] == jlist_of(rest)[i]);
        }
        assert(b.subrange(p3 + 1, p3 + 1 + jlist_of(rest).len()) =~= jlist_of(rest));
        assert(b[p3 + 1 + jlist_of(rest).len()] == 0x5d);
        lemma_parse_jitems_emitted(b, rest, p3 + 1);
        assert(seq![v] + rest =~= items);
        assert(p3 + 1 + jlist_of(rest).len() == pos + jl.len());
    }
}

/// An emitted list body parses back to its items, up to the closing
/// bracket that follows it.
proof fn lemma_parse_jlist_emitted(b: Seq<u8>, items: Seq<Seq<u8>>, pos: int)
    requires
        0 <= pos,
        pos + jlist_of(items).len() < b.len(),
        b.subrange(pos, pos + jlist_of(items).len()) == jlist_of(items),
        b[pos + jlist_of(items).len()] == 0x5d,
    ensures
        spec_parse_jlist(b, pos) == Some((items, pos + jlist_of(items).len() as int)),
{
    if items.len() == 0 {
        assert(b[pos] == 0x5d);
        assert(Seq::<Seq<u8>>::empty() =~= items);
    } else {
        assert(b[pos] == jlist_of(items)[0]);
        assert(jitem_of(items[0])[0] == 0x22);
        assert(jlist_of(items)[0] == 0x22);
        lemma_parse_jitems_emitted(b, items, pos);
    }
}

/// Where field 0 starts in the profile text.
pub open spec fn joff0(m: InputModel) -> int {
    0
}

/// Where field 1 starts in the profile text.
pub open spec fn joff1(m: InputModel) -> int {
    joff0(m) + lab_secret().len() + hex_of(m.secret).len()
}

/// Where field 2 starts in the profile text.
pub open spec fn joff2(m: InputModel) -> int {
    joff1(m) + lab_deposit_amount().len() + hex_of(be_bytes(m.deposit_amount)).len()
}

/// Where field 3 starts in the profile text.
pub open spec fn joff3(m: InputModel) -> int {
    joff2(m) + lab_withdraw_amount().len() + hex_of(be_bytes(m.withdraw_amount)).len()
}

/// Where field 4 starts in the profile text.
pub open spec fn joff4(m: InputModel) -> int {
    joff3(m) + lab_cumulative().len() + hex_of(be_bytes(m.cumulative_withdrawn_amount)).len()
}

/// Where field 5 starts in the profile text.
pub open spec fn joff5(m: InputModel) -> int {
    joff4(m) + lab_withdrawal_index().len() + hex_of(be_bytes(m.withdrawal_index)).len()
}

/// Where field 6 starts in the profile text.
pub open spec fn joff6(m: InputModel) -> int {
    joff5(m) + lab_state_root().len() + hex_of(m.state_root).len()
}

/// Where field 7 starts in the profile text.
pub open spec fn joff7(m: InputModel) -> int {
    joff6(m) + lab_deposit_proof().len() + jlist_of(m.deposit_account_proof).len()
}

/// Where field 8 starts in the profile text.
pub open spec fn joff8(m: InputModel) -> int {
    joff7(m) + lab_nullifier_address().len() + hex_of(m.nullifier_address).len()
}

/// Where field 9 starts in the profile text.
pub open spec fn joff9(m: InputModel) -> int {
    joff8(m) + lab_nullifier_proof().len() + jlist_of(m.nullifier_account_proof).len()
}

/// Where field 10 starts in the profile text.
pub open spec fn joff10(m: InputModel) -> int {
    joff9(m) + lab_previous_proof().len() + jlist_of(m.previous_nullifier_storage_proof).len()
}

/// Field 0 of an emitted record parses back to its payload.
#[verifier::spinoff_prover]
proof fn lemma_json_field0(m: InputModel)
    requires
        0 <= joff0(m),
        joff0(m) + jsuf0(m).len() == json_of(m).len(),
        json_of(m).subrange(joff0(m), json_of(m).len() as int) =~= jsuf0(m),
    ensures
        spec_expect(json_of(m), joff0(m), lab_secret()) == Some(joff0(m) + lab_secret().len() as int),
        spec_parse_hex(json_of(m), joff0(m) + lab_secret().len() as int) == Some(
            (m.secret, joff1(m)),
        ),
        json_of(m).subrange(joff1(m), json_of(m).len() as int) =~= jsuf1(m),
        0 <= joff1(m),
        joff1(m) + jsuf1(m).len() == json_of(m).len(),
{
    reveal(jsuf0);
    reveal(jsuf1);
    let b = json_of(m);
    let o = joff0(m);
    let q = o + lab_secret().len() as int;
    let e = joff1(m);
    let sub = b.subrange(o, b.len() as int);
    assert(sub.len() == jsuf0(m).len());
    assert(jsuf0(m).len() == lab_secret().len() + hex_of(m.secret).len() + jsuf1(m).len());
    assert forall|i: int| 0 <= i < lab_secret().len() implies b[o + i] == lab_secret()[i] by {
        assert(b[o + i] == sub[i]);
        assert(jsuf0(m)[i] == lab_secret()[i]);
    }
    assert forall|i: int| 0 <= i < hex_of(m.secret).len() implies b[q + i] == hex_of(m.secret)[i] by {
        assert(b[q + i] == sub[lab_secret().len() + i]);
        assert(jsuf0(m)[lab_secret().len() + i] == hex_of(m.secret)[i]);
    }
    assert forall|i: int| 0 <= i < jsuf1(m).len() implies b[e + i] == jsuf1(m)[i] by {
        assert(b[e + i] == sub[lab_secret().len() + hex_of(m.secret).len() + i]);
        assert(jsuf0(m)[lab_secret().len() + hex_of(m.secret).len() + i] == jsuf1(m)[i]);
    }
    assert(b.subrange(o, q) =~= lab_secret());
    assert(b.subrange(q, e) =~= hex_of(m.secret));
    assert(b.subrange(e, b.len() as int) =~= jsuf1(m));
    assert(b[e] == jsuf1(m)[0]);
    assert(b[e] == 0x22);
    lemma_parse_hex_emitted(b, m.secret, q);
}

/// Field 1 of an emitted record parses back to its payload.
#[verifier::spinoff_prover]
proof fn lemma_json_field1(m: InputModel)
    requires
        0 <= joff1(m),
        joff1(m) + jsuf1(m).len() == json_of(m).len(),
        json_of(m).subrange(joff1(m), json_of(m).len() as int) =~= jsuf1(m),
    ensures
        spec_expect(json_of(m), joff1(m), lab_deposit_amount()) == Some(joff1(m) + lab_deposit_amount().len() as int),
        spec_parse_hex(json_of(m), joff1(m) + lab_deposit_amount().len() as int) == Some(
            (be_bytes(m.deposit_amount), joff2(m)),
        ),
        json_of(m).subrange(joff2(m), json_of(m).len() as int) =~= jsuf2(m),
        0 <= joff2(m),
        joff2(m) + jsuf2(m).len() == json_of(m).len(),
{
    reveal(jsuf1);
    reveal(jsuf2);
    let b = json_of(m);
    let o = joff1(m);
    let q = o + lab_deposit_amount().len() as int;
    let e = joff2(m);
    let sub = b.subrange(o, b.len() as int);
    assert(sub.len() == jsuf1(m).len());
    assert(jsuf1(m).len() == lab_deposit_amount().len() + hex_of(be_bytes(m.deposit_amount)).len() + jsuf2(m).len());
    assert forall|i: int| 0 <= i < lab_deposit_amount().len() implies b[o + i] == lab_deposit_amount()[i] by {
        assert(b[o + i] == sub[i]);
        assert(jsuf1(m)[i] == lab_deposit_amount()[i]);
    }
    assert forall|i: int| 0 <= i < hex_of(be_bytes(m.deposit_amount)).len() implies b[q + i] == hex_of(be_bytes(m.deposit_amount))[i] by {
        assert(b[q + i] == sub[lab_deposit_amount().len() + i]);
        assert(jsuf1(m)[lab_deposit_amount().len() + i] == hex_of(be_bytes(m.deposit_amount))[i]);
    }
    assert forall|i: int| 0 <= i < jsuf2(m).len() implies b[e + i] == jsuf2(m)[i] by {
        assert(b[e + i] == sub[lab_deposit_amount().len() + hex_of(be_bytes(m.deposit_amount)).len() + i]);
        assert(jsuf1(m)[lab_deposit_amount().len() + hex_of(be_bytes(m.deposit_amount)).len() + i] == jsuf2(m)[i]);
    }
    assert(b.subrange(o, q) =~= lab_deposit_amount());
    assert(b.subrange(q, e) =~= hex_of(be_bytes(m.deposit_amount)));
    assert(b.subrange(e, b.len() as int) =~= jsuf2(m));
    assert(b[e] == jsuf2(m)[0]);
    assert(b[e] == 0x22);
    lemma_parse_hex_emitted(b, be_bytes(m.deposit_amount), q);
}

/// Field 2 of an emitted record parses back to its payload.
#[verifier::spinoff_prover]
proof fn lemma_json_field2(m: InputModel)
    requires
        0 <= joff2(m),
        joff2(m) + jsuf2(m).len() == json_of(m).len(),
        json_of(m).subrange(joff2(m), json_of(m).len() as int) =~= jsuf2(m),
    ensures
        spec_expect(json_of(m), joff2(m), lab_withdraw_amount()) == Some(joff2(m) + lab_withdraw_amount().len() as int),
        spec_parse_hex(json_of(m), joff2(m) + lab_withdraw_amount().len() as int) == Some(
            (be_bytes(m.withdraw_amount), joff3(m)),
        ),
        json_of(m).subrange(joff3(m), json_of(m).len() as int) =~= jsuf3(m),
        0 <= joff3(m),
        joff3(m) + jsuf3(m).len() == json_of(m).len(),
{
    reveal(jsuf2);
    reveal(jsuf3);
    let b = json_of(m);
    let o = joff2(m);
    let q = o + lab_withdraw_amount().len() as int;
    let e = joff3(m);
    let sub = b.subrange(o, b.len() as int);
    assert(sub.len() == jsuf2(m).len());
    assert(jsuf2(m).len() == lab_withdraw_amount().len() + hex_of(be_bytes(m.withdraw_amount)).len() + jsuf3(m).len());
    assert forall|i: int| 0 <= i < lab_withdraw_amount().len() implies b[o + i] == lab_withdraw_amount()[i] by {
        assert(b[o + i] == sub[i]);
        assert(jsuf2(m)[i] == lab_withdraw_amount()[i]);
    }
    assert forall|i: int| 0 <= i < hex_of(be_bytes(m.withdraw_amount)).len() implies b[q + i] == hex_of(be_bytes(m.withdraw_amount))[i] by {
        assert(b[q + i] == sub[lab_withdraw_amount().len() + i]);
        assert(jsuf2(m)[lab_withdraw_amount().len() + i] == hex_of(be_bytes(m.withdraw_amount))[i]);
    }
    assert forall|i: int| 0 <= i < jsuf3(m).len() implies b[e + i] == jsuf3(m)[i] by {
        assert(b[e + i] == sub[lab_withdraw_amount().len() + hex_of(be_bytes(m.withdraw_amount)).len() + i]);
        assert(jsuf2(m)[lab_withdraw_amount().len() + hex_of(be_bytes(m.withdraw_amount)).len() + i] == jsuf3(m)[i]);
    }
    assert(b.subrange(o, q) =~= lab_withdraw_amount());
    assert(b.subrange(q, e) =~= hex_of(be_bytes(m.withdraw_amount)));
    assert(b.subrange(e, b.len() as int) =~= jsuf3(m));
    assert(b[e] == jsuf3(m)[0]);
    assert(b[e] == 0x22);
    lemma_parse_hex_emitted(b, be_bytes(m.withdraw_amount), q);
}

/// Field 3 of an emitted record parses back to its payload.
#[verifier::spinoff_prover]
proof fn lemma_json_field3(m: InputModel)
    requires
        0 <= joff3(m),
        joff3(m) + jsuf3(m).len() == json_of(m).len(),
        json_of(m).subrange(joff3(m), json_of(m).len() as int) =~= jsuf3(m),
    ensures
        spec_expect(json_of(m), joff3(m), lab_cumulative()) == Some(joff3(m) + lab_cumulative().len() as int),
        spec_parse_hex(json_of(m), joff3(m) + lab_cumulative().len() as int) == Some(
            (be_bytes(m.cumulative_withdrawn_amount), joff4(m)),
        ),
        json_of(m).subrange(joff4(m), json_of(m).len() as int) =~= jsuf4(m),
        0 <= joff4(m),
        joff4(m) + jsuf4(m).len() == json_of(m).len(),
{
    reveal(jsuf3);
    reveal(jsuf4);
    let b = json_of(m);
    let o = joff3(m);
    let q = o + lab_cumulative().len() as int;
    let e = joff4(m);
    let sub = b.subrange(o, b.len() as int);
    assert(sub.len() == jsuf3(m).len());
    assert(jsuf3(m).len() == lab_cumulative().len() + hex_of(be_bytes(m.cumulative_withdrawn_amount)).len() + jsuf4(m).len());
    assert forall|i: int| 0 <= i < lab_cumulative().len() implies b[o + i] == lab_cumulative()[i] by {
        assert(b[o + i] == sub[i]);
        assert(jsuf3(m)[i] == lab_cumulative()[i]);
    }
    assert forall|i: int| 0 <= i < hex_of(be_bytes(m.cumulative_withdrawn_amount)).len() implies b[q + i] == hex_of(be_bytes(m.cumulative_withdrawn_amount))[i] by {
        assert(b[q + i] == sub[lab_cumulative().len() + i]);
        assert(jsuf3(m)[lab_cumulative().len() + i] == hex_of(be_bytes(m.cumulative_withdrawn_amount))[i]);
    }
    assert forall|i: int| 0 <= i < jsuf4(m).len() implies b[e + i] == jsuf4(m)[i] by {
        assert(b[e + i] == sub[lab_cumulative().len() + hex_of(be_bytes(m.cumulative_withdrawn_amount)).len() + i]);
        assert(jsuf3(m)[lab_cumulative().len() + hex_of(be_bytes(m.cumulative_withdrawn_amount)).len() + i] == jsuf4(m)[i]);
    }
    assert(b.subrange(o, q) =~= lab_cumulative());
    assert(b.subrange(q, e) =~= hex_of(be_bytes(m.cumulative_withdrawn_amount)));
    assert(b.subrange(e, b.len() as int) =~= jsuf4(m));
    assert(b[e] == jsuf4(m)[0]);
    assert(b[e] == 0x22);
    lemma_parse_hex_emitted(b, be_bytes(m.cumulative_withdrawn_amount), q);
}

/// Field 4 of an emitted record parses back to its payload.
#[verifier::spinoff_prover]
proof fn lemma_json_field4(m: InputModel)
    requires
        0 <= joff4(m),
        joff4(m) + jsuf4(m).len() == json_of(m).len(),
        json_of(m).subrange(joff4(m), json_of(m).len() as int) =~= jsuf4(m),
    ensures
        spec_expect(json_of(m), joff4(m), lab_withdrawal_index()) == Some(joff4(m) + lab_withdrawal_index().len() as int),
        spec_parse_hex(json_of(m), joff4(m) + lab_withdrawal_index().len() as int) == Some(
            (be_bytes(m.withdrawal_index), joff5(m)),
        ),
        json_of(m).subrange(joff5(m), json_of(m).len() as int) =~= jsuf5(m),
        0 <= joff5(m),
        joff5(m) + jsuf5(m).len() == json_of(m).len(),
{
    reveal(jsuf4);
    reveal(jsuf5);
    let b = json_of(m);
    let o = joff4(m);
    let q = o + lab_withdrawal_index().len() as int;
    let e = joff5(m);
    let sub = b.subrange(o, b.len() as int);
    assert(sub.len() == jsuf4(m).len());
    assert(jsuf4(m).len() == lab_withdrawal_index().len() + hex_of(be_bytes(m.withdrawal_index)).len() + jsuf5(m).len());
    assert forall|i: int| 0 <= i < lab_withdrawal_index().len() implies b[o + i] == lab_withdrawal_index()[i] by {
        assert(b[o + i] == sub[i]);
        assert(jsuf4(m)[i] == lab_withdrawal_index()[i]);
    }
    assert forall|i: int| 0 <= i < hex_of(be_bytes(m.withdrawal_index)).len() implies b[q + i] == hex_of(be_bytes(m.withdrawal_index))[i] by {
        assert(b[q + i] == sub[lab_withdrawal_index().len() + i]);
        assert(jsuf4(m)[lab_withdrawal_index().len() + i] == hex_of(be_bytes(m.withdrawal_index))[i]);
    }
    assert forall|i: int| 0 <= i < jsuf5(m).len() implies b[e + i] == jsuf5(m)[i] by {
        assert(b[e + i] == sub[lab_withdrawal_index().len() + hex_of(be_bytes(m.withdrawal_index)).len() + i]);
        assert(jsuf4(m)[lab_withdrawal_index().len() + hex_of(be_bytes(m.withdrawal_index)).len() + i] == jsuf5(m)[i]);
    }
    assert(b.subrange(o, q) =~= lab_withdrawal_index());
    assert(b.subrange(q, e) =~= hex_of(be_bytes(m.withdrawal_index)));
    assert(b.subrange(e, b.len() as int) =~= jsuf5(m));
    assert(b[e] == jsuf5(m)[0]);
    assert(b[e] == 0x22);
    lemma_parse_hex_emitted(b, be_bytes(m.withdrawal_index), q);
}

/// Field 5 of an emitted record parses back to its payload.
#[verifier::spinoff_prover]
proof fn lemma_json_field5(m: InputModel)
    requires
        0 <= joff5(m),
        joff5(m) + jsuf5(m).len() == json_of(m).len(),
        json_of(m).subrange(joff5(m), json_of(m).len() as int) =~= jsuf5(m),
    ensures
        spec_expect(json_of(m), joff5(m), lab_state_root()) == Some(joff5(m) + lab_state_root().len() as int),
        spec_parse_hex(json_of(m), joff5(m) + lab_state_root().len() as int) == Some(
            (m.state_root, joff6(m)),
        ),
        json_of(m).subrange(joff6(m), json_of(m).len() as int) =~= jsuf6(m),
        0 <= joff6(m),
        joff6(m) + jsuf6(m).len() == json_of(m).len(),
{
    reveal(jsuf5);
    reveal(jsuf6);
    let b = json_of(m);
    let o = joff5(m);
    let q = o + lab_state_root().len() as int;
    let e = joff6(m);
    let sub = b.subrange(o, b.len() as int);
    assert(sub.len() == jsuf5(m).len());
    assert(jsuf5(m).len() == lab_state_root().len() + hex_of(m.state_root).len() + jsuf6(m).len());
    assert forall|i: int| 0 <= i < lab_state_root().len() implies b[o + i] == lab_state_root()[i] by {
        assert(b[o + i] == sub[i]);
        assert(jsuf5(m)[i] == lab_state_root()[i]);
    }
    assert forall|i: int| 0 <= i < hex_of(m.state_root).len() implies b[q + i] == hex_of(m.state_root)[i] by {
        assert(b[q + i] == sub[lab_state_root().len() + i]);
        assert(jsuf5(m)[lab_state_root().len() + i] == hex_of(m.state_root)[i]);
    }
    assert forall|i: int| 0 <= i < jsuf6(m).len() implies b[e + i] == jsuf6(m)[i] by {
        assert(b[e + i] == sub[lab_state_root().len() + hex_of(m.state_root).len() + i]);
        assert(jsuf5(m)[lab_state_root().len() + hex_of(m.state_root).len() + i] == jsuf6(m)[i]);
    }
    assert(b.subrange(o, q) =~= lab_state_root());
    assert(b.subrange(q, e) =~= hex_of(m.state_root));
    assert(b.subrange(e, b.len() as int) =~= jsuf6(m));
    assert(b[e] == jsuf6(m)[0]);
    assert(b[e] == 0x22);
    lemma_parse_hex_emitted(b, m.state_root, q);
}

/// Field 6 of an emitted record parses back to its payload.
#[verifier::spinoff_prover]
proof fn lemma_json_field6(m: InputModel)
    requires
        0 <= joff6(m),
        joff6(m) + jsuf6(m).len() == json_of(m).len(),
        json_of(m).subrange(joff6(m), json_of(m).len() as int) =~= jsuf6(m),
    ensures
        spec_expect(json_of(m), joff6(m), lab_deposit_proof()) == Some(joff6(m) + lab_deposit_proof().len() as int),
        spec_parse_jlist(json_of(m), joff6(m) + lab_deposit_proof().len() as int) == Some(
            (m.deposit_account_proof, joff7(m)),
        ),
        json_of(m).subrange(joff7(m), json_of(m).len() as int) =~= jsuf7(m),
        0 <= joff7(m),
        joff7(m) + jsuf7(m).len() == json_of(m).len(),
{
    reveal(jsuf6);
    reveal(jsuf7);
    let b = json_of(m);
    let o = joff6(m);
    let q = o + lab_deposit_proof().len() as int;
    let e = joff7(m);
    let sub = b.subrange(o, b.len() as int);
    assert(sub.len() == jsuf6(m).len());
    assert(jsuf6(m).len() == lab_deposit_proof().len() + jlist_of(m.deposit_account_proof).len() + jsuf7(m).len());
    assert forall|i: int| 0 <= i < lab_deposit_proof().len() implies b[o + i] == lab_deposit_proof()[i] by {
        assert(b[o + i] == sub[i]);
        assert(jsuf6(m)[i] == lab_deposit_proof()[i]);
    }
    assert forall|i: int| 0 <= i < jlist_of(m.deposit_account_proof).len() implies b[q + i] == jlist_of(m.deposit_account_proof)[i] by {
        assert(b[q + i] == sub[lab_deposit_proof().len() + i]);
        assert(jsuf6(m)[lab_deposit_proof().len() + i] == jlist_of(m.deposit_account_proof)[i]);
    }
    assert forall|i: int| 0 <= i < jsuf7(m).len() implies b[e + i] == jsuf7(m)[i] by {
        assert(b[e + i] == sub[lab_deposit_proof().len() + jlist_of(m.deposit_account_proof).len() + i]);
        assert(jsuf6(m)[lab_deposit_proof().len() + jlist_of(m.deposit_account_proof).len() + i] == jsuf7(m)[i]);
    }
    assert(b.subrange(o, q) =~= lab_deposit_proof());
    assert(b.subrange(q, e) =~= jlist_of(m.deposit_account_proof));
    assert(b.subrange(e, b.len() as int) =~= jsuf7(m));
    assert(b[e] == jsuf7(m)[0]);
    assert(b[e] == 0x5d);
    lemma_parse_jlist_emitted(b, m.deposit_account_proof, q);
}

/// Field 7 of an emitted record parses back to its payload.
#[verifier::spinoff_prover]
proof fn lemma_json_field7(m: InputModel)
    requires
        0 <= joff7(m),
        joff7(m) + jsuf7(m).len() == json_of(m).len(),
        json_of(m).subrange(joff7(m), json_of(m).len() as int) =~= jsuf7(m),
    ensures
        spec_expect(json_of(m), joff7(m), lab_nullifier_address()) == Some(joff7(m) + lab_nullifier_address().len() as int),
        spec_parse_hex(json_of(m), joff7(m) + lab_nullifier_address().len() as int) == Some(
            (m.nullifier_address, joff8(m)),
        ),
        json_of(m).subrange(joff8(m), json_of(m).len() as int) =~= jsuf8(m),
        0 <= joff8(m),
        joff8(m) + jsuf8(m).len() == json_of(m).len(),
{
    reveal(jsuf7);
    reveal(jsuf8);
    let b = json_of(m);
    let o = joff7(m);
    let q = o + lab_nullifier_address().len() as int;
    let e = joff8(m);
    let sub = b.subrange(o, b.len() as int);
    assert(sub.len() == jsuf7(m).len());
    assert(jsuf7(m).len() == lab_nullifier_address().len() + hex_of(m.nullifier_address).len() + jsuf8(m).len());
    assert forall|i: int| 0 <= i < lab_nullifier_address().len() implies b[o + i] == lab_nullifier_address()[i] by {
        assert(b[o + i] == sub[i]);
        assert(jsuf7(m)[i] == lab_nullifier_address()[i]);
    }
    assert forall|i: int| 0 <= i < hex_of(m.nullifier_address).len() implies b[q + i] == hex_of(m.nullifier_address)[i] by {
        assert(b[q + i] == sub[lab_nullifier_address().len() + i]);
        assert(jsuf7(m)[lab_nullifier_address().len() + i] == hex_of(m.nullifier_address)[i]);
    }
    assert forall|i: int| 0 <= i < jsuf8(m).len() implies b[e + i] == jsuf8(m)[i] by {
        assert(b[e + i] == sub[lab_nullifier_address().len() + hex_of(m.nullifier_address).len() + i]);
        assert(jsuf7(m)[lab_nullifier_address().len() + hex_of(m.nullifier_address).len() + i] == jsuf8(m)[i]);
    }
    assert(b.subrange(o, q) =~= lab_nullifier_address());
    assert(b.subrange(q, e) =~= hex_of(m.nullifier_address));
    assert(b.subrange(e, b.len() as int) =~= jsuf8(m));
    assert(b[e] == jsuf8(m)[0]);
    assert(b[e] == 0x22);
    lemma_parse_hex_emitted(b, m.nullifier_address, q);
}

/// Field 8 of an emitted record parses back to its payload.
#[verifier::spinoff_prover]
proof fn lemma_json_field8(m: InputModel)
    requires
        0 <= joff8(m),
        joff8(m) + jsuf8(m).len() == json_of(m).len(),
        json_of(m).subrange(joff8(m), json_of(m).len() as int) =~= jsuf8(m),
    ensures
        spec_expect(json_of(m), joff8(m), lab_nullifier_proof()) == Some(joff8(m) + lab_nullifier_proof().len() as int),
        spec_parse_jlist(json_of(m), joff8(m) + lab_nullifier_proof().len() as int) == Some(
            (m.nullifier_account_proof, joff9(m)),
        ),
        json_of(m).subrange(joff9(m), json_of(m).len() as int) =~= jsuf9(m),
        0 <= joff9(m),
        joff9(m) + jsuf9(m).len() == json_of(m).len(),
{
    reveal(jsuf8);
    reveal(jsuf9);
    let b = json_of(m);
    let o = joff8(m);
    let q = o + lab_nullifier_proof().len() as int;
    let e = joff9(m);
    let sub = b.subrange(o, b.len() as int);
    assert(sub.len() == jsuf8(m).len());
    assert(jsuf8(m).len() == lab_nullifier_proof().len() + jlist_of(m.nullifier_account_proof).len() + jsuf9(m).len());
    assert forall|i: int| 0 <= i < lab_nullifier_proof().len() implies b[o + i] == lab_nullifier_proof()[i] by {
        assert(b[o + i] == sub[i]);
        assert(jsuf8(m)[i] == lab_nullifier_proof()[i]);
    }
    assert forall|i: int| 0 <= i < jlist_of(m.nullifier_account_proof).len() implies b[q + i] == jlist_of(m.nullifier_account_proof)[i] by {
        assert(b[q + i] == sub[lab_nullifier_proof().len() + i]);
        assert(jsuf8(m)[lab_nullifier_proof().len() + i] == jlist_of(m.nullifier_account_proof)[i]);
    }
    assert forall|i: int| 0 <= i < jsuf9(m).len() implies b[e + i] == jsuf9(m)[i] by {
        assert(b[e + i] == sub[lab_nullifier_proof().len() + jlist_of(m.nullifier_account_proof).len() + i]);
        assert(jsuf8(m)[lab_nullifier_proof().len() + jlist_of(m.nullifier_account_proof).len() + i] == jsuf9(m)[i]);
    }
    assert(b.subrange(o, q) =~= lab_nullifier_proof());
    assert(b.subrange(q, e) =~= jlist_of(m.nullifier_account_proof));
    assert(b.subrange(e, b.len() as int) =~= jsuf9(m));
    assert(b[e] == jsuf9(m)[0]);
    assert(b[e] == 0x5d);
    lemma_parse_jlist_emitted(b, m.nullifier_account_proof, q);
}

/// Field 9 of an emitted record parses back to its payload.
#[verifier::spinoff_prover]
proof fn lemma_json_field9(m: InputModel)
    requires
        0 <= joff9(m),
        joff9(m) + jsuf9(m).len() == json_of(m).len(),
        json_of(m).subrange(joff9(m), json_of(m).len() as int) =~= jsuf9(m),
    ensures
        spec_expect(json_of(m), joff9(m), lab_previous_proof()) == Some(joff9(m) + lab_previous_proof().len() as int),
        spec_parse_jlist(json_of(m), joff9(m) + lab_previous_proof().len() as int) == Some(
            (m.previous_nullifier_storage_proof, joff10(m)),
        ),
        json_of(m).subrange(joff10(m), json_of(m).len() as int) =~= jsuf10(m),
        0 <= joff10(m),
        joff10(m) + jsuf10(m).len() == json_of(m).len(),
{
    reveal(jsuf9);
    reveal(jsuf10);
    let b = json_of(m);
    let o = joff9(m);
    let q = o + lab_previous_proof().len() as int;
    let e = joff10(m);
    let sub = b.subrange(o, b.len() as int);
    assert(sub.len() == jsuf9(m).len());
    assert(jsuf9(m).len() == lab_previous_proof().len() + jlist_of(m.previous_nullifier_storage_proof).len() + jsuf10(m).len());
    assert forall|i: int| 0 <= i < lab_previous_proof().len() implies b[o + i] == lab_previous_proof()[i] by {
        assert(b[o + i] == sub[i]);
        assert(jsuf9(m)[i] == lab_previous_proof()[i]);
    }
    assert forall|i: int| 0 <= i < jlist_of(m.previous_nullifier_storage_proof).len() implies b[q + i] == jlist_of(m.previous_nullifier_storage_proof)[i] by {
        assert(b[q + i] == sub[lab_previous_proof().len() + i]);
        assert(jsuf9(m)[lab_previous_proof().len() + i] == jlist_of(m.previous_nullifier_storage_proof)[i]);
    }
    assert forall|i: int| 0 <= i < jsuf10(m).len() implies b[e + i] == jsuf10(m)[i] by {
        assert(b[e + i] == sub[lab_previous_proof().len() + jlist_of(m.previous_nullifier_storage_proof).len() + i]);
        assert(jsuf9(m)[lab_previous_proof().len() + jlist_of(m.previous_nullifier_storage_proof).len() + i] == jsuf10(m)[i]);
    }
    assert(b.subrange(o, q) =~= lab_previous_proof());
    assert(b.subrange(q, e) =~= jlist_of(m.previous_nullifier_storage_proof));
    assert(b.subrange(e, b.len() as int) =~= jsuf10(m));
    assert(b[e] == jsuf10(m)[0]);
    assert(b[e] == 0x5d);
    lemma_parse_jlist_emitted(b, m.previous_nullifier_storage_proof, q);
}

/// Reading back a written record gives the record: the JSON profile round
/// trip.
#[verifier::rlimit(100)]
#[verifier::spinoff_prover]
pub proof fn lemma_json_round_trip(m: InputModel)
    ensures
        spec_parse_json(json_of(m)) == Some(m),
{
    reveal(json_of);
    reveal(jsuf10);
    let b = json_of(m);
    assert(b.subrange(joff0(m), b.len() as int) =~= jsuf0(m));
    lemma_json_field0(m);
    lemma_json_field1(m);
    lemma_json_field2(m);
    lemma_json_field3(m);
    lemma_json_field4(m);
    lemma_json_field5(m);
    lemma_json_field6(m);
    lemma_json_field7(m);
    lemma_json_field8(m);
    lemma_json_field9(m);
    assert(b.subrange(joff10(m), b.len() as int) =~= lab_tail());
    assert(joff10(m) + lab_tail().len() == b.len());
    assert(b.subrange(joff10(m), joff10(m) + lab_tail().len() as int) =~= lab_tail());
    crate::u256::lemma_u256_of_be_roundtrip(m.deposit_amount);
    crate::u256::lemma_u256_of_be_roundtrip(m.withdraw_amount);
    crate::u256::lemma_u256_of_be_roundtrip(m.cumulative_withdrawn_amount);
    crate::u256::lemma_u256_of_be_roundtrip(m.withdrawal_index);
    match spec_parse_json(b) {
        Some(mm) => {
            assert(mm =~= m);
        },
        None => {
            assert(false);
        },
    }
}

} // verus!
