//! Canonical RLP, restricted to what the trie verifier needs.
//!
//! RLP frames a byte string or a list payload behind a one-byte tag,
//! followed for long payloads by a minimal big-endian length. Decoding here
//! is canonical: a single byte below 0x80 must stand alone, a long length
//! must not have leading zeros nor fit the short form, and integers must
//! not have leading zero bytes. Every decoder is specified against the spec
//! functions in this module, and encoding then decoding is the identity.

use vstd::prelude::*;

use crate::u256::{be_bytes, u64_be_bytes, U256};

verus! {

/// Why a byte string failed to decode.
#[derive(Clone, Copy, Debug, PartialEq, Eq, Structural)]
pub enum RlpError {
    /// The input ends before the frame it promises.
    InputTooShort,
    /// The encoding is valid RLP but not the canonical form.
    NonCanonical,
    /// A string stood where a list was needed, or the other way round.
    UnexpectedType,
    /// An integer does not fit its width.
    Overflow,
    /// An item has the wrong length, or a frame does not fill its input.
    UnexpectedLength,
    /// A trie node's items do not form a leaf, extension or branch.
    UnexpectedShape,
}

/// A parsed RLP frame: whether it is a list, where its payload starts, and
/// how long the payload is.
pub struct Header {
    /// List frame (tag 0xc0 and up) rather than string frame.
    pub is_list: bool,
    /// Offset of the payload from the start of the frame.
    pub off: int,
    /// Length of the payload in bytes.
    pub len: int,
}

/// A big-endian multi-byte integer, most significant byte first.
pub open spec fn be_val(s: Seq<u8>) -> int
    decreases s.len(),
{
    if s.len() == 0 {
        0
    } else {
        256 * be_val(s.drop_last()) + s.last()
    }
}

/// The minimal big-endian encoding of an integer: no leading zero bytes,
/// zero encodes as the empty string.
pub open spec fn be_min_bytes(n: int) -> Seq<u8>
    decreases n,
{
    if n <= 0 {
        seq![]
    } else {
        be_min_bytes(n / 256).push((n % 256) as u8)
    }
}

/// A byte string without its leading zero bytes.
pub open spec fn strip_zeros(s: Seq<u8>) -> Seq<u8>
    decreases s.len(),
{
    if s.len() > 0 && s[0] == 0 {
        strip_zeros(s.drop_first())
    } else {
        s
    }
}

/// The RLP frame tag and length prefix for a string payload of `len` bytes.
/// `single` tells whether the payload is one byte below 0x80, which stands
/// alone with no tag.
pub open spec fn string_prefix(single: bool, len: int) -> Seq<u8> {
    if single {
        seq![]
    } else if len <= 55 {
        seq![(0x80 + len) as u8]
    } else {
        seq![(0xb7 + be_min_bytes(len).len()) as u8] + be_min_bytes(len)
    }
}

/// The RLP frame tag and length prefix for a list payload of `len` bytes.
pub open spec fn list_prefix(len: int) -> Seq<u8> {
    if len <= 55 {
        seq![(0xc0 + len) as u8]
    } else {
        seq![(0xf7 + be_min_bytes(len).len()) as u8] + be_min_bytes(len)
    }
}

/// The RLP encoding of a byte string.
pub open spec fn rlp_encode_bytes(s: Seq<u8>) -> Seq<u8> {
    string_prefix(s.len() == 1 && s[0] < 0x80, s.len() as int) + s
}

/// The RLP encoding of a list whose items together encode to `payload`.
pub open spec fn rlp_encode_list(payload: Seq<u8>) -> Seq<u8> {
    list_prefix(payload.len() as int) + payload
}

/// The RLP encoding of an unsigned integer given as big-endian bytes: the
/// string encoding of the bytes with leading zeros stripped.
pub open spec fn rlp_encode_uint_bytes(be: Seq<u8>) -> Seq<u8> {
    rlp_encode_bytes(strip_zeros(be))
}

/// Parse the frame at the head of `b`: its kind, payload position and
/// payload length. Canonical: rejects a wrapped single byte, a long length
/// with leading zeros, and a long length that fits the short form.
#[verifier::opaque]
pub open spec fn spec_parse_header(b: Seq<u8>) -> Result<Header, RlpError> {
    if b.len() == 0 {
        Err(RlpError::InputTooShort)
    } else {
        let b0 = b[0];
        if b0 < 0x80 {
            Ok(Header { is_list: false, off: 0, len: 1 })
        } else if b0 <= 0xb7 {
            let len = b0 - 0x80;
            if b.len() < 1 + len {
                Err(RlpError::InputTooShort)
            } else if len == 1 && b[1] < 0x80 {
                Err(RlpError::NonCanonical)
            } else {
                Ok(Header { is_list: false, off: 1, len: len as int })
            }
        } else if b0 <= 0xbf {
            let ll = b0 - 0xb7;
            if b.len() < 1 + ll {
                Err(RlpError::InputTooShort)
            } else if b[1] == 0 {
                Err(RlpError::NonCanonical)
            } else {
                let len = be_val(b.subrange(1, 1 + ll));
                if len <= 55 {
                    Err(RlpError::NonCanonical)
                } else if b.len() < 1 + ll + len {
                    Err(RlpError::InputTooShort)
                } else {
                    Ok(Header { is_list: false, off: 1 + ll, len })
                }
            }
        } else if b0 <= 0xf7 {
            let len = b0 - 0xc0;
            if b.len() < 1 + len {
                Err(RlpError::InputTooShort)
            } else {
                Ok(Header { is_list: true, off: 1, len: len as int })
            }
        } else {
            let ll = b0 - 0xf7;
            if b.len() < 1 + ll {
                Err(RlpError::InputTooShort)
            } else if b[1] == 0 {
                Err(RlpError::NonCanonical)
            } else {
                let len = be_val(b.subrange(1, 1 + ll));
                if len <= 55 {
                    Err(RlpError::NonCanonical)
                } else if b.len() < 1 + ll + len {
                    Err(RlpError::InputTooShort)
                } else {
                    Ok(Header { is_list: true, off: 1 + ll, len })
                }
            }
        }
    }
}

/// A parsed header fits inside its input.
pub proof fn lemma_header_fits(b: Seq<u8>)
    ensures
        spec_parse_header(b) matches Ok(h) ==> 0 < h.off + h.len <= b.len() && 0 <= h.off && 0
            <= h.len,
{
    reveal(spec_parse_header);
    if b.len() > 0 {
        let b0 = b[0];
        if 0xb7 < b0 && b0 <= 0xbf {
            lemma_be_val_bounds(b.subrange(1, 1 + (b0 - 0xb7)));
        } else if b0 > 0xf7 {
            lemma_be_val_bounds(b.subrange(1, 1 + (b0 - 0xf7)));
        }
    }
}

/// A big-endian value is nonnegative and below 256 to the byte count.
pub proof fn lemma_be_val_bounds(s: Seq<u8>)
    ensures
        0 <= be_val(s),
        s.len() <= 8 ==> be_val(s) <= 0xffff_ffff_ffff_ffff,
    decreases s.len(),
{
    if s.len() > 0 {
        lemma_be_val_bounds(s.drop_last());
        if s.len() <= 8 {
            lemma_be_val_small(s);
            lemma_pow_bytes_le_max(s.len() as int);
        }
    }
}

/// A big-endian value of at most eight bytes is below 2^64.
proof fn lemma_be_val_small(s: Seq<u8>)
    requires
        s.len() <= 8,
    ensures
        0 <= be_val(s) < pow_bytes(s.len() as int),
    decreases s.len(),
{
    if s.len() > 0 {
        lemma_be_val_small(s.drop_last());
    }
}

/// 256^n, the first value that does not fit in n bytes.
pub open spec fn pow_bytes(n: int) -> int
    decreases n,
{
    if n <= 0 {
        1
    } else {
        256 * pow_bytes(n - 1)
    }
}

/// Read the frame at position `pos` of `buf`.
pub fn parse_header(buf: &Vec<u8>, pos: usize) -> (r: Result<(bool, usize, usize), RlpError>)
    requires
        pos <= buf@.len(),
    ensures
        match spec_parse_header(buf@.skip(pos as int)) {
            Ok(h) => r matches Ok((is_list, off, len)) && is_list == h.is_list && off == h.off
                && len == h.len && pos + h.off + h.len <= buf@.len(),
            Err(e) => r matches Err(e2) && e2 == e,
        },
{
    let ghost b = buf@.skip(pos as int);
    proof {
        reveal(spec_parse_header);
        lemma_header_fits(b);
    }
    let n = buf.len();
    if pos == n {
        return Err(RlpError::InputTooShort);
    }
    let b0 = buf[pos];
    if b0 < 0x80 {
        Ok((false, 0, 1))
    } else if b0 <= 0xb7 {
        let len = (b0 - 0x80) as usize;
        if n - pos < 1 + len {
            Err(RlpError::InputTooShort)
        } else if len == 1 && buf[pos + 1] < 0x80 {
            Err(RlpError::NonCanonical)
        } else {
            Ok((false, 1, len))
        }
    } else if b0 <= 0xbf {
        let ll = (b0 - 0xb7) as usize;
        if n - pos < 1 + ll {
            return Err(RlpError::InputTooShort);
        }
        if buf[pos + 1] == 0 {
            return Err(RlpError::NonCanonical);
        }
        let len = read_be_len(buf, pos + 1, ll);
        proof {
            assert(b.subrange(1, 1 + ll) =~= buf@.subrange(pos + 1, pos + 1 + ll));
        }
        if len <= 55 {
            return Err(RlpError::NonCanonical);
        }
        if ((n - pos - 1 - ll) as u64) < len {
            return Err(RlpError::InputTooShort);
        }
        Ok((false, 1 + ll, len as usize))
    } else if b0 <= 0xf7 {
        let len = (b0 - 0xc0) as usize;
        if n - pos < 1 + len {
            Err(RlpError::InputTooShort)
        } else {
            Ok((true, 1, len))
        }
    } else {
        let ll = (b0 - 0xf7) as usize;
        if n - pos < 1 + ll {
            return Err(RlpError::InputTooShort);
        }
        if buf[pos + 1] == 0 {
            return Err(RlpError::NonCanonical);
        }
        let len = read_be_len(buf, pos + 1, ll);
        proof {
            assert(b.subrange(1, 1 + ll) =~= buf@.subrange(pos + 1, pos + 1 + ll));
        }
        if len <= 55 {
            return Err(RlpError::NonCanonical);
        }
        if ((n - pos - 1 - ll) as u64) < len {
            return Err(RlpError::InputTooShort);
        }
        Ok((true, 1 + ll, len as usize))
    }
}

/// Read `count` bytes at `pos` as a big-endian integer. `count` is at most
/// eight, so the value fits in 64 bits.
fn read_be_len(buf: &Vec<u8>, pos: usize, count: usize) -> (r: u64)
    requires
        pos + count <= buf@.len(),
        count <= 8,
    ensures
        r == be_val(buf@.subrange(pos as int, pos + count)),
{
    let n = buf.len();
    let mut acc: u64 = 0;
    let mut j: usize = 0;
    while j < count
        invariant
            j <= count,
            count <= 8,
            n == buf@.len(),
            pos + count <= n,
            acc == be_val(buf@.subrange(pos as int, pos + j)),
            acc < pow_bytes(j as int),
        decreases count - j,
    {
        proof {
            lemma_pow_bytes_le_max(j as int);
            assert(pow_bytes(j + 1) == 256 * pow_bytes(j as int));
            assert(buf@.subrange(pos as int, pos + j + 1).drop_last() =~= buf@.subrange(
                pos as int,
                pos + j,
            ));
            assert(buf@.subrange(pos as int, pos + j + 1).last() == buf@[pos + j]);
        }
        acc = acc * 256 + (buf[pos + j] as u64);
        j = j + 1;
    }
    acc
}

/// The minimal big-endian bytes of a value below 256^k take at most k bytes,
/// and a positive value takes at least one.
pub proof fn lemma_be_min_bytes_len(n: int, k: int)
    requires
        0 <= n < pow_bytes(k),
        0 <= k,
    ensures
        be_min_bytes(n).len() <= k,
        n > 0 ==> be_min_bytes(n).len() >= 1,
    decreases k,
{
    if n > 0 {
        lemma_be_min_bytes_len(n / 256, k - 1);
    }
}

/// The minimal big-endian bytes of `x`, appended to `out`.
fn append_be_min(out: &mut Vec<u8>, x: u64)
    ensures
        final(out)@ == old(out)@ + be_min_bytes(x as int),
    decreases x,
{
    if x > 0 {
        append_be_min(out, x / 256);
        out.push((x % 256) as u8);
    } else {
        proof {
            assert(out@ =~= out@ + be_min_bytes(0));
        }
    }
}

/// The string or list prefix for a payload of `len` bytes, appended to
/// `out`. `tag` is 0x80 for strings and 0xc0 for lists.
fn append_prefix(out: &mut Vec<u8>, tag: u8, len: usize)
    requires
        tag == 0x80 || tag == 0xc0,
    ensures
        tag == 0x80 ==> final(out)@ == old(out)@ + string_prefix(false, len as int),
        tag == 0xc0 ==> final(out)@ == old(out)@ + list_prefix(len as int),
{
    if len <= 55 {
        out.push(tag + (len as u8));
        proof {
            assert(out@ =~= old(out)@ + seq![(tag + len) as u8]);
        }
    } else {
        proof {
            lemma_pow_bytes_le_max(8);
            lemma_be_min_bytes_len(len as int, 8);
        }
        let mut len_bytes: Vec<u8> = Vec::new();
        append_be_min(&mut len_bytes, len as u64);
        out.push(tag + 55 + (len_bytes.len() as u8));
        crate::bytes::push_all(out, &len_bytes);
        proof {
            assert(out@ =~= old(out)@ + (seq![((tag + 55) + be_min_bytes(len as int).len()) as u8]
                + be_min_bytes(len as int)));
        }
    }
}

/// The RLP encoding of the byte string `s`, appended to `out`.
pub fn append_encoded_bytes(out: &mut Vec<u8>, s: &Vec<u8>)
    ensures
        final(out)@ == old(out)@ + rlp_encode_bytes(s@),
{
    if s.len() == 1 && s[0] < 0x80 {
        out.push(s[0]);
        proof {
            assert(out@ =~= old(out)@ + rlp_encode_bytes(s@));
        }
    } else {
        append_prefix(out, 0x80, s.len());
        crate::bytes::push_all(out, s);
        proof {
            assert(out@ =~= old(out)@ + rlp_encode_bytes(s@));
        }
    }
}

/// The list prefix for a payload of `len` bytes, appended to `out`.
pub fn append_list_prefix(out: &mut Vec<u8>, len: usize)
    ensures
        final(out)@ == old(out)@ + list_prefix(len as int),
{
    append_prefix(out, 0xc0, len);
}

/// `s` without its leading zero bytes.
pub fn strip_leading_zeros(s: &Vec<u8>) -> (r: Vec<u8>)
    ensures
        r@ == strip_zeros(s@),
{
    let n = s.len();
    let mut i: usize = 0;
    while i < n && s[i] == 0
        invariant
            i <= n,
            n == s@.len(),
            forall|j: int| 0 <= j < i ==> s@[j] == 0,
        decreases n - i,
    {
        i = i + 1;
    }
    proof {
        lemma_strip_zeros_skip(s@, i as int);
    }
    crate::bytes::copy_range(s, i, n)
}

/// Stripping leading zeros skips exactly the zero prefix.
proof fn lemma_strip_zeros_skip(s: Seq<u8>, i: int)
    requires
        0 <= i <= s.len(),
        forall|j: int| 0 <= j < i ==> s[j] == 0,
        i == s.len() || s[i] != 0,
    ensures
        strip_zeros(s) == s.subrange(i, s.len() as int),
    decreases i,
{
    if i == 0 {
        assert(strip_zeros(s) =~= s.subrange(0, s.len() as int));
    } else {
        lemma_strip_zeros_skip(s.drop_first(), i - 1);
        assert(s.drop_first().subrange(i - 1, s.drop_first().len() as int) =~= s.subrange(
            i,
            s.len() as int,
        ));
    }
}

/// The RLP encoding of a 64-bit unsigned integer, appended to `out`.
pub fn append_encoded_u64(out: &mut Vec<u8>, x: u64)
    ensures
        final(out)@ == old(out)@ + rlp_encode_uint_bytes(u64_be_bytes(x)),
{
    let mut be: Vec<u8> = Vec::new();
    crate::u256::push_u64_be(&mut be, x);
    let stripped = strip_leading_zeros(&be);
    append_encoded_bytes(out, &stripped);
}

/// The RLP encoding of a 256-bit unsigned integer, appended to `out`.
pub fn append_encoded_u256(out: &mut Vec<u8>, x: &U256)
    ensures
        final(out)@ == old(out)@ + rlp_encode_uint_bytes(be_bytes(*x)),
{
    let be = x.to_be_bytes();
    let stripped = strip_leading_zeros(&be);
    append_encoded_bytes(out, &stripped);
}

/// Decode the string item at the head of `b`: its payload and how many
/// bytes of `b` the item takes.
pub open spec fn spec_decode_string(b: Seq<u8>) -> Result<(Seq<u8>, int), RlpError> {
    match spec_parse_header(b) {
        Err(e) => Err(e),
        Ok(h) => if h.is_list {
            Err(RlpError::UnexpectedType)
        } else {
            Ok((b.subrange(h.off, h.off + h.len), h.off + h.len))
        },
    }
}

/// `n` zero bytes.
pub open spec fn zeros(n: int) -> Seq<u8> {
    Seq::new(n as nat, |i: int| 0u8)
}

/// A byte string padded with zeros on the left to 8 bytes.
pub open spec fn pad8(s: Seq<u8>) -> Seq<u8> {
    zeros(8 - s.len()) + s
}

/// A byte string padded with zeros on the left to 32 bytes.
pub open spec fn pad32(s: Seq<u8>) -> Seq<u8> {
    zeros(32 - s.len()) + s
}

/// Decode an unsigned integer of at most `width` bytes at the head of `b`:
/// its minimal big-endian payload and how many bytes the item takes.
/// Canonical: a leading zero byte is rejected.
pub open spec fn spec_decode_uint(b: Seq<u8>, width: int) -> Result<(Seq<u8>, int), RlpError> {
    match spec_decode_string(b) {
        Err(e) => Err(e),
        Ok((v, c)) => if v.len() > width {
            Err(RlpError::Overflow)
        } else if v.len() > 0 && v[0] == 0 {
            Err(RlpError::NonCanonical)
        } else {
            Ok((v, c))
        },
    }
}

/// Read the string item at position `pos` of `buf`.
pub fn decode_string_at(buf: &Vec<u8>, pos: usize) -> (r: Result<(Vec<u8>, usize), RlpError>)
    requires
        pos <= buf@.len(),
    ensures
        match spec_decode_string(buf@.skip(pos as int)) {
            Ok((v, c)) => r matches Ok((rv, rc)) && rv@ == v && rc == c && pos + c <= buf@.len(),
            Err(e) => r matches Err(e2) && e2 == e,
        },
{
    let ghost b = buf@.skip(pos as int);
    let n = buf.len();
    match parse_header(buf, pos) {
        Err(e) => Err(e),
        Ok((is_list, off, len)) => {
            if is_list {
                Err(RlpError::UnexpectedType)
            } else {
                let v = crate::bytes::copy_range(buf, pos + off, pos + off + len);
                proof {
                    assert(b.subrange(off as int, off + len) =~= buf@.subrange(
                        pos + off,
                        pos + off + len,
                    ));
                }
                Ok((v, off + len))
            }
        },
    }
}

/// Read an unsigned integer item of at most `width` bytes at position
/// `pos` of `buf`.
pub fn decode_uint_at(buf: &Vec<u8>, pos: usize, width: usize) -> (r: Result<
    (Vec<u8>, usize),
    RlpError,
>)
    requires
        pos <= buf@.len(),
    ensures
        match spec_decode_uint(buf@.skip(pos as int), width as int) {
            Ok((v, c)) => r matches Ok((rv, rc)) && rv@ == v && rc == c && pos + c <= buf@.len(),
            Err(e) => r matches Err(e2) && e2 == e,
        },
{
    match decode_string_at(buf, pos) {
        Err(e) => Err(e),
        Ok((v, c)) => {
            if v.len() > width {
                Err(RlpError::Overflow)
            } else if v.len() > 0 && v[0] == 0 {
                Err(RlpError::NonCanonical)
            } else {
                Ok((v, c))
            }
        },
    }
}

/// Pad a byte string with zeros on the left to exactly `width` bytes.
pub fn pad_left(s: &Vec<u8>, width: usize) -> (r: Vec<u8>)
    requires
        s@.len() <= width,
    ensures
        r@ == zeros(width - s@.len()) + s@,
        r@.len() == width,
{
    let mut r: Vec<u8> = Vec::new();
    let pad = width - s.len();
    let mut i: usize = 0;
    while i < pad
        invariant
            i <= pad,
            r@ =~= zeros(i as int),
        decreases pad - i,
    {
        r.push(0);
        i = i + 1;
        proof {
            assert(r@ =~= zeros(i as int));
        }
    }
    crate::bytes::push_all(&mut r, s);
    r
}

/// An Ethereum account as stored in the state trie: a four-item RLP list.
/// Only the balance and the storage root matter to the verifier; the code
/// hash rides along.
#[derive(Clone, Debug, PartialEq, Eq)]
pub struct TrieAccount {
    /// Transaction count of the account.
    pub nonce: u64,
    /// Balance in wei.
    pub balance: U256,
    /// Root hash of the account's storage trie, 32 bytes.
    pub storage_root: Vec<u8>,
    /// Hash of the account's code, 32 bytes.
    pub code_hash: Vec<u8>,
}

/// The mathematical content of a [`TrieAccount`].
#[verifier::ext_equal]
pub struct TrieAccountModel {
    /// Transaction count of the account.
    pub nonce: u64,
    /// Balance in wei.
    pub balance: U256,
    /// Root hash of the account's storage trie.
    pub storage_root: Seq<u8>,
    /// Hash of the account's code.
    pub code_hash: Seq<u8>,
}

impl View for TrieAccount {
    type V = TrieAccountModel;

    open spec fn view(&self) -> TrieAccountModel {
        TrieAccountModel {
            nonce: self.nonce,
            balance: self.balance,
            storage_root: self.storage_root@,
            code_hash: self.code_hash@,
        }
    }
}

impl TrieAccountModel {
    /// The two hash fields are 32 bytes wide.
    pub open spec fn wf(self) -> bool {
        self.storage_root.len() == 32 && self.code_hash.len() == 32
    }
}

/// The payload of the RLP list encoding an account: nonce, balance,
/// storage root, code hash in order, integers minimal.
pub open spec fn rlp_account_payload(a: TrieAccountModel) -> Seq<u8> {
    rlp_encode_uint_bytes(u64_be_bytes(a.nonce)) + rlp_encode_uint_bytes(be_bytes(a.balance))
        + rlp_encode_bytes(a.storage_root) + rlp_encode_bytes(a.code_hash)
}

/// The RLP encoding of an account.
pub open spec fn rlp_account(a: TrieAccountModel) -> Seq<u8> {
    rlp_encode_list(rlp_account_payload(a))
}

/// Encode an account as its four-item RLP list.
pub fn encode_account(a: &TrieAccount) -> (r: Vec<u8>)
    ensures
        r@ == rlp_account(a@),
{
    let mut payload: Vec<u8> = Vec::new();
    append_encoded_u64(&mut payload, a.nonce);
    append_encoded_u256(&mut payload, &a.balance);
    append_encoded_bytes(&mut payload, &a.storage_root);
    append_encoded_bytes(&mut payload, &a.code_hash);
    proof {
        assert(payload@ =~= rlp_account_payload(a@));
    }
    let mut out: Vec<u8> = Vec::new();
    append_list_prefix(&mut out, payload.len());
    crate::bytes::push_all(&mut out, &payload);
    proof {
        assert(out@ =~= rlp_account(a@));
    }
    out
}

/// Decode an account from the RLP list in `b`, which must fill `b` exactly:
/// a list of nonce (up to 8 bytes), balance (up to 32), a 32-byte storage
/// root and a 32-byte code hash, ending exactly with the payload.
pub open spec fn spec_decode_account(b: Seq<u8>) -> Result<TrieAccountModel, RlpError> {
    match spec_parse_header(b) {
        Err(e) => Err(e),
        Ok(h) => if !h.is_list {
            Err(RlpError::UnexpectedType)
        } else if h.off + h.len != b.len() {
            Err(RlpError::UnexpectedLength)
        } else {
            spec_decode_account_fields(b.subrange(h.off, b.len() as int))
        },
    }
}

/// Decode the four account fields from a list payload, which they must
/// fill exactly.
pub open spec fn spec_decode_account_fields(p: Seq<u8>) -> Result<TrieAccountModel, RlpError> {
    match spec_decode_uint(p, 8) {
        Err(e) => Err(e),
        Ok((nb, c1)) => match spec_decode_uint(p.skip(c1), 32) {
            Err(e) => Err(e),
            Ok((bb, c2)) => match spec_decode_string(p.skip(c1 + c2)) {
                Err(e) => Err(e),
                Ok((sr, c3)) => if sr.len() != 32 {
                    Err(RlpError::UnexpectedLength)
                } else {
                    match spec_decode_string(p.skip(c1 + c2 + c3)) {
                        Err(e) => Err(e),
                        Ok((ch, c4)) => if ch.len() != 32 {
                            Err(RlpError::UnexpectedLength)
                        } else if c1 + c2 + c3 + c4 != p.len() {
                            Err(RlpError::UnexpectedLength)
                        } else {
                            Ok(
                                TrieAccountModel {
                                    nonce: crate::u256::u64_of_bytes(
                                        pad8(nb)[0],
                                        pad8(nb)[1],
                                        pad8(nb)[2],
                                        pad8(nb)[3],
                                        pad8(nb)[4],
                                        pad8(nb)[5],
                                        pad8(nb)[6],
                                        pad8(nb)[7],
                                    ),
                                    balance: crate::u256::u256_of_be_bytes(pad32(bb)),
                                    storage_root: sr,
                                    code_hash: ch,
                                },
                            )
                        },
                    }
                },
            },
        },
    }
}

/// Decode an account from RLP bytes.
pub fn decode_account(b: &Vec<u8>) -> (r: Result<TrieAccount, RlpError>)
    ensures
        match spec_decode_account(b@) {
            Ok(m) => r matches Ok(a) && a@ == m && m.wf(),
            Err(e) => r matches Err(e2) && e2 == e,
        },
{
    proof {
        assert(b@.skip(0) =~= b@);
    }
    let n = b.len();
    let (is_list, off, len) = match parse_header(b, 0) {
        Err(e) => {
            return Err(e);
        },
        Ok(h) => h,
    };
    if !is_list {
        return Err(RlpError::UnexpectedType);
    }
    if off + len != n {
        return Err(RlpError::UnexpectedLength);
    }
    decode_account_fields(b, off)
}

/// Decode the four account fields from the list payload at `off`, which
/// must reach to the end of `b`.
#[verifier::rlimit(50)]
fn decode_account_fields(b: &Vec<u8>, off: usize) -> (r: Result<TrieAccount, RlpError>)
    requires
        off <= b@.len(),
    ensures
        match spec_decode_account_fields(b@.skip(off as int)) {
            Ok(m) => r matches Ok(a) && a@ == m && m.wf(),
            Err(e) => r matches Err(e2) && e2 == e,
        },
{
    let ghost p = b@.skip(off as int);
    let n = b.len();
    let (nb, c1) = match decode_uint_at(b, off, 8) {
        Err(e) => {
            return Err(e);
        },
        Ok(v) => v,
    };
    proof {
        assert(p.skip(c1 as int) =~= b@.skip(off + c1));
    }
    let (bb, c2) = match decode_uint_at(b, off + c1, 32) {
        Err(e) => {
            return Err(e);
        },
        Ok(v) => v,
    };
    proof {
        assert(p.skip(c1 + c2) =~= b@.skip(off + c1 + c2));
    }
    let (sr, c3) = match decode_string_at(b, off + c1 + c2) {
        Err(e) => {
            return Err(e);
        },
        Ok(v) => v,
    };
    if sr.len() != 32 {
        return Err(RlpError::UnexpectedLength);
    }
    proof {
        assert(p.skip(c1 + c2 + c3) =~= b@.skip(off + c1 + c2 + c3));
    }
    let (ch, c4) = match decode_string_at(b, off + c1 + c2 + c3) {
        Err(e) => {
            return Err(e);
        },
        Ok(v) => v,
    };
    if ch.len() != 32 {
        return Err(RlpError::UnexpectedLength);
    }
    if !(c1 <= b.len() && c2 <= b.len() - c1 && c3 <= b.len() - c1 - c2 && c4 == b.len() - off - c1
        - c2 - c3) {
        return Err(RlpError::UnexpectedLength);
    }
    let n8 = pad_left(&nb, 8);
    let nonce = crate::u256::u64_from_be(n8[0], n8[1], n8[2], n8[3], n8[4], n8[5], n8[6], n8[7]);
    let b32 = pad_left(&bb, 32);
    let balance = U256::from_be_bytes(&b32);
    proof {
        assert(n8@ =~= pad8(nb@));
        assert(b32@ =~= pad32(bb@));
    }
    Ok(TrieAccount { nonce, balance, storage_root: sr, code_hash: ch })
}

/// Reading back the minimal big-endian bytes of a value gives the value,
/// and a positive value's first byte is nonzero.
pub proof fn lemma_be_val_of_be_min(n: int)
    requires
        0 <= n,
    ensures
        be_val(be_min_bytes(n)) == n,
        be_min_bytes(n).len() > 0 ==> be_min_bytes(n)[0] != 0,
    decreases n,
{
    if n > 0 {
        lemma_be_val_of_be_min(n / 256);
        let s = be_min_bytes(n / 256);
        let w = s.push((n % 256) as u8);
        assert(w.drop_last() =~= s);
        if n < 256 {
            assert(s.len() == 0);
            assert(w[0] == (n % 256) as u8);
        }
    }
}

/// A byte string whose first byte is nonzero has a positive value.
proof fn lemma_be_val_positive(s: Seq<u8>)
    requires
        s.len() > 0,
        s[0] != 0,
    ensures
        be_val(s) > 0,
    decreases s.len(),
{
    if s.len() == 1 {
        assert(s.drop_last().len() == 0);
        assert(be_val(s.drop_last()) == 0);
        assert(be_val(s) == s.last() && s.last() == s[0]);
    } else {
        assert(s.drop_last()[0] == s[0]);
        lemma_be_val_positive(s.drop_last());
    }
}

/// The minimal big-endian bytes of a canonical string's value are the
/// string itself.
pub proof fn lemma_be_min_of_be_val(s: Seq<u8>)
    requires
        s.len() == 0 || s[0] != 0,
    ensures
        be_min_bytes(be_val(s)) == s,
    decreases s.len(),
{
    if s.len() > 0 {
        let d = s.drop_last();
        let n = be_val(s);
        lemma_be_val_bounds(d);
        assert(0 <= s.last() < 256);
        assert(n == 256 * be_val(d) + s.last());
        assert(n / 256 == be_val(d) && n % 256 == s.last());
        if d.len() == 0 {
            assert(be_val(d) == 0);
            assert(s[0] == s.last());
            assert(n == s.last() && n > 0 && n < 256);
            assert(n / 256 == 0 && n % 256 == n);
            assert(be_min_bytes(0) =~= Seq::<u8>::empty());
            assert(be_min_bytes(n) =~= Seq::<u8>::empty().push(n as u8));
            assert(be_min_bytes(n) =~= s);
        } else {
            assert(d[0] == s[0]);
            lemma_be_min_of_be_val(d);
            lemma_be_val_positive(d);
            assert(n > 0);
            assert(be_min_bytes(n) =~= be_min_bytes(be_val(d)).push(s.last()));
            assert(d.push(s.last()) =~= s);
        }
    }
}

/// A stripped string keeps no leading zero.
pub proof fn lemma_strip_zeros_canonical(s: Seq<u8>)
    ensures
        strip_zeros(s).len() > 0 ==> strip_zeros(s)[0] != 0,
        strip_zeros(s).len() <= s.len(),
    decreases s.len(),
{
    if s.len() > 0 && s[0] == 0 {
        lemma_strip_zeros_canonical(s.drop_first());
    }
}

/// Padding the stripped string back with zeros gives the original string.
pub proof fn lemma_strip_zeros_pad(s: Seq<u8>)
    ensures
        zeros(s.len() - strip_zeros(s).len()) + strip_zeros(s) == s,
    decreases s.len(),
{
    if s.len() > 0 && s[0] == 0 {
        lemma_strip_zeros_pad(s.drop_first());
        assert(zeros(s.len() - strip_zeros(s).len()) =~= seq![0u8] + zeros(
            s.drop_first().len() - strip_zeros(s.drop_first()).len(),
        ));
        assert(zeros(s.len() - strip_zeros(s).len()) + strip_zeros(s) =~= seq![s[0]] + (zeros(
            s.drop_first().len() - strip_zeros(s.drop_first()).len(),
        ) + strip_zeros(s.drop_first())));
        assert(seq![s[0]] + s.drop_first() =~= s);
    } else {
        assert(zeros(0) + s =~= s);
    }
}

/// Stripping zeros off a zero-padded canonical string gives it back.
pub proof fn lemma_strip_zeros_of_pad(k: int, v: Seq<u8>)
    requires
        0 <= k,
        v.len() == 0 || v[0] != 0,
    ensures
        strip_zeros(zeros(k) + v) == v,
    decreases k,
{
    if k == 0 {
        assert(zeros(0) + v =~= v);
        if v.len() > 0 {
            assert(strip_zeros(v) == v);
        }
    } else {
        let w = zeros(k) + v;
        assert(w.len() > 0 && w[0] == 0);
        assert(w.drop_first() =~= zeros(k - 1) + v);
        lemma_strip_zeros_of_pad(k - 1, v);
    }
}

/// Parsing an encoded byte string finds exactly the string, whatever
/// follows the frame.
pub proof fn lemma_parse_encoded_bytes(s: Seq<u8>, rest: Seq<u8>)
    requires
        s.len() < pow_bytes(8),
    ensures
        spec_parse_header(rlp_encode_bytes(s) + rest) matches Ok(h) && !h.is_list && h.off + h.len
            == rlp_encode_bytes(s).len() && (rlp_encode_bytes(s) + rest).subrange(
            h.off,
            h.off + h.len,
        ) == s,
{
    let e = rlp_encode_bytes(s);
    let b = e + rest;
    reveal(spec_parse_header);
    lemma_pow_bytes_le_max(8);
    if s.len() == 1 && s[0] < 0x80 {
        assert(b[0] == s[0]);
        assert(b.subrange(0, 1) =~= s);
    } else if s.len() <= 55 {
        assert(e =~= seq![(0x80 + s.len()) as u8] + s);
        assert(b[0] == 0x80 + s.len());
        assert(b.subrange(1, 1 + s.len() as int) =~= s);
        if s.len() == 1 {
            assert(b[1] == s[0] && s[0] >= 0x80);
        }
    } else {
        let lb = be_min_bytes(s.len() as int);
        lemma_be_val_of_be_min(s.len() as int);
        lemma_be_min_bytes_len(s.len() as int, 8);
        assert(lb.len() >= 1);
        assert(e =~= seq![(0xb7 + lb.len()) as u8] + lb + s);
        assert(b[0] == 0xb7 + lb.len() && 0xb8 <= b[0] <= 0xbf);
        assert(b[1] == lb[0] && lb[0] != 0);
        assert(b.subrange(1, 1 + lb.len() as int) =~= lb);
        assert(be_val(b.subrange(1, 1 + lb.len() as int)) == s.len());
        assert(b.subrange(1 + lb.len() as int, 1 + lb.len() + s.len() as int) =~= s);
    }
}

/// Parsing an encoded list finds exactly the payload, whatever follows the
/// frame.
pub proof fn lemma_parse_encoded_list(p: Seq<u8>, rest: Seq<u8>)
    requires
        p.len() < pow_bytes(8),
    ensures
        spec_parse_header(rlp_encode_list(p) + rest) matches Ok(h) && h.is_list && h.off + h.len
            == rlp_encode_list(p).len() && (rlp_encode_list(p) + rest).subrange(
            h.off,
            h.off + h.len,
        ) == p,
{
    let e = rlp_encode_list(p);
    let b = e + rest;
    reveal(spec_parse_header);
    lemma_pow_bytes_le_max(8);
    if p.len() <= 55 {
        assert(e =~= seq![(0xc0 + p.len()) as u8] + p);
        assert(b[0] == 0xc0 + p.len());
        assert(b.subrange(1, 1 + p.len() as int) =~= p);
    } else {
        let lb = be_min_bytes(p.len() as int);
        lemma_be_val_of_be_min(p.len() as int);
        lemma_be_min_bytes_len(p.len() as int, 8);
        assert(lb.len() >= 1);
        assert(e =~= seq![(0xf7 + lb.len()) as u8] + lb + p);
        assert(b[0] == 0xf7 + lb.len() && b[0] > 0xf7);
        assert(b[1] == lb[0] && lb[0] != 0);
        assert(b.subrange(1, 1 + lb.len() as int) =~= lb);
        assert(be_val(b.subrange(1, 1 + lb.len() as int)) == p.len());
        assert(b.subrange(1 + lb.len() as int, 1 + lb.len() + p.len() as int) =~= p);
    }
}

/// Decoding an encoded byte string gives the string back and consumes
/// exactly the frame: half of the string round trip.
pub proof fn lemma_decode_encode_bytes(s: Seq<u8>, rest: Seq<u8>)
    requires
        s.len() < pow_bytes(8),
    ensures
        spec_decode_string(rlp_encode_bytes(s) + rest) == Ok::<_, RlpError>(
            (s, rlp_encode_bytes(s).len() as int),
        ),
{
    lemma_parse_encoded_bytes(s, rest);
}

/// Encoding a decoded byte string gives back exactly the bytes consumed:
/// the other half of the string round trip, for canonical input.
pub proof fn lemma_encode_decode_bytes(b: Seq<u8>)
    ensures
        spec_decode_string(b) matches Ok((v, c)) ==> rlp_encode_bytes(v) == b.take(c),
{
    reveal(spec_parse_header);
    if b.len() > 0 {
        let b0 = b[0];
        match spec_decode_string(b) {
            Ok((v, c)) => {
                if b0 < 0x80 {
                    assert(v =~= b.subrange(0, 1));
                    assert(rlp_encode_bytes(v) =~= b.take(1));
                } else if b0 <= 0xb7 {
                    let len = b0 - 0x80;
                    assert(v =~= b.subrange(1, 1 + len));
                    if len == 1 {
                        assert(v[0] == b[1] && b[1] >= 0x80);
                    }
                    assert(rlp_encode_bytes(v) =~= b.take(c));
                } else if b0 <= 0xbf {
                    let ll = b0 - 0xb7;
                    let lb = b.subrange(1, 1 + ll);
                    let len = be_val(lb);
                    lemma_be_min_of_be_val(lb);
                    assert(be_min_bytes(len) == lb);
                    assert(v =~= b.subrange(1 + ll, 1 + ll + len));
                    assert(rlp_encode_bytes(v) =~= seq![(0xb7 + lb.len()) as u8] + lb + v);
                    assert(rlp_encode_bytes(v) =~= b.take(c));
                }
            },
            Err(_) => {},
        }
    }
}

/// Decoding an encoded unsigned integer gives its minimal bytes back:
/// half of the integer round trip.
pub proof fn lemma_decode_encode_uint(be: Seq<u8>, rest: Seq<u8>, width: int)
    requires
        be.len() <= width,
        width < pow_bytes(8),
    ensures
        spec_decode_uint(rlp_encode_uint_bytes(be) + rest, width) == Ok::<_, RlpError>(
            (strip_zeros(be), rlp_encode_uint_bytes(be).len() as int),
        ),
{
    lemma_strip_zeros_canonical(be);
    lemma_decode_encode_bytes(strip_zeros(be), rest);
}

/// The nonce survives stripping, padding and reassembly.
proof fn lemma_nonce_reconstruct(x: u64)
    ensures
        crate::u256::u64_of_bytes(
            pad8(strip_zeros(u64_be_bytes(x)))[0],
            pad8(strip_zeros(u64_be_bytes(x)))[1],
            pad8(strip_zeros(u64_be_bytes(x)))[2],
            pad8(strip_zeros(u64_be_bytes(x)))[3],
            pad8(strip_zeros(u64_be_bytes(x)))[4],
            pad8(strip_zeros(u64_be_bytes(x)))[5],
            pad8(strip_zeros(u64_be_bytes(x)))[6],
            pad8(strip_zeros(u64_be_bytes(x)))[7],
        ) == x,
{
    lemma_strip_zeros_canonical(u64_be_bytes(x));
    lemma_strip_zeros_pad(u64_be_bytes(x));
    assert(pad8(strip_zeros(u64_be_bytes(x))) =~= u64_be_bytes(x));
    crate::u256::lemma_u64_of_bytes_roundtrip(x);
}

/// The balance survives stripping, padding and reassembly.
proof fn lemma_balance_reconstruct(v: U256)
    ensures
        crate::u256::u256_of_be_bytes(pad32(strip_zeros(be_bytes(v)))) == v,
{
    lemma_strip_zeros_canonical(be_bytes(v));
    lemma_strip_zeros_pad(be_bytes(v));
    assert(pad32(strip_zeros(be_bytes(v))) =~= be_bytes(v));
    crate::u256::lemma_u256_of_be_roundtrip(v);
}

/// Decoding the encoded account fields gives the fields back.
#[verifier::rlimit(100)]
#[verifier::spinoff_prover]
proof fn lemma_account_fields_round_trip(a: TrieAccountModel)
    requires
        a.wf(),
    ensures
        spec_decode_account_fields(rlp_account_payload(a)) == Ok::<_, RlpError>(a),
{
    lemma_pow_bytes_le_max(8);
    let nonce_be = u64_be_bytes(a.nonce);
    let balance_be = be_bytes(a.balance);
    let e1 = rlp_encode_uint_bytes(nonce_be);
    let e2 = rlp_encode_uint_bytes(balance_be);
    let e3 = rlp_encode_bytes(a.storage_root);
    let e4 = rlp_encode_bytes(a.code_hash);
    let p = rlp_account_payload(a);
    lemma_strip_zeros_canonical(nonce_be);
    lemma_strip_zeros_canonical(balance_be);
    assert(p =~= e1 + (e2 + e3 + e4));
    lemma_decode_encode_uint(nonce_be, e2 + e3 + e4, 8);
    let nb = strip_zeros(nonce_be);
    let c1 = e1.len() as int;
    assert(p.skip(c1) =~= e2 + (e3 + e4));
    lemma_decode_encode_uint(balance_be, e3 + e4, 32);
    let bb = strip_zeros(balance_be);
    let c2 = e2.len() as int;
    assert(p.skip(c1 + c2) =~= e3 + e4);
    lemma_decode_encode_bytes(a.storage_root, e4);
    let c3 = e3.len() as int;
    assert(p.skip(c1 + c2 + c3) =~= e4 + Seq::<u8>::empty());
    lemma_decode_encode_bytes(a.code_hash, Seq::<u8>::empty());
    let c4 = e4.len() as int;
    assert(c1 + c2 + c3 + c4 == p.len());
    lemma_nonce_reconstruct(a.nonce);
    lemma_balance_reconstruct(a.balance);
    match spec_decode_account_fields(p) {
        Ok(m) => {
            assert(m =~= a);
        },
        Err(_) => {
            assert(false);
        },
    }
}

/// Decoding an encoded account gives the account back: the account half
/// of the round trip.
#[verifier::rlimit(100)]
#[verifier::spinoff_prover]
pub proof fn lemma_account_round_trip(a: TrieAccountModel)
    requires
        a.wf(),
    ensures
        spec_decode_account(rlp_account(a)) == Ok::<_, RlpError>(a),
{
    lemma_pow_bytes_le_max(8);
    let p = rlp_account_payload(a);
    let b = rlp_account(a);
    lemma_strip_zeros_canonical(u64_be_bytes(a.nonce));
    lemma_strip_zeros_canonical(be_bytes(a.balance));
    assert(p.len() < pow_bytes(8));
    lemma_parse_encoded_list(p, Seq::<u8>::empty());
    assert(b + Seq::<u8>::empty() =~= b);
    let h = spec_parse_header(b)->Ok_0;
    assert(b.subrange(h.off, h.off + h.len) == p);
    assert(b.subrange(h.off, b.len() as int) =~= b.subrange(h.off, h.off + h.len));
    lemma_account_fields_round_trip(a);
}

/// Re-framing a decoded list payload gives back exactly the bytes
/// consumed: the list analogue of the byte-string converse.
pub proof fn lemma_encode_decode_list(b: Seq<u8>)
    ensures
        match spec_parse_header(b) {
            Ok(h) => h.is_list ==> rlp_encode_list(b.subrange(h.off, h.off + h.len)) == b.take(
                h.off + h.len,
            ),
            Err(_) => true,
        },
{
    reveal(spec_parse_header);
    if b.len() > 0 {
        let b0 = b[0];
        match spec_parse_header(b) {
            Ok(h) => {
                if h.is_list {
                    let p = b.subrange(h.off, h.off + h.len);
                    if b0 <= 0xf7 {
                        assert(rlp_encode_list(p) =~= b.take(h.off + h.len));
                    } else {
                        let ll = b0 - 0xf7;
                        let lb = b.subrange(1, 1 + ll);
                        lemma_be_min_of_be_val(lb);
                        assert(be_min_bytes(h.len) == lb);
                        assert(rlp_encode_list(p) =~= seq![(0xf7 + lb.len()) as u8] + lb + p);
                        assert(rlp_encode_list(p) =~= b.take(h.off + h.len));
                    }
                }
            },
            Err(_) => {},
        }
    }
}

/// A decoded nonce re-encodes to exactly its minimal digits.
proof fn lemma_nonce_reencode(nb: Seq<u8>)
    requires
        nb.len() <= 8,
        nb.len() == 0 || nb[0] != 0,
    ensures
        strip_zeros(
            u64_be_bytes(
                crate::u256::u64_of_bytes(
                    pad8(nb)[0],
                    pad8(nb)[1],
                    pad8(nb)[2],
                    pad8(nb)[3],
                    pad8(nb)[4],
                    pad8(nb)[5],
                    pad8(nb)[6],
                    pad8(nb)[7],
                ),
            ),
        ) == nb,
{
    let p = pad8(nb);
    assert(p.len() == 8);
    crate::u256::lemma_u64_be_of_bytes(p[0], p[1], p[2], p[3], p[4], p[5], p[6], p[7]);
    assert(seq![p[0], p[1], p[2], p[3], p[4], p[5], p[6], p[7]] =~= p);
    lemma_strip_zeros_of_pad(8 - nb.len(), nb);
}

/// A decoded balance re-encodes to exactly its minimal digits.
proof fn lemma_balance_reencode(bb: Seq<u8>)
    requires
        bb.len() <= 32,
        bb.len() == 0 || bb[0] != 0,
    ensures
        strip_zeros(be_bytes(crate::u256::u256_of_be_bytes(pad32(bb)))) == bb,
{
    let p = pad32(bb);
    assert(p.len() == 32);
    crate::u256::lemma_u256_be_of_bytes(p);
    lemma_strip_zeros_of_pad(32 - bb.len(), bb);
}

/// Re-encoding decoded account fields gives back exactly the payload: the
/// converse half of the account round trip, over the fields.
#[verifier::rlimit(100)]
#[verifier::spinoff_prover]
proof fn lemma_account_fields_canonical(p: Seq<u8>)
    ensures
        spec_decode_account_fields(p) matches Ok(m) ==> rlp_account_payload(m) == p,
{
    match spec_decode_account_fields(p) {
        Ok(m) => {
            let (nb, c1) = spec_decode_uint(p, 8)->Ok_0;
            let p2 = p.skip(c1);
            let (bb, c2) = spec_decode_uint(p2, 32)->Ok_0;
            let p3 = p.skip(c1 + c2);
            let (sr, c3) = spec_decode_string(p3)->Ok_0;
            let p4 = p.skip(c1 + c2 + c3);
            let (ch, c4) = spec_decode_string(p4)->Ok_0;
            lemma_header_fits(p);
            lemma_header_fits(p2);
            lemma_header_fits(p3);
            lemma_header_fits(p4);
            lemma_encode_decode_bytes(p);
            lemma_encode_decode_bytes(p2);
            lemma_encode_decode_bytes(p3);
            lemma_encode_decode_bytes(p4);
            lemma_nonce_reencode(nb);
            lemma_balance_reencode(bb);
            assert(rlp_encode_uint_bytes(u64_be_bytes(m.nonce)) == p.take(c1));
            assert(rlp_encode_uint_bytes(be_bytes(m.balance)) == p2.take(c2));
            assert(rlp_encode_bytes(m.storage_root) == p3.take(c3));
            assert(rlp_encode_bytes(m.code_hash) == p4.take(c4));
            assert(c1 + c2 + c3 + c4 == p.len());
            assert forall|i: int| 0 <= i < c2 implies p2.take(c2)[i] == p[c1 + i] by {
                assert(p2.take(c2)[i] == p2[i]);
                assert(p2[i] == p[c1 + i]);
            }
            assert forall|i: int| 0 <= i < c3 implies p3.take(c3)[i] == p[c1 + c2 + i] by {
                assert(p3.take(c3)[i] == p3[i]);
                assert(p3[i] == p[c1 + c2 + i]);
            }
            assert forall|i: int| 0 <= i < c4 implies p4.take(c4)[i] == p[c1 + c2 + c3 + i] by {
                assert(p4.take(c4)[i] == p4[i]);
                assert(p4[i] == p[c1 + c2 + c3 + i]);
            }
            assert(rlp_account_payload(m) =~= p);
        },
        Err(_) => {},
    }
}

/// Re-encoding a decoded account gives back exactly the bytes: the
/// converse half of the account round trip, for canonical input.
pub proof fn lemma_account_canonical(b: Seq<u8>)
    ensures
        spec_decode_account(b) matches Ok(m) ==> rlp_account(m) == b,
{
    match spec_decode_account(b) {
        Ok(m) => {
            let h = spec_parse_header(b)->Ok_0;
            let p = b.subrange(h.off, b.len() as int);
            lemma_header_fits(b);
            assert(p =~= b.subrange(h.off, h.off + h.len));
            lemma_encode_decode_list(b);
            lemma_account_fields_canonical(p);
            assert(rlp_account(m) == b.take(h.off + h.len));
            assert(b.take(h.off + h.len) =~= b);
        },
        Err(_) => {},
    }
}

/// 256^n for n at most 8 stays within 64 bits.
proof fn lemma_pow_bytes_le_max(n: int)
    requires
        0 <= n <= 8,
    ensures
        pow_bytes(n) <= 0x1_0000_0000_0000_0000,
        n <= 7 ==> pow_bytes(n) <= 0x100_0000_0000_0000,
        pow_bytes(n) >= 1,
        pow_bytes(8) == 0x1_0000_0000_0000_0000,
{
    assert(pow_bytes(0) == 1);
    assert(pow_bytes(1) == 256);
    assert(pow_bytes(2) == 0x1_0000);
    assert(pow_bytes(3) == 0x100_0000);
    assert(pow_bytes(4) == 0x1_0000_0000);
    assert(pow_bytes(5) == 0x100_0000_0000);
    assert(pow_bytes(6) == 0x1_0000_0000_0000);
    assert(pow_bytes(7) == 0x100_0000_0000_0000);
    assert(pow_bytes(8) == 0x1_0000_0000_0000_0000);
}

} // verus!
