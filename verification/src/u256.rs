//! Fixed-width 256-bit unsigned integers.
//!
//! Amounts and withdrawal indices are 256-bit unsigned integers. The type
//! here stores four 64-bit limbs, least significant first, and is specified
//! by its mathematical value [`U256::as_nat`]. Arithmetic is checked: an
//! addition that would wrap reports `None` instead.

use vstd::prelude::*;

verus! {

/// 2^256, the first value that does not fit in 256 bits.
pub open spec fn pow256() -> int {
    0x1_0000_0000_0000_0000int * (0x1_0000_0000_0000_0000int * (0x1_0000_0000_0000_0000int
        * 0x1_0000_0000_0000_0000))
}

/// A 256-bit unsigned integer: four 64-bit limbs, least significant first.
#[derive(Clone, Copy, Debug, PartialEq, Eq, Hash, Structural)]
pub struct U256 {
    /// Bits 0..64.
    pub l0: u64,
    /// Bits 64..128.
    pub l1: u64,
    /// Bits 128..192.
    pub l2: u64,
    /// Bits 192..256.
    pub l3: u64,
}

impl U256 {
    /// The mathematical value of this integer.
    pub open spec fn as_nat(self) -> int {
        self.l0 + 0x1_0000_0000_0000_0000int * (self.l1 + 0x1_0000_0000_0000_0000int * (self.l2
            + 0x1_0000_0000_0000_0000int * self.l3))
    }

    /// Zero.
    pub fn zero() -> (r: U256)
        ensures
            r.as_nat() == 0,
    {
        U256 { l0: 0, l1: 0, l2: 0, l3: 0 }
    }

    /// The largest representable value, 2^256 - 1.
    pub fn max_value() -> (r: U256)
        ensures
            r.as_nat() == pow256() - 1,
    {
        U256 { l0: u64::MAX, l1: u64::MAX, l2: u64::MAX, l3: u64::MAX }
    }

    /// Widen a 64-bit integer.
    pub fn from_u64(x: u64) -> (r: U256)
        ensures
            r.as_nat() == x,
    {
        U256 { l0: x, l1: 0, l2: 0, l3: 0 }
    }

    /// Whether this integer is zero.
    pub fn is_zero(&self) -> (r: bool)
        ensures
            r <==> self.as_nat() == 0,
    {
        self.l0 == 0 && self.l1 == 0 && self.l2 == 0 && self.l3 == 0
    }

    /// Checked addition: `None` exactly when the sum does not fit in 256 bits.
    pub fn checked_add(&self, other: &U256) -> (r: Option<U256>)
        ensures
            self.as_nat() + other.as_nat() < pow256() ==> (r matches Some(s)
                && s.as_nat() == self.as_nat() + other.as_nat()),
            self.as_nat() + other.as_nat() >= pow256() ==> r is None,
    {
        let (s0, c0) = add_limb(self.l0, other.l0, 0);
        let (s1, c1) = add_limb(self.l1, other.l1, c0);
        let (s2, c2) = add_limb(self.l2, other.l2, c1);
        let (s3, c3) = add_limb(self.l3, other.l3, c2);
        let s = U256 { l0: s0, l1: s1, l2: s2, l3: s3 };
        if c3 == 0 {
            Some(s)
        } else {
            None
        }
    }

    /// The value one less, as limbs: the borrow runs up from the lowest
    /// nonzero limb.
    pub open spec fn pred(self) -> U256 {
        if self.l0 > 0 {
            U256 { l0: (self.l0 - 1) as u64, l1: self.l1, l2: self.l2, l3: self.l3 }
        } else if self.l1 > 0 {
            U256 { l0: u64::MAX, l1: (self.l1 - 1) as u64, l2: self.l2, l3: self.l3 }
        } else if self.l2 > 0 {
            U256 { l0: u64::MAX, l1: u64::MAX, l2: (self.l2 - 1) as u64, l3: self.l3 }
        } else {
            U256 { l0: u64::MAX, l1: u64::MAX, l2: u64::MAX, l3: (self.l3 - 1) as u64 }
        }
    }

    /// Subtract one. The argument must be nonzero.
    pub fn sub_one(&self) -> (r: U256)
        requires
            self.as_nat() >= 1,
        ensures
            r.as_nat() == self.as_nat() - 1,
            r == self.pred(),
    {
        let (s0, b0) = sub_limb(self.l0, 1, 0);
        let (s1, b1) = sub_limb(self.l1, 0, b0);
        let (s2, b2) = sub_limb(self.l2, 0, b1);
        let (s3, b3) = sub_limb(self.l3, 0, b2);
        U256 { l0: s0, l1: s1, l2: s2, l3: s3 }
    }

    /// Strictly-less-than comparison.
    pub fn lt(&self, other: &U256) -> (r: bool)
        ensures
            r <==> self.as_nat() < other.as_nat(),
    {
        if self.l3 != other.l3 {
            self.l3 < other.l3
        } else if self.l2 != other.l2 {
            self.l2 < other.l2
        } else if self.l1 != other.l1 {
            self.l1 < other.l1
        } else {
            self.l0 < other.l0
        }
    }

    /// Strictly-greater-than comparison.
    pub fn gt(&self, other: &U256) -> (r: bool)
        ensures
            r <==> self.as_nat() > other.as_nat(),
    {
        other.lt(self)
    }
}

/// The eight bytes of a 64-bit integer, most significant first.
pub open spec fn u64_be_bytes(x: u64) -> Seq<u8> {
    seq![
        (x >> 56) as u8,
        (x >> 48) as u8,
        (x >> 40) as u8,
        (x >> 32) as u8,
        (x >> 24) as u8,
        (x >> 16) as u8,
        (x >> 8) as u8,
        x as u8,
    ]
}

/// The eight bytes of a 64-bit integer, least significant first.
pub open spec fn u64_le_bytes(x: u64) -> Seq<u8> {
    u64_be_bytes(x).reverse()
}

/// The 32 bytes of a 256-bit integer, most significant first.
pub open spec fn be_bytes(v: U256) -> Seq<u8> {
    u64_be_bytes(v.l3) + u64_be_bytes(v.l2) + u64_be_bytes(v.l1) + u64_be_bytes(v.l0)
}

/// The 32 bytes of a 256-bit integer, least significant first.
pub open spec fn le_bytes(v: U256) -> Seq<u8> {
    u64_le_bytes(v.l0) + u64_le_bytes(v.l1) + u64_le_bytes(v.l2) + u64_le_bytes(v.l3)
}

impl U256 {
    /// The 32-byte big-endian encoding.
    pub fn to_be_bytes(&self) -> (r: Vec<u8>)
        ensures
            r@ == be_bytes(*self),
    {
        let mut r: Vec<u8> = Vec::new();
        push_u64_be(&mut r, self.l3);
        push_u64_be(&mut r, self.l2);
        push_u64_be(&mut r, self.l1);
        push_u64_be(&mut r, self.l0);
        proof {
            assert(r@ =~= be_bytes(*self));
        }
        r
    }

    /// The 32-byte little-endian encoding.
    pub fn to_le_bytes(&self) -> (r: Vec<u8>)
        ensures
            r@ == le_bytes(*self),
    {
        let mut r: Vec<u8> = Vec::new();
        push_u64_le(&mut r, self.l0);
        push_u64_le(&mut r, self.l1);
        push_u64_le(&mut r, self.l2);
        push_u64_le(&mut r, self.l3);
        proof {
            assert(u64_le_bytes(self.l0) =~= u64_be_bytes(self.l0).reverse());
            assert(u64_le_bytes(self.l1) =~= u64_be_bytes(self.l1).reverse());
            assert(u64_le_bytes(self.l2) =~= u64_be_bytes(self.l2).reverse());
            assert(u64_le_bytes(self.l3) =~= u64_be_bytes(self.l3).reverse());
            assert(r@ =~= le_bytes(*self));
        }
        r
    }

    /// Read a 32-byte big-endian encoding.
    pub fn from_be_bytes(b: &Vec<u8>) -> (r: U256)
        requires
            b@.len() == 32,
        ensures
            be_bytes(r) == b@,
            r == u256_of_be_bytes(b@),
    {
        let l3 = u64_from_be(b[0], b[1], b[2], b[3], b[4], b[5], b[6], b[7]);
        let l2 = u64_from_be(b[8], b[9], b[10], b[11], b[12], b[13], b[14], b[15]);
        let l1 = u64_from_be(b[16], b[17], b[18], b[19], b[20], b[21], b[22], b[23]);
        let l0 = u64_from_be(b[24], b[25], b[26], b[27], b[28], b[29], b[30], b[31]);
        let r = U256 { l0, l1, l2, l3 };
        proof {
            assert(be_bytes(r) =~= b@);
        }
        r
    }
}

/// The 64-bit integer assembled from eight bytes, most significant first.
pub open spec fn u64_of_bytes(b0: u8, b1: u8, b2: u8, b3: u8, b4: u8, b5: u8, b6: u8, b7: u8) -> u64 {
    ((b0 as u64) << 56) | ((b1 as u64) << 48) | ((b2 as u64) << 40) | ((b3 as u64) << 32) | ((
    b4 as u64) << 24) | ((b5 as u64) << 16) | ((b6 as u64) << 8) | (b7 as u64)
}

/// The 256-bit integer assembled from 32 bytes, most significant first.
pub open spec fn u256_of_be_bytes(s: Seq<u8>) -> U256 {
    U256 {
        l3: u64_of_bytes(s[0], s[1], s[2], s[3], s[4], s[5], s[6], s[7]),
        l2: u64_of_bytes(s[8], s[9], s[10], s[11], s[12], s[13], s[14], s[15]),
        l1: u64_of_bytes(s[16], s[17], s[18], s[19], s[20], s[21], s[22], s[23]),
        l0: u64_of_bytes(s[24], s[25], s[26], s[27], s[28], s[29], s[30], s[31]),
    }
}

/// Reading back the big-endian bytes of a value gives the value.
pub proof fn lemma_u256_of_be_roundtrip(v: U256)
    ensures
        u256_of_be_bytes(be_bytes(v)) == v,
{
    lemma_u64_of_bytes_roundtrip(v.l0);
    lemma_u64_of_bytes_roundtrip(v.l1);
    lemma_u64_of_bytes_roundtrip(v.l2);
    lemma_u64_of_bytes_roundtrip(v.l3);
}

/// Reading back the eight big-endian bytes of a 64-bit value gives the value.
pub proof fn lemma_u64_of_bytes_roundtrip(x: u64)
    ensures
        u64_of_bytes(
            (x >> 56) as u8,
            (x >> 48) as u8,
            (x >> 40) as u8,
            (x >> 32) as u8,
            (x >> 24) as u8,
            (x >> 16) as u8,
            (x >> 8) as u8,
            x as u8,
        ) == x,
{
    assert((((x >> 56) as u8 as u64) << 56) | (((x >> 48) as u8 as u64) << 48) | (((x >> 40)
        as u8 as u64) << 40) | (((x >> 32) as u8 as u64) << 32) | (((x >> 24) as u8 as u64) << 24)
        | (((x >> 16) as u8 as u64) << 16) | (((x >> 8) as u8 as u64) << 8) | (x as u8 as u64)
        == x) by (bit_vector);
}

/// Writing out the integer assembled from eight bytes gives the bytes.
pub proof fn lemma_u64_be_of_bytes(b0: u8, b1: u8, b2: u8, b3: u8, b4: u8, b5: u8, b6: u8, b7: u8)
    ensures
        u64_be_bytes(u64_of_bytes(b0, b1, b2, b3, b4, b5, b6, b7)) == seq![
            b0,
            b1,
            b2,
            b3,
            b4,
            b5,
            b6,
            b7,
        ],
{
    let x = u64_of_bytes(b0, b1, b2, b3, b4, b5, b6, b7);
    assert((x >> 56) as u8 == b0 && (x >> 48) as u8 == b1 && (x >> 40) as u8 == b2 && (x >> 32)
        as u8 == b3 && (x >> 24) as u8 == b4 && (x >> 16) as u8 == b5 && (x >> 8) as u8 == b6
        && x as u8 == b7) by (bit_vector)
        requires
            x == ((b0 as u64) << 56) | ((b1 as u64) << 48) | ((b2 as u64) << 40) | ((b3 as u64)
                << 32) | ((b4 as u64) << 24) | ((b5 as u64) << 16) | ((b6 as u64) << 8) | (
            b7 as u64),
    ;
    assert(u64_be_bytes(x) =~= seq![b0, b1, b2, b3, b4, b5, b6, b7]);
}

/// Writing out the integer assembled from 32 bytes gives the bytes.
pub proof fn lemma_u256_be_of_bytes(s: Seq<u8>)
    requires
        s.len() == 32,
    ensures
        be_bytes(u256_of_be_bytes(s)) == s,
{
    lemma_u64_be_of_bytes(s[0], s[1], s[2], s[3], s[4], s[5], s[6], s[7]);
    lemma_u64_be_of_bytes(s[8], s[9], s[10], s[11], s[12], s[13], s[14], s[15]);
    lemma_u64_be_of_bytes(s[16], s[17], s[18], s[19], s[20], s[21], s[22], s[23]);
    lemma_u64_be_of_bytes(s[24], s[25], s[26], s[27], s[28], s[29], s[30], s[31]);
    assert(be_bytes(u256_of_be_bytes(s)) =~= s);
}

/// Append the eight bytes of `x`, most significant first.
pub(crate) fn push_u64_be(out: &mut Vec<u8>, x: u64)
    ensures
        final(out)@ == old(out)@ + u64_be_bytes(x),
{
    out.push((x >> 56) as u8);
    out.push((x >> 48) as u8);
    out.push((x >> 40) as u8);
    out.push((x >> 32) as u8);
    out.push((x >> 24) as u8);
    out.push((x >> 16) as u8);
    out.push((x >> 8) as u8);
    out.push(x as u8);
    proof {
        assert(out@ =~= old(out)@ + u64_be_bytes(x));
    }
}

/// Append the eight bytes of `x`, least significant first.
fn push_u64_le(out: &mut Vec<u8>, x: u64)
    ensures
        final(out)@ == old(out)@ + u64_be_bytes(x).reverse(),
{
    out.push(x as u8);
    out.push((x >> 8) as u8);
    out.push((x >> 16) as u8);
    out.push((x >> 24) as u8);
    out.push((x >> 32) as u8);
    out.push((x >> 40) as u8);
    out.push((x >> 48) as u8);
    out.push((x >> 56) as u8);
    proof {
        assert(out@ =~= old(out)@ + u64_be_bytes(x).reverse());
    }
}

/// Assemble a 64-bit integer from its bytes, most significant first.
pub(crate) fn u64_from_be(b0: u8, b1: u8, b2: u8, b3: u8, b4: u8, b5: u8, b6: u8, b7: u8) -> (x: u64)
    ensures
        u64_be_bytes(x) == seq![b0, b1, b2, b3, b4, b5, b6, b7],
        x == u64_of_bytes(b0, b1, b2, b3, b4, b5, b6, b7),
{
    let x: u64 = ((b0 as u64) << 56) | ((b1 as u64) << 48) | ((b2 as u64) << 40) | ((b3 as u64)
        << 32) | ((b4 as u64) << 24) | ((b5 as u64) << 16) | ((b6 as u64) << 8) | (b7 as u64);
    proof {
        assert((x >> 56) as u8 == b0 && (x >> 48) as u8 == b1 && (x >> 40) as u8 == b2 && (x >> 32)
            as u8 == b3 && (x >> 24) as u8 == b4 && (x >> 16) as u8 == b5 && (x >> 8) as u8 == b6
            && x as u8 == b7) by (bit_vector)
            requires
                x == ((b0 as u64) << 56) | ((b1 as u64) << 48) | ((b2 as u64) << 40) | ((b3 as u64)
                    << 32) | ((b4 as u64) << 24) | ((b5 as u64) << 16) | ((b6 as u64) << 8) | (
                b7 as u64),
        ;
        assert(u64_be_bytes(x) =~= seq![b0, b1, b2, b3, b4, b5, b6, b7]);
    }
    x
}

/// One limb of an addition: returns the low 64 bits and the carry out.
fn add_limb(a: u64, b: u64, c: u64) -> (r: (u64, u64))
    requires
        c <= 1,
    ensures
        r.0 + r.1 * 0x1_0000_0000_0000_0000int == a + b + c,
        r.1 <= 1,
{
    let s: u128 = a as u128 + b as u128 + c as u128;
    let lo: u64 = s as u64;
    let hi: u64 = (s >> 64) as u64;
    proof {
        assert(lo + hi * 0x1_0000_0000_0000_0000 == s && hi <= 1) by (bit_vector)
            requires
                lo == s as u64,
                hi == (s >> 64) as u64,
                s <= 0xffff_ffff_ffff_ffff_u128 + 0xffff_ffff_ffff_ffff_u128 + 1,
        ;
    }
    (lo, hi)
}

/// One limb of a subtraction: returns the low 64 bits and the borrow out.
fn sub_limb(a: u64, b: u64, c: u64) -> (r: (u64, u64))
    requires
        c <= 1,
    ensures
        r.0 == a - b - c + r.1 * 0x1_0000_0000_0000_0000int,
        r.1 <= 1,
{
    let bc: u128 = b as u128 + c as u128;
    let a128: u128 = a as u128;
    if a128 >= bc {
        let d: u64 = (a128 - bc) as u64;
        proof {
            assert(d == a128 - bc) by (bit_vector)
                requires
                    d == (a128 - bc) as u64,
                    bc <= a128,
                    a128 <= 0xffff_ffff_ffff_ffff_u128,
            ;
        }
        (d, 0)
    } else {
        let d: u64 = (a128 + 0x1_0000_0000_0000_0000_u128 - bc) as u64;
        proof {
            assert(d == a128 + 0x1_0000_0000_0000_0000_u128 - bc) by (bit_vector)
                requires
                    d == (a128 + 0x1_0000_0000_0000_0000_u128 - bc) as u64,
                    a128 < bc,
                    bc <= 0x1_0000_0000_0000_0000_u128,
                    a128 <= 0xffff_ffff_ffff_ffff_u128,
            ;
        }
        (d, 1)
    }
}

} // verus!
