use vstd::prelude::*;

verus! {

/// 2^64, the base of one limb.
pub open spec fn limb_base() -> int {
    0x1_0000_0000_0000_0000
}

/// 2^256, the bound of a four-limb number.
pub open spec fn u256_bound() -> int {
    limb_base() * limb_base() * limb_base() * limb_base()
}

/// The big-endian number of the eight bytes of `b` from `i` on.
pub open spec fn be_limb(b: Seq<u8>, i: int) -> int {
    b[i + 7] + 256 * (b[i + 6] + 256 * (b[i + 5] + 256 * (b[i + 4] + 256 * (b[i + 3] + 256 * (b[i
        + 2] + 256 * (b[i + 1] + 256 * b[i]))))))
}

/// The big-endian number of the 32 bytes of `b`.
pub open spec fn be_val(b: Seq<u8>) -> int {
    be_limb(b, 24) + limb_base() * (be_limb(b, 16) + limb_base() * (be_limb(b, 8) + limb_base()
        * be_limb(b, 0)))
}

proof fn lemma_limb_bytes(l: u64)
    by (bit_vector)
    ensures
        l == (l as u8) as u64 + 256 * (((l >> 8) as u8) as u64 + 256 * (((l >> 16) as u8) as u64
            + 256 * (((l >> 24) as u8) as u64 + 256 * (((l >> 32) as u8) as u64 + 256 * (((l
            >> 40) as u8) as u64 + 256 * (((l >> 48) as u8) as u64 + 256 * ((l >> 56) as u8) as u64)))))),
{
}

fn limb_from_be(b: &[u8; 32], i: usize) -> (r: u64)
    requires
        i + 8 <= 32,
    ensures
        r == be_limb(b@, i as int),
{
    let mut acc: u64 = b[i] as u64;
    acc = acc * 256 + b[i + 1] as u64;
    acc = acc * 256 + b[i + 2] as u64;
    acc = acc * 256 + b[i + 3] as u64;
    acc = acc * 256 + b[i + 4] as u64;
    acc = acc * 256 + b[i + 5] as u64;
    acc = acc * 256 + b[i + 6] as u64;
    acc = acc * 256 + b[i + 7] as u64;
    acc
}

/// An unsigned 256-bit integer held as four 64-bit limbs, least significant first.
#[derive(Clone, Copy, Debug, PartialEq, Eq, Structural)]
pub struct U256 {
    pub l0: u64,
    pub l1: u64,
    pub l2: u64,
    pub l3: u64,
}

impl U256 {
    /// The number that the limbs stand for.
    pub open spec fn val(self) -> int {
        self.l0 + limb_base() * (self.l1 + limb_base() * (self.l2 + limb_base() * self.l3))
    }

    /// Reads a 32-byte big-endian number.
    pub fn from_b32(b: &[u8; 32]) -> (r: U256)
        ensures
            r.val() == be_val(b@),
    {
        let l3 = limb_from_be(b, 0);
        let l2 = limb_from_be(b, 8);
        let l1 = limb_from_be(b, 16);
        let l0 = limb_from_be(b, 24);
        U256 { l0, l1, l2, l3 }
    }

    /// Writes the number as 32 big-endian bytes.
    pub fn to_b32(&self) -> (r: [u8; 32])
        ensures
            be_val(r@) == self.val(),
    {
        let r: [u8; 32] = [
            (self.l3 >> 56u64) as u8, (self.l3 >> 48u64) as u8, (self.l3 >> 40u64) as u8, (self.l3 >> 32u64) as u8,
            (self.l3 >> 24u64) as u8, (self.l3 >> 16u64) as u8, (self.l3 >> 8u64) as u8, self.l3 as u8,
            (self.l2 >> 56u64) as u8, (self.l2 >> 48u64) as u8, (self.l2 >> 40u64) as u8, (self.l2 >> 32u64) as u8,
            (self.l2 >> 24u64) as u8, (self.l2 >> 16u64) as u8, (self.l2 >> 8u64) as u8, self.l2 as u8,
            (self.l1 >> 56u64) as u8, (self.l1 >> 48u64) as u8, (self.l1 >> 40u64) as u8, (self.l1 >> 32u64) as u8,
            (self.l1 >> 24u64) as u8, (self.l1 >> 16u64) as u8, (self.l1 >> 8u64) as u8, self.l1 as u8,
            (self.l0 >> 56u64) as u8, (self.l0 >> 48u64) as u8, (self.l0 >> 40u64) as u8, (self.l0 >> 32u64) as u8,
            (self.l0 >> 24u64) as u8, (self.l0 >> 16u64) as u8, (self.l0 >> 8u64) as u8, self.l0 as u8,
        ];
        proof {
            lemma_limb_bytes(self.l0);
            lemma_limb_bytes(self.l1);
            lemma_limb_bytes(self.l2);
            lemma_limb_bytes(self.l3);
            assert(be_limb(r@, 0) == self.l3);
            assert(be_limb(r@, 8) == self.l2);
            assert(be_limb(r@, 16) == self.l1);
            assert(be_limb(r@, 24) == self.l0);
        }
        r
    }

    /// Equality of the two numbers.
    pub fn eq_u256(&self, b: &U256) -> (r: bool)
        ensures
            r == (self.val() == b.val()),
    {
        self.l0 == b.l0 && self.l1 == b.l1 && self.l2 == b.l2 && self.l3 == b.l3
    }

    pub fn zero() -> (r: U256)
        ensures
            r.val() == 0,
    {
        U256 { l0: 0, l1: 0, l2: 0, l3: 0 }
    }

    pub fn from_u64(x: u64) -> (r: U256)
        ensures
            r.val() == x,
    {
        U256 { l0: x, l1: 0, l2: 0, l3: 0 }
    }

    pub fn is_zero(&self) -> (r: bool)
        ensures
            r == (self.val() == 0),
    {
        self.l0 == 0 && self.l1 == 0 && self.l2 == 0 && self.l3 == 0
    }

    /// Whether the number is odd.
    pub fn is_odd(&self) -> (r: bool)
        ensures
            r == (self.val() % 2 == 1),
    {
        assert(self.val() % 2 == self.l0 % 2) by {
            assert(self.val() == self.l0 + 2 * (0x8000_0000_0000_0000 * (self.l1 + limb_base() * (
            self.l2 + limb_base() * self.l3))));
        }
        self.l0 % 2 == 1
    }

    /// The sum, with the carry out of the top limb.
    pub fn add(&self, b: &U256) -> (r: (U256, bool))
        ensures
            r.0.val() + (if r.1 { u256_bound() } else { 0 }) == self.val() + b.val(),
    {
        let s0: u128 = self.l0 as u128 + b.l0 as u128;
        let c0: u128 = s0 / 0x1_0000_0000_0000_0000;
        let r0: u64 = (s0 % 0x1_0000_0000_0000_0000) as u64;
        let s1: u128 = self.l1 as u128 + b.l1 as u128 + c0;
        let c1: u128 = s1 / 0x1_0000_0000_0000_0000;
        let r1: u64 = (s1 % 0x1_0000_0000_0000_0000) as u64;
        let s2: u128 = self.l2 as u128 + b.l2 as u128 + c1;
        let c2: u128 = s2 / 0x1_0000_0000_0000_0000;
        let r2: u64 = (s2 % 0x1_0000_0000_0000_0000) as u64;
        let s3: u128 = self.l3 as u128 + b.l3 as u128 + c2;
        let c3: u128 = s3 / 0x1_0000_0000_0000_0000;
        let r3: u64 = (s3 % 0x1_0000_0000_0000_0000) as u64;
        (U256 { l0: r0, l1: r1, l2: r2, l3: r3 }, c3 == 1)
    }

    /// The difference, with the borrow out of the top limb.
    pub fn sub(&self, b: &U256) -> (r: (U256, bool))
        ensures
            r.0.val() == self.val() - b.val() + (if r.1 { u256_bound() } else { 0 }),
            r.1 == (self.val() < b.val()),
    {
        let d0: i128 = self.l0 as i128 - b.l0 as i128;
        let w0: i128 = if d0 < 0 { 1 } else { 0 };
        let r0: u64 = (d0 + w0 * 0x1_0000_0000_0000_0000) as u64;
        let d1: i128 = self.l1 as i128 - b.l1 as i128 - w0;
        let w1: i128 = if d1 < 0 { 1 } else { 0 };
        let r1: u64 = (d1 + w1 * 0x1_0000_0000_0000_0000) as u64;
        let d2: i128 = self.l2 as i128 - b.l2 as i128 - w1;
        let w2: i128 = if d2 < 0 { 1 } else { 0 };
        let r2: u64 = (d2 + w2 * 0x1_0000_0000_0000_0000) as u64;
        let d3: i128 = self.l3 as i128 - b.l3 as i128 - w2;
        let w3: i128 = if d3 < 0 { 1 } else { 0 };
        let r3: u64 = (d3 + w3 * 0x1_0000_0000_0000_0000) as u64;
        let r = U256 { l0: r0, l1: r1, l2: r2, l3: r3 };
        assert(r.val() == self.val() - b.val() + w3 * u256_bound());
        (r, w3 == 1)
    }

    /// Whether this number is below `b`.
    pub fn lt(&self, b: &U256) -> (r: bool)
        ensures
            r == (self.val() < b.val()),
    {
        self.sub(b).1
    }

    /// The number halved, rounding down.
    pub fn shr1(&self) -> (r: U256)
        ensures
            self.val() == 2 * r.val() + self.val() % 2,
            r.val() == self.val() / 2,
    {
        let r0: u64 = self.l0 / 2 + (self.l1 % 2) * 0x8000_0000_0000_0000;
        let r1: u64 = self.l1 / 2 + (self.l2 % 2) * 0x8000_0000_0000_0000;
        let r2: u64 = self.l2 / 2 + (self.l3 % 2) * 0x8000_0000_0000_0000;
        let r3: u64 = self.l3 / 2;
        let r = U256 { l0: r0, l1: r1, l2: r2, l3: r3 };
        assert(self.val() == 2 * r.val() + self.l0 % 2);
        assert(self.val() % 2 == self.l0 % 2);
        r
    }
}

} // verus!
