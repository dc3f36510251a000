//! Fixed-width unsigned integers of 256 and 512 bits, held as little-endian
//! 64-bit limbs. Their arithmetic is computed by `alloy`'s `ruint` backend; the
//! trusted wrappers below state what each operation returns over the
//! mathematical value of the operands.
use vstd::prelude::*;
use vstd::arithmetic::power::pow;

verus! {

/// 2^128.
pub open spec fn pow2_128() -> nat {
    0x100000000000000000000000000000000nat
}

/// 2^256, the modulus of 256-bit wrapping arithmetic.
pub open spec fn word_modulus() -> nat {
    0x10000000000000000000000000000000000000000000000000000000000000000nat
}

/// 2^512, the modulus of 512-bit wrapping arithmetic.
pub open spec fn wide_modulus() -> nat {
    0x100000000000000000000000000000000000000000000000000000000000000000000000000000000000000000000000000000000000000000000000000000000nat
}

/// An unsigned 256-bit integer; `limbs[0]` is the least significant limb.
#[derive(Clone, Copy, Debug, PartialEq, Eq)]
pub struct U256 {
    pub limbs: [u64; 4],
}

impl View for U256 {
    type V = nat;

    open spec fn view(&self) -> nat {
        self.limbs[0] as nat
            + self.limbs[1] as nat * 0x10000000000000000nat
            + self.limbs[2] as nat * 0x100000000000000000000000000000000nat
            + self.limbs[3] as nat * 0x1000000000000000000000000000000000000000000000000nat
    }
}

/// An unsigned 512-bit integer; `limbs[0]` is the least significant limb.
#[derive(Clone, Copy, Debug, PartialEq, Eq)]
pub struct U512 {
    pub limbs: [u64; 8],
}

impl View for U512 {
    type V = nat;

    open spec fn view(&self) -> nat {
        self.limbs[0] as nat
            + self.limbs[1] as nat * 0x10000000000000000nat
            + self.limbs[2] as nat * 0x100000000000000000000000000000000nat
            + self.limbs[3] as nat * 0x1000000000000000000000000000000000000000000000000nat
            + self.limbs[4] as nat * 0x10000000000000000000000000000000000000000000000000000000000000000nat
            + self.limbs[5] as nat * 0x100000000000000000000000000000000000000000000000000000000000000000000000000000000nat
            + self.limbs[6] as nat * 0x1000000000000000000000000000000000000000000000000000000000000000000000000000000000000000000000000nat
            + self.limbs[7] as nat * 0x10000000000000000000000000000000000000000000000000000000000000000000000000000000000000000000000000000000000000000nat
    }
}

/// Every 256-bit value lies below 2^256.
pub proof fn lemma_u256_bound(x: U256)
    ensures
        x@ < word_modulus(),
{
}

/// The 256-bit zero.
pub open spec fn zero_word() -> U256 {
    U256 { limbs: [0, 0, 0, 0] }
}

impl U256 {
    /// The value zero.
    pub fn zero() -> (r: U256)
        ensures
            r@ == 0,
            r == zero_word(),
    {
        U256 { limbs: [0, 0, 0, 0] }
    }

    /// The value one.
    pub fn one() -> (r: U256)
        ensures
            r@ == 1,
    {
        U256 { limbs: [1, 0, 0, 0] }
    }

    /// The value of a `u64`.
    pub fn from_u64(x: u64) -> (r: U256)
        ensures
            r@ == x,
    {
        U256 { limbs: [x, 0, 0, 0] }
    }
}

impl U256 {
    /// The value of a `u128`.
    pub fn from_u128(x: u128) -> (r: U256)
        ensures
            r@ == x,
    {
        let lo: u64 = x as u64;
        let hi: u64 = (x >> 64u32) as u64;
        assert(x == lo as u128 + hi as u128 * 0x10000000000000000u128) by (bit_vector)
            requires
                lo == x as u64,
                hi == (x >> 64u32) as u64,
        ;
        U256 { limbs: [lo, hi, 0, 0] }
    }

    /// The value as a `u128`; the value must fit.
    pub fn to_u128(&self) -> (r: u128)
        requires
            self@ < pow2_128(),
        ensures
            r == self@,
    {
        let lo: u64 = self.limbs[0];
        let hi: u64 = self.limbs[1];
        assert(lo as u128 + hi as u128 * 0x10000000000000000u128 <= u128::MAX) by (nonlinear_arith)
            requires
                lo <= u64::MAX,
                hi <= u64::MAX,
        ;
        lo as u128 + hi as u128 * 0x10000000000000000u128
    }

    /// Zero-extends to 512 bits.
    pub fn widen(&self) -> (r: U512)
        ensures
            r@ == self@,
    {
        U512 {
            limbs: [
                self.limbs[0],
                self.limbs[1],
                self.limbs[2],
                self.limbs[3],
                0,
                0,
                0,
                0,
            ],
        }
    }
}

impl U512 {
    /// Drops the upper half; the value must fit in 256 bits.
    pub fn narrow(&self) -> (r: U256)
        requires
            self@ < word_modulus(),
        ensures
            r@ == self@,
    {
        U256 { limbs: [self.limbs[0], self.limbs[1], self.limbs[2], self.limbs[3]] }
    }
}

/// `ruint`'s `Uint::is_zero`: whether the value is zero.
#[verifier::external_body]
pub(crate) fn is_zero(a: &U256) -> (r: bool)
    ensures
        r == (a@ == 0),
{
    alloy::primitives::U256::from_limbs(a.limbs).is_zero()
}

/// `ruint`'s `<` on 256-bit integers: whether `a` is below `b`.
#[verifier::external_body]
pub(crate) fn lt(a: &U256, b: &U256) -> (r: bool)
    ensures
        r == (a@ < b@),
{
    alloy::primitives::U256::from_limbs(a.limbs) < alloy::primitives::U256::from_limbs(b.limbs)
}

/// `ruint`'s `+` on 256-bit integers, which wraps modulo 2^256.
#[verifier::external_body]
pub(crate) fn add_wrapping(a: &U256, b: &U256) -> (r: U256)
    ensures
        r@ == (a@ + b@) % word_modulus(),
{
    let x = alloy::primitives::U256::from_limbs(a.limbs) + alloy::primitives::U256::from_limbs(b.limbs);
    U256 { limbs: x.into_limbs() }
}

/// `ruint`'s `-` on 256-bit integers, which wraps modulo 2^256.
#[verifier::external_body]
pub(crate) fn sub_wrapping(a: &U256, b: &U256) -> (r: U256)
    ensures
        r@ == (a@ - b@) % (word_modulus() as int),
{
    let x = alloy::primitives::U256::from_limbs(a.limbs) - alloy::primitives::U256::from_limbs(b.limbs);
    U256 { limbs: x.into_limbs() }
}

/// `ruint`'s `*` on 256-bit integers, which wraps modulo 2^256.
#[verifier::external_body]
pub(crate) fn mul_wrapping(a: &U256, b: &U256) -> (r: U256)
    ensures
        r@ == (a@ * b@) % word_modulus(),
{
    let x = alloy::primitives::U256::from_limbs(a.limbs) * alloy::primitives::U256::from_limbs(b.limbs);
    U256 { limbs: x.into_limbs() }
}

/// `ruint`'s `/` on 256-bit integers: the quotient rounded down; it panics on
/// a zero divisor, which `requires` leaves out.
#[verifier::external_body]
pub(crate) fn div_floor(a: &U256, b: &U256) -> (r: U256)
    requires
        b@ != 0,
    ensures
        r@ == a@ / b@,
{
    let x = alloy::primitives::U256::from_limbs(a.limbs) / alloy::primitives::U256::from_limbs(b.limbs);
    U256 { limbs: x.into_limbs() }
}

/// `ruint`'s `Uint::checked_add`: the sum, or `None` when it reaches 2^256.
#[verifier::external_body]
pub(crate) fn checked_add(a: &U256, b: &U256) -> (r: Option<U256>)
    ensures
        match r {
            Some(x) => a@ + b@ < word_modulus() && x@ == a@ + b@,
            None => a@ + b@ >= word_modulus(),
        },
{
    match alloy::primitives::U256::from_limbs(a.limbs).checked_add(alloy::primitives::U256::from_limbs(b.limbs)) {
        Some(x) => Some(U256 { limbs: x.into_limbs() }),
        None => None,
    }
}

/// `ruint`'s `Uint::checked_sub`: the difference, or `None` when `b` exceeds `a`.
#[verifier::external_body]
pub(crate) fn checked_sub(a: &U256, b: &U256) -> (r: Option<U256>)
    ensures
        match r {
            Some(x) => b@ <= a@ && x@ == a@ - b@,
            None => a@ < b@,
        },
{
    match alloy::primitives::U256::from_limbs(a.limbs).checked_sub(alloy::primitives::U256::from_limbs(b.limbs)) {
        Some(x) => Some(U256 { limbs: x.into_limbs() }),
        None => None,
    }
}

/// `ruint`'s `Uint::checked_mul`: the product, or `None` when it reaches 2^256.
#[verifier::external_body]
pub(crate) fn checked_mul(a: &U256, b: &U256) -> (r: Option<U256>)
    ensures
        match r {
            Some(x) => a@ * b@ < word_modulus() && x@ == a@ * b@,
            None => a@ * b@ >= word_modulus(),
        },
{
    match alloy::primitives::U256::from_limbs(a.limbs).checked_mul(alloy::primitives::U256::from_limbs(b.limbs)) {
        Some(x) => Some(U256 { limbs: x.into_limbs() }),
        None => None,
    }
}

/// `ruint`'s `Uint::checked_div`: the quotient rounded down, or `None` for a
/// zero divisor.
#[verifier::external_body]
pub(crate) fn checked_div(a: &U256, b: &U256) -> (r: Option<U256>)
    ensures
        match r {
            Some(x) => b@ != 0 && x@ == a@ / b@,
            None => b@ == 0,
        },
{
    match alloy::primitives::U256::from_limbs(a.limbs).checked_div(alloy::primitives::U256::from_limbs(b.limbs)) {
        Some(x) => Some(U256 { limbs: x.into_limbs() }),
        None => None,
    }
}

/// The 32 bytes of `x`, most significant first.
pub open spec fn be_word(x: nat) -> Seq<u8> {
    Seq::new(32, |i: int| ((x / pow(256, (31 - i) as nat) as nat) % 256) as u8)
}

/// `ruint`'s `Uint::to_be_bytes::<32>`: the value as 32 big-endian bytes.
#[verifier::external_body]
pub(crate) fn to_be_bytes(a: &U256) -> (r: [u8; 32])
    ensures
        r@ == be_word(a@),
{
    alloy::primitives::U256::from_limbs(a.limbs).to_be_bytes::<32>()
}

/// `ruint`'s `*` on 512-bit integers, which wraps modulo 2^512.
#[verifier::external_body]
pub(crate) fn mul_wrapping_wide(a: &U512, b: &U512) -> (r: U512)
    ensures
        r@ == (a@ * b@) % wide_modulus(),
{
    let x = alloy::primitives::U512::from_limbs(a.limbs) * alloy::primitives::U512::from_limbs(b.limbs);
    U512 { limbs: x.into_limbs() }
}

/// `ruint`'s `Uint::root` on 512-bit integers: the floor of the `degree`-th
/// root; it panics on degree zero, which `requires` leaves out.
#[verifier::external_body]
pub(crate) fn root_wide(a: &U512, degree: usize) -> (r: U512)
    requires
        degree > 0,
    ensures
        pow(r@ as int, degree as nat) <= a@,
        a@ < pow(r@ + 1int, degree as nat),
{
    U512 { limbs: alloy::primitives::U512::from_limbs(a.limbs).root(degree).into_limbs() }
}

} // verus!
