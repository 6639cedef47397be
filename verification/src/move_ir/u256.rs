use vstd::prelude::*;
use vstd::arithmetic::power2::pow2;

verus! {

/// An unsigned 256-bit integer, held as its high and low 128-bit words.
#[derive(Clone, Copy, Debug, PartialEq, Eq, Structural)]
pub struct U256 {
    pub hi: u128,
    pub lo: u128,
}

pub open spec fn two_128() -> nat {
    0x1_0000_0000_0000_0000_0000_0000_0000_0000nat
}

pub open spec fn two_256() -> nat {
    0x1_0000_0000_0000_0000_0000_0000_0000_0000_0000_0000_0000_0000_0000_0000_0000_0000nat
}

impl View for U256 {
    type V = nat;

    open spec fn view(&self) -> nat {
        self.hi as nat * two_128() + self.lo as nat
    }
}

/// The number of significant bits of `n`: 0 for 0, else the `k` with
/// `2^(k-1) <= n < 2^k`.
pub open spec fn bit_length(n: nat) -> nat
    decreases n,
{
    if n == 0 {
        0
    } else {
        1 + bit_length(n / 2)
    }
}

impl U256 {
    pub fn new(value: u128) -> (r: Self)
        ensures
            r@ == value,
            r == (U256 { hi: 0, lo: value }),
    {
        U256 { hi: 0, lo: value }
    }

    pub fn from_words(hi: u128, lo: u128) -> (r: Self)
        ensures
            r == (U256 { hi, lo }),
    {
        U256 { hi, lo }
    }

    pub fn zero() -> (r: Self)
        ensures
            r@ == 0,
    {
        U256 { hi: 0, lo: 0 }
    }

    /// The largest value: `2^256 - 1`.
    pub fn max_value() -> (r: Self)
        ensures
            r@ == two_256() - 1,
    {
        U256 { hi: u128::MAX, lo: u128::MAX }
    }

    pub fn lt(&self, other: &U256) -> (r: bool)
        ensures
            r == (self@ < other@),
    {
        self.hi < other.hi || (self.hi == other.hi && self.lo < other.lo)
    }

    pub fn le(&self, other: &U256) -> (r: bool)
        ensures
            r == (self@ <= other@),
    {
        self.hi < other.hi || (self.hi == other.hi && self.lo <= other.lo)
    }

    pub fn min(self, other: U256) -> (r: U256)
        ensures
            r@ == if self@ <= other@ { self@ } else { other@ },
            r == self || r == other,
    {
        if self.le(&other) {
            self
        } else {
            other
        }
    }

    /// The low 32 bits.
    pub fn as_u32(self) -> (r: u32)
        ensures
            r == self@ % 0x1_0000_0000,
    {
        let lo: u128 = self.lo;
        assert(lo & 0xffff_ffff == lo % 0x1_0000_0000) by (bit_vector);
        (lo & 0xffff_ffff) as u32
    }

    pub proof fn lemma_view_injective(a: U256, b: U256)
        ensures
            a@ == b@ <==> a == b,
            a@ < two_256(),
    {
    }
}

/// `ethnum::U256::overflowing_add`: the sum modulo `2^256`, and whether the
/// exact sum did not fit.
#[verifier::external_body]
pub(crate) fn overflowing_add(a: U256, b: U256) -> (r: (U256, bool))
    ensures
        r.0@ == (a@ + b@) % two_256(),
        r.1 == (a@ + b@ >= two_256()),
{
    let x = ethnum::U256::from_words(a.hi, a.lo);
    let y = ethnum::U256::from_words(b.hi, b.lo);
    let (v, o) = x.overflowing_add(y);
    let (hi, lo) = v.into_words();
    (U256 { hi, lo }, o)
}

/// `ethnum::U256::overflowing_mul`: the product modulo `2^256`, and whether
/// the exact product did not fit.
#[verifier::external_body]
pub(crate) fn overflowing_mul(a: U256, b: U256) -> (r: (U256, bool))
    ensures
        r.0@ == (a@ * b@) % two_256(),
        r.1 == (a@ * b@ >= two_256()),
{
    let x = ethnum::U256::from_words(a.hi, a.lo);
    let y = ethnum::U256::from_words(b.hi, b.lo);
    let (v, o) = x.overflowing_mul(y);
    let (hi, lo) = v.into_words();
    (U256 { hi, lo }, o)
}

/// `ethnum::U256::wrapping_shl`: the shift amount is taken modulo 256, and
/// the bits shifted past the top are lost.
#[verifier::external_body]
pub(crate) fn wrapping_shl(a: U256, n: u32) -> (r: U256)
    ensures
        r@ == (a@ * pow2((n % 256) as nat)) % two_256(),
{
    let x = ethnum::U256::from_words(a.hi, a.lo);
    let (hi, lo) = x.wrapping_shl(n).into_words();
    U256 { hi, lo }
}

/// `ethnum::U256::leading_zeros`: 256 less the number of significant bits.
#[verifier::external_body]
pub(crate) fn leading_zeros(a: U256) -> (r: u32)
    ensures
        r == 256 - bit_length(a@),
{
    ethnum::U256::from_words(a.hi, a.lo).leading_zeros()
}

/// The operator `-` of `ethnum::U256`, on the arguments on which the
/// difference is not negative.
#[verifier::external_body]
pub(crate) fn sub(a: U256, b: U256) -> (r: U256)
    requires
        a@ >= b@,
    ensures
        r@ == a@ - b@,
{
    let x = ethnum::U256::from_words(a.hi, a.lo);
    let y = ethnum::U256::from_words(b.hi, b.lo);
    let (hi, lo) = (x - y).into_words();
    U256 { hi, lo }
}

/// The operator `%` of `ethnum::U256`, for a divisor that is not zero.
#[verifier::external_body]
pub(crate) fn rem(a: U256, b: U256) -> (r: U256)
    requires
        b@ != 0,
    ensures
        r@ == a@ % b@,
{
    let x = ethnum::U256::from_words(a.hi, a.lo);
    let y = ethnum::U256::from_words(b.hi, b.lo);
    let (hi, lo) = (x % y).into_words();
    U256 { hi, lo }
}

} // verus!
