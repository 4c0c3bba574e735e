//! Shared machinery of the transform engines: size validation, the
//! bit-reversal indexer, and the scalar abstraction.

use vstd::prelude::*;
use vstd::arithmetic::power2::pow2;
use vstd::arithmetic::power2::lemma_pow2_unfold;
use vstd::arithmetic::power2::lemma_pow2_adds;
use vstd::arithmetic::power2::lemma_pow2_pos;
use vstd::arithmetic::div_mod::lemma_mod_multiples_vanish;
use vstd::arithmetic::div_mod::lemma_hoist_over_denominator;
use vstd::arithmetic::div_mod::lemma_fundamental_div_mod;

verus! {

/// Raised at construction when the buffer size is below 4 or not a power
/// of two.
#[derive(Debug, PartialEq, Eq, Structural)]
pub struct ConfigurationError;

/// Floor of the base-2 logarithm.
pub open spec fn spec_log2(n: nat) -> nat
    decreases n,
{
    if n <= 1 {
        0
    } else {
        1 + spec_log2(n / 2)
    }
}

/// Whether `n` is a power of two (1, 2, 4, ...).
pub open spec fn is_power_of_two(n: nat) -> bool
    decreases n,
{
    if n == 0 {
        false
    } else if n == 1 {
        true
    } else {
        n % 2 == 0 && is_power_of_two(n / 2)
    }
}

/// A buffer size the engines accept: a power of two, at least 4.
pub open spec fn valid_size(n: nat) -> bool {
    4 <= n && is_power_of_two(n)
}

/// The low `k` bits of `x`, in reversed order; higher bits are dropped.
pub open spec fn spec_reverse_bits(k: nat, x: nat) -> nat
    decreases k,
{
    if k == 0 {
        0
    } else {
        (x % 2) * pow2((k - 1) as nat) + spec_reverse_bits((k - 1) as nat, x / 2)
    }
}

/// The bit-reversed partner of index `i` in a buffer of size `n`: the
/// low `log2(n)` bits of `i`, reversed.
pub open spec fn spec_reverse_index(n: int, i: int) -> int {
    spec_reverse_bits(spec_log2(n as nat), i as nat) as int
}

/// `pow2` is monotonic.
pub(crate) proof fn lemma_pow2_le(a: nat, b: nat)
    requires
        a <= b,
    ensures
        pow2(a) <= pow2(b),
{
    lemma_pow2_adds(a, (b - a) as nat);
    lemma_pow2_pos((b - a) as nat);
    lemma_pow2_pos(a);
    assert(pow2(a) * 1 <= pow2(a) * pow2((b - a) as nat)) by (nonlinear_arith)
        requires 1 <= pow2((b - a) as nat), 0 < pow2(a);
}

/// On a power of two, `spec_log2` is exact.
pub(crate) proof fn lemma_pow2_log2(n: nat)
    requires
        is_power_of_two(n),
    ensures
        pow2(spec_log2(n)) == n,
    decreases n,
{
    if n == 1 {
        assert(pow2(0) == 1) by { vstd::arithmetic::power2::lemma2_to64(); }
    } else {
        lemma_pow2_log2(n / 2);
        lemma_pow2_unfold(spec_log2(n));
        lemma_fundamental_div_mod(n as int, 2);
    }
}

/// For any positive `n`, `pow2(spec_log2(n))` does not exceed `n`.
proof fn lemma_pow2_log2_le(n: nat)
    requires
        1 <= n,
    ensures
        pow2(spec_log2(n)) <= n,
    decreases n,
{
    if n == 1 {
        assert(pow2(0) == 1) by { vstd::arithmetic::power2::lemma2_to64(); }
    } else {
        lemma_pow2_log2_le(n / 2);
        lemma_pow2_unfold(spec_log2(n));
        lemma_fundamental_div_mod(n as int, 2);
    }
}

/// A valid size is a multiple of four.
pub(crate) proof fn lemma_valid_size_multiple_of_four(n: nat)
    requires
        valid_size(n),
    ensures
        n % 4 == 0,
        n == 4 * (n / 4),
{
    reveal_with_fuel(is_power_of_two, 3);
    assert((n / 2) % 2 == 0);
    assert(n == 2 * (n / 2) && n / 2 == 2 * ((n / 2) / 2)) by {
        lemma_fundamental_div_mod(n as int, 2);
        lemma_fundamental_div_mod(n as int / 2, 2);
    }
    assert(n == 4 * (n / 4) && n % 4 == 0) by (nonlinear_arith)
        requires n == 2 * (n / 2), n / 2 == 2 * ((n / 2) / 2);
}

/// A quarter of a valid size is still a power of two.
pub(crate) proof fn lemma_valid_size_quarter(n: nat)
    requires
        valid_size(n),
    ensures
        is_power_of_two(n / 4),
        n % 2 == 0,
{
    reveal_with_fuel(is_power_of_two, 3);
    assert((n / 2) / 2 == n / 4) by {
        vstd::arithmetic::div_mod::lemma_div_denominator(n as int, 2, 2);
    }
}

/// The reversal of the low `k` bits always fits in `k` bits.
pub(crate) proof fn lemma_reverse_bits_bound(k: nat, x: nat)
    ensures
        spec_reverse_bits(k, x) < pow2(k),
    decreases k,
{
    lemma_pow2_pos(k);
    if k > 0 {
        lemma_reverse_bits_bound((k - 1) as nat, x / 2);
        lemma_pow2_unfold(k);
        assert((x % 2) * pow2((k - 1) as nat) <= 1 * pow2((k - 1) as nat)) by (nonlinear_arith)
            requires x % 2 <= 1, 0 < pow2((k - 1) as nat);
    }
}

/// Reversing zero gives zero.
pub(crate) proof fn lemma_reverse_bits_zero(k: nat)
    ensures
        spec_reverse_bits(k, 0) == 0,
    decreases k,
{
    if k > 0 {
        lemma_reverse_bits_zero((k - 1) as nat);
        assert(spec_reverse_bits(k, 0)
            == (0nat % 2) * pow2((k - 1) as nat) + spec_reverse_bits((k - 1) as nat, 0nat / 2));
    }
}

/// Reversal viewed from the high end: splitting off the top bit of the
/// argument splits off the bottom bit of the result.
proof fn lemma_reverse_bits_high(k: nat, b: nat, z: nat)
    requires
        1 <= k,
        b <= 1,
        z < pow2((k - 1) as nat),
    ensures
        spec_reverse_bits(k, b * pow2((k - 1) as nat) + z)
            == b + 2 * spec_reverse_bits((k - 1) as nat, z),
    decreases k,
{
    let y = b * pow2((k - 1) as nat) + z;
    if k == 1 {
        assert(pow2(0) == 1) by { vstd::arithmetic::power2::lemma2_to64(); }
        assert(z == 0);
        assert(spec_reverse_bits(1, b) == (b % 2) * pow2(0) + spec_reverse_bits(0, b / 2));
    } else {
        lemma_pow2_unfold((k - 1) as nat);
        let p = pow2((k - 2) as nat);
        assert(b * (2 * p) == 2 * (b * p)) by (nonlinear_arith);
        // low bit of y equals the low bit of z
        assert(y % 2 == z % 2) by {
            lemma_mod_multiples_vanish((b * p) as int, z as int, 2);
        }
        // halving y halves z and shifts the top bit down
        assert(y / 2 == b * p + z / 2) by {
            lemma_hoist_over_denominator(z as int, (b * p) as int, 2);
        }
        assert(z / 2 < p) by {
            lemma_fundamental_div_mod(z as int, 2);
        }
        lemma_reverse_bits_high((k - 1) as nat, b, z / 2);
        lemma_pow2_unfold((k - 1) as nat);
        assert(spec_reverse_bits(k, y)
            == (z % 2) * pow2((k - 1) as nat) + spec_reverse_bits((k - 1) as nat, b * p + z / 2));
        assert(spec_reverse_bits((k - 1) as nat, z)
            == (z % 2) * p + spec_reverse_bits((k - 2) as nat, z / 2));
        assert((z % 2) * (2 * p) == 2 * ((z % 2) * p)) by (nonlinear_arith);
    }
}

/// Reversing the low `k` bits twice restores the argument: the
/// bit-reversal indexer is a self-inverse permutation of `[0, pow2(k))`.
pub proof fn lemma_reverse_bits_involution(k: nat, x: nat)
    requires
        x < pow2(k),
    ensures
        spec_reverse_bits(k, spec_reverse_bits(k, x)) == x,
    decreases k,
{
    if k == 0 {
        lemma_pow2_pos(0);
        assert(pow2(0) == 1) by { vstd::arithmetic::power2::lemma2_to64(); }
    } else {
        let b = x % 2;
        let r = spec_reverse_bits((k - 1) as nat, x / 2);
        lemma_reverse_bits_bound((k - 1) as nat, x / 2);
        assert(spec_reverse_bits(k, x) == b * pow2((k - 1) as nat) + r);
        lemma_reverse_bits_high(k, b, r);
        assert(x / 2 < pow2((k - 1) as nat)) by {
            lemma_pow2_unfold(k);
            lemma_fundamental_div_mod(x as int, 2);
        }
        lemma_reverse_bits_involution((k - 1) as nat, x / 2);
        lemma_fundamental_div_mod(x as int, 2);
    }
}

/// Floor of the base-2 logarithm, computed by repeated halving.
pub(crate) fn floor_log2(n: usize) -> (k: usize)
    ensures
        k as nat == spec_log2(n as nat),
{
    if n <= 1 {
        return 0;
    }
    let mut x: usize = n;
    let mut k: usize = 0;
    proof {
        assert(pow2(0) == 1) by { vstd::arithmetic::power2::lemma2_to64(); }
    }
    while x > 1
        invariant
            1 <= x,
            spec_log2(n as nat) == k + spec_log2(x as nat),
            pow2(k as nat) * (x as nat) <= n as nat,
        decreases x,
    {
        proof {
            lemma_pow2_unfold((k + 1) as nat);
            lemma_pow2_pos(k as nat);
            lemma_fundamental_div_mod(x as int, 2);
            assert(pow2((k + 1) as nat) * ((x / 2) as nat) <= pow2(k as nat) * (x as nat))
                by (nonlinear_arith)
                requires
                    pow2((k + 1) as nat) == 2 * pow2(k as nat),
                    2 * ((x / 2) as nat) <= x as nat,
                    0 < pow2(k as nat),
            ;
            if k + 1 >= 64 {
                lemma_pow2_le(64, (k + 1) as nat);
                assert(pow2(64) > usize::MAX as nat) by {
                    vstd::arithmetic::power2::lemma2_to64_rest();
                }
                lemma_pow2_pos((k + 1) as nat);
                assert(pow2((k + 1) as nat) * 1 <= pow2((k + 1) as nat) * ((x / 2) as nat))
                    by (nonlinear_arith)
                    requires 1 <= (x / 2) as nat, 0 < pow2((k + 1) as nat),
                ;
                assert(false);
            }
        }
        x = x / 2;
        k = k + 1;
    }
    k
}

/// Runtime check for [`valid_size`].
pub(crate) fn check_valid_size(n: usize) -> (b: bool)
    ensures
        b == valid_size(n as nat),
{
    if n < 4 {
        return false;
    }
    let mut x: usize = n;
    while x > 1
        invariant
            1 <= x,
            is_power_of_two(n as nat) == is_power_of_two(x as nat),
        decreases x,
    {
        if x % 2 != 0 {
            return false;
        }
        x = x / 2;
    }
    true
}

/// Reverse the low `bits` bits of `x`, dropping the rest.
pub(crate) fn reverse_low_bits(bits: usize, x: usize) -> (r: usize)
    requires
        pow2(bits as nat) <= usize::MAX as nat + 1,
    ensures
        r as nat == spec_reverse_bits(bits as nat, x as nat),
{
    let mut i: usize = 0;
    let mut ret: usize = 0;
    let mut rem: usize = x;
    proof {
        assert(pow2(0) == 1) by { vstd::arithmetic::power2::lemma2_to64(); }
    }
    while i < bits
        invariant
            i <= bits,
            pow2(bits as nat) <= usize::MAX as nat + 1,
            (ret as nat) < pow2(i as nat),
            spec_reverse_bits(bits as nat, x as nat)
                == (ret as nat) * pow2((bits - i) as nat)
                    + spec_reverse_bits((bits - i) as nat, rem as nat),
        decreases bits - i,
    {
        proof {
            let k = (bits - i) as nat;
            lemma_pow2_unfold(k);
            lemma_pow2_unfold((i + 1) as nat);
            let p = pow2((k - 1) as nat);
            lemma_pow2_pos((k - 1) as nat);
            // the next accumulator value still fits
            assert((ret as nat) * 2 + 1 < pow2((i + 1) as nat)) by (nonlinear_arith)
                requires (ret as nat) < pow2(i as nat), pow2((i + 1) as nat) == 2 * pow2(i as nat);
            lemma_pow2_le((i + 1) as nat, bits as nat);
            assert((ret as nat) * 2 + 1 <= usize::MAX as nat);
            // peeling one bit off `rem` onto `ret` preserves the equation
            assert(spec_reverse_bits(k, rem as nat)
                == (rem as nat % 2) * p + spec_reverse_bits((k - 1) as nat, rem as nat / 2));
            assert((ret as nat) * (2 * p) + (rem as nat % 2) * p
                == ((ret as nat) * 2 + rem as nat % 2) * p) by (nonlinear_arith);
            assert((ret as nat) * pow2(k) + spec_reverse_bits(k, rem as nat)
                == ((ret as nat) * 2 + rem as nat % 2) * p
                    + spec_reverse_bits((k - 1) as nat, rem as nat / 2));
        }
        ret = ret * 2 + rem % 2;
        rem = rem / 2;
        i = i + 1;
    }
    proof {
        assert(pow2(0) == 1) by { vstd::arithmetic::power2::lemma2_to64(); }
        assert(spec_reverse_bits(bits as nat, x as nat)
            == (ret as nat) * pow2(0) + spec_reverse_bits(0, rem as nat));
        assert(spec_reverse_bits(0, rem as nat) == 0);
        assert((ret as nat) * 1 == ret as nat) by (nonlinear_arith);
    }
    ret
}

/// Size-indexed helpers shared by the engines.
pub struct Base<const N: usize>;

impl<const N: usize> Base<N> {
    /// Reverse all the low `log2(N)` bits in an integer.
    ///
    /// Example: 0b11010010 --> 0b01001011 (for N = 256).
    /// Useful for sorting the output transform values by frequency.
    pub fn reverse_bits(x: usize) -> (r: usize)
        ensures
            r as nat == spec_reverse_bits(spec_log2(N as nat), x as nat),
    {
        let n: usize = N;
        proof {
            if n >= 1 {
                lemma_pow2_log2_le(n as nat);
            } else {
                assert(spec_log2(0) == 0);
                assert(pow2(0) == 1) by { vstd::arithmetic::power2::lemma2_to64(); }
            }
        }
        let k = floor_log2(n);
        reverse_low_bits(k, x)
    }
}

/// A trait that allows generic implementations for the sample scalar type.
///
/// The transform engines never touch concrete numbers: every arithmetic
/// step goes through these methods, and every contract speaks of the
/// abstract `..._spec` counterparts, which each implementation pins to its
/// own arithmetic.  An implementation supplies a zero value, the `1/n`
/// normalization constant, a quarter-wave sine table, and the four
/// arithmetic operations used by a butterfly.  The `..._spec` functions
/// default to unconstrained values, so an implementation only has to
/// provide the executable methods.
pub trait Float: Sized + Copy {
    /// The value the exec method [`Float::zero`] returns.
    open spec fn zero_spec() -> Self {
        vstd::pervasive::arbitrary()
    }

    /// The value the exec method [`Float::n_inv`] returns.
    open spec fn n_inv_spec(n: int) -> Self {
        vstd::pervasive::arbitrary()
    }

    /// The value the exec method [`Float::sine`] returns.
    open spec fn sine_spec(i: int, n: int) -> Self {
        vstd::pervasive::arbitrary()
    }

    /// The value the exec method [`Float::add`] returns.
    open spec fn add_spec(self, other: Self) -> Self {
        vstd::pervasive::arbitrary()
    }

    /// The value the exec method [`Float::sub`] returns.
    open spec fn sub_spec(self, other: Self) -> Self {
        vstd::pervasive::arbitrary()
    }

    /// The value the exec method [`Float::mul`] returns.
    open spec fn mul_spec(self, other: Self) -> Self {
        vstd::pervasive::arbitrary()
    }

    /// The value the exec method [`Float::neg`] returns.
    open spec fn neg_spec(self) -> Self {
        vstd::pervasive::arbitrary()
    }

    /// The additive identity.
    fn zero() -> (r: Self)
        ensures
            r == Self::zero_spec(),
    ;

    /// The normalization constant `1/n` applied by the inverse transform.
    fn n_inv(n: usize) -> (r: Self)
        requires
            4 <= n,
        ensures
            r == Self::n_inv_spec(n as int),
    ;

    /// Entry `i` of the quarter-wave sine table for buffer size `n`,
    /// holding `sin(2*pi*i/n)`.
    fn sine(i: usize, n: usize) -> (r: Self)
        requires
            4 <= n,
            1 <= i < n / 4,
        ensures
            r == Self::sine_spec(i as int, n as int),
    ;

    /// Addition.
    fn add(self, other: Self) -> (r: Self)
        ensures
            r == self.add_spec(other),
    ;

    /// Subtraction.
    fn sub(self, other: Self) -> (r: Self)
        ensures
            r == self.sub_spec(other),
    ;

    /// Multiplication.
    fn mul(self, other: Self) -> (r: Self)
        ensures
            r == self.mul_spec(other),
    ;

    /// Negation.
    fn neg(self) -> (r: Self)
        ensures
            r == self.neg_spec(),
    ;
}

} // verus!
