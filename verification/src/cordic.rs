//! CORDIC functions.
//!
//! Useful for precomputing trigonometry tables.  The evaluator performs a
//! fixed count of 63 vector rotations whatever the input, so its running
//! time never depends on the angle — important for predictable timing on
//! single-threaded hardware.

use vstd::prelude::*;
use crate::common::Float;
use crate::common::valid_size;

verus! {

/// Raised when the evaluator is handed an angle outside the open interval
/// `(-pi/2, pi/2)`: a caller programming error, not a runtime condition.
#[derive(Debug, PartialEq, Eq, Structural)]
pub struct DomainError;

/// The capability set the evaluator needs on top of [`Float`]: a unit
/// value, halving, ordering, and the two constant tables (arctangent
/// steps and cumulative gain), which are fixed for all transform sizes
/// and precisions.  As in [`Float`], the `..._spec` functions default to
/// unconstrained values, so an implementation only has to provide the
/// executable methods.
pub trait Cordic: Float {
    /// The value the exec method [`Cordic::one`] returns.
    open spec fn one_spec() -> Self {
        vstd::pervasive::arbitrary()
    }

    /// The value the exec method [`Cordic::half`] returns.
    open spec fn half_spec(self) -> Self {
        vstd::pervasive::arbitrary()
    }

    /// The value the exec method [`Cordic::lt`] returns.
    open spec fn lt_spec(self, other: Self) -> bool {
        vstd::pervasive::arbitrary()
    }

    /// The value the exec method [`Cordic::half_pi`] returns.
    open spec fn half_pi_spec() -> Self {
        vstd::pervasive::arbitrary()
    }

    /// The value the exec method [`Cordic::theta`] returns.
    open spec fn theta_spec(i: int) -> Self {
        vstd::pervasive::arbitrary()
    }

    /// The value the exec method [`Cordic::gain`] returns.
    open spec fn gain_spec() -> Self {
        vstd::pervasive::arbitrary()
    }

    /// The value the exec method [`Cordic::angle`] returns.
    open spec fn angle_spec(i: int, n: int) -> Self {
        vstd::pervasive::arbitrary()
    }

    /// The multiplicative identity.
    fn one() -> (r: Self)
        ensures
            r == Self::one_spec(),
    ;

    /// Half of this value.
    fn half(self) -> (r: Self)
        ensures
            r == self.half_spec(),
    ;

    /// Strict order on scalars.
    fn lt(self, other: Self) -> (r: bool)
        ensures
            r == self.lt_spec(other),
    ;

    /// The constant `pi/2`, bounding the evaluator's domain.
    fn half_pi() -> (r: Self)
        ensures
            r == Self::half_pi_spec(),
    ;

    /// Arctangent step `i` of the constant table: `atan(2^-i)`.
    fn theta(i: usize) -> (r: Self)
        requires
            i < 63,
        ensures
            r == Self::theta_spec(i as int),
    ;

    /// The cumulative gain correction applied after the final rotation.
    fn gain() -> (r: Self)
        ensures
            r == Self::gain_spec(),
    ;

    /// The angle `2*pi*i/n` at which twiddle entry `i` is evaluated.
    fn angle(i: usize, n: usize) -> (r: Self)
        requires
            4 <= n,
        ensures
            r == Self::angle_spec(i as int, n as int),
    ;
}

/// Whether an angle lies in the evaluator's open domain `(-pi/2, pi/2)`,
/// as decided by the scalar type's own order.
pub open spec fn in_domain<T: Cordic>(alpha: T) -> bool {
    T::half_pi_spec().neg_spec().lt_spec(alpha) && alpha.lt_spec(T::half_pi_spec())
}

/// The evaluator's running state: accumulated angle, rotating vector, and
/// current rotation magnitude.
pub ghost struct RotationState<T> {
    pub theta: T,
    pub x: T,
    pub y: T,
    pub p2i: T,
}

/// The state every evaluation starts from: angle zero, unit vector,
/// magnitude one.
pub open spec fn initial_rotation<T: Cordic>() -> RotationState<T> {
    RotationState {
        theta: T::zero_spec(),
        x: T::one_spec(),
        y: T::zero_spec(),
        p2i: T::one_spec(),
    }
}

/// One rotation: step the accumulated angle towards `alpha` by the
/// arctangent step `i`, rotate the vector by the same amount, and halve
/// the magnitude.
pub open spec fn spec_rotate<T: Cordic>(alpha: T, s: RotationState<T>, i: int) -> RotationState<T> {
    let sigma = if s.theta.lt_spec(alpha) {
        T::one_spec()
    } else {
        T::one_spec().neg_spec()
    };
    RotationState {
        theta: s.theta.add_spec(sigma.mul_spec(T::theta_spec(i))),
        x: s.x.sub_spec(sigma.mul_spec(s.y).mul_spec(s.p2i)),
        y: s.y.add_spec(sigma.mul_spec(s.x).mul_spec(s.p2i)),
        p2i: s.p2i.half_spec(),
    }
}

/// The state after performing rotations `i` through 62 on `s`.
pub open spec fn spec_rotations<T: Cordic>(alpha: T, s: RotationState<T>, i: int) -> RotationState<T>
    decreases 63 - i,
{
    if i < 0 || i >= 63 {
        s
    } else {
        spec_rotations(alpha, spec_rotate(alpha, s, i), i + 1)
    }
}

/// The sine the evaluator computes: the `y` coordinate after all 63
/// rotations, corrected by the cumulative gain.
pub open spec fn spec_sin<T: Cordic>(alpha: T) -> T {
    spec_rotations(alpha, initial_rotation::<T>(), 0).y.mul_spec(T::gain_spec())
}

/// Compute the sine of an angle.
///
/// The angle must lie strictly between `-pi/2` and `+pi/2`; any other
/// angle is rejected with [`DomainError`].  Exactly 63 rotation
/// iterations are performed regardless of the input — no iteration,
/// branch count, or early exit varies with the angle's magnitude.
pub fn sin<T: Cordic>(alpha: T) -> (r: Result<T, DomainError>)
    ensures
        in_domain(alpha) ==> r == Ok::<T, DomainError>(spec_sin(alpha)),
        !in_domain(alpha) ==> r == Err::<T, DomainError>(DomainError),
{
    let in_range = T::half_pi().neg().lt(alpha) && alpha.lt(T::half_pi());
    if !in_range {
        return Err(DomainError);
    }
    let mut theta = T::zero();
    let mut x = T::one();
    let mut y = T::zero();
    let mut p2i = T::one();
    let mut i: usize = 0;
    while i < 63
        invariant
            i <= 63,
            spec_rotations(alpha, initial_rotation::<T>(), 0)
                == spec_rotations(
                    alpha,
                    (RotationState { theta: theta, x: x, y: y, p2i: p2i }),
                    i as int,
                ),
        decreases 63 - i,
    {
        let ghost pre = RotationState { theta: theta, x: x, y: y, p2i: p2i };
        let sigma = if theta.lt(alpha) { T::one() } else { T::one().neg() };
        let nx = x.sub(sigma.mul(y).mul(p2i));
        let ny = y.add(sigma.mul(x).mul(p2i));
        theta = theta.add(sigma.mul(T::theta(i)));
        x = nx;
        y = ny;
        p2i = p2i.half();
        i = i + 1;
        proof {
            assert((RotationState { theta: theta, x: x, y: y, p2i: p2i })
                == spec_rotate(alpha, pre, i - 1));
        }
    }
    Ok(y.mul(T::gain()))
}

/// The quarter-wave twiddle table for buffer size `n`: entry 0 is
/// conventionally zero, and entry `i` of `[1, n/4)` is the evaluator's
/// sine of `2*pi*i/n`.
pub open spec fn spec_sine_table<T: Cordic>(n: int) -> Seq<T> {
    Seq::new(
        (n / 4) as nat,
        |i: int| if i == 0 {
            T::zero_spec()
        } else {
            spec_sin(T::angle_spec(i, n))
        },
    )
}

/// Build the quarter-wave sine table for buffer size `n`.
///
/// The table is exactly `n/4` long: cosines are recovered by quarter-wave
/// symmetry, trading a little indexing arithmetic in the engines for a
/// fourfold memory reduction.  The build is pure and deterministic; run
/// it once per size and treat the result as read-only.  It fails only if
/// the scalar type's own order places some required angle outside the
/// evaluator's domain.
pub fn build_sine_table<T: Cordic>(n: usize) -> (r: Result<Vec<T>, DomainError>)
    requires
        valid_size(n as nat),
    ensures
        r matches Ok(t) ==> t@ == spec_sine_table::<T>(n as int),
        (r is Ok) <==> (forall|i: int|
            1 <= i < n as int / 4 ==> in_domain(#[trigger] T::angle_spec(i, n as int))),
{
    let q = n / 4;
    let mut t: Vec<T> = Vec::new();
    t.push(T::zero());
    let mut i: usize = 1;
    while i < q
        invariant
            1 <= i <= q,
            q == n as int / 4,
            4 <= n,
            t@.len() == i,
            forall|j: int| 0 <= j < i ==> t@[j] == spec_sine_table::<T>(n as int)[j],
            forall|j: int| 1 <= j < i ==> in_domain(#[trigger] T::angle_spec(j, n as int)),
        decreases q - i,
    {
        let a = T::angle(i, n);
        match sin(a) {
            Ok(v) => {
                t.push(v);
            },
            Err(e) => {
                proof {
                    assert(!in_domain(T::angle_spec(i as int, n as int)));
                }
                return Err(e);
            },
        }
        i = i + 1;
    }
    Ok(t)
}

} // verus!
