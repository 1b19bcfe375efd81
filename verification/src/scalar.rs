use vstd::prelude::*;

verus! {

/// The numeric element type of the matrix engine.
///
/// Every arithmetic operation the engine performs on entries goes through
/// this trait, and every executable method is pinned to its own
/// specification function, so the matrix and network layers can state
/// exactly which scalar operations they combine, in which order, without
/// fixing one numeric representation.  The crate provides a verified
/// integer instance; a caller may supply another instance (for example a
/// wrapper around a machine-precision number) and the shape and
/// data-movement guarantees of the engine continue to hold for it.
pub trait Scalar: Sized + Copy {
    /// The additive identity used to start sums.
    spec fn zero_spec() -> Self;

    /// The multiplicative identity, used by the label encoder.
    spec fn one_spec() -> Self;

    spec fn add_spec(self, other: Self) -> Self;

    spec fn sub_spec(self, other: Self) -> Self;

    spec fn mul_spec(self, other: Self) -> Self;

    spec fn div_spec(self, other: Self) -> Self;

    /// The exponential map applied by softmax.
    spec fn exp_spec(self) -> Self;

    /// The strict order used by ReLU, maxima and argmax.
    spec fn lt_spec(self, other: Self) -> bool;

    /// The scalar standing for the count `n`, used by averages and
    /// accuracy percentages.
    spec fn from_count_spec(n: usize) -> Self;

    /// The class index a label value stands for.
    spec fn index_spec(self) -> usize;

    /// Whether the value lies in this scalar's rendering of the unit
    /// interval centred at zero: the range that random initialization
    /// draws from.
    spec fn unit_range_spec(self) -> bool;

    fn zero() -> (r: Self)
        ensures
            r == Self::zero_spec(),
    ;

    fn one() -> (r: Self)
        ensures
            r == Self::one_spec(),
    ;

    fn add(self, other: Self) -> (r: Self)
        ensures
            r == self.add_spec(other),
    ;

    fn sub(self, other: Self) -> (r: Self)
        ensures
            r == self.sub_spec(other),
    ;

    fn mul(self, other: Self) -> (r: Self)
        ensures
            r == self.mul_spec(other),
    ;

    fn div(self, other: Self) -> (r: Self)
        ensures
            r == self.div_spec(other),
    ;

    fn exp(self) -> (r: Self)
        ensures
            r == self.exp_spec(),
    ;

    fn lt(self, other: Self) -> (r: bool)
        ensures
            r == self.lt_spec(other),
    ;

    fn from_count(n: usize) -> (r: Self)
        ensures
            r == Self::from_count_spec(n),
    ;

    fn to_index(self) -> (r: usize)
        ensures
            r == self.index_spec(),
    ;

    /// Maps a uniformly drawn 64-bit word into the scalar's rendering of
    /// the unit interval centred at zero, for random initialization.
    /// Which value comes out depends on the random draw; that it lies in
    /// the initialization range does not.
    fn from_random(bits: u64) -> (r: Self)
        ensures
            r.unit_range_spec(),
    ;
}

/// Clamps a mathematical integer into the representable range of `i64`.
pub open spec fn sat_i64(v: int) -> i64 {
    if v > i64::MAX {
        i64::MAX
    } else if v < i64::MIN {
        i64::MIN
    } else {
        v as i64
    }
}

/// Two raised to the power `n`.
pub open spec fn pow2_int(n: nat) -> int {
    vstd::arithmetic::power2::pow2(n) as int
}

pub proof fn lemma_pow2_int_bounds(n: nat)
    requires
        n <= 62,
    ensures
        1 <= pow2_int(n) <= 0x4000_0000_0000_0000,
        n > 0 ==> pow2_int(n) == 2 * pow2_int((n - 1) as nat),
{
    vstd::arithmetic::power2::lemma_pow2_pos(n);
    vstd::arithmetic::power2::lemma2_to64_rest();
    if n < 62 {
        vstd::arithmetic::power2::lemma_pow2_strictly_increases(n, 62);
    }
    if n > 0 {
        vstd::arithmetic::power2::lemma_pow2_unfold(n);
    }
}

/// The magnitude of an `i64`, as a mathematical integer.
pub open spec fn mag_i64(v: i64) -> int {
    if v >= 0 {
        v as int
    } else {
        -(v as int)
    }
}

/// The exact, saturating integer instance of the scalar interface.
///
/// Sums, differences and products clamp at the bounds of `i64`; division
/// truncates toward zero and treats a zero divisor as zero; the
/// exponential map is the base-two exponential, clamped the same way.
/// Within bounds the operations agree with exact integer arithmetic, so
/// the engine's contracts instantiated at `i64` talk about true sums and
/// products.
impl Scalar for i64 {
    open spec fn zero_spec() -> i64 {
        0
    }

    open spec fn one_spec() -> i64 {
        1
    }

    open spec fn add_spec(self, other: i64) -> i64 {
        sat_i64(self + other)
    }

    open spec fn sub_spec(self, other: i64) -> i64 {
        sat_i64(self - other)
    }

    open spec fn mul_spec(self, other: i64) -> i64 {
        sat_i64(self * other)
    }

    open spec fn div_spec(self, other: i64) -> i64 {
        if other == 0 {
            0
        } else if (self < 0) != (other < 0) {
            (-(mag_i64(self) / mag_i64(other))) as i64
        } else {
            sat_i64(mag_i64(self) / mag_i64(other))
        }
    }

    open spec fn exp_spec(self) -> i64 {
        if self < 0 {
            0
        } else if self > 62 {
            i64::MAX
        } else {
            pow2_int(self as nat) as i64
        }
    }

    open spec fn lt_spec(self, other: i64) -> bool {
        self < other
    }

    open spec fn from_count_spec(n: usize) -> i64 {
        sat_i64(n as int)
    }

    open spec fn index_spec(self) -> usize {
        if self < 0 {
            0
        } else if self > usize::MAX {
            usize::MAX
        } else {
            self as usize
        }
    }

    open spec fn unit_range_spec(self) -> bool {
        self == 0
    }

    fn zero() -> i64 {
        0
    }

    fn one() -> i64 {
        1
    }

    fn add(self, other: i64) -> i64 {
        let wide: i128 = self as i128 + other as i128;
        if wide > i64::MAX as i128 {
            i64::MAX
        } else if wide < i64::MIN as i128 {
            i64::MIN
        } else {
            wide as i64
        }
    }

    fn sub(self, other: i64) -> i64 {
        let wide: i128 = self as i128 - other as i128;
        if wide > i64::MAX as i128 {
            i64::MAX
        } else if wide < i64::MIN as i128 {
            i64::MIN
        } else {
            wide as i64
        }
    }

    fn mul(self, other: i64) -> i64 {
        proof {
            assert((self as int) * (other as int) <= i128::MAX && (self as int) * (other as int)
                >= i128::MIN) by (nonlinear_arith)
                requires
                    i64::MIN <= self <= i64::MAX,
                    i64::MIN <= other <= i64::MAX,
            ;
        }
        let wide: i128 = (self as i128) * (other as i128);
        if wide > i64::MAX as i128 {
            i64::MAX
        } else if wide < i64::MIN as i128 {
            i64::MIN
        } else {
            wide as i64
        }
    }

    fn div(self, other: i64) -> i64 {
        if other == 0 {
            return 0;
        }
        let mag_self: u64 = if self >= 0 {
            self as u64
        } else {
            (-(self as i128)) as u64
        };
        let mag_other: u64 = if other >= 0 {
            other as u64
        } else {
            (-(other as i128)) as u64
        };
        let quot: u64 = mag_self / mag_other;
        if (self < 0) != (other < 0) {
            (-(quot as i128)) as i64
        } else if quot > i64::MAX as u64 {
            i64::MAX
        } else {
            quot as i64
        }
    }

    fn exp(self) -> i64 {
        if self < 0 {
            return 0;
        }
        if self > 62 {
            return i64::MAX;
        }
        let mut acc: i64 = 1;
        let mut step: i64 = 0;
        proof {
            vstd::arithmetic::power2::lemma2_to64();
        }
        while step < self
            invariant
                0 <= step <= self <= 62,
                acc == pow2_int(step as nat),
                1 <= acc <= 0x4000_0000_0000_0000,
            decreases self - step,
        {
            proof {
                lemma_pow2_int_bounds((step + 1) as nat);
            }
            acc = acc * 2;
            step = step + 1;
        }
        acc
    }

    fn lt(self, other: i64) -> bool {
        self < other
    }

    fn from_count(n: usize) -> i64 {
        if n as u128 > i64::MAX as u128 {
            i64::MAX
        } else {
            n as i64
        }
    }

    fn to_index(self) -> usize {
        if self < 0 {
            0
        } else if self as u128 > usize::MAX as u128 {
            usize::MAX
        } else {
            self as usize
        }
    }

    fn from_random(_bits: u64) -> i64 {
        // zero is the only integer in the unit interval centred at zero
        0
    }
}

} // verus!
