//! The scalar capability the decomposition algorithms compute with.
//!
//! The algorithms in this crate are generic over the scalars they work on:
//! every arithmetic step, comparison, absolute value and square root is
//! routed through [`NumericOps`], and the one-time widening of the input
//! elements into the working scalar type through [`Widen`].  Each method is
//! specified as a pure function of the capability value and its arguments,
//! so the algorithms are deterministic in whatever scalar model a caller
//! supplies; nothing else is assumed about the arithmetic.
//!
//! [`IntegerOps`] is the capability instance this crate provides and
//! verifies: exact `i64` arithmetic that saturates at the representation
//! limits, with the floor square root. Callers that want machine floating
//! point implement the two traits for a capability type of their own and
//! keep the numeric behaviour of their scalar library.

use vstd::prelude::*;

verus! {

/// Arithmetic, ordering, absolute value and square root over the working
/// scalar type `W`, together with the constants the algorithms need.
///
/// Every method returns a function of the capability value and the
/// arguments, stated by its `_spec` twin: a capability is a fixed,
/// deterministic scalar model.
pub trait NumericOps<W>: Sized {
    /// The additive identity.
    spec fn zero_spec(&self) -> W;

    /// The multiplicative identity.
    spec fn one_spec(&self) -> W;

    /// The machine epsilon of the scalar model: the relative spacing of
    /// adjacent representable scalars (zero for an exact model).
    spec fn eps_spec(&self) -> W;

    /// The scalar standing for the count `n`.
    spec fn from_count_spec(&self, n: usize) -> W;

    spec fn plus_spec(&self, a: W, b: W) -> W;

    spec fn minus_spec(&self, a: W, b: W) -> W;

    spec fn times_spec(&self, a: W, b: W) -> W;

    spec fn div_spec(&self, a: W, b: W) -> W;

    spec fn neg_spec(&self, a: W) -> W;

    spec fn abs_spec(&self, a: W) -> W;

    spec fn sqrt_spec(&self, a: W) -> W;

    spec fn lt_spec(&self, a: W, b: W) -> bool;

    spec fn le_spec(&self, a: W, b: W) -> bool;

    spec fn gt_spec(&self, a: W, b: W) -> bool;

    spec fn ge_spec(&self, a: W, b: W) -> bool;

    spec fn eq_spec(&self, a: W, b: W) -> bool;

    fn zero(&self) -> (r: W)
        ensures
            r == self.zero_spec(),
    ;

    fn one(&self) -> (r: W)
        ensures
            r == self.one_spec(),
    ;

    fn eps(&self) -> (r: W)
        ensures
            r == self.eps_spec(),
    ;

    fn from_count(&self, n: usize) -> (r: W)
        ensures
            r == self.from_count_spec(n),
    ;

    fn plus(&self, a: W, b: W) -> (r: W)
        ensures
            r == self.plus_spec(a, b),
    ;

    fn minus(&self, a: W, b: W) -> (r: W)
        ensures
            r == self.minus_spec(a, b),
    ;

    fn times(&self, a: W, b: W) -> (r: W)
        ensures
            r == self.times_spec(a, b),
    ;

    fn div(&self, a: W, b: W) -> (r: W)
        ensures
            r == self.div_spec(a, b),
    ;

    fn neg(&self, a: W) -> (r: W)
        ensures
            r == self.neg_spec(a),
    ;

    fn abs(&self, a: W) -> (r: W)
        ensures
            r == self.abs_spec(a),
    ;

    fn sqrt(&self, a: W) -> (r: W)
        ensures
            r == self.sqrt_spec(a),
    ;

    fn lt(&self, a: W, b: W) -> (r: bool)
        ensures
            r == self.lt_spec(a, b),
    ;

    fn le(&self, a: W, b: W) -> (r: bool)
        ensures
            r == self.le_spec(a, b),
    ;

    fn gt(&self, a: W, b: W) -> (r: bool)
        ensures
            r == self.gt_spec(a, b),
    ;

    fn ge(&self, a: W, b: W) -> (r: bool)
        ensures
            r == self.ge_spec(a, b),
    ;

    fn eq(&self, a: W, b: W) -> (r: bool)
        ensures
            r == self.eq_spec(a, b),
    ;
}

/// The one-time widening conversion from the element type `T` of an input
/// matrix into the working scalar type `W` of a capability.
pub trait Widen<T, W>: Sized {
    /// The widened image of `x`.
    spec fn widen_spec(&self, x: T) -> W;

    fn widen(&self, x: T) -> (r: W)
        ensures
            r == self.widen_spec(x),
    ;
}

/// An integer clipped to the `i64` range.
pub open spec fn clip_i64(x: int) -> i64 {
    if x > i64::MAX {
        i64::MAX
    } else if x < i64::MIN {
        i64::MIN
    } else {
        x as i64
    }
}

/// Truncating integer division (the quotient is rounded toward zero), for a
/// nonzero divisor.
pub open spec fn trunc_div(a: int, b: int) -> int {
    if a == 0 {
        0
    } else if a > 0 && b > 0 {
        a / b
    } else if a < 0 && b < 0 {
        (a * -1) / (b * -1)
    } else if a < 0 {
        ((a * -1) / b) * -1
    } else {
        (a / (b * -1)) * -1
    }
}

/// The floor of the square root of `a`, zero when `a` is negative.
pub open spec fn int_sqrt(a: int) -> int
    decreases a,
{
    if a <= 0 {
        0
    } else {
        let below = int_sqrt(a - 1);
        if (below + 1) * (below + 1) <= a {
            below + 1
        } else {
            below
        }
    }
}

/// `int_sqrt(a)` really is the floor of the square root.
pub proof fn lemma_int_sqrt_bounds(a: int)
    requires
        a >= 0,
    ensures
        int_sqrt(a) >= 0,
        int_sqrt(a) * int_sqrt(a) <= a,
        a < (int_sqrt(a) + 1) * (int_sqrt(a) + 1),
    decreases a,
{
    if a == 0 {
        assert(int_sqrt(0) == 0);
    } else {
        lemma_int_sqrt_bounds(a - 1);
        let below = int_sqrt(a - 1);
        assert(below >= 0);
        assert(below * below <= a - 1);
        assert(a - 1 < (below + 1) * (below + 1));
        if (below + 1) * (below + 1) <= a {
            assert(a < (below + 2) * (below + 2)) by (nonlinear_arith)
                requires
                    below >= 0,
                    a - 1 < (below + 1) * (below + 1),
            ;
        }
    }
}

/// Any nonnegative `r` with `r * r <= a < (r + 1) * (r + 1)` is `int_sqrt(a)`.
pub proof fn lemma_int_sqrt_unique(a: int, r: int)
    requires
        a >= 0,
        r >= 0,
        r * r <= a,
        a < (r + 1) * (r + 1),
    ensures
        r == int_sqrt(a),
{
    lemma_int_sqrt_bounds(a);
    let s = int_sqrt(a);
    assert(r == s) by (nonlinear_arith)
        requires
            r >= 0,
            s >= 0,
            r * r <= a,
            a < (r + 1) * (r + 1),
            s * s <= a,
            a < (s + 1) * (s + 1),
    ;
}


/// The `ge` relation of a capability is total: any two scalars compare one
/// way or the other.
pub open spec fn ge_total<W, O: NumericOps<W>>(ops: &O) -> bool {
    forall|a: W, b: W| #[trigger] ops.ge_spec(a, b) || #[trigger] ops.ge_spec(b, a)
}

/// The `ge` relation of a capability is transitive.
pub open spec fn ge_transitive<W, O: NumericOps<W>>(ops: &O) -> bool {
    forall|a: W, b: W, c: W|
        #[trigger] ops.ge_spec(a, b) && #[trigger] ops.ge_spec(b, c) ==> ops.ge_spec(a, c)
}

/// `s` is in non-increasing order under the `ge` relation of `ops`.
pub open spec fn sorted_descending<W, O: NumericOps<W>>(ops: &O, s: Seq<W>) -> bool {
    forall|i: int, j: int| 0 <= i <= j < s.len() ==> ops.ge_spec(#[trigger] s[i], #[trigger] s[j])
}

/// Law: the exact integer capability orders its scalars totally and
/// transitively, so the sorting guarantees conditioned on these properties
/// hold of it outright.
pub proof fn lemma_integer_ops_ordering()
    ensures
        ge_total(&IntegerOps),
        ge_transitive(&IntegerOps),
{
}

/// Exact `i64` arithmetic that saturates at the representation limits: the
/// capability instance this crate itself provides and verifies.
///
/// Division by zero yields zero, the square root of a negative scalar is
/// zero, and the machine epsilon is zero, so every operation is total.
pub struct IntegerOps;

impl NumericOps<i64> for IntegerOps {
    open spec fn zero_spec(&self) -> i64 {
        0
    }

    open spec fn one_spec(&self) -> i64 {
        1
    }

    open spec fn eps_spec(&self) -> i64 {
        0
    }

    open spec fn from_count_spec(&self, n: usize) -> i64 {
        clip_i64(n as int)
    }

    open spec fn plus_spec(&self, a: i64, b: i64) -> i64 {
        clip_i64(a + b)
    }

    open spec fn minus_spec(&self, a: i64, b: i64) -> i64 {
        clip_i64(a - b)
    }

    open spec fn times_spec(&self, a: i64, b: i64) -> i64 {
        clip_i64(a * b)
    }

    open spec fn div_spec(&self, a: i64, b: i64) -> i64 {
        if b == 0 {
            0
        } else {
            clip_i64(trunc_div(a as int, b as int))
        }
    }

    open spec fn neg_spec(&self, a: i64) -> i64 {
        clip_i64(-(a as int))
    }

    open spec fn abs_spec(&self, a: i64) -> i64 {
        if a < 0 {
            clip_i64(-(a as int))
        } else {
            a
        }
    }

    open spec fn sqrt_spec(&self, a: i64) -> i64 {
        if a <= 0 {
            0
        } else {
            int_sqrt(a as int) as i64
        }
    }

    open spec fn lt_spec(&self, a: i64, b: i64) -> bool {
        a < b
    }

    open spec fn le_spec(&self, a: i64, b: i64) -> bool {
        a <= b
    }

    open spec fn gt_spec(&self, a: i64, b: i64) -> bool {
        a > b
    }

    open spec fn ge_spec(&self, a: i64, b: i64) -> bool {
        a >= b
    }

    open spec fn eq_spec(&self, a: i64, b: i64) -> bool {
        a == b
    }

    fn zero(&self) -> i64 {
        0
    }

    fn one(&self) -> i64 {
        1
    }

    fn eps(&self) -> i64 {
        0
    }

    fn from_count(&self, n: usize) -> i64 {
        match i64::try_from(n) {
            Ok(v) => v,
            Err(_) => i64::MAX,
        }
    }

    fn plus(&self, a: i64, b: i64) -> i64 {
        match a.checked_add(b) {
            Some(v) => v,
            None => {
                if a > 0 {
                    i64::MAX
                } else {
                    i64::MIN
                }
            },
        }
    }

    fn minus(&self, a: i64, b: i64) -> i64 {
        match a.checked_sub(b) {
            Some(v) => v,
            None => {
                if a > 0 || (a == 0 && b < 0) {
                    i64::MAX
                } else {
                    i64::MIN
                }
            },
        }
    }

    fn times(&self, a: i64, b: i64) -> i64 {
        match a.checked_mul(b) {
            Some(v) => v,
            None => {
                proof {
                    if (a > 0) == (b > 0) {
                        assert(a * b >= 0) by (nonlinear_arith)
                            requires
                                (a > 0 && b > 0) || (a <= 0 && b <= 0),
                        ;
                    } else {
                        assert(a * b <= 0) by (nonlinear_arith)
                            requires
                                (a > 0 && b <= 0) || (a <= 0 && b > 0),
                        ;
                    }
                }
                if (a > 0) == (b > 0) {
                    i64::MAX
                } else {
                    i64::MIN
                }
            },
        }
    }

    fn div(&self, a: i64, b: i64) -> i64 {
        match a.checked_div(b) {
            Some(v) => v,
            None => {
                if b == 0 {
                    0
                } else {
                    i64::MAX
                }
            },
        }
    }

    fn neg(&self, a: i64) -> i64 {
        if a == i64::MIN {
            i64::MAX
        } else {
            -a
        }
    }

    fn abs(&self, a: i64) -> i64 {
        if a == i64::MIN {
            i64::MAX
        } else if a < 0 {
            -a
        } else {
            a
        }
    }

    fn sqrt(&self, a: i64) -> i64 {
        if a <= 0 {
            return 0;
        }
        let mut lo: i64 = 0;
        let mut hi: i64 = 3037000500;
        proof {
            assert((a as int) < 3037000500 * 3037000500) by (nonlinear_arith)
                requires
                    a <= i64::MAX,
            ;
        }
        while lo + 1 < hi
            invariant
                0 <= lo < hi <= 3037000500,
                lo * lo <= a as int,
                (a as int) < hi * hi,
            decreases hi - lo,
        {
            let mid: i64 = lo + (hi - lo) / 2;
            proof {
                assert(mid * mid <= 3037000499 * 3037000499) by (nonlinear_arith)
                    requires
                        0 <= mid <= 3037000499,
                ;
            }
            if mid * mid <= a {
                lo = mid;
            } else {
                hi = mid;
            }
        }
        proof {
            lemma_int_sqrt_unique(a as int, lo as int);
        }
        lo
    }

    fn lt(&self, a: i64, b: i64) -> bool {
        a < b
    }

    fn le(&self, a: i64, b: i64) -> bool {
        a <= b
    }

    fn gt(&self, a: i64, b: i64) -> bool {
        a > b
    }

    fn ge(&self, a: i64, b: i64) -> bool {
        a >= b
    }

    fn eq(&self, a: i64, b: i64) -> bool {
        a == b
    }
}

impl Widen<i64, i64> for IntegerOps {
    open spec fn widen_spec(&self, x: i64) -> i64 {
        x
    }

    fn widen(&self, x: i64) -> i64 {
        x
    }
}

impl Widen<i32, i64> for IntegerOps {
    open spec fn widen_spec(&self, x: i32) -> i64 {
        x as i64
    }

    fn widen(&self, x: i32) -> i64 {
        x as i64
    }
}

} // verus!
