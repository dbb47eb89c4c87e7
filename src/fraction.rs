use vstd::prelude::*;

use crate::error::EvalError;

verus! {

/// Whether an integer fits in an `i128`.
pub open spec fn fits(x: int) -> bool {
    i128::MIN <= x <= i128::MAX
}

/// `a + b` on fractions `(numerator, denominator)`, over the common
/// denominator `a.1 * b.1`.
pub open spec fn frac_add(a: (int, int), b: (int, int)) -> Result<(int, int), EvalError> {
    let p = a.0 * b.1;
    let q = b.0 * a.1;
    let d = a.1 * b.1;
    if fits(p) && fits(q) && fits(d) && fits(p + q) {
        Ok((p + q, d))
    } else {
        Err(EvalError::OutOfRange)
    }
}

/// `a - b` on fractions, over the common denominator `a.1 * b.1`.
pub open spec fn frac_sub(a: (int, int), b: (int, int)) -> Result<(int, int), EvalError> {
    let p = a.0 * b.1;
    let q = b.0 * a.1;
    let d = a.1 * b.1;
    if fits(p) && fits(q) && fits(d) && fits(p - q) {
        Ok((p - q, d))
    } else {
        Err(EvalError::OutOfRange)
    }
}

/// `a * b` on fractions.
pub open spec fn frac_mul(a: (int, int), b: (int, int)) -> Result<(int, int), EvalError> {
    let n = a.0 * b.0;
    let d = a.1 * b.1;
    if fits(n) && fits(d) {
        Ok((n, d))
    } else {
        Err(EvalError::OutOfRange)
    }
}

/// `a / b` on fractions; the sign moves to the numerator.
pub open spec fn frac_div(a: (int, int), b: (int, int)) -> Result<(int, int), EvalError> {
    let n = a.0 * b.1;
    let d = a.1 * b.0;
    if b.0 == 0 {
        Err(EvalError::DivisionByZero)
    } else if !(fits(n) && fits(d) && fits(-n) && fits(-d)) {
        Err(EvalError::OutOfRange)
    } else if d < 0 {
        Ok((-n, -d))
    } else {
        Ok((n, d))
    }
}

/// A fraction, truncated toward zero to a count between `0` and `u32::MAX`;
/// negative values give `0`, larger ones `u32::MAX`.
pub open spec fn to_count(a: (int, int)) -> nat {
    if a.0 <= 0 {
        0
    } else if a.0 / a.1 > u32::MAX {
        u32::MAX as nat
    } else {
        (a.0 / a.1) as nat
    }
}

/// An exact value: a numerator over a positive denominator, not necessarily
/// in lowest terms.
#[derive(Clone, Copy, Debug)]
pub struct Fraction {
    num: i128,
    den: i128,
}

impl Fraction {
    /// The denominator is positive.
    #[verifier::type_invariant]
    spec fn positive_denominator(self) -> bool {
        self.den >= 1
    }

    /// The pair `(numerator, denominator)`.
    pub closed spec fn value(&self) -> (int, int) {
        (self.num as int, self.den as int)
    }

    /// The integer `n`.
    pub fn from_integer(n: i128) -> (r: Fraction)
        ensures
            r.value() == (n as int, 1int),
    {
        Fraction { num: n, den: 1 }
    }

    pub fn numer(&self) -> (r: i128)
        ensures
            r == self.value().0,
    {
        self.num
    }

    /// Always positive.
    pub fn denom(&self) -> (r: i128)
        ensures
            r == self.value().1,
            r >= 1,
    {
        proof {
            use_type_invariant(self);
        }
        self.den
    }

    pub fn add(&self, o: &Fraction) -> (r: Result<Fraction, EvalError>)
        ensures
            frac_add(self.value(), o.value()) == match r {
                Ok(f) => Ok::<(int, int), EvalError>(f.value()),
                Err(e) => Err(e),
            },
            r is Ok ==> r->Ok_0.value().1 >= 1,
    {
        proof {
            use_type_invariant(self);
            use_type_invariant(o);
        }
        let p = match self.num.checked_mul(o.den) {
            Some(p) => p,
            None => return Err(EvalError::OutOfRange),
        };
        let q = match o.num.checked_mul(self.den) {
            Some(q) => q,
            None => return Err(EvalError::OutOfRange),
        };
        let d = match self.den.checked_mul(o.den) {
            Some(d) => d,
            None => return Err(EvalError::OutOfRange),
        };
        let n = match p.checked_add(q) {
            Some(n) => n,
            None => return Err(EvalError::OutOfRange),
        };
        assert(d >= 1) by (nonlinear_arith)
            requires
                d == self.den * o.den,
                self.den >= 1,
                o.den >= 1,
        ;
        Ok(Fraction { num: n, den: d })
    }

    pub fn sub(&self, o: &Fraction) -> (r: Result<Fraction, EvalError>)
        ensures
            frac_sub(self.value(), o.value()) == match r {
                Ok(f) => Ok::<(int, int), EvalError>(f.value()),
                Err(e) => Err(e),
            },
            r is Ok ==> r->Ok_0.value().1 >= 1,
    {
        proof {
            use_type_invariant(self);
            use_type_invariant(o);
        }
        let p = match self.num.checked_mul(o.den) {
            Some(p) => p,
            None => return Err(EvalError::OutOfRange),
        };
        let q = match o.num.checked_mul(self.den) {
            Some(q) => q,
            None => return Err(EvalError::OutOfRange),
        };
        let d = match self.den.checked_mul(o.den) {
            Some(d) => d,
            None => return Err(EvalError::OutOfRange),
        };
        let n = match p.checked_sub(q) {
            Some(n) => n,
            None => return Err(EvalError::OutOfRange),
        };
        assert(d >= 1) by (nonlinear_arith)
            requires
                d == self.den * o.den,
                self.den >= 1,
                o.den >= 1,
        ;
        Ok(Fraction { num: n, den: d })
    }

    pub fn mul(&self, o: &Fraction) -> (r: Result<Fraction, EvalError>)
        ensures
            frac_mul(self.value(), o.value()) == match r {
                Ok(f) => Ok::<(int, int), EvalError>(f.value()),
                Err(e) => Err(e),
            },
            r is Ok ==> r->Ok_0.value().1 >= 1,
    {
        proof {
            use_type_invariant(self);
            use_type_invariant(o);
        }
        let n = match self.num.checked_mul(o.num) {
            Some(n) => n,
            None => return Err(EvalError::OutOfRange),
        };
        let d = match self.den.checked_mul(o.den) {
            Some(d) => d,
            None => return Err(EvalError::OutOfRange),
        };
        assert(d >= 1) by (nonlinear_arith)
            requires
                d == self.den * o.den,
                self.den >= 1,
                o.den >= 1,
        ;
        Ok(Fraction { num: n, den: d })
    }

    pub fn div(&self, o: &Fraction) -> (r: Result<Fraction, EvalError>)
        ensures
            frac_div(self.value(), o.value()) == match r {
                Ok(f) => Ok::<(int, int), EvalError>(f.value()),
                Err(e) => Err(e),
            },
            r is Ok ==> r->Ok_0.value().1 >= 1,
    {
        proof {
            use_type_invariant(self);
            use_type_invariant(o);
        }
        if o.num == 0 {
            return Err(EvalError::DivisionByZero);
        }
        let n = match self.num.checked_mul(o.den) {
            Some(n) => n,
            None => return Err(EvalError::OutOfRange),
        };
        let d = match self.den.checked_mul(o.num) {
            Some(d) => d,
            None => return Err(EvalError::OutOfRange),
        };
        if n == i128::MIN || d == i128::MIN {
            return Err(EvalError::OutOfRange);
        }
        assert(d != 0) by (nonlinear_arith)
            requires
                d == self.den * o.num,
                self.den >= 1,
                o.num != 0,
        ;
        if d < 0 {
            Ok(Fraction { num: -n, den: -d })
        } else {
            Ok(Fraction { num: n, den: d })
        }
    }

    /// The value truncated toward zero and clamped to `0 ..= u32::MAX`.
    pub fn to_count(&self) -> (r: u32)
        ensures
            r == to_count(self.value()),
    {
        proof {
            use_type_invariant(self);
        }
        if self.num <= 0 {
            0
        } else {
            let q = self.num / self.den;
            if q > u32::MAX as i128 {
                u32::MAX
            } else {
                q as u32
            }
        }
    }
}

} // verus!
