//! Integer powers of decimals.

use crate::ast::EvaluationError;
use crate::decimal::checked_product;
use crate::decimal::checked_quotient;
use crate::decimal::decimal_quotient;
use crate::decimal::exact_power;
use crate::decimal::lemma_exact_power_adds;
use crate::decimal::lemma_product_respects_value;
use crate::decimal::lemma_same_value_chains;
use crate::decimal::machine_integer;
use crate::decimal::Dec;
use crate::decimal::Decimal;
use vstd::prelude::*;

verus! {

/// `base` to the power of `n` by repeated squaring: the power for half the
/// exponent is squared, and an odd exponent takes one more factor of `base`.
/// Nothing where a product leaves the range.
pub open spec fn repeated_squaring(base: Dec, n: nat) -> Option<Dec>
    decreases n,
{
    if n == 0 {
        Some(Dec::integer(1))
    } else if n == 1 {
        Some(base)
    } else {
        match repeated_squaring(base, n / 2) {
            None => None,
            Some(half) => match checked_product(half, half) {
                None => None,
                Some(square) => if n % 2 == 0 {
                    Some(square)
                } else {
                    checked_product(square, base)
                },
            },
        }
    }
}

/// `base` to the power of `exponent`: an error unless the exponent is an
/// integer that fits a machine word; a negative exponent raises one divided
/// by the base to its magnitude, which is an error for a base of zero.
pub open spec fn power_spec(base: Dec, exponent: Dec) -> Result<Dec, EvaluationError> {
    if !exponent.is_integer() {
        Err(EvaluationError::NonIntegerExponent)
    } else {
        match machine_integer(exponent) {
            None => Err(EvaluationError::OutOfRange),
            Some(n) => {
                if n >= 0 {
                    match repeated_squaring(base, n as nat) {
                        Some(p) => Ok(p),
                        None => Err(EvaluationError::OutOfRange),
                    }
                } else if base.unscaled == 0 {
                    Err(EvaluationError::DivisionByZero)
                } else {
                    match checked_quotient(Dec::integer(1), base) {
                        None => Err(EvaluationError::OutOfRange),
                        Some(inverse) => match repeated_squaring(inverse, (-n) as nat) {
                            Some(p) => Ok(p),
                            None => Err(EvaluationError::OutOfRange),
                        },
                    }
                }
            },
        }
    }
}

/// `base` to the power of `n` by repeated squaring.
pub fn power_of(base: &Decimal, n: u64) -> (r: Option<Decimal>)
    requires
        base.wf(),
    ensures
        match r {
            Some(p) => repeated_squaring(base@, n as nat) == Some(p@) && p.wf() && p@.same_value(
                exact_power(base@, n as nat),
            ),
            None => repeated_squaring(base@, n as nat) is None,
        },
    decreases n,
{
    proof {
        lemma_exact_power_adds(base@, 0, 0);
        lemma_same_value_chains(base@, base@, base@);
    }
    if n == 0 {
        let one = Decimal::one();
        proof {
            lemma_same_value_chains(one@, one@, one@);
        }
        Some(one)
    } else if n == 1 {
        Some(base.copy())
    } else {
        let h: u64 = n / 2;
        match power_of(base, h) {
            None => None,
            Some(half) => match half.checked_mul(&half) {
                None => None,
                Some(square) => {
                    let ghost part = exact_power(base@, h as nat);
                    let ghost twice = exact_power(base@, (h + h) as nat);
                    proof {
                        lemma_product_respects_value(half@, part, half@, part);
                        lemma_exact_power_adds(base@, h as nat, h as nat);
                        lemma_same_value_chains(square@, half@.plain_product(half@), twice);
                    }
                    if n % 2 == 0 {
                        Some(square)
                    } else {
                        match square.checked_mul(base) {
                            None => None,
                            Some(p) => {
                                proof {
                                    lemma_product_respects_value(square@, twice, base@, base@);
                                    lemma_exact_power_adds(base@, (h + h) as nat, 1);
                                    lemma_same_value_chains(
                                        p@,
                                        square@.plain_product(base@),
                                        exact_power(base@, n as nat),
                                    );
                                }
                                Some(p)
                            },
                        }
                    }
                },
            },
        }
    }
}

/// Whether `p` stands for `base` to the power of `exponent`: for an exponent
/// that is not negative exactly, for a negative one as the power of the
/// quotient of one by the base.
pub open spec fn is_power(base: Dec, exponent: Dec, p: Dec) -> bool {
    match machine_integer(exponent) {
        None => false,
        Some(n) => if n >= 0 {
            p.same_value(exact_power(base, n as nat))
        } else {
            p.same_value(exact_power(decimal_quotient(Dec::integer(1), base), (-n) as nat))
        },
    }
}

/// Raises a decimal to an integer power.
///
/// The result stands for exactly `x` to the power of `y` where `y` is not
/// negative. Fails where the exponent has a fractional part, where it does not fit a
/// machine word, where zero is raised to a negative power, and where a scale
/// leaves the range on the way.
pub fn exponantiate(x: Decimal, y: Decimal) -> (r: Result<Decimal, EvaluationError>)
    requires
        x.wf(),
        y.wf(),
    ensures
        match r {
            Ok(p) => power_spec(x@, y@) == Ok::<Dec, EvaluationError>(p@) && p.wf() && is_power(
                x@,
                y@,
                p@,
            ),
            Err(e) => power_spec(x@, y@) == Err::<Dec, EvaluationError>(e),
        },
{
    if !y.is_integer() {
        return Err(EvaluationError::NonIntegerExponent);
    }
    match y.to_i64() {
        None => Err(EvaluationError::OutOfRange),
        Some(n) => {
            if n >= 0 {
                match power_of(&x, n as u64) {
                    Some(p) => Ok(p),
                    None => Err(EvaluationError::OutOfRange),
                }
            } else if x.is_zero() {
                Err(EvaluationError::DivisionByZero)
            } else {
                match Decimal::one().checked_div(&x) {
                    None => Err(EvaluationError::OutOfRange),
                    Some(inverse) => {
                        let magnitude: u64 = if n == i64::MIN {
                            9_223_372_036_854_775_808u64
                        } else {
                            (-n) as u64
                        };
                        match power_of(&inverse, magnitude) {
                            Some(p) => Ok(p),
                            None => Err(EvaluationError::OutOfRange),
                        }
                    },
                }
            }
        },
    }
}

} // verus!
