//! A percentage value. The percentage is a whole, never-negative number of
//! percent points; subtracting percentages bottoms out at zero.
//!
//! Stepping (`step_next` / `step_prev`) quantizes to the nearest multiple of
//! the step size, rounding halves up, and never goes below the given minimum.

use vstd::prelude::*;

use crate::digits::{
    decimal_digits, digits_value, is_canonical_numeral, lemma_decimal_digits_canonical,
    parse_decimal, u64_to_decimal,
};

verus! {

/// A ratio of at least zero, held as a whole number of percent points:
/// `Percent(50)` is 50%, that is one half.
#[derive(Copy, Clone, Debug, PartialEq, Eq, Structural)]
pub struct Percent(pub u64);

/// Why a percentage could not be built.
#[derive(Debug)]
pub enum PercentError {
    /// A negative number can not be a percentage.
    IsNegative { value: i64 },
    /// The text is not a numeral directly followed by `%`.
    Parse { s: String },
}

/// `v` rounded to the nearest multiple of `inc`, halves rounded up.
/// Meaningful for `v >= 0` and `inc > 0`.
pub open spec fn quantize_spec(v: int, inc: int) -> int {
    let r = v % inc;
    if 2 * r >= inc {
        v - r + inc
    } else {
        v - r
    }
}

/// `v`, but never below `min`.
pub open spec fn clamp_min_spec(v: int, min: int) -> int {
    if v < min {
        min
    } else {
        v
    }
}

/// One step up: add the increment, quantize to its multiples, clamp to `min`.
/// A zero increment yields `min`, as stepping by nothing has no other answer.
pub open spec fn step_next_spec(p: int, min: int, inc: int) -> int {
    if inc == 0 {
        min
    } else {
        clamp_min_spec(quantize_spec(p + inc, inc), min)
    }
}

/// One step down: subtract the decrement (bottoming out at zero), quantize,
/// clamp to `min`.
pub open spec fn step_prev_spec(p: int, min: int, dec: int) -> int {
    if dec == 0 {
        min
    } else {
        clamp_min_spec(quantize_spec(if p >= dec { p - dec } else { 0 }, dec), min)
    }
}

/// `v` rounded to the nearest multiple of `inc`, halves up.
fn quantize(v: u64, inc: u64) -> (r: u64)
    requires
        inc > 0,
        v + inc <= u64::MAX,
    ensures
        r == quantize_spec(v as int, inc as int),
{
    let rem = v % inc;
    proof {
        vstd::arithmetic::div_mod::lemma_mod_bound(v as int, inc as int);
        vstd::arithmetic::div_mod::lemma_mod_decreases(v as nat, inc as nat);
        assert(inc == 2 * (inc / 2) + inc % 2);
    }
    let down = v - rem;
    if rem >= inc - inc / 2 {
        down + inc
    } else {
        down
    }
}

impl Percent {
    /// The percentage of `n` percent points: `from_integer_percent(50)` is 50%.
    pub fn from_integer_percent(n: u64) -> (r: Self)
        ensures
            r.0 == n,
    {
        Percent(n)
    }

    /// A percentage from a signed count of points; negative counts are refused.
    pub fn try_from_integer(n: i64) -> (r: Result<Self, PercentError>)
        ensures
            n >= 0 ==> r == Result::<Self, PercentError>::Ok(Percent(n as u64)),
            n < 0 ==> (r matches Err(PercentError::IsNegative { value }) && value == n),
    {
        if n < 0 {
            Err(PercentError::IsNegative { value: n })
        } else {
            Ok(Percent(n as u64))
        }
    }

    /// The raw number of percent points.
    pub fn raw(self) -> (r: u64)
        ensures
            r == self.0,
    {
        self.0
    }

    /// One step up by `inc`, quantized to multiples of `inc` with halves
    /// rounded up, and clamped to `min`.
    pub fn step_next(self, min: Self, inc: Self) -> (r: Self)
        requires
            self.0 + 2 * inc.0 <= u64::MAX,
        ensures
            r.0 == step_next_spec(self.0 as int, min.0 as int, inc.0 as int),
    {
        if inc.0 == 0 {
            min
        } else {
            let q = quantize(self.0 + inc.0, inc.0);
            if q < min.0 {
                min
            } else {
                Percent(q)
            }
        }
    }

    /// One step down by `dec`, saturating at zero before quantization, and
    /// clamped to `min`.
    pub fn step_prev(self, min: Self, dec: Self) -> (r: Self)
        ensures
            r.0 == step_prev_spec(self.0 as int, min.0 as int, dec.0 as int),
    {
        if dec.0 == 0 {
            min
        } else {
            let v = if self.0 >= dec.0 {
                self.0 - dec.0
            } else {
                0
            };
            let q = quantize(v, dec.0);
            if q < min.0 {
                min
            } else {
                Percent(q)
            }
        }
    }

    /// Prints the percentage in the same grammar `parse` reads: the percent
    /// points as a decimal numeral, directly followed by `%`.
    pub fn to_string(self) -> (r: String)
        ensures
            r@ == decimal_digits(self.0 as nat).push('%'),
    {
        let mut s = u64_to_decimal(self.0);
        proof {
            reveal_strlit("%");
        }
        s.append("%");
        proof {
            assert(decimal_digits(self.0 as nat) + "%"@ =~= decimal_digits(self.0 as nat).push(
                '%',
            ));
        }
        s
    }

    /// Reads a percentage: a decimal numeral without sign, decimal point or
    /// leading zeros (the single digit `0` stands for itself), directly
    /// followed by `%`. Anything else is refused, as is a count of points
    /// beyond `u64::MAX`.
    pub fn parse(s: &str) -> (r: Result<Self, PercentError>)
        ensures
            r is Ok <==> s@.len() >= 2 && s@.last() == '%' && is_canonical_numeral(
                s@.drop_last(),
            ) && digits_value(s@.drop_last()) <= u64::MAX,
            r matches Ok(p) ==> p.0 == digits_value(s@.drop_last()),
    {
        let n = s.unicode_len();
        if n < 2 {
            return Err(PercentError::Parse { s: s.to_owned() });
        }
        let last = s.get_char(n - 1);
        if last != '%' {
            return Err(PercentError::Parse { s: s.to_owned() });
        }
        match parse_decimal(s, 0, n - 1) {
            Some(v) => {
                proof {
                    assert(s@.subrange(0, n - 1) =~= s@.drop_last());
                }
                Ok(Percent(v))
            },
            None => {
                proof {
                    assert(s@.subrange(0, n - 1) =~= s@.drop_last());
                }
                Err(PercentError::Parse { s: s.to_owned() })
            },
        }
    }
}

impl core::str::FromStr for Percent {
    type Err = PercentError;

    fn from_str(s: &str) -> Result<Self, Self::Err> {
        Percent::parse(s)
    }
}

impl core::convert::TryFrom<i64> for Percent {
    type Error = PercentError;

    /// A percentage from a signed count of points; negative counts are
    /// refused.
    fn try_from(n: i64) -> (r: Result<Percent, PercentError>) {
        Percent::try_from_integer(n)
    }
}

impl vstd::std_specs::convert::TryFromSpecImpl<i64> for Percent {
    open spec fn obeys_try_from_spec() -> bool {
        true
    }

    open spec fn try_from_spec(n: i64) -> Result<Percent, PercentError> {
        if n >= 0 {
            Ok(Percent(n as u64))
        } else {
            Err(PercentError::IsNegative { value: n })
        }
    }
}

impl Default for Percent {
    /// The zero percentage.
    fn default() -> (r: Self)
        ensures
            r.0 == 0,
    {
        Percent(0)
    }
}

impl From<u32> for Percent {
    /// The percentage of `n` percent points.
    fn from(n: u32) -> (r: Self) {
        Percent(n as u64)
    }
}

impl vstd::std_specs::convert::FromSpecImpl<u32> for Percent {
    open spec fn obeys_from_spec() -> bool {
        true
    }

    open spec fn from_spec(n: u32) -> Self {
        Percent(n as u64)
    }
}

impl core::ops::Add for Percent {
    type Output = Percent;

    /// Exact addition of percentages.
    fn add(self, rhs: Percent) -> (r: Percent) {
        Percent(self.0 + rhs.0)
    }
}

impl vstd::std_specs::ops::AddSpecImpl for Percent {
    open spec fn obeys_add_spec() -> bool {
        true
    }

    open spec fn add_req(self, rhs: Percent) -> bool {
        self.0 + rhs.0 <= u64::MAX
    }

    open spec fn add_spec(self, rhs: Percent) -> Percent {
        Percent((self.0 + rhs.0) as u64)
    }
}

impl core::ops::Sub for Percent {
    type Output = Percent;

    /// Subtraction of percentages, saturating at zero.
    fn sub(self, rhs: Percent) -> (r: Percent) {
        if self.0 >= rhs.0 {
            Percent(self.0 - rhs.0)
        } else {
            Percent(0)
        }
    }
}

impl vstd::std_specs::ops::SubSpecImpl for Percent {
    open spec fn obeys_sub_spec() -> bool {
        true
    }

    open spec fn sub_req(self, rhs: Percent) -> bool {
        true
    }

    open spec fn sub_spec(self, rhs: Percent) -> Percent {
        if self.0 >= rhs.0 {
            Percent((self.0 - rhs.0) as u64)
        } else {
            Percent(0)
        }
    }
}

impl core::ops::Mul<u64> for Percent {
    type Output = u64;

    /// Scales an integer by the percentage, truncating toward zero.
    fn mul(self, rhs: u64) -> (r: u64) {
        (self.0 * rhs) / 100
    }
}

impl vstd::std_specs::ops::MulSpecImpl<u64> for Percent {
    open spec fn obeys_mul_spec() -> bool {
        true
    }

    open spec fn mul_req(self, rhs: u64) -> bool {
        self.0 * rhs <= u64::MAX
    }

    open spec fn mul_spec(self, rhs: u64) -> u64 {
        ((self.0 * rhs) / 100) as u64
    }
}

impl core::ops::Mul<Percent> for u64 {
    type Output = u64;

    /// Scales an integer by the percentage, truncating toward zero.
    fn mul(self, rhs: Percent) -> (r: u64) {
        (self * rhs.0) / 100
    }
}

impl vstd::std_specs::ops::MulSpecImpl<Percent> for u64 {
    open spec fn obeys_mul_spec() -> bool {
        true
    }

    open spec fn mul_req(self, rhs: Percent) -> bool {
        self * rhs.0 <= u64::MAX
    }

    open spec fn mul_spec(self, rhs: Percent) -> u64 {
        ((self * rhs.0) / 100) as u64
    }
}

/// Printing a percentage and parsing it back yields the same percentage:
/// the printed text ends in '%', its digits form a canonical numeral, and
/// that numeral denotes exactly the printed number of points. Together with
/// the contracts of `to_string` and `parse` this pins the round trip down.
pub proof fn lemma_to_string_parse_round_trip(p: Percent)
    ensures
        ({
            let printed = decimal_digits(p.0 as nat).push('%');
            &&& printed.len() >= 2
            &&& printed.last() == '%'
            &&& printed.drop_last() =~= decimal_digits(p.0 as nat)
            &&& is_canonical_numeral(decimal_digits(p.0 as nat))
            &&& digits_value(decimal_digits(p.0 as nat)) == p.0
        }),
{
    lemma_decimal_digits_canonical(p.0 as nat);
}

/// Stepping up and then down by the same increment lands on a value that is
/// at least the original minus one quantization unit, and never below the
/// minimum.
pub proof fn lemma_step_next_then_prev(p: Percent, min: Percent, inc: Percent)
    requires
        inc.0 > 0,
        p.0 + 2 * inc.0 <= u64::MAX,
    ensures
        ({
            let up = step_next_spec(p.0 as int, min.0 as int, inc.0 as int);
            let down = step_prev_spec(up, min.0 as int, inc.0 as int);
            &&& down >= min.0
            &&& down + inc.0 >= p.0
        }),
{
    let pi = p.0 as int;
    let mini = min.0 as int;
    let inci = inc.0 as int;
    let v = pi + inci;
    let r = v % inci;
    vstd::arithmetic::div_mod::lemma_mod_bound(v, inci);
    vstd::arithmetic::div_mod::lemma_fundamental_div_mod(v, inci);
    let up0 = quantize_spec(v, inci);
    assert(up0 > pi);
    let q = v / inci;
    assert(v - r == inci * q);
    assert((v - r) % inci == 0) by {
        vstd::arithmetic::div_mod::lemma_mod_multiples_basic(q, inci);
        vstd::arithmetic::mul::lemma_mul_is_commutative(q, inci);
    }
    assert(up0 % inci == 0) by {
        if 2 * r >= inci {
            vstd::arithmetic::div_mod::lemma_mod_add_multiples_vanish(v - r, inci);
        }
    }
    let up = step_next_spec(pi, mini, inci);
    if up0 >= mini {
        assert(up == up0);
        assert(up0 >= inci) by {
            if up0 < inci {
                vstd::arithmetic::div_mod::lemma_small_mod(up0 as nat, inci as nat);
            }
        }
        let w = up0 - inci;
        assert(w % inci == 0) by {
            vstd::arithmetic::div_mod::lemma_mod_sub_multiples_vanish(up0, inci);
        }
        assert(quantize_spec(w, inci) == w);
        assert(step_prev_spec(up, mini, inci) == clamp_min_spec(w, mini));
    } else {
        assert(up == mini);
        let w = if mini >= inci {
            mini - inci
        } else {
            0
        };
        vstd::arithmetic::div_mod::lemma_mod_bound(w, inci);
        assert(quantize_spec(w, inci) <= w + inci);
        assert(step_prev_spec(up, mini, inci) >= mini);
        assert(mini + inci > pi);
    }
}

} // verus!
