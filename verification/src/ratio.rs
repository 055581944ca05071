//! An aspect ratio of two positive integers, read from text like `16x9`,
//! and the exact integer arithmetic that fits a box to it.

use vstd::prelude::*;

use crate::digits::{
    digits_value, is_canonical_numeral, lemma_digits_value_pos, parse_decimal,
};
use crate::percent::Percent;

verus! {

/// The product of two values that each fit in a `u64` fits in a `u128`.
pub(crate) proof fn lemma_u64_mul_fits(x: u64, y: u64)
    by (nonlinear_arith)
    ensures
        (x as int) * (y as int) <= u128::MAX,
{
}

/// A ratio. Can be used for more than just correct aspect ratio transforms.
#[derive(Copy, Clone, Debug, PartialEq, Eq, Structural)]
pub struct Ratio(pub u64, pub u64);

/// A numeral that begins with a nonzero digit: `[1-9][0-9]*`.
pub open spec fn is_positive_numeral(t: Seq<char>) -> bool {
    is_canonical_numeral(t) && t[0] != '0'
}

/// Whether `s` splits at position `k` into `<numeral>x<numeral>` with both
/// numerals positive and small enough for a `u64`.
pub open spec fn ratio_split_at(s: Seq<char>, k: int) -> bool {
    &&& 0 <= k < s.len()
    &&& s[k] == 'x'
    &&& is_positive_numeral(s.subrange(0, k))
    &&& is_positive_numeral(s.subrange(k + 1, s.len() as int))
    &&& digits_value(s.subrange(0, k)) <= u64::MAX
    &&& digits_value(s.subrange(k + 1, s.len() as int)) <= u64::MAX
}

impl Ratio {
    /// The ratio `a` to `b`.
    pub fn new(a: u64, b: u64) -> (r: Option<Ratio>)
        ensures
            r == Some(Ratio(a, b)),
    {
        Some(Ratio(a, b))
    }

    /// Reads a ratio written `<width>x<height>`, each side a decimal numeral
    /// beginning with a nonzero digit. Anything else is refused, as is a side
    /// beyond `u64::MAX`.
    pub fn parse(s: &str) -> (r: Result<Ratio, &'static str>)
        ensures
            r is Ok <==> exists|k: int| ratio_split_at(s@, k),
            r matches Ok(rt) ==> exists|k: int|
                {
                    &&& #[trigger] ratio_split_at(s@, k)
                    &&& rt.0 == digits_value(s@.subrange(0, k))
                    &&& rt.1 == digits_value(s@.subrange(k + 1, s@.len() as int))
                },
    {
        let n = s.unicode_len();
        let mut k: usize = 0;
        // Find the first 'x'; everything before it must later parse as digits.
        while k < n
            invariant
                k <= n == s@.len(),
                forall|j: int| 0 <= j < k ==> s@[j] != 'x',
            ensures
                k <= n,
                forall|j: int| 0 <= j < k ==> s@[j] != 'x',
                k < n ==> s@[k as int] == 'x',
            decreases n - k,
        {
            if s.get_char(k) == 'x' {
                break;
            }
            k = k + 1;
        }
        if k == n {
            proof {
                assert forall|j: int| !ratio_split_at(s@, j) by {
                    if 0 <= j < s@.len() {
                        assert(s@[j] != 'x');
                    }
                }
            }
            return Err("expecting a ratio like 16x9");
        }
        let left = parse_decimal(s, 0, k);
        let right = parse_decimal(s, k + 1, n);
        let ghost lt = s@.subrange(0, k as int);
        let ghost rt_ = s@.subrange(k as int + 1, s@.len() as int);
        proof {
            // No position other than k can split the text: a later 'x' would
            // sit inside the right numeral, an earlier one is ruled out by the
            // scan above.
            assert forall|j: int| j != k && 0 <= j < s@.len() implies !ratio_split_at(
                s@,
                j,
            ) by {
                if j < k {
                    assert(s@[j] != 'x');
                } else if j > k {
                    if ratio_split_at(s@, j) {
                        assert(s@.subrange(0, j)[k as int] == 'x');
                        assert(!crate::digits::is_digit_char('x'));
                    }
                }
            }
        }
        match (left, right) {
            (Some(a), Some(b)) => {
                if a == 0 || b == 0 {
                    proof {
                        if a == 0 {
                            if lt[0] != '0' {
                                lemma_digits_value_pos(lt);
                            }
                        }
                        if b == 0 {
                            if rt_[0] != '0' {
                                lemma_digits_value_pos(rt_);
                            }
                        }
                    }
                    Err("expecting a ratio like 16x9")
                } else {
                    proof {
                        assert(lt[0] != '0') by {
                            if lt[0] == '0' {
                                assert(lt.len() == 1);
                                assert(lt.drop_last().len() == 0);
                                assert(digits_value(lt.drop_last()) == 0);
                                assert(lt.last() == lt[0]);
                                assert(digits_value(lt) == 0);
                            }
                        }
                        assert(rt_[0] != '0') by {
                            if rt_[0] == '0' {
                                assert(rt_.len() == 1);
                                assert(rt_.drop_last().len() == 0);
                                assert(digits_value(rt_.drop_last()) == 0);
                                assert(rt_.last() == rt_[0]);
                                assert(digits_value(rt_) == 0);
                            }
                        }
                        assert(ratio_split_at(s@, k as int));
                    }
                    Ok(Ratio(a, b))
                }
            },
            _ => Err("expecting a ratio like 16x9"),
        }
    }

    /// Fits the box `a` by `b` to this ratio: takes the larger rectangle of
    /// this ratio that fits inside the box, as an exact integer computation,
    /// together with the applied factor in whole percent points (rounded
    /// down). `None` for a degenerate ratio or a result beyond `u64::MAX`.
    pub fn scale(&self, a: u64, b: u64) -> (r: Option<(Percent, (u64, u64))>)
        ensures
            r == scale_spec(self.0 as int, self.1 as int, a as int, b as int),
    {
        if self.0 == 0 || self.1 == 0 {
            return None;
        }
        proof {
            lemma_u64_mul_fits(a, self.1);
            lemma_u64_mul_fits(b, self.0);
            lemma_u64_mul_fits(self.0, a);
            lemma_u64_mul_fits(self.0, b);
            lemma_u64_mul_fits(self.1, a);
            lemma_u64_mul_fits(self.1, b);
        }
        let wide = (a as u128) * (self.1 as u128) <= (b as u128) * (self.0 as u128);
        let sn: u128 = if wide {
            a as u128
        } else {
            b as u128
        };
        let sd: u128 = if wide {
            self.0 as u128
        } else {
            self.1 as u128
        };
        let w = (self.0 as u128) * sn / sd;
        let h = (self.1 as u128) * sn / sd;
        let pct = 100 * sn / sd;
        if w > u64::MAX as u128 || h > u64::MAX as u128 || pct > u64::MAX as u128 {
            return None;
        }
        Some((Percent(pct as u64), (w as u64, h as u64)))
    }
}

/// What `Ratio::scale` yields, over unbounded integers.
pub open spec fn scale_spec(r0: int, r1: int, a: int, b: int) -> Option<(Percent, (u64, u64))> {
    if r0 <= 0 || r1 <= 0 {
        None
    } else {
        let sn = if a * r1 <= b * r0 {
            a
        } else {
            b
        };
        let sd = if a * r1 <= b * r0 {
            r0
        } else {
            r1
        };
        let w = r0 * sn / sd;
        let h = r1 * sn / sd;
        let pct = 100 * sn / sd;
        if w <= u64::MAX && h <= u64::MAX && pct <= u64::MAX {
            Some((Percent(pct as u64), (w as u64, h as u64)))
        } else {
            None
        }
    }
}

/// Scales the pair `a`, `b` by `fact`, rounding down. `None` where a scaled
/// side cannot be represented any more.
pub fn rescale(fact: Percent, a: u64, b: u64) -> (r: Option<(u64, u64)>)
    ensures
        ({
            let w = a * fact.0 / 100;
            let h = b * fact.0 / 100;
            if w <= u64::MAX && h <= u64::MAX {
                r == Some((w as u64, h as u64))
            } else {
                r is None
            }
        }),
{
    proof {
        lemma_u64_mul_fits(a, fact.0);
        lemma_u64_mul_fits(b, fact.0);
    }
    let w = (a as u128) * (fact.0 as u128) / 100;
    let h = (b as u128) * (fact.0 as u128) / 100;
    if w > u64::MAX as u128 || h > u64::MAX as u128 {
        None
    } else {
        Some((w as u64, h as u64))
    }
}

/// The initial window size on a monitor of `monitor_w` by `monitor_h`
/// pixels: the monitor scaled down by `fact`, then shaped to `ratio`.
/// `None` where the ratio is degenerate or a side cannot be represented.
pub fn window_size(monitor_w: u64, monitor_h: u64, ratio: Ratio, fact: Percent) -> (r: Option<
    (u64, u64),
>)
    ensures
        ({
            let sw = monitor_w * fact.0 / 100;
            let sh = monitor_h * fact.0 / 100;
            if sw <= u64::MAX && sh <= u64::MAX {
                match scale_spec(ratio.0 as int, ratio.1 as int, sw, sh) {
                    Some(fit) => r == Some(fit.1),
                    None => r is None,
                }
            } else {
                r is None
            }
        }),
{
    let scaled = match rescale(fact, monitor_w, monitor_h) {
        Some(s) => s,
        None => {
            return None;
        },
    };
    match ratio.scale(scaled.0, scaled.1) {
        Some((_, dims)) => Some(dims),
        None => None,
    }
}

impl core::str::FromStr for Ratio {
    type Err = &'static str;

    fn from_str(s: &str) -> Result<Self, Self::Err> {
        Ratio::parse(s)
    }
}

} // verus!
