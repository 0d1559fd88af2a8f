//! The share of a dataset that goes to training, as an exact fraction.
use vstd::prelude::*;

use crate::error::TrainError;
use crate::text::chars_of;

verus! {

pub open spec fn is_digit(c: char) -> bool {
    '0' <= c <= '9'
}

pub open spec fn all_digits(s: Seq<char>) -> bool {
    forall|i: int| 0 <= i < s.len() ==> is_digit(#[trigger] s[i])
}

/// The number that a string of decimal digits denotes.
pub open spec fn digits_value(s: Seq<char>) -> nat
    decreases s.len(),
{
    if s.len() == 0 {
        0
    } else {
        digits_value(s.drop_last()) * 10 + (s.last() as u32 - '0' as u32) as nat
    }
}

pub open spec fn pow10(k: nat) -> nat
    decreases k,
{
    if k == 0 {
        1
    } else {
        10 * pow10((k - 1) as nat)
    }
}

/// `s` is digits, a point at `p`, and digits.
pub open spec fn point_at(s: Seq<char>, p: int) -> bool {
    &&& 0 <= p < s.len()
    &&& s[p] == '.'
    &&& all_digits(s.take(p))
    &&& all_digits(s.skip(p + 1))
}

/// A decimal text, such as `1`, `0.8` or `.25`, read as `(v, k)`: it denotes
/// `v / 10^k`, where `v` is the number its digits spell and `k` the number of
/// digits after the point.
pub open spec fn decimal_spec(s: Seq<char>) -> Option<(nat, nat)> {
    if s.len() > 0 && all_digits(s) {
        Some((digits_value(s), 0))
    } else if s.len() > 1 && exists|p: int| point_at(s, p) {
        let p = choose|p: int| point_at(s, p);
        Some((digits_value(s.take(p) + s.skip(p + 1)), (s.len() - p - 1) as nat))
    } else {
        None
    }
}

/// The ratio `(num, den)` that a decimal text in `(0, 1]` with at most
/// eighteen digits after the point denotes.
pub open spec fn ratio_spec(s: Seq<char>) -> Option<(nat, nat)> {
    match decimal_spec(s) {
        Some((v, k)) => if k <= 18 && 0 < v <= pow10(k) {
            Some((v, pow10(k)))
        } else {
            None
        },
        None => None,
    }
}

proof fn lemma_digits_concat(a: Seq<char>, b: Seq<char>)
    ensures
        digits_value(a + b) == digits_value(a) * pow10(b.len()) + digits_value(b),
    decreases b.len(),
{
    if b.len() == 0 {
        assert(a + b =~= a);
        assert(pow10(0) == 1);
        assert(digits_value(b) == 0);
    } else {
        let c = a + b;
        assert(c.drop_last() =~= a + b.drop_last());
        assert(c.last() == b.last());
        lemma_digits_concat(a, b.drop_last());
        let x = digits_value(a);
        let y = digits_value(b.drop_last());
        let q = pow10(b.drop_last().len());
        let d = (b.last() as u32 - '0' as u32) as nat;
        assert(digits_value(c) == (x * q + y) * 10 + d);
        assert(digits_value(b) == y * 10 + d);
        assert(pow10(b.len()) == 10 * q);
        assert((x * q + y) * 10 + d == x * (10 * q) + (y * 10 + d)) by (nonlinear_arith);
        assert(digits_value(a + b) == x * pow10(b.len()) + digits_value(b));
    }
}

proof fn lemma_pow10_le(j: nat, k: nat)
    requires
        j <= k,
    ensures
        1 <= pow10(j) <= pow10(k),
    decreases k,
{
    if j < k {
        lemma_pow10_le(j, (k - 1) as nat);
    } else if k > 0 {
        lemma_pow10_le((k - 1) as nat, (k - 1) as nat);
    }
}

proof fn lemma_pow10_bound(k: nat)
    requires
        k <= 18,
    ensures
        1 <= pow10(k) <= 1_000_000_000_000_000_000,
{
    lemma_pow10_le(k, 18);
    reveal_with_fuel(pow10, 19);
}

proof fn lemma_point_unique(s: Seq<char>, p: int, q: int)
    requires
        point_at(s, p),
        0 <= q < s.len(),
        s[q] == '.',
        forall|j: int| 0 <= j < q ==> is_digit(s[j]),
    ensures
        p == q,
{
    if p < q {
        assert(is_digit(s[p]));
    } else if p > q {
        assert(s.take(p)[q] == s[q]);
    }
}

/// The fraction `num / den` of the rows that is meant for training.
#[derive(Clone, Copy, Debug, PartialEq, Eq)]
pub struct Ratio {
    pub num: u64,
    pub den: u64,
}

impl Ratio {
    /// A ratio in `(0, 1]`.
    pub open spec fn wf(&self) -> bool {
        0 < self.num <= self.den
    }

    /// The ratio `num / den`, refused unless it lies in `(0, 1]`.
    pub fn new(num: u64, den: u64) -> (r: Result<Ratio, TrainError>)
        ensures
            r is Ok <==> 0 < num <= den,
            r is Ok ==> r->Ok_0 == (Ratio { num, den }) && r->Ok_0.wf(),
            r is Err ==> r->Err_0 is BadRatio,
    {
        if 0 < num && num <= den {
            Ok(Ratio { num, den })
        } else {
            Err(TrainError::BadRatio)
        }
    }

    /// Reads a ratio written in decimal, such as `0.8`: digits, optionally a
    /// point and more digits, with no sign, exponent or white space. Refused
    /// unless it denotes a number in `(0, 1]` with at most eighteen digits
    /// after the point.
    pub fn parse(text: &str) -> (r: Result<Ratio, TrainError>)
        ensures
            r is Ok <==> ratio_spec(text@) is Some,
            r is Ok ==> r->Ok_0.wf() && r->Ok_0.num == ratio_spec(text@)->Some_0.0
                && r->Ok_0.den == ratio_spec(text@)->Some_0.1,
            r is Err ==> r->Err_0 is BadRatio,
    {
        let cs = chars_of(text);
        let n = cs.len();
        let ghost s = cs@;
        let mut i: usize = 0;
        // The value of the digits before the point, or 2 where it is larger.
        let mut whole: u64 = 0;
        while i < n && '0' <= cs[i] && cs[i] <= '9'
            invariant
                i <= n == s.len(),
                s == cs@,
                s == text@,
                all_digits(s.take(i as int)),
                whole == if digits_value(s.take(i as int)) < 2 {
                    digits_value(s.take(i as int))
                } else {
                    2
                },
            decreases n - i,
        {
            let d = (cs[i] as u32 - '0' as u32) as u64;
            proof {
                assert(s.take(i + 1).drop_last() =~= s.take(i as int));
                assert(all_digits(s.take(i + 1)));
            }
            whole = if whole > 0 || d > 2 {
                2
            } else {
                d
            };
            i = i + 1;
        }
        if i == n {
            proof {
                assert(s.take(i as int) =~= s);
            }
            if n > 0 && whole == 1 {
                return Ok(Ratio { num: 1, den: 1 });
            }
            return Err(TrainError::BadRatio);
        }
        if cs[i] != '.' {
            proof {
                assert(!all_digits(s));
                if exists|p: int| point_at(s, p) {
                    let p = choose|p: int| point_at(s, p);
                    if p < i {
                        assert(s.take(i as int)[p] == s[p]);
                    } else if p > i {
                        assert(s.take(p)[i as int] == s[i as int]);
                    }
                }
            }
            return Err(TrainError::BadRatio);
        }
        proof {
            assert(!all_digits(s));
            assert forall|p: int| point_at(s, p) implies p == i by {
                assert forall|j: int| 0 <= j < i implies is_digit(s[j]) by {
                    assert(s.take(i as int)[j] == s[j]);
                }
                lemma_point_unique(s, p, i as int);
            }
        }
        if n - i - 1 > 18 {
            return Err(TrainError::BadRatio);
        }
        let mut j: usize = i + 1;
        let mut frac: u64 = 0;
        let mut den: u64 = 1;
        while j < n
            invariant
                i < j <= n == s.len(),
                n - i - 1 <= 18,
                s == cs@,
                s == text@,
                !all_digits(s),
                forall|p: int| point_at(s, p) ==> p == i,
                all_digits(s.subrange(i + 1, j as int)),
                frac == digits_value(s.subrange(i + 1, j as int)),
                den == pow10((j - i - 1) as nat),
                frac < den,
            decreases n - j,
        {
            if !('0' <= cs[j] && cs[j] <= '9') {
                proof {
                    assert(s.skip(i + 1)[j - i - 1] == s[j as int]);
                    assert(!point_at(s, i as int));
                    assert(!exists|p: int| point_at(s, p)) by {
                        if exists|p: int| point_at(s, p) {
                            let p = choose|p: int| point_at(s, p);
                            assert(p == i);
                        }
                    }
                }
                return Err(TrainError::BadRatio);
            }
            let d = (cs[j] as u32 - '0' as u32) as u64;
            proof {
                lemma_pow10_bound((j - i) as nat);
                assert(s.subrange(i + 1, j + 1).drop_last() =~= s.subrange(i + 1, j as int));
                assert(all_digits(s.subrange(i + 1, j + 1)));
                assert(frac * 10 + d < den * 10) by (nonlinear_arith)
                    requires
                        frac < den,
                        d < 10,
                ;
            }
            frac = frac * 10 + d;
            den = den * 10;
            j = j + 1;
        }
        let ghost k = (n - i - 1) as nat;
        proof {
            assert(s.subrange(i + 1, n as int) =~= s.skip(i + 1));
            assert(point_at(s, i as int));
            lemma_digits_concat(s.take(i as int), s.skip(i + 1));
            lemma_pow10_bound(k);
        }
        if whole >= 2 {
            proof {
                let v = digits_value(s.take(i as int));
                assert(v * pow10(k) >= 2 * pow10(k)) by (nonlinear_arith)
                    requires
                        v >= 2,
                ;
            }
            return Err(TrainError::BadRatio);
        }
        assert(whole * den <= 1_000_000_000_000_000_000) by (nonlinear_arith)
            requires
                whole <= 1,
                den <= 1_000_000_000_000_000_000,
        ;
        let num = whole * den + frac;
        if num == 0 || num > den {
            return Err(TrainError::BadRatio);
        }
        proof {
            assert(s.len() > 1) by {
                if s.len() <= 1 {
                    assert(i == 0 && n == 1);
                    assert(s.take(0) =~= Seq::<char>::empty());
                    assert(s.skip(1) =~= Seq::<char>::empty());
                }
            }
        }
        Ok(Ratio { num, den })
    }
}

} // verus!
