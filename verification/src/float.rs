//! Decimal numbers with a fractional part ("floats" of the rule language), held exactly
//! as an integer count of 10^-18 units.
use vstd::prelude::*;
use crate::text::chars_of;

verus! {

/// Number of 10^-18 units in one.
pub const FLOAT_SCALE: i128 = 1_000_000_000_000_000_000i128;

/// Two decimals count as equal when they differ by less than 10^-6, i.e. 10^12 units.
pub const FLOAT_TOLERANCE: i128 = 1_000_000_000_000i128;

/// The number of bits of precision of a double.
pub open spec fn double_limit() -> nat {
    0x20_0000_0000_0000
}

/// The rounding unit of a magnitude `m`: the least power of two `p` (from `p` on, at most
/// `fuel` doublings) with `m < 2^53 * p`.
pub open spec fn unit_from(m: nat, p: nat, fuel: nat) -> nat
    decreases fuel,
{
    if fuel == 0 || m < double_limit() * p {
        p
    } else {
        unit_from(m, 2 * p, (fuel - 1) as nat)
    }
}

/// The magnitude `m` rounded to the nearest double: to a multiple of its unit, halves to
/// the even multiple.
pub open spec fn double_mag(m: nat) -> nat {
    let p = unit_from(m, 1, 64);
    let q = m / p;
    let r = m % p;
    ((if 2 * r > p || (2 * r == p && q % 2 == 1) { q + 1 } else { q }) * p) as nat
}

/// `i as f64` for an `i64`: the nearest double (ties to even), as an integer.
pub open spec fn int_as_f64(i: int) -> int {
    if i < 0 {
        -(double_mag((-i) as nat) as int)
    } else {
        double_mag(i as nat) as int
    }
}

/// The integer rounded to the nearest double (see `int_as_f64`).
fn round_to_double(i: i64) -> (r: i128)
    ensures
        r == int_as_f64(i as int),
        -0x1_0000_0000_0000_1000int <= r <= 0x1_0000_0000_0000_1000int,
{
    let neg = i < 0;
    let m: u64 = if neg { (-(i as i128)) as u64 } else { i as u64 };
    let mut p: u64 = 1;
    let mut fuel: u64 = 64;
    while fuel > 0 && (m as u128) >= 0x20_0000_0000_0000u128 * (p as u128)
        invariant
            1 <= p <= 4096,
            fuel <= 64,
            unit_from(m as nat, 1, 64) == unit_from(m as nat, p as nat, fuel as nat),
        decreases fuel,
    {
        p = p * 2;
        fuel = fuel - 1;
    }
    let q: u64 = m / p;
    let rem: u64 = m % p;
    let up = (rem as u128) * 2 > (p as u128) || ((rem as u128) * 2 == (p as u128) && q % 2 == 1);
    let q2: u128 = if up { q as u128 + 1 } else { q as u128 };
    proof {
        assert((m / p) * p <= m) by (nonlinear_arith)
            requires
                p >= 1,
        ;
        assert(q2 * p <= m + 4096) by (nonlinear_arith)
            requires
                q2 <= (m / p) + 1,
                (m / p) * p <= m,
                1 <= p <= 4096,
        ;
    }
    let mag: u128 = q2 * (p as u128);
    if neg {
        -(mag as i128)
    } else {
        mag as i128
    }
}

/// A decimal number `x`, held as `x * 10^18` (so exactly when `x` has at most 18
/// fractional digits and `|x * 10^18| <= i128::MAX`).
#[derive(Debug, Clone, Copy, PartialEq, Eq, Structural, Hash)]
pub struct Float(pub i128);

pub open spec fn pow10(n: nat) -> int
    decreases n,
{
    if n == 0 { 1 } else { 10 * pow10((n - 1) as nat) }
}

pub open spec fn is_digit(c: char) -> bool {
    '0' <= c && c <= '9'
}

pub open spec fn all_digits(s: Seq<char>) -> bool {
    forall|i: int| 0 <= i < s.len() ==> is_digit(#[trigger] s[i])
}

pub open spec fn digit_val(c: char) -> int {
    c as int - '0' as int
}

/// The number written by a sequence of decimal digits.
pub open spec fn digits_val(s: Seq<char>) -> int
    decreases s.len(),
{
    if s.len() == 0 { 0 } else { digits_val(s.drop_last()) * 10 + digit_val(s.last()) }
}

/// Splits off a leading `-` or `+`: whether the number is negative, and the rest.
pub open spec fn strip_sign(s: Seq<char>) -> (bool, Seq<char>) {
    if s.len() > 0 && s[0] == '-' {
        (true, s.drop_first())
    } else if s.len() > 0 && s[0] == '+' {
        (false, s.drop_first())
    } else {
        (false, s)
    }
}

pub open spec fn signed(neg: bool, v: int) -> int {
    if neg { -v } else { v }
}

/// The value, in 10^-18 units, of a decimal `[+-]digits[.digits]` with at least one digit
/// on each side of the point and at most 18 after it; `None` for any other text.
pub open spec fn decimal_units(s: Seq<char>) -> Option<int> {
    let (neg, body) = strip_sign(s);
    if body.len() > 0 && all_digits(body) {
        Some(signed(neg, digits_val(body) * pow10(18)))
    } else if exists|k: int| 0 <= k < body.len() && body[k] == '.' {
        let k = choose|k: int| 0 <= k < body.len() && body[k] == '.';
        let int_part = body.take(k);
        let frac = body.skip(k + 1);
        if int_part.len() > 0 && all_digits(int_part) && frac.len() > 0 && all_digits(frac)
            && frac.len() <= 18 {
            Some(signed(neg, digits_val(int_part + frac) * pow10((18 - frac.len()) as nat)))
        } else {
            None
        }
    } else {
        None
    }
}

/// The float that a decimal text stands for, where it can be held.
pub open spec fn decimal_float(s: Seq<char>) -> Option<Float> {
    match decimal_units(s) {
        Some(v) => if -(i128::MAX as int) <= v <= i128::MAX { Some(Float(v as i128)) } else { None },
        None => None,
    }
}

proof fn lemma_pow10_pos(n: nat)
    ensures
        pow10(n) >= 1,
    decreases n,
{
    if n > 0 {
        lemma_pow10_pos((n - 1) as nat);
    }
}

proof fn lemma_digits_val_nonneg(s: Seq<char>)
    requires
        all_digits(s),
    ensures
        digits_val(s) >= 0,
    decreases s.len(),
{
    if s.len() > 0 {
        assert(all_digits(s.drop_last()));
        assert(is_digit(s[s.len() - 1]));
        lemma_digits_val_nonneg(s.drop_last());
    }
}

/// Reads the digits of `d` as a number, `None` when it exceeds `i128::MAX`.
fn digits_value(d: &[char]) -> (r: Option<u128>)
    requires
        all_digits(d@),
    ensures
        match r {
            Some(v) => v == digits_val(d@) && v <= i128::MAX,
            None => digits_val(d@) > i128::MAX,
        },
{
    let mut acc: u128 = 0;
    let mut i: usize = 0;
    while i < d.len()
        invariant
            all_digits(d@),
            i <= d.len(),
            acc == digits_val(d@.take(i as int)),
            acc <= i128::MAX,
        decreases d.len() - i,
    {
        proof {
            assert(d@.take(i + 1).drop_last() == d@.take(i as int));
            assert(is_digit(d@[i as int]));
        }
        let dv = (d[i] as u32 - '0' as u32) as u128;
        if acc > (i128::MAX as u128 - dv) / 10 {
            proof {
                lemma_rest_grows(d@, (i + 1) as int);
            }
            return None;
        }
        acc = acc * 10 + dv;
        i = i + 1;
    }
    proof {
        assert(d@.take(d@.len() as int) == d@);
    }
    Some(acc)
}

proof fn lemma_all_digits_push(v: Seq<char>, c: char)
    ensures
        all_digits(v.push(c)) == (all_digits(v) && is_digit(c)),
{
    if all_digits(v) && is_digit(c) {
        assert forall|i: int| 0 <= i < v.push(c).len() implies is_digit(#[trigger] v.push(c)[i]) by {
            if i < v.len() {
                assert(is_digit(v[i]));
            }
        };
    }
    if all_digits(v.push(c)) {
        assert(is_digit(v.push(c)[v.len() as int]));
        assert forall|i: int| 0 <= i < v.len() implies is_digit(#[trigger] v[i]) by {
            assert(is_digit(v.push(c)[i]));
        };
    }
}

/// A longer digit prefix never reads as a smaller number.
proof fn lemma_rest_grows(d: Seq<char>, i: int)
    requires
        all_digits(d),
        0 <= i <= d.len(),
    ensures
        digits_val(d) >= digits_val(d.take(i)),
    decreases d.len() - i,
{
    if i < d.len() {
        lemma_rest_grows(d, i + 1);
        assert(d.take(i + 1).drop_last() == d.take(i));
        assert(is_digit(d[i]));
        assert(all_digits(d.take(i)));
        lemma_digits_val_nonneg(d.take(i));
    } else {
        assert(d.take(i) == d);
    }
}

impl Float {
    /// The float for a decimal text such as `-12.5` or `3`, when it has at most 18
    /// fractional digits and fits; `None` otherwise.
    pub fn from_decimal(s: &str) -> (r: Option<Float>)
        ensures
            r == decimal_float(s@),
    {
        let cs = chars_of(s);
        Float::from_decimal_chars(cs.as_slice())
    }

    /// `from_decimal` on a character slice.
    pub fn from_decimal_chars(s: &[char]) -> (r: Option<Float>)
        ensures
            r == decimal_float(s@),
    {
        let (neg, start) = if s.len() > 0 && s[0] == '-' {
            (true, 1usize)
        } else if s.len() > 0 && s[0] == '+' {
            (false, 1usize)
        } else {
            (false, 0usize)
        };
        let ghost body = strip_sign(s@).1;
        proof {
            assert(body == s@.skip(start as int));
        }
        // find the first point, checking that everything before it is a digit
        let mut k: usize = start;
        while k < s.len() && s[k] != '.'
            invariant
                start <= k <= s.len(),
                body == s@.skip(start as int),
                forall|j: int| start <= j < k ==> s@[j] != '.',
            decreases s.len() - k,
        {
            k = k + 1;
        }
        let ghost kk = (k - start) as int;
        let mut int_digits: Vec<char> = Vec::new();
        let mut all_d = true;
        let mut j: usize = start;
        while j < k
            invariant
                start <= j <= k <= s.len(),
                int_digits@ == s@.subrange(start as int, j as int),
                all_d == all_digits(int_digits@),
            decreases k - j,
        {
            let c = s[j];
            proof {
                lemma_all_digits_push(int_digits@, c);
            }
            all_d = all_d && '0' <= c && c <= '9';
            int_digits.push(c);
            proof {
                assert(int_digits@ == s@.subrange(start as int, j + 1));
            }
            j = j + 1;
        }
        proof {
            assert(int_digits@ == body.take(kk));
        }
        if k == s.len() {
            // no point
            proof {
                assert(int_digits@ == body);
                assert(!(exists|q: int| 0 <= q < body.len() && body[q] == '.'));
            }
            if int_digits.len() == 0 || !all_d {
                return None;
            }
            return Float::scale(neg, int_digits.as_slice(), 18);
        }
        proof {
            assert(body[kk] == '.');
            assert(!all_digits(body)) by {
                assert(!is_digit(body[kk]));
            };
        }
        let mut frac: Vec<char> = Vec::new();
        let mut frac_ok = true;
        let mut m: usize = k + 1;
        while m < s.len()
            invariant
                k < s.len(),
                k + 1 <= m <= s.len(),
                frac@ == s@.subrange(k + 1, m as int),
                frac_ok == all_digits(frac@),
            decreases s.len() - m,
        {
            let c = s[m];
            proof {
                lemma_all_digits_push(frac@, c);
            }
            frac_ok = frac_ok && '0' <= c && c <= '9';
            frac.push(c);
            proof {
                assert(frac@ == s@.subrange(k + 1, m + 1));
            }
            m = m + 1;
        }
        proof {
            assert(frac@ == body.skip(kk + 1));
            let kc = choose|q: int| 0 <= q < body.len() && body[q] == '.';
            assert(0 <= kc < body.len() && body[kc] == '.');
            if kc != kk {
                assert(kc > kk) by {
                    if kc < kk {
                        assert(s@[start + kc] != '.');
                    }
                };
                assert(!all_digits(frac@)) by {
                    assert(frac@[kc - kk - 1] == '.');
                };
                assert(!all_digits(body.take(kc))) by {
                    assert(body.take(kc)[kk] == '.');
                };
            }
        }
        if int_digits.len() == 0 || !all_d || frac.len() == 0 || !frac_ok || frac.len() > 18 {
            return None;
        }
        let mut all: Vec<char> = int_digits.clone();
        let mut t: usize = 0;
        while t < frac.len()
            invariant
                t <= frac.len(),
                all@ == int_digits@ + frac@.take(t as int),
            decreases frac.len() - t,
        {
            all.push(frac[t]);
            t = t + 1;
            proof {
                assert(all@ =~= int_digits@ + frac@.take(t as int));
            }
        }
        proof {
            assert(frac@.take(frac@.len() as int) == frac@);
            assert(all_digits(int_digits@ + frac@)) by {
                assert forall|q: int| 0 <= q < (int_digits@ + frac@).len() implies
                    is_digit(#[trigger] (int_digits@ + frac@)[q]) by {
                    if q < int_digits@.len() {
                        assert(is_digit(int_digits@[q]));
                    } else {
                        assert(is_digit(frac@[q - int_digits@.len()]));
                    }
                };
            };
        }
        Float::scale(neg, all.as_slice(), 18 - frac.len())
    }

    /// `sign * digits * 10^e`, when it fits.
    fn scale(neg: bool, d: &[char], e: usize) -> (r: Option<Float>)
        requires
            all_digits(d@),
            e <= 18,
        ensures
            r == (if -(i128::MAX as int) <= signed(neg, digits_val(d@) * pow10(e as nat))
                <= i128::MAX {
                Some(Float(signed(neg, digits_val(d@) * pow10(e as nat)) as i128))
            } else {
                None
            }),
    {
        proof {
            lemma_digits_val_nonneg(d@);
            lemma_pow10_pos(e as nat);
        }
        let v = match digits_value(d) {
            Some(v) => v,
            None => {
                proof {
                    assert(digits_val(d@) * pow10(e as nat) >= digits_val(d@)) by (nonlinear_arith)
                        requires
                            digits_val(d@) >= 0,
                            pow10(e as nat) >= 1,
                    ;
                }
                return None;
            },
        };
        let mut acc: u128 = v;
        let mut i: usize = 0;
        while i < e
            invariant
                i <= e,
                e <= 18,
                acc == v * pow10(i as nat),
                acc <= i128::MAX,
                v == digits_val(d@),
                v >= 0,
            decreases e - i,
        {
            proof {
                assert(pow10((i + 1) as nat) == 10 * pow10(i as nat));
                lemma_pow10_pos(i as nat);
            }
            if acc > i128::MAX as u128 / 10 {
                proof {
                    lemma_pow10_mono(i as nat, e as nat);
                    assert(v * pow10(e as nat) >= v * pow10(i as nat) * 10) by (nonlinear_arith)
                        requires
                            pow10(e as nat) >= pow10(i as nat) * 10,
                            v >= 0,
                    ;
                }
                return None;
            }
            proof {
                assert(v * pow10((i + 1) as nat) == v * pow10(i as nat) * 10) by (nonlinear_arith)
                    requires
                        pow10((i + 1) as nat) == 10 * pow10(i as nat),
                ;
            }
            acc = acc * 10;
            i = i + 1;
        }
        let a = acc as i128;
        if neg {
            Some(Float(-a))
        } else {
            Some(Float(a))
        }
    }

    /// The decimal with the value that `i as f64` gives: the integer rounded to the
    /// nearest double (see `int_as_f64`).
    pub fn from_int(i: i64) -> (r: Float)
        ensures
            r.0 == int_as_f64(i as int) * FLOAT_SCALE,
    {
        let v = round_to_double(i);
        proof {
            assert(v * FLOAT_SCALE <= i128::MAX && v * FLOAT_SCALE >= i128::MIN) by (nonlinear_arith)
                requires
                    -0x1_0000_0000_0000_1000int <= v <= 0x1_0000_0000_0000_1000int,
            ;
        }
        Float(v * FLOAT_SCALE)
    }

    /// The sum of two floats, `None` when it cannot be held.
    pub fn checked_add(self, other: Float) -> (r: Option<Float>)
        ensures
            r == (if i128::MIN <= self.0 + other.0 <= i128::MAX {
                Some(Float((self.0 + other.0) as i128))
            } else {
                None
            }),
    {
        match self.0.checked_add(other.0) {
            Some(v) => Some(Float(v)),
            None => None,
        }
    }
}

/// `i <= j` gives `10^j >= 10^i * 10` when `i < j`.
proof fn lemma_pow10_mono(i: nat, j: nat)
    requires
        i < j,
    ensures
        pow10(j) >= pow10(i) * 10,
    decreases j - i,
{
    lemma_pow10_pos(i);
    if j == i + 1 {
    } else {
        lemma_pow10_mono(i, (j - 1) as nat);
        lemma_pow10_pos((j - 1) as nat);
    }
}

pub open spec fn abs(x: int) -> int {
    if x < 0 { -x } else { x }
}

/// Whether two floats count as equal: they differ by less than 10^-6.
pub open spec fn float_close(a: Float, b: Float) -> bool {
    abs(a.0 - b.0) < FLOAT_TOLERANCE
}

/// Whether two floats differ by less than 10^-6.
pub fn float_eq(a: Float, b: Float) -> (r: bool)
    ensures
        r == float_close(a, b),
{
    if a.0 >= b.0 {
        match a.0.checked_sub(b.0) {
            Some(d) => d < FLOAT_TOLERANCE,
            None => false,
        }
    } else {
        match b.0.checked_sub(a.0) {
            Some(d) => d < FLOAT_TOLERANCE,
            None => false,
        }
    }
}

/// Equality up to 10^-6 does not depend on the order of the operands, and every decimal
/// equals itself.
pub proof fn law_float_close_symmetric(a: Float, b: Float)
    ensures
        float_close(a, b) == float_close(b, a),
        float_close(a, a),
{
}

} // verus!
