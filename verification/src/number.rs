//! Exact rational arithmetic and numeric-literal parsing.
//!
//! A numeric lexeme is a run of digits with at most one decimal point.
//! A valid literal is either `digits` or `digits.digits`; anything
//! else (a trailing or leading point, a second point) is a malformed
//! literal.  Literals parse to a [`Rational`] whose denominator is the
//! power of ten matching the fractional digits.  Arithmetic results
//! whose numerator or denominator would not fit a signed 64-bit word
//! are reported as overflow rather than silently wrapped.

use vstd::prelude::*;
use crate::ast::Rational;
use crate::scanner::is_digit;

verus! {

/// Whether a mathematical integer fits a signed 64-bit word.
pub open spec fn fits_i64(x: int) -> bool {
    i64::MIN <= x <= i64::MAX
}

/// The value of a digit string, most significant first.
pub open spec fn digits_val(s: Seq<char>) -> int
    decreases s.len(),
{
    if s.len() == 0 {
        0
    } else {
        10 * digits_val(s.drop_last()) + (s.last() as u32 - 48)
    }
}

/// Every character is a decimal digit.
pub open spec fn all_digits(s: Seq<char>) -> bool {
    forall|i: int| 0 <= i < s.len() ==> is_digit(#[trigger] s[i])
}

/// Ten to the `k`.
pub open spec fn pow10(k: nat) -> int
    decreases k,
{
    if k == 0 {
        1
    } else {
        10 * pow10((k - 1) as nat)
    }
}

/// Position of the first `.` at or after `i`, or the length if none.
pub open spec fn dot_position(s: Seq<char>, i: int) -> int
    decreases s.len() - i,
{
    if 0 <= i < s.len() {
        if s[i] == '.' {
            i
        } else {
            dot_position(s, i + 1)
        }
    } else {
        i
    }
}

/// The rational a numeric lexeme denotes, or `None` when the lexeme is
/// malformed or its value does not fit the representation.
pub open spec fn lexeme_number(s: Seq<char>) -> Option<Rational> {
    let d = dot_position(s, 0);
    if d == s.len() {
        if s.len() > 0 && all_digits(s) && fits_i64(digits_val(s)) {
            Some(Rational { num: digits_val(s) as i64, den: 1 })
        } else {
            None
        }
    } else {
        let ip = s.subrange(0, d);
        let fp = s.subrange(d + 1, s.len() as int);
        if ip.len() > 0 && fp.len() > 0 && all_digits(ip) && all_digits(fp) && fits_i64(
            digits_val(ip + fp),
        ) && fits_i64(pow10(fp.len())) {
            Some(Rational { num: digits_val(ip + fp) as i64, den: pow10(fp.len()) as i64 })
        } else {
            None
        }
    }
}

/// A digit string's value is never negative.
pub proof fn lemma_digits_nonneg(s: Seq<char>)
    requires
        all_digits(s),
    ensures
        digits_val(s) >= 0,
    decreases s.len(),
{
    if s.len() > 0 {
        assert(all_digits(s.drop_last()));
        lemma_digits_nonneg(s.drop_last());
    }
}

/// Powers of ten are positive and grow with the exponent.
pub proof fn lemma_pow10_pos(k: nat)
    ensures
        pow10(k) >= 1,
    decreases k,
{
    if k > 0 {
        lemma_pow10_pos((k - 1) as nat);
    }
}

/// A smaller exponent gives a power of ten no larger.
pub proof fn lemma_pow10_le(j: nat, k: nat)
    requires
        j <= k,
    ensures
        pow10(j) <= pow10(k),
    decreases k,
{
    if j < k {
        lemma_pow10_le(j, (k - 1) as nat);
        lemma_pow10_pos((k - 1) as nat);
    }
}

/// Parse the value of the digit characters of `s` in `from .. to`,
/// continuing from `acc`; report overflow past the 64-bit range.
#[verifier::loop_isolation(false)]
fn accumulate_digits(s: &Vec<char>, from: usize, to: usize, acc: i64) -> (r: Option<i64>)
    requires
        0 <= from <= to <= s@.len(),
        acc >= 0,
        forall|i: int| from <= i < to ==> is_digit(#[trigger] s@[i]),
    ensures
        ({
            let whole = digits_chain(acc as int, s@.subrange(from as int, to as int));
            match r {
                Some(v) => v == whole && fits_i64(whole),
                None => !fits_i64(whole),
            }
        }),
{
    let mut acc_now: i64 = acc;
    let mut i: usize = from;
    while i < to
        invariant
            from <= i <= to,
            acc_now >= 0,
            acc_now as int == digits_chain(acc as int, s@.subrange(from as int, i as int)),
        decreases to - i,
    {
        let d = (s[i] as u32 - 48) as i64;
        if acc_now > (i64::MAX - d) / 10 {
            proof {
                let done = s@.subrange(from as int, i + 1 as int);
                assert(done.drop_last() =~= s@.subrange(from as int, i as int));
                lemma_digits_chain_mono(acc as int, s@.subrange(from as int, to as int), i + 1 - from);
                assert(s@.subrange(from as int, to as int).take(i + 1 - from) =~= done);
            }
            return None;
        }
        proof {
            let done = s@.subrange(from as int, i + 1 as int);
            assert(done.drop_last() =~= s@.subrange(from as int, i as int));
        }
        acc_now = acc_now * 10 + d;
        i += 1;
    }
    proof {
        assert(s@.subrange(from as int, to as int) =~= s@.subrange(from as int, i as int));
    }
    Some(acc_now)
}

/// The value of digits appended after an already-accumulated value.
pub open spec fn digits_chain(acc: int, s: Seq<char>) -> int
    decreases s.len(),
{
    if s.len() == 0 {
        acc
    } else {
        10 * digits_chain(acc, s.drop_last()) + (s.last() as u32 - 48)
    }
}

/// Chained digit values only grow as more digits arrive.
pub proof fn lemma_digits_chain_mono(acc: int, s: Seq<char>, i: int)
    requires
        acc >= 0,
        all_digits(s),
        0 <= i <= s.len(),
    ensures
        digits_chain(acc, s.take(i)) <= digits_chain(acc, s),
        digits_chain(acc, s) >= acc,
    decreases s.len() - i,
{
    assert(all_digits(s.take(i)));
    lemma_digits_chain_nonneg(acc, s.take(i));
    if i < s.len() {
        assert(s.take(i + 1).drop_last() =~= s.take(i));
        lemma_digits_chain_mono(acc, s, i + 1);
    } else {
        assert(s.take(i) =~= s);
    }
}

/// A chained digit value stays at or above the start.
pub proof fn lemma_digits_chain_nonneg(acc: int, s: Seq<char>)
    requires
        acc >= 0,
        all_digits(s),
    ensures
        digits_chain(acc, s) >= acc,
    decreases s.len(),
{
    if s.len() > 0 {
        assert(all_digits(s.drop_last()));
        assert(is_digit(s.last()));
        lemma_digits_chain_nonneg(acc, s.drop_last());
    }
}

/// Chaining from zero is the digit string's own value.
pub proof fn lemma_digits_chain_zero(s: Seq<char>)
    ensures
        digits_chain(0, s) == digits_val(s),
    decreases s.len(),
{
    if s.len() > 0 {
        lemma_digits_chain_zero(s.drop_last());
    }
}

/// Chaining the fractional digits after the whole digits values the
/// concatenation.
pub proof fn lemma_digits_chain_concat(a: Seq<char>, b: Seq<char>)
    ensures
        digits_chain(digits_val(a), b) == digits_val(a + b),
    decreases b.len(),
{
    if b.len() == 0 {
        assert(a + b =~= a);
    } else {
        assert((a + b).drop_last() =~= a + b.drop_last());
        lemma_digits_chain_concat(a, b.drop_last());
    }
}

/// Parse a numeric lexeme into a rational, or report it malformed
/// (bad shape, or a value out of range).
#[verifier::loop_isolation(false)]
pub fn parse_number_lexeme(s: &Vec<char>) -> (r: Option<Rational>)
    ensures
        r == lexeme_number(s@),
        r is Some ==> r->0.wf(),
{
    let n = s.len();
    // locate the first decimal point
    let mut d: usize = 0;
    while d < n && s[d] != '.'
        invariant
            d <= n,
            n == s@.len(),
            dot_position(s@, 0) == dot_position(s@, d as int),
        decreases n - d,
    {
        d += 1;
    }
    // check that every other character is a digit, remembering the
    // first offender
    let mut k: usize = 0;
    let mut bad: Option<usize> = None;
    while k < n
        invariant
            k <= n,
            n == s@.len(),
            match bad {
                None => forall|i: int| 0 <= i < k && i != d ==> is_digit(#[trigger] s@[i]),
                Some(b) => b < n && b != d && !is_digit(s@[b as int]),
            },
        decreases n - k,
    {
        if k != d && bad.is_none() {
            let u = s[k] as u32;
            if !(48 <= u && u <= 57) {
                bad = Some(k);
            }
        }
        k += 1;
    }
    let digits_ok = bad.is_none();
    if d == n {
        // no decimal point: plain digit run
        if n == 0 || !digits_ok {
            proof {
                match bad {
                    Some(b) => {
                        assert(!is_digit(s@[b as int]));
                        assert(!all_digits(s@));
                    },
                    None => {},
                }
            }
            return None;
        }
        proof {
            lemma_digits_chain_zero(s@);
            assert(s@.subrange(0, n as int) =~= s@);
        }
        match accumulate_digits(s, 0, n, 0) {
            Some(v) => Some(Rational { num: v, den: 1 }),
            None => None,
        }
    } else {
        // digits, one point, digits; both sides must be non-empty
        if d == 0 || d + 1 == n || !digits_ok {
            proof {
                let sip = s@.subrange(0, d as int);
                let sfp = s@.subrange(d + 1 as int, n as int);
                match bad {
                    Some(b) => {
                        if b < d {
                            assert(sip[b as int] == s@[b as int]);
                            assert(!all_digits(sip));
                        } else {
                            assert(sfp[b - d - 1] == s@[b as int]);
                            assert(!all_digits(sfp));
                        }
                    },
                    None => {},
                }
            }
            return None;
        }
        let ghost ip = s@.subrange(0, d as int);
        let ghost fp = s@.subrange(d + 1 as int, n as int);
        proof {
            assert(all_digits(ip));
            assert(all_digits(fp));
            lemma_digits_chain_zero(ip);
            assert(s@.subrange(0, d as int) =~= ip);
        }
        let whole = match accumulate_digits(s, 0, d, 0) {
            Some(v) => v,
            None => {
                proof {
                    lemma_digits_nonneg(ip);
                    lemma_digits_concat_ge(ip, fp);
                }
                return None;
            },
        };
        proof {
            lemma_digits_nonneg(ip);
        }
        proof {
            lemma_digits_chain_concat(ip, fp);
            assert(s@.subrange(d + 1 as int, n as int) =~= fp);
        }
        let num = match accumulate_digits(s, d + 1, n, whole) {
            Some(v) => v,
            None => {
                return None;
            },
        };
        // denominator: ten to the number of fractional digits
        let mut den: i64 = 1;
        let mut j: usize = 0;
        let frac_len = n - (d + 1);
        while j < frac_len
            invariant
                j <= frac_len,
                den >= 1,
                den as int == pow10(j as nat),
            decreases frac_len - j,
        {
            if den > i64::MAX / 10 {
                proof {
                    lemma_pow10_le((j + 1) as nat, frac_len as nat);
                }
                return None;
            }
            den = den * 10;
            j += 1;
        }
        proof {
            assert(fp.len() == frac_len);
        }
        Some(Rational { num, den })
    }
}

/// A concatenation of digit strings is worth at least its prefix.
pub proof fn lemma_digits_concat_ge(a: Seq<char>, b: Seq<char>)
    requires
        all_digits(a),
        all_digits(b),
    ensures
        digits_val(a + b) >= digits_val(a),
{
    lemma_digits_nonneg(a);
    lemma_digits_chain_concat(a, b);
    lemma_digits_chain_nonneg(digits_val(a), b);
}

/// In the overflow checks each factor pairs a numerator with a
/// positive denominator, which keeps room for one more addition.
#[verifier::nonlinear]
proof fn lemma_num_den_bounds(x: int, y: int)
    requires
        i64::MIN <= x <= i64::MAX,
        1 <= y <= i64::MAX,
    ensures
        -0x3fff_ffff_ffff_ffff_8000_0000_0000_0000 <= x * y,
        x * y <= 0x3fff_ffff_ffff_ffff_8000_0000_0000_0000,
{
}

/// A lexeme's parsed rational is well-formed.
pub proof fn lemma_lexeme_number_wf(s: Seq<char>)
    ensures
        match lexeme_number(s) {
            Some(r) => r.wf(),
            None => true,
        },
{
    let d = dot_position(s, 0);
    if d != s.len() {
        let fp = s.subrange(d + 1, s.len() as int);
        lemma_pow10_pos(fp.len());
    }
}

/// Numerator and denominator of a sum, before the range check.
pub open spec fn add_parts(a: Rational, b: Rational) -> (int, int) {
    (a.num * b.den + b.num * a.den, a.den * b.den)
}

/// Numerator and denominator of a difference, before the range check.
pub open spec fn sub_parts(a: Rational, b: Rational) -> (int, int) {
    (a.num * b.den - b.num * a.den, a.den * b.den)
}

/// Numerator and denominator of a product, before the range check.
pub open spec fn mul_parts(a: Rational, b: Rational) -> (int, int) {
    (a.num * b.num, a.den * b.den)
}

/// Numerator and denominator of a quotient, before the range check;
/// the divisor's sign moves into the numerator so the denominator
/// stays positive.
pub open spec fn div_parts(a: Rational, b: Rational) -> (int, int) {
    if b.num >= 0 {
        (a.num * b.den, a.den * b.num)
    } else {
        (-(a.num * b.den), a.den * (-b.num))
    }
}

/// Products of 64-bit factors stay within the 128-bit range, with
/// room for one addition.
#[verifier::nonlinear]
proof fn lemma_i64_product_bounds(x: int, y: int)
    requires
        i64::MIN <= x <= i64::MAX,
        i64::MIN <= y <= i64::MAX,
    ensures
        -0x4000_0000_0000_0000_0000_0000_0000_0000 <= x * y,
        x * y <= 0x4000_0000_0000_0000_0000_0000_0000_0000,
{
}

/// A positive denominator times the magnitude of a negative divisor
/// stays positive and within the 128-bit range.
#[verifier::nonlinear]
proof fn lemma_den_negdivisor_bounds(x: int, y: int)
    requires
        1 <= x <= i64::MAX,
        1 <= y <= 0x8000_0000_0000_0000,
    ensures
        0 < x * y,
        x * y <= 0x4000_0000_0000_0000_0000_0000_0000_0000,
{
}

/// A product of positives is positive.
#[verifier::nonlinear]
proof fn lemma_pos_product(x: int, y: int)
    requires
        x > 0,
        y > 0,
    ensures
        x * y > 0,
{
}

/// Build the rational `parts` when both parts fit the representation,
/// else report overflow with `None`.
fn fit_parts(num_wide: i128, den_wide: i128) -> (r: Option<Rational>)
    requires
        den_wide > 0,
    ensures
        match r {
            Some(c) => {
                &&& c.wf()
                &&& c.num as int == num_wide as int
                &&& c.den as int == den_wide as int
                &&& fits_i64(num_wide as int)
                &&& fits_i64(den_wide as int)
            },
            None => !(fits_i64(num_wide as int) && fits_i64(den_wide as int)),
        },
{
    if num_wide < i64::MIN as i128 || num_wide > i64::MAX as i128 {
        return None;
    }
    if den_wide > i64::MAX as i128 {
        return None;
    }
    Some(Rational { num: num_wide as i64, den: den_wide as i64 })
}

/// Add two rationals; `None` reports overflow.
pub fn rat_add(a: Rational, b: Rational) -> (r: Option<Rational>)
    requires
        a.wf(),
        b.wf(),
    ensures
        match r {
            Some(c) => {
                &&& c.wf()
                &&& c.num as int == add_parts(a, b).0
                &&& c.den as int == add_parts(a, b).1
            },
            None => !(fits_i64(add_parts(a, b).0) && fits_i64(add_parts(a, b).1)),
        },
{
    proof {
        lemma_num_den_bounds(a.num as int, b.den as int);
        lemma_num_den_bounds(b.num as int, a.den as int);
        lemma_i64_product_bounds(a.den as int, b.den as int);
        lemma_pos_product(a.den as int, b.den as int);
    }
    let num = (a.num as i128) * (b.den as i128) + (b.num as i128) * (a.den as i128);
    let den = (a.den as i128) * (b.den as i128);
    fit_parts(num, den)
}

/// Subtract two rationals; `None` reports overflow.
pub fn rat_sub(a: Rational, b: Rational) -> (r: Option<Rational>)
    requires
        a.wf(),
        b.wf(),
    ensures
        match r {
            Some(c) => {
                &&& c.wf()
                &&& c.num as int == sub_parts(a, b).0
                &&& c.den as int == sub_parts(a, b).1
            },
            None => !(fits_i64(sub_parts(a, b).0) && fits_i64(sub_parts(a, b).1)),
        },
{
    proof {
        lemma_num_den_bounds(a.num as int, b.den as int);
        lemma_num_den_bounds(b.num as int, a.den as int);
        lemma_i64_product_bounds(a.den as int, b.den as int);
        lemma_pos_product(a.den as int, b.den as int);
    }
    let num = (a.num as i128) * (b.den as i128) - (b.num as i128) * (a.den as i128);
    let den = (a.den as i128) * (b.den as i128);
    fit_parts(num, den)
}

/// Multiply two rationals; `None` reports overflow.
pub fn rat_mul(a: Rational, b: Rational) -> (r: Option<Rational>)
    requires
        a.wf(),
        b.wf(),
    ensures
        match r {
            Some(c) => {
                &&& c.wf()
                &&& c.num as int == mul_parts(a, b).0
                &&& c.den as int == mul_parts(a, b).1
            },
            None => !(fits_i64(mul_parts(a, b).0) && fits_i64(mul_parts(a, b).1)),
        },
{
    proof {
        lemma_i64_product_bounds(a.num as int, b.num as int);
        lemma_i64_product_bounds(a.den as int, b.den as int);
        lemma_pos_product(a.den as int, b.den as int);
    }
    let num = (a.num as i128) * (b.num as i128);
    let den = (a.den as i128) * (b.den as i128);
    fit_parts(num, den)
}

/// Divide two rationals; the caller rules out a zero divisor; `None`
/// reports overflow.
pub fn rat_div(a: Rational, b: Rational) -> (r: Option<Rational>)
    requires
        a.wf(),
        b.wf(),
        b.num != 0,
    ensures
        match r {
            Some(c) => {
                &&& c.wf()
                &&& c.num as int == div_parts(a, b).0
                &&& c.den as int == div_parts(a, b).1
            },
            None => !(fits_i64(div_parts(a, b).0) && fits_i64(div_parts(a, b).1)),
        },
{
    proof {
        lemma_i64_product_bounds(a.num as int, b.den as int);
        lemma_i64_product_bounds(a.den as int, b.num as int);
        if b.num > 0 {
            lemma_pos_product(a.den as int, b.num as int);
        } else {
            lemma_pos_product(a.den as int, -(b.num as int));
        }
    }
    if b.num >= 0 {
        let num = (a.num as i128) * (b.den as i128);
        let den = (a.den as i128) * (b.num as i128);
        fit_parts(num, den)
    } else {
        proof {
            lemma_den_negdivisor_bounds(a.den as int, -(b.num as int));
            assert((a.den as int) * (-(b.num as int)) == -((a.den as int) * (b.num as int)))
                by (nonlinear_arith);
        }
        let num = -((a.num as i128) * (b.den as i128));
        let den = (a.den as i128) * (-(b.num as i128));
        fit_parts(num, den)
    }
}

/// Whether two rationals denote the same number.
pub fn rat_same(a: Rational, b: Rational) -> (r: bool)
    requires
        a.wf(),
        b.wf(),
    ensures
        r == a.same_value(b),
{
    proof {
        lemma_i64_product_bounds(a.num as int, b.den as int);
        lemma_i64_product_bounds(b.num as int, a.den as int);
    }
    (a.num as i128) * (b.den as i128) == (b.num as i128) * (a.den as i128)
}

} // verus!
