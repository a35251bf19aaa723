//! Fixed-point fractions in the unit interval.
//!
//! Confidences and normalized bounding-box coordinates are decimal values in
//! `[0, 1]`. The library stores such a value as an integer numerator over
//! [`FRAC_SCALE`], so that all later arithmetic is exact integer arithmetic.
//! [`parse_unit_frac`] turns a decimal digit string such as `0.5` into that
//! representation; fractional digits past the sixth are truncated.

use vstd::prelude::*;
use vstd::string::StrSliceExecFns;

verus! {

/// Scale of the fixed-point fractions: a numerator `n` stands for `n / FRAC_SCALE`.
pub const FRAC_SCALE: u32 = 1000000;

/// Number of fractional decimal digits that [`FRAC_SCALE`] can represent.
pub const FRAC_DIGITS: u32 = 6;

/// A numerator lies in the unit interval when it is at most the scale.
pub open spec fn is_unit_frac(n: u32) -> bool {
    n <= FRAC_SCALE
}

/// Whether `c` is a decimal digit.
pub open spec fn is_dec_digit(c: char) -> bool {
    48 <= c as u32 && c as u32 <= 57
}

/// Numeric value of a decimal digit.
pub open spec fn digit_val(c: char) -> int {
    c as u32 - 48
}

/// Whether every character of `s` is a decimal digit.
pub open spec fn all_digits(s: Seq<char>) -> bool {
    forall|i: int| 0 <= i < s.len() ==> is_dec_digit(#[trigger] s[i])
}

/// Value of a digit string read in base ten.
pub open spec fn digits_val(s: Seq<char>) -> int
    decreases s.len(),
{
    if s.len() == 0 {
        0
    } else {
        digits_val(s.drop_last()) * 10 + digit_val(s.last())
    }
}

/// Ten to the power `n`.
pub open spec fn pow10(n: nat) -> int
    decreases n,
{
    if n == 0 {
        1
    } else {
        10 * pow10((n - 1) as nat)
    }
}

/// Index of the first `'.'` in `s`, or `s.len()` if there is none.
pub open spec fn dot_pos(s: Seq<char>) -> int
    decreases s.len(),
{
    if s.len() == 0 {
        0
    } else if s[0] == '.' {
        0
    } else {
        1 + dot_pos(s.skip(1))
    }
}

/// The digits before the first dot.
pub open spec fn int_part(s: Seq<char>) -> Seq<char> {
    s.take(dot_pos(s))
}

/// The characters after the first dot, or empty if there is no dot.
pub open spec fn frac_part(s: Seq<char>) -> Seq<char> {
    if dot_pos(s) < s.len() {
        s.skip(dot_pos(s) + 1)
    } else {
        Seq::<char>::empty()
    }
}

/// A decimal string: digits with at most one dot, and at least one digit.
pub open spec fn is_decimal_str(s: Seq<char>) -> bool {
    &&& all_digits(int_part(s))
    &&& all_digits(frac_part(s))
    &&& int_part(s).len() + frac_part(s).len() >= 1
}

/// Value of the fractional digits scaled to six places; digits past the
/// sixth are truncated.
pub open spec fn frac_val6(d: Seq<char>) -> int {
    if d.len() >= FRAC_DIGITS {
        digits_val(d.take(FRAC_DIGITS as int))
    } else {
        digits_val(d) * pow10((FRAC_DIGITS - d.len()) as nat)
    }
}

/// Value of a decimal string in units of `1 / FRAC_SCALE`.
pub open spec fn decimal_val(s: Seq<char>) -> int {
    digits_val(int_part(s)) * (FRAC_SCALE as int) + frac_val6(frac_part(s))
}

/// What parsing a unit-interval fraction yields: the scaled value for a
/// decimal string whose value is at most one, and nothing otherwise.
pub open spec fn spec_parse_unit(s: Seq<char>) -> Option<u32> {
    if is_decimal_str(s) && decimal_val(s) <= FRAC_SCALE as int {
        Some(decimal_val(s) as u32)
    } else {
        None
    }
}

pub proof fn lemma_pow10_pos(n: nat)
    ensures
        pow10(n) >= 1,
    decreases n,
{
    if n > 0 {
        lemma_pow10_pos((n - 1) as nat);
    }
}

pub proof fn lemma_pow10_adds(a: nat, b: nat)
    ensures
        pow10(a + b) == pow10(a) * pow10(b),
    decreases a,
{
    if a == 0 {
        assert(pow10(0 + b) == 1 * pow10(b));
    } else {
        lemma_pow10_adds((a - 1) as nat, b);
        assert(pow10(a + b) == 10 * pow10(((a + b) - 1) as nat));
        assert(pow10(a) * pow10(b) == 10 * (pow10((a - 1) as nat) * pow10(b))) by {
            assert(pow10(a) == 10 * pow10((a - 1) as nat));
            assert((10 * pow10((a - 1) as nat)) * pow10(b) == 10 * (pow10((a - 1) as nat)
                * pow10(b))) by (nonlinear_arith);
        }
    }
}

pub proof fn lemma_digits_val_nonneg(s: Seq<char>)
    requires
        all_digits(s),
    ensures
        digits_val(s) >= 0,
    decreases s.len(),
{
    if s.len() > 0 {
        assert(all_digits(s.drop_last()));
        lemma_digits_val_nonneg(s.drop_last());
    }
}

pub proof fn lemma_digits_val_bound(s: Seq<char>)
    requires
        all_digits(s),
    ensures
        digits_val(s) < pow10(s.len()),
    decreases s.len(),
{
    if s.len() > 0 {
        assert(all_digits(s.drop_last()));
        lemma_digits_val_bound(s.drop_last());
        lemma_pow10_pos((s.len() - 1) as nat);
        assert(digit_val(s.last()) <= 9);
        assert(digits_val(s.drop_last()) <= pow10((s.len() - 1) as nat) - 1);
        assert(pow10(s.len()) == 10 * pow10((s.len() - 1) as nat));
    }
}

pub proof fn lemma_digits_val_prefix(s: Seq<char>, k: int)
    requires
        all_digits(s),
        0 <= k <= s.len(),
    ensures
        digits_val(s.take(k)) <= digits_val(s),
    decreases s.len() - k,
{
    if k == s.len() {
        assert(s.take(k) =~= s);
    } else {
        assert(all_digits(s.drop_last()));
        assert(s.drop_last().take(k) =~= s.take(k));
        lemma_digits_val_prefix(s.drop_last(), k);
        lemma_digits_val_nonneg(s.drop_last());
        assert(digits_val(s) == digits_val(s.drop_last()) * 10 + digit_val(s.last()));
        assert(digits_val(s.drop_last()) * 10 >= digits_val(s.drop_last())) by (nonlinear_arith)
            requires
                digits_val(s.drop_last()) >= 0,
        ;
    }
}

pub proof fn lemma_dot_pos_bounds(s: Seq<char>)
    ensures
        0 <= dot_pos(s) <= s.len(),
        dot_pos(s) < s.len() ==> s[dot_pos(s)] == '.',
        forall|i: int| 0 <= i < dot_pos(s) ==> #[trigger] s[i] != '.',
    decreases s.len(),
{
    if s.len() > 0 && s[0] != '.' {
        lemma_dot_pos_bounds(s.skip(1));
        assert forall|i: int| 0 <= i < dot_pos(s) implies #[trigger] s[i] != '.' by {
            if i > 0 {
                assert(s.skip(1)[i - 1] == s[i]);
            }
        }
        if dot_pos(s) < s.len() {
            assert(s.skip(1)[dot_pos(s) - 1] == s[dot_pos(s)]);
        }
    }
}

pub proof fn lemma_dot_pos_from_scan(s: Seq<char>, k: int)
    requires
        0 <= k <= s.len(),
        k < s.len() ==> s[k] == '.',
        forall|i: int| 0 <= i < k ==> #[trigger] s[i] != '.',
    ensures
        dot_pos(s) == k,
    decreases s.len(),
{
    if s.len() == 0 {
    } else if s[0] == '.' {
        assert(k == 0);
    } else {
        assert(k > 0);
        assert forall|i: int| 0 <= i < k - 1 implies #[trigger] s.skip(1)[i] != '.' by {
            assert(s.skip(1)[i] == s[i + 1]);
        }
        if k - 1 < s.skip(1).len() {
            assert(s.skip(1)[k - 1] == s[k]);
        }
        lemma_dot_pos_from_scan(s.skip(1), k - 1);
    }
}

/// Ten to the power `k`, for small `k`.
fn pow10_u64(k: u64) -> (r: u64)
    requires
        k <= FRAC_DIGITS,
    ensures
        r as int == pow10(k as nat),
{
    proof {
        reveal_with_fuel(pow10, 7);
    }
    if k == 0 {
        1
    } else if k == 1 {
        10
    } else if k == 2 {
        100
    } else if k == 3 {
        1000
    } else if k == 4 {
        10000
    } else if k == 5 {
        100000
    } else {
        1000000
    }
}

/// Parses a decimal digit string in `[0, 1]` into a numerator over
/// [`FRAC_SCALE`]; yields nothing for a malformed or out-of-range string.
pub fn parse_unit_frac(s: &str) -> (r: Option<u32>)
    ensures
        r == spec_parse_unit(s@),
        r is Some ==> is_unit_frac(r->0),
{
    let n = s.unicode_len();
    let mut i: usize = 0;
    let mut dot_idx: usize = n;
    let mut valid: bool = true;
    while i < n
        invariant
            n == s@.len(),
            0 <= i <= n,
            dot_idx <= n,
            dot_idx < n ==> dot_idx < i && s@[dot_idx as int] == '.',
            forall|j: int| 0 <= j < i && j < dot_idx ==> #[trigger] s@[j] != '.',
            dot_idx == n ==> forall|j: int| 0 <= j < i ==> #[trigger] s@[j] != '.',
            valid <==> (forall|j: int| 0 <= j < i && j != dot_idx ==> is_dec_digit(
                #[trigger] s@[j],
            )),
        decreases n - i,
    {
        let c = s.get_char(i);
        if c == '.' {
            if dot_idx < n {
                valid = false;
            } else {
                dot_idx = i;
            }
        } else {
            let u = c as u32;
            if !(48 <= u && u <= 57) {
                valid = false;
            }
        }
        i = i + 1;
    }
    proof {
        if dot_idx < n {
            lemma_dot_pos_from_scan(s@, dot_idx as int);
        } else {
            lemma_dot_pos_from_scan(s@, n as int);
        }
    }
    let ilen: usize = dot_idx;
    let flen: usize = if dot_idx < n {
        n - dot_idx - 1
    } else {
        0
    };
    proof {
        assert(int_part(s@) =~= s@.take(ilen as int));
        if dot_idx < n {
            assert(frac_part(s@) =~= s@.skip(dot_idx + 1));
        }
        assert(int_part(s@).len() == ilen);
        assert(frac_part(s@).len() == flen);
    }
    if !valid {
        proof {
            let j = choose|j: int| 0 <= j < n && j != dot_idx && !is_dec_digit(s@[j]);
            if j < dot_idx {
                assert(int_part(s@)[j] == s@[j]);
                assert(!all_digits(int_part(s@)));
            } else {
                assert(frac_part(s@)[j - dot_idx - 1] == s@[j]);
                assert(!all_digits(frac_part(s@)));
            }
        }
        return None;
    }
    if ilen == 0 && flen == 0 {
        return None;
    }
    proof {
        assert forall|j: int| 0 <= j < int_part(s@).len() implies is_dec_digit(
            #[trigger] int_part(s@)[j],
        ) by {
            assert(int_part(s@)[j] == s@[j]);
        }
        assert forall|j: int| 0 <= j < frac_part(s@).len() implies is_dec_digit(
            #[trigger] frac_part(s@)[j],
        ) by {
            assert(frac_part(s@)[j] == s@[j + dot_idx + 1]);
        }
        assert(is_decimal_str(s@));
    }
    // Integer part.
    let mut acc: u64 = 0;
    let mut j: usize = 0;
    while j < ilen
        invariant
            n == s@.len(),
            ilen <= n,
            ilen as int <= dot_pos(s@),
            0 <= j <= ilen,
            all_digits(int_part(s@)),
            all_digits(frac_part(s@)),
            is_decimal_str(s@),
            int_part(s@) == s@.take(ilen as int),
            acc as int == digits_val(s@.take(j as int)),
            acc <= FRAC_SCALE,
        decreases ilen - j,
    {
        let c = s.get_char(j);
        proof {
            assert(int_part(s@)[j as int] == s@[j as int]);
        }
        let d = (c as u32 - 48) as u64;
        acc = acc * 10 + d;
        proof {
            assert(s@.take(j + 1).drop_last() =~= s@.take(j as int));
            assert(s@.take(j + 1).last() == s@[j as int]);
            assert(digits_val(s@.take(j + 1)) == digits_val(s@.take(j as int)) * 10 + digit_val(
                s@[j as int],
            ));
        }
        j = j + 1;
        if acc > FRAC_SCALE as u64 {
            proof {
                assert(s@.take(ilen as int).take(j as int) =~= s@.take(j as int));
                lemma_digits_val_prefix(int_part(s@), j as int);
                assert(digits_val(int_part(s@)) > FRAC_SCALE);
                lemma_digits_val_nonneg(frac_part(s@));
                if frac_part(s@).len() < FRAC_DIGITS {
                    lemma_pow10_pos((FRAC_DIGITS - frac_part(s@).len()) as nat);
                    assert(digits_val(frac_part(s@)) * pow10(
                        (FRAC_DIGITS - frac_part(s@).len()) as nat,
                    ) >= 0) by (nonlinear_arith)
                        requires
                            digits_val(frac_part(s@)) >= 0,
                            pow10((FRAC_DIGITS - frac_part(s@).len()) as nat) >= 0,
                    ;
                } else {
                    assert(frac_part(s@).take(FRAC_DIGITS as int) =~= frac_part(s@).take(
                        FRAC_DIGITS as int,
                    ));
                    assert(all_digits(frac_part(s@).take(FRAC_DIGITS as int)));
                    lemma_digits_val_nonneg(frac_part(s@).take(FRAC_DIGITS as int));
                }
                assert(frac_val6(frac_part(s@)) >= 0);
                assert(digits_val(int_part(s@)) * (FRAC_SCALE as int) > FRAC_SCALE as int) by (
                nonlinear_arith)
                    requires
                        digits_val(int_part(s@)) > FRAC_SCALE as int,
                ;
                assert(decimal_val(s@) > FRAC_SCALE as int);
            }
            return None;
        }
    }
    proof {
        assert(s@.take(ilen as int) =~= s@.take(j as int));
        assert(acc as int == digits_val(int_part(s@)));
    }
    // Fractional part, truncated to six digits.
    let fstart: usize = if dot_idx < n {
        dot_idx + 1
    } else {
        n
    };
    let cap: usize = if flen < FRAC_DIGITS as usize {
        flen
    } else {
        FRAC_DIGITS as usize
    };
    let mut facc: u64 = 0;
    let mut m: usize = 0;
    while m < cap
        invariant
            n == s@.len(),
            cap <= FRAC_DIGITS,
            fstart + flen == n,
            cap <= flen,
            frac_part(s@).len() == flen,
            all_digits(frac_part(s@)),
            forall|q: int| 0 <= q < flen ==> frac_part(s@)[q] == s@[fstart + q],
            0 <= m <= cap,
            facc as int == digits_val(frac_part(s@).take(m as int)),
            (facc as int) < pow10(m as nat),
        decreases cap - m,
    {
        let c = s.get_char(fstart + m);
        proof {
            assert(frac_part(s@)[m as int] == s@[(fstart + m) as int]);
        }
        let d = (c as u32 - 48) as u64;
        proof {
            lemma_pow10_pos(m as nat);
            lemma_pow10_adds(m as nat, (FRAC_DIGITS - m) as nat);
            lemma_pow10_pos((FRAC_DIGITS - m) as nat);
            assert(pow10(m as nat) <= pow10(FRAC_DIGITS as nat)) by (nonlinear_arith)
                requires
                    pow10(FRAC_DIGITS as nat) == pow10(m as nat) * pow10((FRAC_DIGITS - m) as nat),
                    pow10(m as nat) >= 1,
                    pow10((FRAC_DIGITS - m) as nat) >= 1,
            ;
            reveal_with_fuel(pow10, 7);
            assert(pow10(FRAC_DIGITS as nat) == FRAC_SCALE as int);
            assert(frac_part(s@).take(m + 1).drop_last() =~= frac_part(s@).take(m as int));
            assert(frac_part(s@).take(m + 1).last() == frac_part(s@)[m as int]);
            assert(pow10((m + 1) as nat) == 10 * pow10(m as nat));
        }
        facc = facc * 10 + d;
        m = m + 1;
    }
    let mult = pow10_u64((FRAC_DIGITS as usize - cap) as u64);
    proof {
        lemma_pow10_adds(cap as nat, (FRAC_DIGITS - cap) as nat);
        lemma_pow10_pos((FRAC_DIGITS - cap) as nat);
        assert((facc as int) * (mult as int) < pow10(cap as nat) * pow10(
            (FRAC_DIGITS - cap) as nat,
        )) by (nonlinear_arith)
            requires
                (facc as int) < pow10(cap as nat),
                facc >= 0,
                mult as int == pow10((FRAC_DIGITS - cap) as nat),
                pow10((FRAC_DIGITS - cap) as nat) >= 1,
        ;
        reveal_with_fuel(pow10, 7);
        assert(pow10(FRAC_DIGITS as nat) == FRAC_SCALE as int);
    }
    let fval: u64 = facc * mult;
    proof {
        if flen >= FRAC_DIGITS as usize {
            assert(cap == FRAC_DIGITS);
            assert(mult == 1);
            assert(frac_val6(frac_part(s@)) == facc as int);
        } else {
            assert(cap == flen);
            assert(frac_part(s@).take(cap as int) =~= frac_part(s@));
            assert(frac_val6(frac_part(s@)) == facc as int * mult as int);
        }
        assert(fval as int == frac_val6(frac_part(s@)));
        assert(fval < FRAC_SCALE as u64);
    }
    let value: u64 = acc * 1000000 + fval;
    proof {
        assert(value as int == decimal_val(s@));
    }
    if value > FRAC_SCALE as u64 {
        None
    } else {
        Some(value as u32)
    }
}

} // verus!
