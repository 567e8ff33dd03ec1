use vstd::prelude::*;

use crate::digits::{
    all_digits, dec_str, digit_char, digit_str, digit_val, digits_val, digits_value_u128,
    is_digit_char, lemma_dec_str_digits, lemma_digit_char_val, lemma_digits_val_push,
    lemma_digits_val_small, push_dec_u128,
};
use crate::errors::FloatError;
use crate::scan::{all_digits_chars, find_char, find_first, lemma_find_first_is};
use vstd::slice::slice_subrange;
use vstd::string::StringExecFns;

verus! {

/// The digit text after an optional leading sign.
pub open spec fn signed_body(s: Seq<char>) -> Seq<char> {
    if s.len() > 0 && (s[0] == '-' || s[0] == '+') {
        s.skip(1)
    } else {
        s
    }
}

/// The text denotes a negative value.
pub open spec fn is_neg(s: Seq<char>) -> bool {
    s.len() > 0 && s[0] == '-'
}

/// The digits before the first `.` of the body (all of it when no `.`
/// occurs).
pub open spec fn int_digits(b: Seq<char>) -> Seq<char> {
    let j = find_first(b, '.');
    if j == -1 {
        b
    } else {
        b.take(j)
    }
}

/// The digits after the first `.` of the body (none when no `.` occurs).
pub open spec fn frac_digits(b: Seq<char>) -> Seq<char> {
    let j = find_first(b, '.');
    if j == -1 {
        Seq::<char>::empty()
    } else {
        b.skip(j + 1)
    }
}

/// A plain decimal number: an optional sign, then digits with at most one
/// point among them, at least one digit in all. Exponent and non-finite
/// forms are not part of this format.
pub open spec fn valid_decimal(s: Seq<char>) -> bool {
    let b = signed_body(s);
    &&& all_digits(int_digits(b))
    &&& all_digits(frac_digits(b))
    &&& int_digits(b).len() + frac_digits(b).len() > 0
}

/// Ten to a power of at most five.
pub open spec fn pow10_small(k: nat) -> nat {
    if k == 0 {
        1
    } else if k == 1 {
        10
    } else if k == 2 {
        100
    } else if k == 3 {
        1000
    } else if k == 4 {
        10000
    } else {
        100000
    }
}

/// The fractional digits as fixed-point units: the first five places,
/// rounded half away from zero on the sixth digit.
pub open spec fn frac_micro(f: Seq<char>) -> nat {
    let k: nat = if f.len() < 5 {
        f.len()
    } else {
        5
    };
    let base = digits_val(f.take(k as int)) * pow10_small((5 - k) as nat);
    if f.len() > 5 && digit_val(f[5]) >= 5 {
        base + 1
    } else {
        base
    }
}

/// The magnitude, in fixed-point units, of a valid decimal text.
pub open spec fn decimal_magnitude(s: Seq<char>) -> nat {
    let b = signed_body(s);
    digits_val(int_digits(b)) * 100000 + frac_micro(frac_digits(b))
}

/// Decimal (cents) text as a fixed-point unit count, rounded to five
/// places; a value whose magnitude passes `i128::MAX` is out of range.
pub open spec fn spec_parse_decimal(s: Seq<char>) -> Result<i128, FloatError> {
    if !valid_decimal(s) {
        Err(FloatError::Invalid)
    } else if decimal_magnitude(s) > i128::MAX {
        Err(FloatError::OutOfRange)
    } else if is_neg(s) {
        Ok((-(decimal_magnitude(s) as int)) as i128)
    } else {
        Ok(decimal_magnitude(s) as i128)
    }
}

/// Parses decimal (cents) text into fixed-point units.
#[verifier::rlimit(60)]
pub fn parse_decimal_chars(s: &[char]) -> (r: Result<i128, FloatError>)
    ensures
        r == spec_parse_decimal(s@),
{
    let n = s.len();
    let neg = n > 0 && s[0] == '-';
    let start: usize = if n > 0 && (s[0] == '-' || s[0] == '+') {
        1
    } else {
        0
    };
    let body = slice_subrange(s, start, n);
    proof {
        assert(body@ =~= signed_body(s@));
        assert(neg == is_neg(s@));
    }
    let m = body.len();
    let (ip, fp) = match find_char(body, '.') {
        Some(j) => (slice_subrange(body, 0, j), slice_subrange(body, j + 1, m)),
        None => (body, slice_subrange(body, m, m)),
    };
    proof {
        assert(ip@ =~= int_digits(body@));
        assert(fp@ =~= frac_digits(body@));
    }
    if !all_digits_chars(ip) || !all_digits_chars(fp) {
        return Err(FloatError::Invalid);
    }
    if ip.len() == 0 && fp.len() == 0 {
        return Err(FloatError::Invalid);
    }
    let int_val = match digits_value_u128(ip) {
        Some(v) => v,
        None => {
            proof {
                assert(digits_val(ip@) * 100000 >= digits_val(ip@) * 1) by (nonlinear_arith);
            }
            return Err(FloatError::OutOfRange);
        },
    };
    let scaled = match int_val.checked_mul(100000) {
        Some(v) => v,
        None => {
            return Err(FloatError::OutOfRange);
        },
    };
    let k: usize = if fp.len() < 5 {
        fp.len()
    } else {
        5
    };
    let head = slice_subrange(fp, 0, k);
    let head_val = match digits_value_u128(head) {
        Some(v) => v,
        None => {
            proof {
                lemma_digits_val_small(head@);
            }
            assert(false);
            return Err(FloatError::OutOfRange);
        },
    };
    proof {
        lemma_digits_val_small(head@);
        assert(head@ =~= frac_digits(body@).take(k as int));
    }
    let pow: u128 = if k == 0 {
        100000
    } else if k == 1 {
        10000
    } else if k == 2 {
        1000
    } else if k == 3 {
        100
    } else if k == 4 {
        10
    } else {
        1
    };
    assert(pow == pow10_small((5 - k) as nat));
    let round_up = fp.len() > 5 && fp[5] >= '5';
    proof {
        if fp.len() > 5 {
            assert(is_digit_char(fp@[5]));
            assert(round_up == (digit_val(fp@[5]) >= 5));
        }
    }
    proof {
        assert(head_val * pow <= 99999 * 100000) by (nonlinear_arith)
            requires
                head_val <= 99999,
                pow <= 100000,
        ;
    }
    let frac_val: u128 = head_val * pow + if round_up {
        1
    } else {
        0
    };
    proof {
        assert(frac_val == frac_micro(frac_digits(body@)));
    }
    let mag = match scaled.checked_add(frac_val) {
        Some(v) => v,
        None => {
            return Err(FloatError::OutOfRange);
        },
    };
    proof {
        assert(mag == decimal_magnitude(s@));
    }
    if mag > (i128::MAX as u128) {
        return Err(FloatError::OutOfRange);
    }
    if neg {
        Ok(-(mag as i128))
    } else {
        Ok(mag as i128)
    }
}

/// The five fractional digits of a fixed-point remainder below 100000.
pub open spec fn frac5_str(r: nat) -> Seq<char> {
    seq![
        digit_char(r / 10000 % 10),
        digit_char(r / 1000 % 10),
        digit_char(r / 100 % 10),
        digit_char(r / 10 % 10),
        digit_char(r % 10),
    ]
}

/// The magnitude of a fixed-point value.
pub open spec fn abs_micro(v: i128) -> nat {
    if v >= 0 {
        v as nat
    } else {
        (-(v as int)) as nat
    }
}

/// The text of a fixed-point cents value: an optional minus sign, the
/// integer part, a point, then exactly five fractional digits.
pub open spec fn cents_str(v: i128) -> Seq<char> {
    let mag = abs_micro(v);
    let body = dec_str(mag / 100000) + seq!['.'] + frac5_str(mag % 100000);
    if v < 0 {
        seq!['-'] + body
    } else {
        body
    }
}

/// Appends the text of a fixed-point cents value to `out`.
pub fn push_cents(out: &mut String, v: i128)
    ensures
        final(out)@ == old(out)@ + cents_str(v),
{
    proof {
        reveal_strlit("-");
        reveal_strlit(".");
    }
    if v < 0 {
        out.append("-");
    }
    let mag: u128 = if v >= 0 {
        v as u128
    } else {
        ((-(v + 1)) as u128) + 1
    };
    proof {
        assert(mag == abs_micro(v));
    }
    push_dec_u128(out, mag / 100000);
    out.append(".");
    let rem: u128 = mag % 100000;
    out.append(digit_str(((rem / 10000) % 10) as u8));
    out.append(digit_str(((rem / 1000) % 10) as u8));
    out.append(digit_str(((rem / 100) % 10) as u8));
    out.append(digit_str(((rem / 10) % 10) as u8));
    out.append(digit_str((rem % 10) as u8));
    proof {
        assert(final(out)@ =~= old(out)@ + cents_str(v));
    }
}


/// Recomposing a value below 100000 from its five decimal places.
proof fn lemma_dec5_recompose(r: nat)
    requires
        r < 100000,
    ensures
        ((((r / 10000 % 10) * 10 + r / 1000 % 10) * 10 + r / 100 % 10) * 10 + r / 10 % 10) * 10 + r
            % 10 == r,
{
    vstd::arithmetic::div_mod::lemma_fundamental_div_mod(r as int, 10);
    vstd::arithmetic::div_mod::lemma_fundamental_div_mod(r as int / 10, 10);
    vstd::arithmetic::div_mod::lemma_fundamental_div_mod(r as int / 100, 10);
    vstd::arithmetic::div_mod::lemma_fundamental_div_mod(r as int / 1000, 10);
    vstd::arithmetic::div_mod::lemma_div_denominator(r as int, 10, 10);
    vstd::arithmetic::div_mod::lemma_div_denominator(r as int, 100, 10);
    vstd::arithmetic::div_mod::lemma_div_denominator(r as int, 1000, 10);
    vstd::arithmetic::div_mod::lemma_div_is_ordered(r as int, 99999, 10000);
    assert(99999int / 10000 == 9);
    assert(r / 10000 % 10 == r / 10000);
}

/// The value of five pushed digit characters.
#[verifier::rlimit(60)]
proof fn lemma_digits_val_five(d4: nat, d3: nat, d2: nat, d1: nat, d0: nat)
    requires
        d4 < 10,
        d3 < 10,
        d2 < 10,
        d1 < 10,
        d0 < 10,
    ensures
        digits_val(
            seq![digit_char(d4), digit_char(d3), digit_char(d2), digit_char(d1), digit_char(d0)],
        ) == (((d4 * 10 + d3) * 10 + d2) * 10 + d1) * 10 + d0,
{
    lemma_digit_char_val(d4);
    lemma_digit_char_val(d3);
    lemma_digit_char_val(d2);
    lemma_digit_char_val(d1);
    lemma_digit_char_val(d0);
    let s1 = seq![digit_char(d4)];
    let s2 = seq![digit_char(d4), digit_char(d3)];
    let s3 = seq![digit_char(d4), digit_char(d3), digit_char(d2)];
    let s4 = seq![digit_char(d4), digit_char(d3), digit_char(d2), digit_char(d1)];
    let s5 = seq![digit_char(d4), digit_char(d3), digit_char(d2), digit_char(d1), digit_char(d0)];
    assert(s1 =~= Seq::<char>::empty().push(digit_char(d4)));
    assert(s2 =~= s1.push(digit_char(d3)));
    assert(s3 =~= s2.push(digit_char(d2)));
    assert(s4 =~= s3.push(digit_char(d1)));
    assert(s5 =~= s4.push(digit_char(d0)));
    lemma_digits_val_push(Seq::<char>::empty(), digit_char(d4));
    lemma_digits_val_push(s1, digit_char(d3));
    lemma_digits_val_push(s2, digit_char(d2));
    lemma_digits_val_push(s3, digit_char(d1));
    lemma_digits_val_push(s4, digit_char(d0));
    assert(digits_val(Seq::<char>::empty()) == 0);
}

/// The five-digit rendering of a remainder below 100000 is made of digits
/// and carries exactly its value.
pub proof fn lemma_frac5_val(r: nat)
    requires
        r < 100000,
    ensures
        all_digits(frac5_str(r)),
        digits_val(frac5_str(r)) == r,
        frac5_str(r).len() == 5,
{
    let s = frac5_str(r);
    assert(is_digit_char(s[0]));
    assert(is_digit_char(s[1]));
    assert(is_digit_char(s[2]));
    assert(is_digit_char(s[3]));
    assert(is_digit_char(s[4]));
    lemma_digits_val_five(r / 10000 % 10, r / 1000 % 10, r / 100 % 10, r / 10 % 10, r % 10);
    lemma_dec5_recompose(r);
}


/// Parsing the text of a fixed-point cents value yields the value back.
pub proof fn lemma_cents_round_trip(v: i128)
    requires
        v > i128::MIN,
    ensures
        spec_parse_decimal(cents_str(v)) == Ok::<i128, FloatError>(v),
{
    let mag = abs_micro(v);
    let ipd = dec_str((mag / 100000) as nat);
    let fpd = frac5_str(mag % 100000);
    let body = ipd + seq!['.'] + fpd;
    let s = cents_str(v);
    lemma_dec_str_digits((mag / 100000) as nat);
    lemma_frac5_val(mag % 100000);
    if v < 0 {
        assert(s == seq!['-'] + body);
        assert(s[0] == '-');
        assert(signed_body(s) =~= body);
        assert(is_neg(s));
    } else {
        assert(s == body);
        assert(is_digit_char(s[0]));
        assert(signed_body(s) =~= body);
        assert(!is_neg(s));
    }
    let j = ipd.len() as int;
    assert(body[j] == '.');
    assert forall|k: int| 0 <= k < j implies body[k] != '.' by {
        assert(body[k] == ipd[k]);
        assert(is_digit_char(ipd[k]));
    }
    lemma_find_first_is(body, '.', j);
    assert(int_digits(body) =~= ipd);
    assert(frac_digits(body) =~= fpd);
    assert(valid_decimal(s));
    assert(fpd.len() == 5);
    assert(fpd.take(5) =~= fpd);
    assert(frac_micro(fpd) == digits_val(fpd) * pow10_small(0));
    assert(frac_micro(fpd) == mag % 100000);
    vstd::arithmetic::div_mod::lemma_fundamental_div_mod(mag as int, 100000);
    assert(decimal_magnitude(s) == mag);
    assert(mag <= i128::MAX);
}

} // verus!
