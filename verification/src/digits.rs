use vstd::prelude::*;

use crate::errors::IntError;

verus! {

/// A decimal digit character.
pub open spec fn is_digit_char(c: char) -> bool {
    '0' <= c && c <= '9'
}

/// The numeric value of a digit character.
pub open spec fn digit_val(c: char) -> nat {
    (c as int - '0' as int) as nat
}

/// Every character of `s` is a decimal digit.
pub open spec fn all_digits(s: Seq<char>) -> bool {
    forall|i: int| 0 <= i < s.len() ==> is_digit_char(#[trigger] s[i])
}

/// The value of a digit string, most significant digit first.
pub open spec fn digits_val(s: Seq<char>) -> nat
    decreases s.len(),
{
    if s.len() == 0 {
        0
    } else {
        digits_val(s.drop_last()) * 10 + digit_val(s.last())
    }
}

/// The digit character for a value below ten.
pub open spec fn digit_char(d: nat) -> char {
    if d == 0 {
        '0'
    } else if d == 1 {
        '1'
    } else if d == 2 {
        '2'
    } else if d == 3 {
        '3'
    } else if d == 4 {
        '4'
    } else if d == 5 {
        '5'
    } else if d == 6 {
        '6'
    } else if d == 7 {
        '7'
    } else if d == 8 {
        '8'
    } else {
        '9'
    }
}

/// The decimal rendering of `n`, without sign or leading zeros
/// (`0` renders as `"0"`).
pub open spec fn dec_str(n: nat) -> Seq<char>
    decreases n,
{
    if n < 10 {
        seq![digit_char(n)]
    } else {
        dec_str(n / 10).push(digit_char(n % 10))
    }
}

/// The digit text after an optional leading `+` sign.
pub open spec fn uint_body(s: Seq<char>) -> Seq<char> {
    if s.len() > 0 && s[0] == '+' {
        s.skip(1)
    } else {
        s
    }
}

/// Unsigned-integer text, as `u128::from_str` accepts it: an optional
/// leading `+`, then at least one decimal digit, valued below 2^128.
pub open spec fn spec_parse_u128(s: Seq<char>) -> Result<u128, IntError> {
    let b = uint_body(s);
    if b.len() == 0 {
        if s.len() == 0 {
            Err(IntError::Empty)
        } else {
            Err(IntError::InvalidDigit)
        }
    } else if !all_digits(b) {
        Err(IntError::InvalidDigit)
    } else if digits_val(b) > u128::MAX {
        Err(IntError::Overflow)
    } else {
        Ok(digits_val(b) as u128)
    }
}

/// A digit character carries its digit back.
pub proof fn lemma_digit_char_val(d: nat)
    requires
        d < 10,
    ensures
        digit_val(digit_char(d)) == d,
        is_digit_char(digit_char(d)),
{
}

/// Extending a digit string by one digit multiplies its value by ten.
pub proof fn lemma_digits_val_push(s: Seq<char>, c: char)
    ensures
        digits_val(s.push(c)) == digits_val(s) * 10 + digit_val(c),
{
    assert(s.push(c).drop_last() =~= s);
    assert(s.push(c).last() == c);
}

/// The value of a digit string grows (weakly) with each digit taken.
pub proof fn lemma_digits_val_prefix(s: Seq<char>, i: int)
    requires
        0 <= i <= s.len(),
    ensures
        digits_val(s.take(i)) <= digits_val(s),
    decreases s.len() - i,
{
    if i < s.len() {
        lemma_digits_val_prefix(s, i + 1);
        let t = s.take(i + 1);
        assert(t.drop_last() =~= s.take(i));
        assert(digits_val(s.take(i + 1)) == digits_val(s.take(i)) * 10 + digit_val(t.last()));
    } else {
        assert(s.take(i) =~= s);
    }
}

/// Parses digit characters as a `u128`, as `u128::from_str` does, except
/// that a non-digit character is reported even where the digits before it
/// already overflow.
pub fn parse_u128_chars(s: &[char]) -> (r: Result<u128, IntError>)
    ensures
        r == spec_parse_u128(s@),
{
    let n = s.len();
    let start: usize = if n > 0 && s[0] == '+' {
        1
    } else {
        0
    };
    let ghost b = uint_body(s@);
    proof {
        assert(b =~= s@.skip(start as int));
    }
    if start == n {
        if n == 0 {
            return Err(IntError::Empty);
        } else {
            return Err(IntError::InvalidDigit);
        }
    }
    let mut i: usize = start;
    while i < n
        invariant
            start <= i <= n,
            n == s@.len(),
            b == s@.skip(start as int),
            b == uint_body(s@),
            forall|j: int| start <= j < i ==> is_digit_char(#[trigger] s@[j]),
        decreases n - i,
    {
        let c = s[i];
        if !(c >= '0' && c <= '9') {
            proof {
                assert(b.len() == n - start);
                assert(b[i - start] == s@[i as int]);
                assert(!is_digit_char(b[i - start]));
                assert(!all_digits(b));
            }
            return Err(IntError::InvalidDigit);
        }
        i = i + 1;
    }
    assert(all_digits(b));
    let mut acc: u128 = 0;
    let mut i: usize = start;
    while i < n
        invariant
            start <= i <= n,
            n == s@.len(),
            b == s@.skip(start as int),
            b == uint_body(s@),
            all_digits(b),
            acc == digits_val(b.take(i - start)),
        decreases n - i,
    {
        let c = s[i];
        assert(is_digit_char(b[i - start]));
        let d: u128 = (c as u32 - '0' as u32) as u128;
        let stepped = match acc.checked_mul(10) {
            Some(t) => t.checked_add(d),
            None => None,
        };
        proof {
            assert(b[i - start] == s@[i as int]);
            assert(d == digit_val(b[i - start]));
            lemma_digits_val_push(b.take(i - start), b[i - start]);
            assert(b.take(i - start).push(b[i - start]) =~= b.take(i - start + 1));
            assert(digits_val(b.take(i - start + 1)) == acc * 10 + digit_val(b[i - start]));
        }
        match stepped {
            Some(t) => {
                acc = t;
            },
            None => {
                proof {
                    assert(acc * 10 + digit_val(b[i - start]) > u128::MAX);
                    lemma_digits_val_prefix(b, i - start + 1);
                    assert(digits_val(b) > u128::MAX);
                }
                return Err(IntError::Overflow);
            },
        }
        i = i + 1;
    }
    proof {
        assert(b.take(n - start) =~= b);
    }
    Ok(acc)
}


/// Every character of a decimal rendering is a digit, its value is the
/// rendered number, and it is never empty.
pub proof fn lemma_dec_str_digits(n: nat)
    ensures
        all_digits(dec_str(n)),
        digits_val(dec_str(n)) == n,
        dec_str(n).len() >= 1,
    decreases n,
{
    if n < 10 {
        let s = dec_str(n);
        assert(s == seq![digit_char(n)]);
        assert(s.drop_last() =~= Seq::<char>::empty());
        assert(digits_val(Seq::<char>::empty()) == 0);
        assert(s.last() == digit_char(n));
        assert(digits_val(s) == digit_val(digit_char(n)));
        assert(digit_val(digit_char(n)) == n);
    } else {
        lemma_dec_str_digits(n / 10);
        lemma_digits_val_push(dec_str(n / 10), digit_char(n % 10));
        assert(digit_val(digit_char(n % 10)) == n % 10);
        assert(digits_val(dec_str(n)) == (n / 10) * 10 + n % 10);
        assert((n / 10) * 10 + n % 10 == n) by (nonlinear_arith);
        assert forall|i: int| 0 <= i < dec_str(n).len() implies is_digit_char(
            #[trigger] dec_str(n)[i],
        ) by {
            if i < dec_str(n).len() - 1 {
                assert(dec_str(n)[i] == dec_str(n / 10)[i]);
            } else {
                assert(dec_str(n)[i] == digit_char(n % 10));
            }
        }
    }
}

/// Parsing the decimal rendering of `n` yields `n` back.
pub proof fn lemma_parse_dec_str(n: nat)
    requires
        n <= u128::MAX,
    ensures
        spec_parse_u128(dec_str(n)) == Ok::<u128, IntError>(n as u128),
{
    lemma_dec_str_digits(n);
    assert(is_digit_char(dec_str(n)[0]));
    assert(dec_str(n)[0] != '+');
    assert(uint_body(dec_str(n)) == dec_str(n));
}

/// The one-character string for a digit value below ten.
pub fn digit_str(d: u8) -> (r: &'static str)
    requires
        d < 10,
    ensures
        r@ == seq![digit_char(d as nat)],
{
    proof {
        reveal_strlit("0");
        reveal_strlit("1");
        reveal_strlit("2");
        reveal_strlit("3");
        reveal_strlit("4");
        reveal_strlit("5");
        reveal_strlit("6");
        reveal_strlit("7");
        reveal_strlit("8");
        reveal_strlit("9");
    }
    let r = if d == 0 {
        "0"
    } else if d == 1 {
        "1"
    } else if d == 2 {
        "2"
    } else if d == 3 {
        "3"
    } else if d == 4 {
        "4"
    } else if d == 5 {
        "5"
    } else if d == 6 {
        "6"
    } else if d == 7 {
        "7"
    } else if d == 8 {
        "8"
    } else {
        "9"
    };
    proof {
        assert(r@ =~= seq![digit_char(d as nat)]);
    }
    r
}

/// Appends the decimal rendering of `n` to `out`.
pub fn push_dec_u128(out: &mut String, n: u128)
    ensures
        final(out)@ == old(out)@ + dec_str(n as nat),
    decreases n,
{
    if n >= 10 {
        push_dec_u128(out, n / 10);
    }
    let d: u8 = (n % 10) as u8;
    out.append(digit_str(d));
    proof {
        if n >= 10 {
            assert(final(out)@ =~= old(out)@ + dec_str(n as nat));
        } else {
            assert(final(out)@ =~= old(out)@ + dec_str(n as nat));
        }
    }
}


/// The value of a run of digit characters, `None` where it passes
/// `u128::MAX`.
pub fn digits_value_u128(s: &[char]) -> (r: Option<u128>)
    requires
        all_digits(s@),
    ensures
        match r {
            Some(v) => v == digits_val(s@),
            None => digits_val(s@) > u128::MAX,
        },
{
    let n = s.len();
    let mut acc: u128 = 0;
    let mut i: usize = 0;
    while i < n
        invariant
            0 <= i <= n,
            n == s@.len(),
            all_digits(s@),
            acc == digits_val(s@.take(i as int)),
        decreases n - i,
    {
        let c = s[i];
        assert(is_digit_char(s@[i as int]));
        let d: u128 = (c as u32 - '0' as u32) as u128;
        let stepped = match acc.checked_mul(10) {
            Some(t) => t.checked_add(d),
            None => None,
        };
        proof {
            assert(d == digit_val(s@[i as int]));
            lemma_digits_val_push(s@.take(i as int), s@[i as int]);
            assert(s@.take(i as int).push(s@[i as int]) =~= s@.take(i + 1));
            assert(digits_val(s@.take(i + 1)) == acc * 10 + digit_val(s@[i as int]));
        }
        match stepped {
            Some(t) => {
                acc = t;
            },
            None => {
                proof {
                    lemma_digits_val_prefix(s@, i + 1);
                }
                return None;
            },
        }
        i = i + 1;
    }
    proof {
        assert(s@.take(n as int) =~= s@);
    }
    Some(acc)
}

/// A digit string of at most five places stays below one hundred thousand.
pub proof fn lemma_digits_val_small(s: Seq<char>)
    requires
        s.len() <= 5,
        all_digits(s),
    ensures
        s.len() == 0 ==> digits_val(s) < 1,
        s.len() == 1 ==> digits_val(s) < 10,
        s.len() == 2 ==> digits_val(s) < 100,
        s.len() == 3 ==> digits_val(s) < 1000,
        s.len() == 4 ==> digits_val(s) < 10000,
        s.len() == 5 ==> digits_val(s) < 100000,
    decreases s.len(),
{
    if s.len() > 0 {
        lemma_digits_val_small(s.drop_last());
        assert(digit_val(s.last()) <= 9);
    }
}

} // verus!
