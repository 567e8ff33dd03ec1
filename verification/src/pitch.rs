use vstd::prelude::*;

use crate::cents::{cents_str, push_cents, spec_parse_decimal};
use crate::digits::{dec_str, push_dec_u128, spec_parse_u128};
use crate::errors::{IntError, ParsePitchError};
use crate::ratio::{reduce_ratio, spec_reduce};
use crate::scan::{find_char, find_first};
use vstd::slice::slice_subrange;
use vstd::string::{StrSliceExecFns, StringExecFns};

verus! {

/// One scale step: a cents offset in fixed-point units (100000 units to
/// the cent, five decimal places), or an exact frequency ratio of
/// unsigned integers.
#[derive(Debug, Clone, Copy, PartialEq, Eq, Structural)]
pub enum Pitch {
    /// A cents offset, in hundred-thousandths of a cent.
    Cents(i128),
    /// A frequency ratio: numerator and denominator.
    Ratio(u128, u128),
}

/// A pitch the format can carry: a ratio's denominator is nonzero, and a
/// cents value has a magnitude of at most `i128::MAX` units.
pub open spec fn pitch_wf(p: Pitch) -> bool {
    match p {
        Pitch::Cents(v) => v > i128::MIN,
        Pitch::Ratio(n, d) => d != 0,
    }
}

/// Numerical equivalence of pitches: cents values equal exactly, ratios
/// equal as rational numbers (cross-products agree). The two kinds never
/// coincide.
pub open spec fn pitch_equiv(p: Pitch, q: Pitch) -> bool {
    match (p, q) {
        (Pitch::Cents(a), Pitch::Cents(b)) => a == b,
        (Pitch::Ratio(n1, d1), Pitch::Ratio(n2, d2)) => (n1 as int) * (d2 as int) == (n2 as int)
            * (d1 as int),
        _ => false,
    }
}

/// `s` with every space character removed (other whitespace stays).
pub open spec fn remove_spaces(s: Seq<char>) -> Seq<char>
    decreases s.len(),
{
    if s.len() == 0 {
        s
    } else if s[0] == ' ' {
        remove_spaces(s.skip(1))
    } else {
        seq![s[0]] + remove_spaces(s.skip(1))
    }
}

/// The word that a cents value may carry as a unit suffix.
pub open spec fn cents_word() -> Seq<char> {
    seq!['c', 'e', 'n', 't', 's']
}

/// `s` with the occurrences of the word `cents` removed, scanning left to
/// right without revisiting (as `str::replace` does).
pub open spec fn strip_cents_word(s: Seq<char>) -> Seq<char>
    decreases s.len(),
{
    if s.len() >= 5 && s.take(5) == cents_word() {
        strip_cents_word(s.skip(5))
    } else if s.len() == 0 {
        s
    } else {
        seq![s[0]] + strip_cents_word(s.skip(1))
    }
}

/// One pitch line, comment already removed. Spaces are insignificant.
/// A `.` anywhere makes it a cents value (an optional `cents` suffix is
/// dropped); otherwise a `/` makes it a ratio of two unsigned integers,
/// put into lowest terms; otherwise it is a bare integer over one.
/// A ratio's denominator must not be zero.
pub open spec fn spec_parse_pitch(s: Seq<char>) -> Result<Pitch, ParsePitchError> {
    let t = remove_spaces(s);
    if find_first(t, '.') != -1 {
        let u = strip_cents_word(t);
        match spec_parse_decimal(u) {
            Ok(v) => Ok(Pitch::Cents(v)),
            Err(e) => Err(ParsePitchError::ParseFloat(e)),
        }
    } else if find_first(t, '/') != -1 {
        let j = find_first(t, '/');
        match spec_parse_u128(t.take(j)) {
            Ok(n) => match spec_parse_u128(t.skip(j + 1)) {
                Ok(d) => if d == 0 {
                    Err(ParsePitchError::ParseInt(IntError::Zero))
                } else {
                    Ok(Pitch::Ratio(spec_reduce(n, d).0, spec_reduce(n, d).1))
                },
                Err(e) => Err(ParsePitchError::ParseInt(e)),
            },
            Err(e) => Err(ParsePitchError::ParseInt(e)),
        }
    } else {
        match spec_parse_u128(t) {
            Ok(n) => Ok(Pitch::Ratio(n, 1)),
            Err(e) => Err(ParsePitchError::ParseInt(e)),
        }
    }
}

/// The text of a pitch: a cents value with five decimal places, or
/// `numerator/denominator` as stored.
pub open spec fn pitch_str(p: Pitch) -> Seq<char> {
    match p {
        Pitch::Cents(v) => cents_str(v),
        Pitch::Ratio(n, d) => dec_str(n as nat) + seq!['/'] + dec_str(d as nat),
    }
}

/// Removes every space character from `s`.
pub fn remove_spaces_chars(s: &[char]) -> (out: Vec<char>)
    ensures
        out@ == remove_spaces(s@),
{
    let n = s.len();
    let mut out: Vec<char> = Vec::new();
    let mut i: usize = 0;
    proof {
        assert(s@.skip(0) =~= s@);
    }
    while i < n
        invariant
            0 <= i <= n,
            n == s@.len(),
            remove_spaces(s@) == out@ + remove_spaces(s@.skip(i as int)),
        decreases n - i,
    {
        let ghost pre = s@.skip(i as int);
        proof {
            assert(pre.len() > 0);
            assert(pre[0] == s@[i as int]);
            assert(pre.skip(1) =~= s@.skip(i + 1));
        }
        let c = s[i];
        if c != ' ' {
            out.push(c);
            proof {
                assert(remove_spaces(pre) == seq![c] + remove_spaces(s@.skip(i + 1)));
                assert(out@ + remove_spaces(s@.skip(i + 1)) =~= remove_spaces(s@));
            }
        } else {
            proof {
                assert(remove_spaces(pre) == remove_spaces(s@.skip(i + 1)));
            }
        }
        i = i + 1;
    }
    proof {
        assert(s@.skip(n as int).len() == 0);
        assert(out@ + remove_spaces(s@.skip(n as int)) =~= out@);
    }
    out
}

/// Removes the occurrences of the word `cents`, scanning left to right.
pub fn strip_cents_chars(s: &[char]) -> (out: Vec<char>)
    ensures
        out@ == strip_cents_word(s@),
{
    let n = s.len();
    let mut out: Vec<char> = Vec::new();
    let mut i: usize = 0;
    proof {
        assert(s@.skip(0) =~= s@);
    }
    while i < n
        invariant
            0 <= i <= n,
            n == s@.len(),
            strip_cents_word(s@) == out@ + strip_cents_word(s@.skip(i as int)),
        decreases n - i,
    {
        let ghost pre = s@.skip(i as int);
        proof {
            assert(pre.len() > 0);
            assert(forall|k: int| 0 <= k < pre.len() ==> pre[k] == s@[i + k]);
        }
        let word_here = n - i >= 5 && s[i] == 'c' && s[i + 1] == 'e' && s[i + 2] == 'n' && s[i + 3]
            == 't' && s[i + 4] == 's';
        if word_here {
            proof {
                assert(pre.take(5) =~= cents_word());
                assert(pre.skip(5) =~= s@.skip(i + 5));
                assert(strip_cents_word(pre) == strip_cents_word(s@.skip(i + 5)));
            }
            i = i + 5;
        } else {
            proof {
                if pre.len() >= 5 && pre.take(5) == cents_word() {
                    assert(pre.take(5)[0] == 'c' && pre.take(5)[1] == 'e' && pre.take(5)[2] == 'n'
                        && pre.take(5)[3] == 't' && pre.take(5)[4] == 's');
                    assert(false);
                }
                assert(pre.skip(1) =~= s@.skip(i + 1));
                assert(strip_cents_word(pre) == seq![pre[0]] + strip_cents_word(s@.skip(i + 1)));
            }
            let c = s[i];
            out.push(c);
            proof {
                assert(out@ + strip_cents_word(s@.skip(i + 1)) =~= strip_cents_word(s@));
            }
            i = i + 1;
        }
    }
    proof {
        assert(s@.skip(n as int).len() == 0);
        assert(out@ + strip_cents_word(s@.skip(n as int)) =~= out@);
    }
    out
}

impl Pitch {
    /// Parses one pitch line (comment already removed), as
    /// `spec_parse_pitch` says.
    pub fn parse(s: &str) -> (r: Result<Pitch, ParsePitchError>)
        ensures
            r == spec_parse_pitch(s@),
    {
        let chars = crate::scan::str_to_chars(s);
        Pitch::parse_chars(chars.as_slice())
    }

    /// Parses one pitch line given as characters.
    pub fn parse_chars(s: &[char]) -> (r: Result<Pitch, ParsePitchError>)
        ensures
            r == spec_parse_pitch(s@),
    {
        let t = remove_spaces_chars(s);
        let ts = t.as_slice();
        let m = ts.len();
        if find_char(ts, '.').is_some() {
            let u = strip_cents_chars(ts);
            match crate::cents::parse_decimal_chars(u.as_slice()) {
                Ok(v) => Ok(Pitch::Cents(v)),
                Err(e) => Err(ParsePitchError::ParseFloat(e)),
            }
        } else {
            match find_char(ts, '/') {
                Some(j) => {
                    let numer = slice_subrange(ts, 0, j);
                    let denom = slice_subrange(ts, j + 1, m);
                    proof {
                        assert(numer@ =~= ts@.take(j as int));
                        assert(denom@ =~= ts@.skip(j + 1));
                    }
                    match crate::digits::parse_u128_chars(numer) {
                        Ok(n) => match crate::digits::parse_u128_chars(denom) {
                            Ok(d) => if d == 0 {
                                Err(ParsePitchError::ParseInt(IntError::Zero))
                            } else {
                                let r = reduce_ratio(n, d);
                                Ok(Pitch::Ratio(r.0, r.1))
                            },
                            Err(e) => Err(ParsePitchError::ParseInt(e)),
                        },
                        Err(e) => Err(ParsePitchError::ParseInt(e)),
                    }
                },
                None => match crate::digits::parse_u128_chars(ts) {
                    Ok(n) => Ok(Pitch::Ratio(n, 1)),
                    Err(e) => Err(ParsePitchError::ParseInt(e)),
                },
            }
        }
    }

    /// Appends this pitch's text to `out`.
    pub fn push_text(&self, out: &mut String)
        ensures
            final(out)@ == old(out)@ + pitch_str(*self),
    {
        proof {
            reveal_strlit("/");
        }
        match self {
            Pitch::Cents(v) => {
                push_cents(out, *v);
            },
            Pitch::Ratio(n, d) => {
                push_dec_u128(out, *n);
                out.append("/");
                push_dec_u128(out, *d);
                proof {
                    assert(final(out)@ =~= old(out)@ + pitch_str(*self));
                }
            },
        }
    }

    /// The text of this pitch: a cents value to five decimal places, or
    /// `numerator/denominator`.
    pub fn format(&self) -> (r: String)
        ensures
            r@ == pitch_str(*self),
    {
        let mut out = String::new();
        self.push_text(&mut out);
        proof {
            assert(Seq::<char>::empty() + pitch_str(*self) =~= pitch_str(*self));
        }
        out
    }
}

impl core::str::FromStr for Pitch {
    type Err = ParsePitchError;

    fn from_str(s: &str) -> (r: Result<Pitch, ParsePitchError>) {
        Pitch::parse(s)
    }
}

} // verus!
