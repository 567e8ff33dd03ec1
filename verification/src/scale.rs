use vstd::prelude::*;

use crate::digits::{dec_str, push_dec_u128, spec_parse_u128};
use crate::errors::{pitch_error_to_scale_error, IntError, ParseScaleError};
use crate::pitch::{spec_parse_pitch, Pitch};
use crate::scan::{find_char, find_first, str_to_chars};
use vstd::slice::slice_subrange;
use vstd::string::{StrSliceExecFns, StringExecFns};

verus! {

/// A named, ordered list of pitches: one complete tuning.
#[derive(Debug, Clone, PartialEq)]
pub struct Scale {
    /// The description line, kept verbatim.
    pub name: String,
    /// The scale steps, in ascending order of degree.
    pub pitches: Vec<Pitch>,
}

/// A character with the Unicode `White_Space` property, as
/// `char::is_whitespace` reports it.
pub open spec fn is_ws_char(c: char) -> bool {
    ||| c == ' '
    ||| ('\u{9}' <= c && c <= '\u{D}')
    ||| c == '\u{85}'
    ||| c == '\u{A0}'
    ||| c == '\u{1680}'
    ||| ('\u{2000}' <= c && c <= '\u{200A}')
    ||| c == '\u{2028}'
    ||| c == '\u{2029}'
    ||| c == '\u{202F}'
    ||| c == '\u{205F}'
    ||| c == '\u{3000}'
}

/// `s` with every whitespace character removed.
pub open spec fn remove_ws(s: Seq<char>) -> Seq<char>
    decreases s.len(),
{
    if s.len() == 0 {
        s
    } else if is_ws_char(s[0]) {
        remove_ws(s.skip(1))
    } else {
        seq![s[0]] + remove_ws(s.skip(1))
    }
}

/// A line up to its comment: everything from the first `!` on is dropped.
pub open spec fn strip_comment(line: Seq<char>) -> Seq<char> {
    let j = find_first(line, '!');
    if j == -1 {
        line
    } else {
        line.take(j)
    }
}

/// The declared note count: an unsigned integer that fits the platform's
/// word.
pub open spec fn spec_parse_count(s: Seq<char>) -> Result<usize, IntError> {
    match spec_parse_u128(s) {
        Ok(v) => if v <= usize::MAX {
            Ok(v as usize)
        } else {
            Err(IntError::Overflow)
        },
        Err(e) => Err(e),
    }
}

/// What a finished scan yields: the description and pitches where all
/// three closing checks pass, the first failing check's error otherwise.
pub open spec fn finish_scan(
    name: Option<Seq<char>>,
    count: Option<usize>,
    pitches: Seq<Pitch>,
) -> Result<(Seq<char>, Seq<Pitch>), ParseScaleError> {
    match name {
        None => Err(ParseScaleError::MissingDescription),
        Some(nm) => match count {
            None => Err(ParseScaleError::MissingNoteCount),
            Some(c) => if pitches.len() == c {
                Ok((nm, pitches))
            } else {
                Err(ParseScaleError::WrongPitchCount(pitches.len() as usize))
            },
        },
    }
}

/// Scans the remaining text line by line. Comments are dropped at the
/// first `!`; empty results are skipped; the first data line is the
/// description, the second (whitespace removed) the note count, and each
/// later one (whitespace removed) a pitch. Checks on what was gathered
/// run only at the end of the text.
pub open spec fn scan_text(
    s: Seq<char>,
    name: Option<Seq<char>>,
    count: Option<usize>,
    pitches: Seq<Pitch>,
) -> Result<(Seq<char>, Seq<Pitch>), ParseScaleError>
    decreases s.len(),
{
    if s.len() == 0 {
        finish_scan(name, count, pitches)
    } else {
        let j = find_first(s, '\n');
        let rawline = if j == -1 {
            s
        } else {
            s.take(j)
        };
        let line = if j != -1 && rawline.len() > 0 && rawline.last() == '\r' {
            rawline.drop_last()
        } else {
            rawline
        };
        let rest = if j < 0 || j >= s.len() {
            Seq::<char>::empty()
        } else {
            s.skip(j + 1)
        };
        let c = strip_comment(line);
        if c.len() == 0 {
            scan_text(rest, name, count, pitches)
        } else if name is None {
            scan_text(rest, Some(c), count, pitches)
        } else if count is None {
            match spec_parse_count(remove_ws(c)) {
                Ok(k) => scan_text(rest, name, Some(k), pitches),
                Err(e) => Err(ParseScaleError::ParseInt(e)),
            }
        } else {
            match spec_parse_pitch(remove_ws(c)) {
                Ok(p) => scan_text(rest, name, count, pitches.push(p)),
                Err(e) => Err(pitch_error_to_scale_error(e)),
            }
        }
    }
}

/// A whole scale text.
pub open spec fn spec_parse_scale(s: Seq<char>) -> Result<
    (Seq<char>, Seq<Pitch>),
    ParseScaleError,
> {
    scan_text(s, None, None, Seq::<Pitch>::empty())
}

/// Whether `c` has the Unicode `White_Space` property.
pub fn is_ws(c: char) -> (r: bool)
    ensures
        r == is_ws_char(c),
{
    c == ' ' || (c >= '\u{9}' && c <= '\u{D}') || c == '\u{85}' || c == '\u{A0}' || c == '\u{1680}'
        || (c >= '\u{2000}' && c <= '\u{200A}') || c == '\u{2028}' || c == '\u{2029}' || c
        == '\u{202F}' || c == '\u{205F}' || c == '\u{3000}'
}

/// Removes every whitespace character from `s`.
pub fn remove_ws_chars(s: &[char]) -> (out: Vec<char>)
    ensures
        out@ == remove_ws(s@),
{
    let n = s.len();
    let mut out: Vec<char> = Vec::new();
    let mut i: usize = 0;
    proof {
        assert(s@.skip(0) =~= s@);
    }
    while i < n
        invariant
            0 <= i <= n,
            n == s@.len(),
            remove_ws(s@) == out@ + remove_ws(s@.skip(i as int)),
        decreases n - i,
    {
        let ghost pre = s@.skip(i as int);
        proof {
            assert(pre.len() > 0);
            assert(pre[0] == s@[i as int]);
            assert(pre.skip(1) =~= s@.skip(i + 1));
        }
        let c = s[i];
        if !is_ws(c) {
            out.push(c);
            proof {
                assert(remove_ws(pre) == seq![c] + remove_ws(s@.skip(i + 1)));
                assert(out@ + remove_ws(s@.skip(i + 1)) =~= remove_ws(s@));
            }
        } else {
            proof {
                assert(remove_ws(pre) == remove_ws(s@.skip(i + 1)));
            }
        }
        i = i + 1;
    }
    proof {
        assert(s@.skip(n as int).len() == 0);
        assert(out@ + remove_ws(s@.skip(n as int)) =~= out@);
    }
    out
}

/// Parses the declared note count.
pub fn parse_count_chars(s: &[char]) -> (r: Result<usize, IntError>)
    ensures
        r == spec_parse_count(s@),
{
    match crate::digits::parse_u128_chars(s) {
        Ok(v) => if v <= (usize::MAX as u128) {
            Ok(v as usize)
        } else {
            Err(IntError::Overflow)
        },
        Err(e) => Err(e),
    }
}

impl Scale {
    /// A scale from its parts.
    pub fn new(name: String, pitches: Vec<Pitch>) -> (r: Scale)
        ensures
            r.name == name,
            r.pitches == pitches,
    {
        Scale { name, pitches }
    }

    /// Parses a whole scale text, as `spec_parse_scale` says.
    #[verifier::rlimit(100)]
    pub fn parse(s: &str) -> (r: Result<Scale, ParseScaleError>)
        ensures
            match spec_parse_scale(s@) {
                Ok((nm, ps)) => {
                    &&& r is Ok
                    &&& r->Ok_0.name@ == nm
                    &&& r->Ok_0.pitches@ == ps
                },
                Err(e) => r == Err::<Scale, ParseScaleError>(e),
            },
    {
        let chars = str_to_chars(s);
        let cs = chars.as_slice();
        let n = cs.len();
        let mut name: Option<String> = None;
        let mut count: Option<usize> = None;
        let mut pitches: Vec<Pitch> = Vec::new();
        let mut pos: usize = 0;
        proof {
            assert(cs@.skip(0) =~= cs@);
        }
        while pos < n
            invariant
                0 <= pos <= n,
                n == cs@.len(),
                cs@ == s@,
                spec_parse_scale(s@) == scan_text(
                    s@.skip(pos as int),
                    match name {
                        Some(st) => Some(st@),
                        None => None,
                    },
                    count,
                    pitches@,
                ),
            decreases n - pos,
        {
            let ghost pre = s@.skip(pos as int);
            proof {
                assert(pre.len() > 0);
            }
            let tail = slice_subrange(cs, pos, n);
            proof {
                assert(tail@ =~= pre);
            }
            let (line_end, next_pos): (usize, usize) = match find_char(tail, '\n') {
                Some(j) => (pos + j, pos + j + 1),
                None => (n, n),
            };
            let ghost jj = find_first(pre, '\n');
            let ghost rawline = if jj == -1 {
                pre
            } else {
                pre.take(jj)
            };
            proof {
                assert(rawline =~= s@.subrange(pos as int, line_end as int));
            }
            // drop one carriage return before a line feed
            let line_end2: usize = if line_end < n && line_end > pos && cs[line_end - 1] == '\r' {
                line_end - 1
            } else {
                line_end
            };
            let ghost line = if jj != -1 && rawline.len() > 0 && rawline.last() == '\r' {
                rawline.drop_last()
            } else {
                rawline
            };
            proof {
                assert(line =~= s@.subrange(pos as int, line_end2 as int));
            }
            let line_slice = slice_subrange(cs, pos, line_end2);
            proof {
                assert(line_slice@ =~= line);
            }
            // comment removal
            let limit: usize = match find_char(line_slice, '!') {
                Some(q) => pos + q,
                None => line_end2,
            };
            proof {
                assert(strip_comment(line) =~= s@.subrange(pos as int, limit as int));
            }
            let ghost c = strip_comment(line);
            let ghost rest = if jj < 0 || jj >= pre.len() {
                Seq::<char>::empty()
            } else {
                pre.skip(jj + 1)
            };
            proof {
                if jj != -1 {
                    crate::scan::lemma_find_first_found(pre, '\n');
                }
                assert(rest =~= s@.skip(next_pos as int));
            }
            let ghost name0 = match &name {
                Some(st) => Some(st@),
                None => None,
            };
            if limit == pos {
                // nothing on this line
                proof {
                    assert(c.len() == 0);
                    assert(scan_text(pre, name0, count, pitches@) == scan_text(
                        rest,
                        name0,
                        count,
                        pitches@,
                    ));
                }
            } else if name.is_none() {
                let nm = s.substring_char(pos, limit);
                name = Some(nm.to_owned());
                proof {
                    assert(nm@ == c);
                    assert(c.len() > 0);
                    assert(scan_text(pre, name0, count, pitches@) == scan_text(
                        rest,
                        Some(c),
                        count,
                        pitches@,
                    ));
                }
            } else if count.is_none() {
                let w = remove_ws_chars(slice_subrange(cs, pos, limit));
                proof {
                    assert(c.len() > 0);
                    assert(w@ == remove_ws(c));
                }
                match parse_count_chars(w.as_slice()) {
                    Ok(k) => {
                        proof {
                            assert(scan_text(pre, name0, count, pitches@) == scan_text(
                                rest,
                                name0,
                                Some(k),
                                pitches@,
                            ));
                        }
                        count = Some(k);
                    },
                    Err(e) => {
                        proof {
                            assert(scan_text(pre, name0, count, pitches@)
                                == Err::<(Seq<char>, Seq<Pitch>), ParseScaleError>(
                                ParseScaleError::ParseInt(e),
                            ));
                        }
                        return Err(ParseScaleError::ParseInt(e));
                    },
                }
            } else {
                let w = remove_ws_chars(slice_subrange(cs, pos, limit));
                proof {
                    assert(c.len() > 0);
                    assert(w@ == remove_ws(c));
                }
                match Pitch::parse_chars(w.as_slice()) {
                    Ok(p) => {
                        proof {
                            assert(scan_text(pre, name0, count, pitches@) == scan_text(
                                rest,
                                name0,
                                count,
                                pitches@.push(p),
                            ));
                        }
                        pitches.push(p);
                    },
                    Err(e) => {
                        proof {
                            assert(scan_text(pre, name0, count, pitches@)
                                == Err::<(Seq<char>, Seq<Pitch>), ParseScaleError>(
                                pitch_error_to_scale_error(e),
                            ));
                        }
                        let converted = ParseScaleError::from(e);
                        assert(converted == pitch_error_to_scale_error(e));
                        return Err(converted);
                    },
                }
            }
            pos = next_pos;
        }
        proof {
            assert(s@.skip(n as int).len() == 0);
        }
        let nm = match name {
            Some(st) => st,
            None => {
                return Err(ParseScaleError::MissingDescription);
            },
        };
        let ct = match count {
            Some(k) => k,
            None => {
                return Err(ParseScaleError::MissingNoteCount);
            },
        };
        if pitches.len() != ct {
            return Err(ParseScaleError::WrongPitchCount(pitches.len()));
        }
        Ok(Scale { name: nm, pitches })
    }
}


/// One terminated line per pitch, in order.
pub open spec fn pitch_lines(ps: Seq<Pitch>) -> Seq<char>
    decreases ps.len(),
{
    if ps.len() == 0 {
        Seq::<char>::empty()
    } else {
        pitch_lines(ps.drop_last()) + crate::pitch::pitch_str(ps.last()) + seq!['\n']
    }
}

/// The full text of a scale: a fixed generated-output comment, the
/// description, the pitch count, a bare comment line, then one line per
/// pitch; every line is terminated.
pub open spec fn scale_str(name: Seq<char>, ps: Seq<Pitch>) -> Seq<char> {
    ("! Generated scale:\n")@ + name + seq!['\n'] + dec_str(ps.len()) + seq!['\n'] + ("!\n")@
        + pitch_lines(ps)
}

impl Scale {
    /// The text of this scale, as `scale_str` says.
    pub fn format(&self) -> (r: String)
        ensures
            r@ == scale_str(self.name@, self.pitches@),
    {
        let mut out = String::new();
        proof {
            reveal_strlit("\n");
            assert(("\n")@ =~= seq!['\n']);
        }
        out.append("! Generated scale:\n");
        out.append(self.name.as_str());
        out.append("\n");
        push_dec_u128(&mut out, self.pitches.len() as u128);
        out.append("\n");
        out.append("!\n");
        let ghost base = out@;
        proof {
            assert(base =~= ("! Generated scale:\n")@ + self.name@ + seq!['\n'] + dec_str(
                self.pitches@.len(),
            ) + seq!['\n'] + ("!\n")@);
        }
        let m = self.pitches.len();
        let mut i: usize = 0;
        while i < m
            invariant
                0 <= i <= m,
                m == self.pitches@.len(),
                out@ == base + pitch_lines(self.pitches@.take(i as int)),
            decreases m - i,
        {
            let p = self.pitches[i];
            p.push_text(&mut out);
            out.append("\n");
            proof {
                reveal_strlit("\n");
                assert(("\n")@ =~= seq!['\n']);
                let t = self.pitches@.take(i + 1);
                assert(t.drop_last() =~= self.pitches@.take(i as int));
                assert(t.last() == self.pitches@[i as int]);
                assert(out@ =~= base + pitch_lines(t));
            }
            i = i + 1;
        }
        proof {
            assert(self.pitches@.take(m as int) =~= self.pitches@);
            assert(out@ =~= scale_str(self.name@, self.pitches@));
        }
        out
    }
}

impl core::str::FromStr for Scale {
    type Err = ParseScaleError;

    fn from_str(s: &str) -> (r: Result<Scale, ParseScaleError>) {
        Scale::parse(s)
    }
}

} // verus!
