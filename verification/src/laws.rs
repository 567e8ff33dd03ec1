use vstd::prelude::*;

use crate::cents::{lemma_cents_round_trip, spec_parse_decimal};
use crate::digits::{dec_str, is_digit_char, lemma_dec_str_digits, lemma_parse_dec_str};
use crate::errors::{IntError, ParsePitchError};
use crate::pitch::{
    cents_word, pitch_equiv, pitch_str, pitch_wf, remove_spaces, spec_parse_pitch,
    strip_cents_word, Pitch,
};
use crate::ratio::{lemma_reduce_props, spec_reduce};
use crate::scan::{find_first, lemma_find_first_found, lemma_find_first_is, lemma_find_first_none};

verus! {

/// Space removal leaves no space behind.
pub proof fn lemma_remove_spaces_no_space(s: Seq<char>)
    ensures
        forall|k: int|
            0 <= k < remove_spaces(s).len() ==> #[trigger] remove_spaces(s)[k] != ' ',
    decreases s.len(),
{
    if s.len() > 0 {
        lemma_remove_spaces_no_space(s.skip(1));
        if s[0] != ' ' {
            assert forall|k: int| 0 <= k < remove_spaces(s).len() implies #[trigger] remove_spaces(
                s,
            )[k] != ' ' by {
                if k >= 1 {
                    assert(remove_spaces(s)[k] == remove_spaces(s.skip(1))[k - 1]);
                }
            }
        } else {
            assert forall|k: int| 0 <= k < remove_spaces(s).len() implies #[trigger] remove_spaces(
                s,
            )[k] != ' ' by {
                assert(remove_spaces(s)[k] == remove_spaces(s.skip(1))[k]);
            }
        }
    }
}

/// Space removal does not touch text without spaces.
pub proof fn lemma_remove_spaces_id(s: Seq<char>)
    requires
        forall|k: int| 0 <= k < s.len() ==> s[k] != ' ',
    ensures
        remove_spaces(s) == s,
    decreases s.len(),
{
    if s.len() > 0 {
        let t = s.skip(1);
        assert(forall|k: int| 0 <= k < t.len() ==> #[trigger] t[k] == s[k + 1]);
        lemma_remove_spaces_id(t);
        assert(seq![s[0]] + t =~= s);
    }
}

/// Whitespace removal does not touch text without whitespace.
pub proof fn lemma_remove_ws_id(s: Seq<char>)
    requires
        forall|k: int| 0 <= k < s.len() ==> !crate::scale::is_ws_char(#[trigger] s[k]),
    ensures
        crate::scale::remove_ws(s) == s,
    decreases s.len(),
{
    if s.len() > 0 {
        let t = s.skip(1);
        assert(forall|k: int| 0 <= k < t.len() ==> #[trigger] t[k] == s[k + 1]);
        lemma_remove_ws_id(t);
        assert(seq![s[0]] + t =~= s);
    }
}

/// Suffix-word removal does not touch text without the letter `c`.
pub proof fn lemma_strip_cents_id(s: Seq<char>)
    requires
        forall|k: int| 0 <= k < s.len() ==> s[k] != 'c',
    ensures
        strip_cents_word(s) == s,
    decreases s.len(),
{
    if s.len() > 0 {
        if s.len() >= 5 && s.take(5) == cents_word() {
            assert(s.take(5)[0] == 'c');
            assert(false);
        }
        let t = s.skip(1);
        assert(forall|k: int| 0 <= k < t.len() ==> #[trigger] t[k] == s[k + 1]);
        lemma_strip_cents_id(t);
        assert(seq![s[0]] + t =~= s);
    }
}

/// Spaces anywhere in a pitch line are insignificant: parsing it equals
/// parsing the space-stripped line, and removing spaces twice is the same
/// as removing them once.
pub proof fn lemma_pitch_parse_ignores_spaces(s: Seq<char>)
    ensures
        spec_parse_pitch(s) == spec_parse_pitch(remove_spaces(s)),
        remove_spaces(remove_spaces(s)) == remove_spaces(s),
{
    lemma_remove_spaces_no_space(s);
    lemma_remove_spaces_id(remove_spaces(s));
}

/// The text `n/d` (with nonzero `d`) parses to the ratio `n/d` in lowest
/// terms: the stored pair multiplies back to `n` and `d` by one common
/// factor, so it denotes the same rational value.
pub proof fn lemma_parse_ratio_text(n: u128, d: u128)
    requires
        d != 0,
    ensures
        spec_parse_pitch(dec_str(n as nat) + seq!['/'] + dec_str(d as nat)) == Ok::<
            Pitch,
            ParsePitchError,
        >(Pitch::Ratio(spec_reduce(n, d).0, spec_reduce(n, d).1)),
        (spec_reduce(n, d).0 as int) * (d as int) == (n as int) * (spec_reduce(n, d).1 as int),
        spec_reduce(n, d).1 != 0,
{
    let nd = dec_str(n as nat);
    let dd = dec_str(d as nat);
    let t = nd + seq!['/'] + dd;
    lemma_dec_str_digits(n as nat);
    lemma_dec_str_digits(d as nat);
    let j = nd.len() as int;
    assert forall|k: int| 0 <= k < t.len() implies t[k] != ' ' && t[k] != '.' by {
        if k < j {
            assert(t[k] == nd[k]);
            assert(is_digit_char(nd[k]));
        } else if k == j {
            assert(t[k] == '/');
        } else {
            assert(t[k] == dd[k - j - 1]);
            assert(is_digit_char(dd[k - j - 1]));
        }
    }
    lemma_remove_spaces_id(t);
    lemma_find_first_none(t, '.');
    assert(t[j] == '/');
    assert forall|k: int| 0 <= k < j implies t[k] != '/' by {
        assert(t[k] == nd[k]);
        assert(is_digit_char(nd[k]));
    }
    lemma_find_first_is(t, '/', j);
    assert(t.take(j) =~= nd);
    assert(t.skip(j + 1) =~= dd);
    lemma_parse_dec_str(n as nat);
    lemma_parse_dec_str(d as nat);
    lemma_reduce_props(n, d);
}


/// The characters a pitch's text can hold.
pub open spec fn pitch_text_char(c: char) -> bool {
    is_digit_char(c) || c == '-' || c == '.' || c == '/'
}

/// What parsing gives back for a formatted pitch.
pub open spec fn round_pitch(p: Pitch) -> Pitch {
    spec_parse_pitch(pitch_str(p))->Ok_0
}

/// A pitch's text is nonempty and made of digits, `-`, `.` and `/` only.
pub proof fn lemma_pitch_str_chars(p: Pitch)
    ensures
        pitch_str(p).len() > 0,
        forall|k: int| 0 <= k < pitch_str(p).len() ==> pitch_text_char(#[trigger] pitch_str(p)[k]),
{
    let s = pitch_str(p);
    match p {
        Pitch::Cents(v) => {
            let mag = crate::cents::abs_micro(v);
            let ipd = dec_str((mag / 100000) as nat);
            let fpd = crate::cents::frac5_str(mag % 100000);
            lemma_dec_str_digits((mag / 100000) as nat);
            crate::cents::lemma_frac5_val(mag % 100000);
            let body = ipd + seq!['.'] + fpd;
            assert forall|k: int| 0 <= k < body.len() implies pitch_text_char(
                #[trigger] body[k],
            ) by {
                if k < ipd.len() {
                    assert(body[k] == ipd[k]);
                    assert(is_digit_char(ipd[k]));
                } else if k == ipd.len() {
                    assert(body[k] == '.');
                } else {
                    assert(body[k] == fpd[k - ipd.len() - 1]);
                    assert(is_digit_char(fpd[k - ipd.len() - 1]));
                }
            }
            if v < 0 {
                assert(s == seq!['-'] + body);
                assert forall|k: int| 0 <= k < s.len() implies pitch_text_char(
                    #[trigger] s[k],
                ) by {
                    if k == 0 {
                        assert(s[k] == '-');
                    } else {
                        assert(s[k] == body[k - 1]);
                    }
                }
            } else {
                assert(s == body);
            }
        },
        Pitch::Ratio(n, d) => {
            let nd = dec_str(n as nat);
            let dd = dec_str(d as nat);
            lemma_dec_str_digits(n as nat);
            lemma_dec_str_digits(d as nat);
            assert forall|k: int| 0 <= k < s.len() implies pitch_text_char(#[trigger] s[k]) by {
                if k < nd.len() {
                    assert(s[k] == nd[k]);
                    assert(is_digit_char(nd[k]));
                } else if k == nd.len() {
                    assert(s[k] == '/');
                } else {
                    assert(s[k] == dd[k - nd.len() - 1]);
                    assert(is_digit_char(dd[k - nd.len() - 1]));
                }
            }
        },
    }
}

/// Parsing the text of a well-formed pitch succeeds and yields a
/// numerically equivalent pitch (for a cents pitch, the very same value).
pub proof fn lemma_parse_pitch_str(p: Pitch)
    requires
        pitch_wf(p),
    ensures
        spec_parse_pitch(pitch_str(p)) is Ok,
        pitch_equiv(p, round_pitch(p)),
{
    let s = pitch_str(p);
    lemma_pitch_str_chars(p);
    assert forall|k: int| 0 <= k < s.len() implies s[k] != ' ' && s[k] != 'c' by {
        assert(pitch_text_char(s[k]));
    }
    lemma_remove_spaces_id(s);
    match p {
        Pitch::Cents(v) => {
            let mag = crate::cents::abs_micro(v);
            let ipd = dec_str((mag / 100000) as nat);
            lemma_dec_str_digits((mag / 100000) as nat);
            let dot = if v < 0 {
                ipd.len() + 1
            } else {
                ipd.len()
            } as int;
            assert(s[dot] == '.');
            lemma_find_first_found(s, '.');
            assert(find_first(s, '.') != -1);
            lemma_strip_cents_id(s);
            lemma_cents_round_trip(v);
        },
        Pitch::Ratio(n, d) => {
            lemma_parse_ratio_text(n, d);
            assert(s == dec_str(n as nat) + seq!['/'] + dec_str(d as nat));
        },
    }
}

/// A nonempty pitch list's text starts with its first pitch's line.
pub proof fn lemma_pitch_lines_front(ps: Seq<Pitch>)
    requires
        ps.len() > 0,
    ensures
        crate::scale::pitch_lines(ps) == pitch_str(ps[0]) + seq!['\n'] + crate::scale::pitch_lines(
            ps.skip(1),
        ),
    decreases ps.len(),
{
    let pl = crate::scale::pitch_lines(ps);
    if ps.len() == 1 {
        assert(ps.drop_last() =~= Seq::<Pitch>::empty());
        assert(ps.skip(1) =~= Seq::<Pitch>::empty());
        assert(crate::scale::pitch_lines(Seq::<Pitch>::empty()) == Seq::<char>::empty());
        assert(pl =~= pitch_str(ps[0]) + seq!['\n'] + crate::scale::pitch_lines(ps.skip(1)));
    } else {
        let dl = ps.drop_last();
        lemma_pitch_lines_front(dl);
        assert(dl[0] == ps[0]);
        let t = ps.skip(1);
        assert(t.drop_last() =~= dl.skip(1));
        assert(t.last() == ps.last());
        assert(t.len() > 0);
        assert(crate::scale::pitch_lines(t) == crate::scale::pitch_lines(dl.skip(1)) + pitch_str(
            ps.last(),
        ) + seq!['\n']);
        assert(pl =~= pitch_str(ps[0]) + seq!['\n'] + crate::scale::pitch_lines(t));
    }
}

/// Splitting off a terminated line that holds no line feed.
pub proof fn lemma_line_split(line: Seq<char>, rest: Seq<char>)
    requires
        forall|k: int| 0 <= k < line.len() ==> line[k] != '\n',
    ensures
        find_first(line + seq!['\n'] + rest, '\n') == line.len(),
        (line + seq!['\n'] + rest).take(line.len() as int) == line,
        (line + seq!['\n'] + rest).skip(line.len() as int + 1) == rest,
{
    let s = line + seq!['\n'] + rest;
    assert(s[line.len() as int] == '\n');
    assert forall|k: int| 0 <= k < line.len() implies s[k] != '\n' by {
        assert(s[k] == line[k]);
    }
    lemma_find_first_is(s, '\n', line.len() as int);
    assert(s.take(line.len() as int) =~= line);
    assert(s.skip(line.len() as int + 1) =~= rest);
}


/// Scanning the pitch lines of well-formed pitches, with the description
/// and count already gathered, appends each pitch's parse result in order
/// and then runs the closing checks.
pub proof fn lemma_scan_pitch_lines(
    ps: Seq<Pitch>,
    nm: Seq<char>,
    ct: usize,
    acc: Seq<Pitch>,
)
    requires
        forall|k: int| 0 <= k < ps.len() ==> pitch_wf(#[trigger] ps[k]),
    ensures
        crate::scale::scan_text(crate::scale::pitch_lines(ps), Some(nm), Some(ct), acc)
            == crate::scale::finish_scan(
            Some(nm),
            Some(ct),
            acc + ps.map_values(|p: Pitch| round_pitch(p)),
        ),
    decreases ps.len(),
{
    let pl = crate::scale::pitch_lines(ps);
    let rp = |p: Pitch| round_pitch(p);
    if ps.len() == 0 {
        assert(pl.len() == 0);
        assert(acc + ps.map_values(rp) =~= acc);
    } else {
        let p0 = ps[0];
        let line = pitch_str(p0);
        let rest = crate::scale::pitch_lines(ps.skip(1));
        lemma_pitch_lines_front(ps);
        assert(pl == line + seq!['\n'] + rest);
        lemma_pitch_str_chars(p0);
        assert forall|k: int| 0 <= k < line.len() implies line[k] != '\n' && line[k] != '\r'
            && line[k] != '!' && !crate::scale::is_ws_char(line[k]) by {
            assert(pitch_text_char(line[k]));
        }
        lemma_line_split(line, rest);
        assert(pl.len() > 0);
        let j = find_first(pl, '\n');
        assert(j == line.len());
        let rawline = pl.take(j);
        assert(rawline == line);
        assert(rawline.len() > 0 && rawline.last() != '\r');
        lemma_find_first_none(line, '!');
        assert(crate::scale::strip_comment(line) == line);
        lemma_remove_ws_id(line);
        lemma_parse_pitch_str(p0);
        assert(spec_parse_pitch(line) == Ok::<Pitch, ParsePitchError>(round_pitch(p0)));
        assert(crate::scale::scan_text(pl, Some(nm), Some(ct), acc) == crate::scale::scan_text(
            rest,
            Some(nm),
            Some(ct),
            acc.push(round_pitch(p0)),
        ));
        assert forall|k: int| 0 <= k < ps.skip(1).len() implies pitch_wf(
            #[trigger] ps.skip(1)[k],
        ) by {
            assert(ps.skip(1)[k] == ps[k + 1]);
        }
        lemma_scan_pitch_lines(ps.skip(1), nm, ct, acc.push(round_pitch(p0)));
        assert(acc.push(round_pitch(p0)) + ps.skip(1).map_values(rp) =~= acc + ps.map_values(
            rp,
        )) by {
            assert(ps.map_values(rp).len() == ps.len());
            assert(forall|k: int|
                0 <= k < ps.len() ==> #[trigger] ps.map_values(rp)[k] == rp(ps[k]));
            assert(forall|k: int|
                0 <= k < ps.skip(1).len() ==> #[trigger] ps.skip(1).map_values(rp)[k] == rp(
                    ps[k + 1],
                ));
        }
    }
}

/// Scanning a formatted scale's first four lines: the generated-output
/// comment is skipped, the description and count are gathered, the bare
/// comment line is skipped, and the pitch lines remain.
proof fn lemma_scale_prefix_scan(name: Seq<char>, ps: Seq<Pitch>)
    requires
        name.len() > 0,
        forall|k: int|
            0 <= k < name.len() ==> name[k] != '\n' && name[k] != '\r' && #[trigger] name[k]
                != '!',
        ps.len() <= usize::MAX,
    ensures
        crate::scale::spec_parse_scale(crate::scale::scale_str(name, ps)) == crate::scale::scan_text(
            crate::scale::pitch_lines(ps),
            Some(name),
            Some(ps.len() as usize),
            Seq::<Pitch>::empty(),
        ),
{
    let s = crate::scale::scale_str(name, ps);
    let header = ("! Generated scale:\n")@;
    let bang = ("!\n")@;
    let cnt = dec_str(ps.len());
    let pl = crate::scale::pitch_lines(ps);
    reveal_strlit("! Generated scale:\n");
    reveal_strlit("!\n");
    let h0 = header.take(18);
    assert(header.len() == 19);
    assert(header[18] == '\n');
    let rest1 = name + seq!['\n'] + cnt + seq!['\n'] + bang + pl;
    assert(s =~= h0 + seq!['\n'] + rest1);
    assert forall|k: int| 0 <= k < h0.len() implies h0[k] != '\n' by {
        assert(h0[k] == header[k]);
    }
    lemma_line_split(h0, rest1);
    assert(s.take(18) == h0);
    assert(h0.last() == ':');
    assert(h0[0] == '!');
    lemma_find_first_is(h0, '!', 0);
    assert(crate::scale::strip_comment(h0) =~= Seq::<char>::empty());
    let st0 = crate::scale::spec_parse_scale(s);
    assert(st0 == crate::scale::scan_text(rest1, None, None, Seq::<Pitch>::empty()));
    // the description line
    let rest2 = cnt + seq!['\n'] + bang + pl;
    assert(rest1 =~= name + seq!['\n'] + rest2);
    lemma_line_split(name, rest2);
    lemma_find_first_none(name, '!');
    assert(crate::scale::strip_comment(name) == name);
    assert(name.last() != '\r');
    assert(st0 == crate::scale::scan_text(rest2, Some(name), None, Seq::<Pitch>::empty()));
    // the count line
    lemma_dec_str_digits(ps.len());
    let rest3 = bang + pl;
    assert(rest2 =~= cnt + seq!['\n'] + rest3);
    assert forall|k: int| 0 <= k < cnt.len() implies cnt[k] != '\n' && cnt[k] != '\r' && cnt[k]
        != '!' && !crate::scale::is_ws_char(cnt[k]) by {
        assert(is_digit_char(cnt[k]));
    }
    lemma_line_split(cnt, rest3);
    lemma_find_first_none(cnt, '!');
    assert(crate::scale::strip_comment(cnt) == cnt);
    lemma_remove_ws_id(cnt);
    lemma_parse_dec_str(ps.len());
    assert(crate::scale::spec_parse_count(cnt) == Ok::<usize, IntError>(ps.len() as usize));
    assert(st0 == crate::scale::scan_text(
        rest3,
        Some(name),
        Some(ps.len() as usize),
        Seq::<Pitch>::empty(),
    ));
    // the bare comment line
    assert(bang.len() == 2);
    assert(bang[0] == '!');
    assert(bang[1] == '\n');
    let b0 = seq!['!'];
    assert(rest3 =~= b0 + seq!['\n'] + pl);
    assert(b0[0] != '\n');
    lemma_line_split(b0, pl);
    lemma_find_first_is(b0, '!', 0);
    assert(crate::scale::strip_comment(b0) =~= Seq::<char>::empty());
    assert(st0 == crate::scale::scan_text(
        pl,
        Some(name),
        Some(ps.len() as usize),
        Seq::<Pitch>::empty(),
    ));
}

/// Round trip: parsing a formatted scale succeeds and yields the same
/// description and, pitch for pitch, a numerically equivalent pitch
/// (cents values return exactly; ratios return in lowest terms).
/// The description must be nonempty and hold no line break, carriage
/// return or comment mark, or its line would not survive the trip.
pub proof fn lemma_scale_round_trip(name: Seq<char>, ps: Seq<Pitch>)
    requires
        name.len() > 0,
        forall|k: int|
            0 <= k < name.len() ==> name[k] != '\n' && name[k] != '\r' && #[trigger] name[k]
                != '!',
        forall|k: int| 0 <= k < ps.len() ==> pitch_wf(#[trigger] ps[k]),
        ps.len() <= usize::MAX,
    ensures
        crate::scale::spec_parse_scale(crate::scale::scale_str(name, ps)) is Ok,
        crate::scale::spec_parse_scale(crate::scale::scale_str(name, ps))->Ok_0.0 == name,
        crate::scale::spec_parse_scale(crate::scale::scale_str(name, ps))->Ok_0.1.len()
            == ps.len(),
        forall|k: int|
            0 <= k < ps.len() ==> pitch_equiv(
                #[trigger] ps[k],
                crate::scale::spec_parse_scale(crate::scale::scale_str(name, ps))->Ok_0.1[k],
            ),
{
    let s = crate::scale::scale_str(name, ps);
    let st0 = crate::scale::spec_parse_scale(s);
    lemma_scale_prefix_scan(name, ps);
    lemma_scan_pitch_lines(ps, name, ps.len() as usize, Seq::<Pitch>::empty());
    let rp = |p: Pitch| round_pitch(p);
    let parsed = Seq::<Pitch>::empty() + ps.map_values(rp);
    assert(parsed =~= ps.map_values(rp));
    assert(parsed.len() == ps.len());
    assert(st0 == crate::scale::finish_scan(Some(name), Some(ps.len() as usize), parsed));
    assert(st0 == Ok::<(Seq<char>, Seq<Pitch>), crate::errors::ParseScaleError>((name, parsed)));
    assert forall|k: int| 0 <= k < ps.len() implies pitch_equiv(
        #[trigger] ps[k],
        st0->Ok_0.1[k],
    ) by {
        lemma_parse_pitch_str(ps[k]);
        assert(parsed[k] == rp(ps[k]));
    }
}

} // verus!
