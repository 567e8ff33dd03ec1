use vstd::prelude::*;

use crate::digits::{all_digits, is_digit_char};
use vstd::string::StrSliceExecFns;

verus! {

/// The index of the first occurrence of `c` in `s`, or `-1` if absent.
pub open spec fn find_first(s: Seq<char>, c: char) -> int
    decreases s.len(),
{
    if s.len() == 0 {
        -1
    } else if s[0] == c {
        0
    } else {
        let r = find_first(s.skip(1), c);
        if r == -1 {
            -1
        } else {
            r + 1
        }
    }
}

/// `find_first` names the first occurrence.
pub proof fn lemma_find_first_is(s: Seq<char>, c: char, j: int)
    requires
        0 <= j < s.len(),
        s[j] == c,
        forall|k: int| 0 <= k < j ==> s[k] != c,
    ensures
        find_first(s, c) == j,
    decreases j,
{
    if j > 0 {
        assert(s[0] != c);
        let t = s.skip(1);
        assert(t[j - 1] == c);
        assert(forall|k: int| 0 <= k < j - 1 ==> #[trigger] t[k] == s[k + 1]);
        lemma_find_first_is(t, c, j - 1);
    }
}

/// Where `c` does not occur, `find_first` says so.
pub proof fn lemma_find_first_none(s: Seq<char>, c: char)
    requires
        forall|k: int| 0 <= k < s.len() ==> s[k] != c,
    ensures
        find_first(s, c) == -1,
    decreases s.len(),
{
    if s.len() > 0 {
        let t = s.skip(1);
        assert(forall|k: int| 0 <= k < t.len() ==> #[trigger] t[k] == s[k + 1]);
        lemma_find_first_none(t, c);
    }
}

/// A found occurrence is an occurrence, and the first one.
pub proof fn lemma_find_first_found(s: Seq<char>, c: char)
    ensures
        find_first(s, c) == -1 ==> forall|k: int| 0 <= k < s.len() ==> s[k] != c,
        find_first(s, c) != -1 ==> {
            let j = find_first(s, c);
            &&& 0 <= j < s.len()
            &&& s[j] == c
            &&& forall|k: int| 0 <= k < j ==> s[k] != c
        },
    decreases s.len(),
{
    if s.len() > 0 && s[0] != c {
        let t = s.skip(1);
        lemma_find_first_found(t, c);
        assert(forall|k: int| 0 <= k < t.len() ==> #[trigger] t[k] == s[k + 1]);
        assert(forall|k: int| 1 <= k < s.len() ==> #[trigger] s[k] == t[k - 1]);
        if find_first(t, c) != -1 {
            let j = find_first(t, c);
            assert(s[j + 1] == t[j]);
            assert(forall|k: int| 1 <= k < j + 1 ==> #[trigger] s[k] == t[k - 1]);
        }
    }
}

/// Finds the first occurrence of `c` among the characters of `s`.
pub fn find_char(s: &[char], c: char) -> (r: Option<usize>)
    ensures
        match r {
            Some(j) => find_first(s@, c) == j && j < s@.len() && s@[j as int] == c,
            None => find_first(s@, c) == -1,
        },
{
    let n = s.len();
    let mut i: usize = 0;
    while i < n
        invariant
            0 <= i <= n,
            n == s@.len(),
            forall|k: int| 0 <= k < i ==> s@[k] != c,
        decreases n - i,
    {
        if s[i] == c {
            proof {
                lemma_find_first_is(s@, c, i as int);
            }
            return Some(i);
        }
        i = i + 1;
    }
    proof {
        lemma_find_first_none(s@, c);
    }
    None
}

/// Whether every character of `s` is a decimal digit.
pub fn all_digits_chars(s: &[char]) -> (r: bool)
    ensures
        r == all_digits(s@),
{
    let n = s.len();
    let mut i: usize = 0;
    while i < n
        invariant
            0 <= i <= n,
            n == s@.len(),
            forall|k: int| 0 <= k < i ==> is_digit_char(#[trigger] s@[k]),
        decreases n - i,
    {
        let c = s[i];
        if !(c >= '0' && c <= '9') {
            assert(!is_digit_char(s@[i as int]));
            return false;
        }
        i = i + 1;
    }
    true
}


/// The characters of a string, in order.
pub fn str_to_chars(s: &str) -> (v: Vec<char>)
    ensures
        v@ == s@,
{
    let n = s.unicode_len();
    let mut v: Vec<char> = Vec::new();
    let mut i: usize = 0;
    while i < n
        invariant
            0 <= i <= n,
            n == s@.len(),
            v@ == s@.take(i as int),
        decreases n - i,
    {
        let c = s.get_char(i);
        v.push(c);
        proof {
            assert(s@.take(i + 1) =~= s@.take(i as int).push(s@[i as int]));
        }
        i = i + 1;
    }
    proof {
        assert(s@.take(n as int) =~= s@);
    }
    v
}

} // verus!
