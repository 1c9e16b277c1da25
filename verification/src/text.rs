//! Character-level text utilities: pushing characters, substring search and
//! decimal rendering of ids, each with an exact specification.

use vstd::prelude::*;
use vstd::string::StrSliceExecFns;

verus! {

/// Relies on String::push: appends the given character to the end of the string.
#[verifier::external_body]
pub(crate) fn push_char(s: &mut String, c: char)
    ensures
        final(s)@ == old(s)@ + seq![c],
{
    s.push(c);
}

/// A one-character string.
pub fn char_to_string(c: char) -> (r: String)
    ensures
        r@ == seq![c],
{
    let mut r = String::new();
    push_char(&mut r, c);
    proof {
        assert(r@ =~= seq![c]);
    }
    r
}

/// The characters of a string, as a vector sharing the same view.
pub fn chars_of(s: &str) -> (r: Vec<char>)
    ensures
        r@ == s@,
{
    let n = s.unicode_len();
    let mut r: Vec<char> = Vec::new();
    let mut i: usize = 0;
    while i < n
        invariant
            i <= n,
            n == s@.len(),
            r@ == s@.take(i as int),
        decreases n - i,
    {
        let c = s.get_char(i);
        r.push(c);
        proof {
            assert(s@.take(i + 1 as int) =~= s@.take(i as int).push(s@[i as int]));
        }
        i = i + 1;
    }
    proof {
        assert(s@.take(n as int) =~= s@);
    }
    r
}

/// A fresh vector holding `v[from..to]`.
pub fn vec_range(v: &Vec<char>, from: usize, to: usize) -> (r: Vec<char>)
    requires
        from <= to <= v@.len(),
    ensures
        r@ == v@.subrange(from as int, to as int),
{
    let mut r: Vec<char> = Vec::new();
    let mut i: usize = from;
    while i < to
        invariant
            from <= i <= to <= v@.len(),
            r@ == v@.subrange(from as int, i as int),
        decreases to - i,
    {
        r.push(v[i]);
        proof {
            assert(v@.subrange(from as int, i + 1 as int) =~= v@.subrange(from as int, i as int)
                + seq![v@[i as int]]);
        }
        i = i + 1;
    }
    r
}

/// A fresh string holding `v[from..to]`.
pub fn string_from_range(v: &Vec<char>, from: usize, to: usize) -> (r: String)
    requires
        from <= to <= v@.len(),
    ensures
        r@ == v@.subrange(from as int, to as int),
{
    let mut r = String::new();
    let mut i: usize = from;
    while i < to
        invariant
            from <= i <= to <= v@.len(),
            r@ == v@.subrange(from as int, i as int),
        decreases to - i,
    {
        push_char(&mut r, v[i]);
        proof {
            assert(v@.subrange(from as int, i + 1 as int) =~= v@.subrange(from as int, i as int)
                + seq![v@[i as int]]);
        }
        i = i + 1;
    }
    r
}

/// Whether two strings hold the same characters.
pub fn str_eq(a: &str, b: &str) -> (r: bool)
    ensures
        r == (a@ == b@),
{
    let m = a.unicode_len();
    let n = b.unicode_len();
    if m != n {
        return false;
    }
    let mut i: usize = 0;
    while i < n
        invariant
            i <= n,
            m == n,
            m == a@.len(),
            n == b@.len(),
            forall|j: int| 0 <= j < i ==> a@[j] == b@[j],
        decreases n - i,
    {
        if a.get_char(i) != b.get_char(i) {
            return false;
        }
        i = i + 1;
    }
    proof {
        assert(a@ =~= b@);
    }
    true
}

/// The pattern occurs in `s` at position `i`.
pub open spec fn matches_at(s: Seq<char>, pat: Seq<char>, i: int) -> bool {
    &&& 0 <= i
    &&& i + pat.len() <= s.len()
    &&& s.subrange(i, i + pat.len()) == pat
}

/// The pattern occurs somewhere in `s`.
pub open spec fn has_sub(s: Seq<char>, pat: Seq<char>) -> bool {
    exists|k: int| matches_at(s, pat, k)
}

/// The position of the first occurrence of the pattern, or `s.len()` if none.
pub open spec fn first_match(s: Seq<char>, pat: Seq<char>) -> int
    decreases s.len(),
{
    if s.len() < pat.len() {
        s.len() as int
    } else if s.subrange(0, pat.len() as int) == pat {
        0
    } else if s.len() == 0 {
        0
    } else {
        1 + first_match(s.drop_first(), pat)
    }
}

proof fn lemma_matches_shift(s: Seq<char>, pat: Seq<char>, k: int)
    requires
        s.len() > 0,
        1 <= k,
    ensures
        matches_at(s, pat, k) == matches_at(s.drop_first(), pat, k - 1),
{
    if k + pat.len() <= s.len() {
        assert(s.subrange(k, k + pat.len() as int) =~= s.drop_first().subrange(
            k - 1,
            k - 1 + pat.len() as int,
        ));
    }
}

/// What `first_match` returns: the least position of an occurrence, or the
/// whole length when the pattern does not occur.
pub proof fn lemma_first_match(s: Seq<char>, pat: Seq<char>)
    requires
        pat.len() > 0,
    ensures
        0 <= first_match(s, pat) <= s.len(),
        forall|k: int| 0 <= k < first_match(s, pat) ==> !matches_at(s, pat, k),
        first_match(s, pat) + pat.len() <= s.len() ==> matches_at(s, pat, first_match(s, pat)),
        first_match(s, pat) + pat.len() > s.len() ==> first_match(s, pat) == s.len(),
        first_match(s, pat) + pat.len() > s.len() ==> !has_sub(s, pat),
    decreases s.len(),
{
    if s.len() < pat.len() {
        assert(forall|k: int| !matches_at(s, pat, k));
    } else if s.subrange(0, pat.len() as int) == pat {
        assert(matches_at(s, pat, 0));
    } else {
        let st = s.drop_first();
        lemma_first_match(st, pat);
        let m = first_match(s, pat);
        assert(m == 1 + first_match(st, pat));
        assert forall|k: int| 0 <= k < m implies !matches_at(s, pat, k) by {
            if k == 0 {
                assert(!matches_at(s, pat, 0));
            } else {
                lemma_matches_shift(s, pat, k);
            }
        }
        if m + pat.len() <= s.len() {
            lemma_matches_shift(s, pat, m);
        } else {
            assert forall|k: int| !matches_at(s, pat, k) by {
                if k >= 1 {
                    lemma_matches_shift(s, pat, k);
                }
            }
        }
    }
}

fn match_at_exec(s: &Vec<char>, pat: &Vec<char>, i: usize) -> (r: bool)
    requires
        i + pat@.len() <= s@.len(),
    ensures
        r == matches_at(s@, pat@, i as int),
{
    let n = s.len();
    let p = pat.len();
    let mut j: usize = 0;
    while j < p
        invariant
            n == s@.len(),
            i + p <= n,
            p == pat@.len(),
            j <= p,
            forall|k: int| 0 <= k < j ==> s@[i + k] == pat@[k],
        decreases p - j,
    {
        if s[i + j] != pat[j] {
            proof {
                if matches_at(s@, pat@, i as int) {
                    assert(s@.subrange(i as int, i + p as int)[j as int] == pat@[j as int]);
                    assert(false);
                }
            }
            return false;
        }
        j = j + 1;
    }
    proof {
        assert(s@.subrange(i as int, i + p as int) =~= pat@);
    }
    true
}

/// The position of the first occurrence of `pat` in `s`, or `s.len()` if none.
pub fn find_sub(s: &Vec<char>, pat: &Vec<char>) -> (r: usize)
    requires
        pat@.len() > 0,
    ensures
        r == first_match(s@, pat@),
{
    proof {
        lemma_first_match(s@, pat@);
    }
    let n = s.len();
    let p = pat.len();
    if n < p {
        return n;
    }
    let mut i: usize = 0;
    while i <= n - p
        invariant
            p == pat@.len(),
            n == s@.len(),
            0 < p <= n,
            i <= n - p + 1,
            forall|k: int| 0 <= k < i ==> !matches_at(s@, pat@, k),
        decreases n - i,
    {
        if match_at_exec(s, pat, i) {
            proof {
                lemma_first_match(s@, pat@);
            }
            return i;
        }
        i = i + 1;
    }
    proof {
        lemma_first_match(s@, pat@);
        let m = first_match(s@, pat@);
        if m + p <= n {
            assert(matches_at(s@, pat@, m));
            assert(false);
        }
    }
    n
}

/// Whether `pat` occurs in `s`.
pub fn contains_sub(s: &Vec<char>, pat: &Vec<char>) -> (r: bool)
    requires
        pat@.len() > 0,
    ensures
        r == has_sub(s@, pat@),
{
    let n = s.len();
    let p = pat.len();
    if n < p {
        proof {
            assert(forall|k: int| !matches_at(s@, pat@, k));
        }
        return false;
    }
    let m = find_sub(s, pat);
    proof {
        lemma_first_match(s@, pat@);
        if m + pat@.len() <= s@.len() {
            assert(matches_at(s@, pat@, m as int));
        }
    }
    m <= n - p
}

/// Whether the string `pat` occurs in the string `s`.
pub fn contains_str(s: &str, pat: &str) -> (r: bool)
    requires
        pat@.len() > 0,
    ensures
        r == has_sub(s@, pat@),
{
    let sv = chars_of(s);
    let pv = chars_of(pat);
    contains_sub(&sv, &pv)
}

/// The digit character for a value below ten.
pub open spec fn digit_char(d: nat) -> char {
    if d == 0 {
        '0'
    } else if d == 1 {
        '1'
    } else if d == 2 {
        '2'
    } else if d == 3 {
        '3'
    } else if d == 4 {
        '4'
    } else if d == 5 {
        '5'
    } else if d == 6 {
        '6'
    } else if d == 7 {
        '7'
    } else if d == 8 {
        '8'
    } else {
        '9'
    }
}

/// The decimal representation of a number, most significant digit first.
pub open spec fn dec_rep(n: nat) -> Seq<char>
    decreases n,
{
    if n < 10 {
        seq![digit_char(n)]
    } else {
        dec_rep(n / 10) + seq![digit_char(n % 10)]
    }
}

fn digit_to_char(d: usize) -> (c: char)
    requires
        d < 10,
    ensures
        c == digit_char(d as nat),
{
    if d == 0 {
        '0'
    } else if d == 1 {
        '1'
    } else if d == 2 {
        '2'
    } else if d == 3 {
        '3'
    } else if d == 4 {
        '4'
    } else if d == 5 {
        '5'
    } else if d == 6 {
        '6'
    } else if d == 7 {
        '7'
    } else if d == 8 {
        '8'
    } else {
        '9'
    }
}

/// The decimal form of a number, e.g. a hover id in a tag attribute.
pub fn usize_to_string(n: usize) -> (r: String)
    ensures
        r@ == dec_rep(n as nat),
    decreases n,
{
    if n < 10 {
        char_to_string(digit_to_char(n))
    } else {
        let mut r = usize_to_string(n / 10);
        push_char(&mut r, digit_to_char(n % 10));
        r
    }
}

} // verus!
