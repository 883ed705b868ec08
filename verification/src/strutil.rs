//! Verified character-level string primitives used by the card list search,
//! the authored-content parser and the store.

use vstd::prelude::*;
use vstd::string::StrSliceExecFns;
use vstd::string::StringExecFns;

verus! {

/// Characters that `trim` removes from either end of a header value.
pub open spec fn is_blank_char(c: char) -> bool {
    c == ' ' || c == '\t' || c == '\r' || c == '\n'
}

/// Index of the first non-blank character of `s`; `s.len()` when every
/// character is blank.
pub open spec fn first_non_blank(s: Seq<char>) -> int
    decreases s.len(),
{
    if s.len() == 0 {
        0
    } else if !is_blank_char(s[0]) {
        0
    } else {
        1 + first_non_blank(s.drop_first())
    }
}

/// One past the index of the last non-blank character of `s`; `0` when every
/// character is blank.
pub open spec fn last_non_blank_end(s: Seq<char>) -> int
    decreases s.len(),
{
    if s.len() == 0 {
        0
    } else if !is_blank_char(s.last()) {
        s.len() as int
    } else {
        last_non_blank_end(s.drop_last())
    }
}

/// `s` with leading and trailing blank characters removed.
pub open spec fn trimmed(s: Seq<char>) -> Seq<char> {
    let lo = first_non_blank(s);
    let hi = last_non_blank_end(s);
    if lo < hi {
        s.subrange(lo, hi)
    } else {
        Seq::empty()
    }
}

/// `pat` occurs contiguously inside `text`.
pub open spec fn is_substring(pat: Seq<char>, text: Seq<char>) -> bool {
    exists|i: int|
        0 <= i && i + pat.len() <= text.len() && #[trigger] text.subrange(
            i,
            i + pat.len() as int,
        ) == pat
}

proof fn lemma_first_non_blank(s: Seq<char>)
    ensures
        0 <= first_non_blank(s) <= s.len(),
        forall|k: int| 0 <= k < first_non_blank(s) ==> is_blank_char(s[k]),
        first_non_blank(s) < s.len() ==> !is_blank_char(s[first_non_blank(s)]),
    decreases s.len(),
{
    if s.len() == 0 {
    } else if !is_blank_char(s[0]) {
    } else {
        lemma_first_non_blank(s.drop_first());
        assert(forall|k: int| 1 <= k < s.len() ==> s[k] == s.drop_first()[k - 1]);
    }
}

proof fn lemma_last_non_blank_end(s: Seq<char>)
    ensures
        0 <= last_non_blank_end(s) <= s.len(),
        forall|k: int| last_non_blank_end(s) <= k < s.len() ==> is_blank_char(s[k]),
        last_non_blank_end(s) > 0 ==> !is_blank_char(s[last_non_blank_end(s) - 1]),
    decreases s.len(),
{
    if s.len() == 0 {
    } else if !is_blank_char(s.last()) {
    } else {
        lemma_last_non_blank_end(s.drop_last());
        assert(forall|k: int| 0 <= k < s.len() - 1 ==> s[k] == s.drop_last()[k]);
    }
}

/// Whether a character is blank, executably.
pub fn blank_char(c: char) -> (r: bool)
    ensures
        r == is_blank_char(c),
{
    c == ' ' || c == '\t' || c == '\r' || c == '\n'
}

/// Character equality of two string slices.
pub fn str_eq(a: &str, b: &str) -> (r: bool)
    ensures
        r == (a@ == b@),
{
    let alen = a.unicode_len();
    let blen = b.unicode_len();
    if alen != blen {
        return false;
    }
    let mut i: usize = 0;
    while i < alen
        invariant
            i <= alen,
            alen == a@.len(),
            alen == b@.len(),
            forall|k: int| 0 <= k < i ==> a@[k] == b@[k],
        decreases alen - i,
    {
        if a.get_char(i) != b.get_char(i) {
            return false;
        }
        i = i + 1;
    }
    proof {
        assert(a@ =~= b@);
    }
    true
}

/// Whether `text` matches `pat` starting at character position `at`.
fn matches_at(text: &str, pat: &str, at: usize) -> (r: bool)
    requires
        at + pat@.len() <= text@.len(),
    ensures
        r == (text@.subrange(at as int, at + pat@.len() as int) == pat@),
{
    let tlen = text.unicode_len();
    let plen = pat.unicode_len();
    let mut j: usize = 0;
    while j < plen
        invariant
            j <= plen,
            plen == pat@.len(),
            tlen == text@.len(),
            at + plen <= tlen,
            forall|k: int| 0 <= k < j ==> text@[at + k] == pat@[k],
        decreases plen - j,
    {
        if text.get_char(at + j) != pat.get_char(j) {
            proof {
                assert(text@.subrange(at as int, at + pat@.len() as int)[j as int] == text@[at
                    + j]);
            }
            return false;
        }
        j = j + 1;
    }
    proof {
        assert(text@.subrange(at as int, at + pat@.len() as int) =~= pat@);
    }
    true
}

/// Case-sensitive substring search, the relation behind the live card filter.
pub fn str_contains(text: &str, pat: &str) -> (r: bool)
    ensures
        r == is_substring(pat@, text@),
{
    let tlen = text.unicode_len();
    let plen = pat.unicode_len();
    if plen == 0 {
        proof {
            assert(text@.subrange(0, 0 + pat@.len() as int) =~= pat@);
        }
        return true;
    }
    if plen > tlen {
        return false;
    }
    let mut i: usize = 0;
    while i <= tlen - plen
        invariant
            1 <= plen <= tlen,
            tlen == text@.len(),
            plen == pat@.len(),
            i <= tlen - plen + 1,
            forall|k: int|
                0 <= k < i ==> #[trigger] text@.subrange(k, k + pat@.len() as int) != pat@,
        decreases tlen - plen - i + 1,
    {
        if matches_at(text, pat, i) {
            return true;
        }
        i = i + 1;
    }
    false
}

/// `s` with leading and trailing blank characters removed.
pub fn trim<'a>(s: &'a str) -> (r: &'a str)
    ensures
        r@ == trimmed(s@),
{
    proof {
        lemma_first_non_blank(s@);
        lemma_last_non_blank_end(s@);
    }
    let len = s.unicode_len();
    let mut lo: usize = 0;
    while lo < len && blank_char(s.get_char(lo))
        invariant
            lo <= len,
            len == s@.len(),
            forall|k: int| 0 <= k < lo ==> is_blank_char(s@[k]),
        decreases len - lo,
    {
        lo = lo + 1;
    }
    proof {
        let f = first_non_blank(s@);
        if f < lo {
            assert(is_blank_char(s@[f]));
        }
        if lo < f {
            assert(is_blank_char(s@[lo as int]));
        }
        assert(lo == f);
    }
    let mut hi: usize = len;
    while hi > lo && blank_char(s.get_char(hi - 1))
        invariant
            lo <= hi <= len,
            len == s@.len(),
            lo == first_non_blank(s@),
            forall|k: int| hi <= k < len ==> is_blank_char(s@[k]),
        decreases hi,
    {
        hi = hi - 1;
    }
    proof {
        let e = last_non_blank_end(s@);
        if hi == lo {
            assert(forall|k: int| 0 <= k < s@.len() ==> is_blank_char(s@[k]));
            if e > 0 {
                assert(!is_blank_char(s@[e - 1]));
            }
            assert(e <= lo);
        } else {
            assert(!is_blank_char(s@[hi - 1]));
            if e < hi {
                assert(is_blank_char(s@[hi - 1]));
            }
            if e > hi {
                assert(!is_blank_char(s@[e - 1]));
            }
            assert(e == hi);
        }
    }
    let r = s.substring_char(lo, hi);
    proof {
        if lo == hi {
            assert(r@ =~= trimmed(s@));
        }
    }
    r
}

/// Relies on `String::push`: appends exactly one character.
#[verifier::external_body]
pub(crate) fn push_char(s: &mut String, c: char)
    ensures
        final(s)@ == old(s)@.push(c),
{
    s.push(c);
}

/// Relies on `String::pop`: removes the last character; an empty string is
/// left unchanged.
#[verifier::external_body]
pub(crate) fn pop_char(s: &mut String)
    ensures
        final(s)@ == if old(s)@.len() > 0 {
            old(s)@.drop_last()
        } else {
            old(s)@
        },
{
    s.pop();
}

/// The character for one decimal digit.
pub open spec fn dec_digit(d: int) -> char {
    if d == 0 {
        '0'
    } else if d == 1 {
        '1'
    } else if d == 2 {
        '2'
    } else if d == 3 {
        '3'
    } else if d == 4 {
        '4'
    } else if d == 5 {
        '5'
    } else if d == 6 {
        '6'
    } else if d == 7 {
        '7'
    } else if d == 8 {
        '8'
    } else {
        '9'
    }
}

/// Decimal notation of a non-negative integer, without leading zeros.
pub open spec fn dec_str(n: int) -> Seq<char>
    decreases n,
{
    if n < 0 {
        Seq::empty()
    } else if n < 10 {
        seq![dec_digit(n)]
    } else {
        dec_str(n / 10).push(dec_digit(n % 10))
    }
}

/// The one-character string of a decimal digit.
fn digit_lit(d: u64) -> (r: &'static str)
    requires
        d < 10,
    ensures
        r@ =~= seq![dec_digit(d as int)],
{
    proof {
        reveal_strlit("0");
        reveal_strlit("1");
        reveal_strlit("2");
        reveal_strlit("3");
        reveal_strlit("4");
        reveal_strlit("5");
        reveal_strlit("6");
        reveal_strlit("7");
        reveal_strlit("8");
        reveal_strlit("9");
    }
    if d == 0 {
        "0"
    } else if d == 1 {
        "1"
    } else if d == 2 {
        "2"
    } else if d == 3 {
        "3"
    } else if d == 4 {
        "4"
    } else if d == 5 {
        "5"
    } else if d == 6 {
        "6"
    } else if d == 7 {
        "7"
    } else if d == 8 {
        "8"
    } else {
        "9"
    }
}

/// Decimal notation of a number.
pub fn u64_to_string(n: u64) -> (r: String)
    ensures
        r@ == dec_str(n as int),
    decreases n,
{
    if n < 10 {
        let r = String::from_str(digit_lit(n));
        proof {
            assert(r@ =~= dec_str(n as int));
        }
        r
    } else {
        let mut r = u64_to_string(n / 10);
        r.append(digit_lit(n % 10));
        proof {
            assert(r@ =~= dec_str(n as int));
        }
        r
    }
}

/// First position of `c` in `s` at or after `from`.
pub fn find_char(s: &str, from: usize, c: char) -> (r: Option<usize>)
    requires
        from <= s@.len(),
    ensures
        match r {
            Some(i) => from <= i < s@.len() && s@[i as int] == c && forall|k: int|
                from <= k < i ==> s@[k] != c,
            None => forall|k: int| from <= k < s@.len() ==> s@[k] != c,
        },
{
    let len = s.unicode_len();
    let mut i: usize = from;
    while i < len
        invariant
            from <= i <= len,
            len == s@.len(),
            forall|k: int| from <= k < i ==> s@[k] != c,
        decreases len - i,
    {
        if s.get_char(i) == c {
            return Some(i);
        }
        i = i + 1;
    }
    None
}

} // verus!
