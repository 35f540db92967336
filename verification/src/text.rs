//! Character and string-slice helpers: whitespace, character search,
//! whitespace trimming, and range equality, each verified against a
//! sequence-level model.

use vstd::prelude::*;
use vstd::string::StrSliceExecFns;

verus! {

/// The Unicode `White_Space` code points: the set of characters that
/// trimming removes from both ends of a value.
pub open spec fn is_space(c: char) -> bool {
    let u = c as u32;
    (0x09 <= u && u <= 0x0d)
        || u == 0x20
        || u == 0x85
        || u == 0xa0
        || u == 0x1680
        || (0x2000 <= u && u <= 0x200a)
        || u == 0x2028
        || u == 0x2029
        || u == 0x202f
        || u == 0x205f
        || u == 0x3000
}

/// Runtime whitespace test, equal to the spec-level `is_space`.
pub fn is_space_char(c: char) -> (b: bool)
    ensures
        b == is_space(c),
{
    let u = c as u32;
    (0x09 <= u && u <= 0x0d)
        || u == 0x20
        || u == 0x85
        || u == 0xa0
        || u == 0x1680
        || (0x2000 <= u && u <= 0x200a)
        || u == 0x2028
        || u == 0x2029
        || u == 0x202f
        || u == 0x205f
        || u == 0x3000
}

/// Index of the first occurrence of `c` in `s`, if any.
pub open spec fn find_char(s: Seq<char>, c: char) -> Option<int>
    decreases s.len(),
{
    if s.len() == 0 {
        None
    } else if s[0] == c {
        Some(0int)
    } else {
        match find_char(s.skip(1), c) {
            Some(i) => Some(i + 1),
            None => None,
        }
    }
}

/// `s` with leading whitespace removed.
pub open spec fn trim_start(s: Seq<char>) -> Seq<char>
    decreases s.len(),
{
    if s.len() > 0 && is_space(s[0]) {
        trim_start(s.skip(1))
    } else {
        s
    }
}

/// `s` with trailing whitespace removed.
pub open spec fn trim_end(s: Seq<char>) -> Seq<char>
    decreases s.len(),
{
    if s.len() > 0 && is_space(s[s.len() - 1]) {
        trim_end(s.take(s.len() - 1))
    } else {
        s
    }
}

/// `s` with both leading and trailing whitespace removed.
pub open spec fn trim(s: Seq<char>) -> Seq<char> {
    trim_end(trim_start(s))
}

/// Compares the character range `[lo, hi)` of `s` with the whole of `t`.
pub fn range_eq(s: &str, lo: usize, hi: usize, t: &str) -> (b: bool)
    requires
        lo <= hi <= s@.len(),
    ensures
        b == (s@.subrange(lo as int, hi as int) == t@),
{
    let tlen = t.unicode_len();
    if tlen != hi - lo {
        return false;
    }
    let mut j: usize = 0;
    while j < tlen
        invariant
            lo <= hi <= s@.len(),
            tlen == t@.len(),
            hi - lo == tlen,
            j <= tlen,
            forall|k: int| 0 <= k < j ==> s@[lo + k] == t@[k],
        decreases tlen - j,
    {
        let cs = s.get_char(lo + j);
        let ct = t.get_char(j);
        if cs != ct {
            proof {
                assert(s@.subrange(lo as int, hi as int)[j as int] == s@[lo + j]);
            }
            return false;
        }
        j += 1;
    }
    proof {
        assert(s@.subrange(lo as int, hi as int) =~= t@);
    }
    true
}

/// String equality over character sequences.
pub fn str_eq(a: &str, b: &str) -> (r: bool)
    ensures
        r == (a@ == b@),
{
    let n = a.unicode_len();
    let r = range_eq(a, 0, n, b);
    proof {
        assert(a@.subrange(0, a@.len() as int) =~= a@);
    }
    r
}

/// Finds the first occurrence of `c` within the range `[lo, hi)` of `s`,
/// reported as an absolute index into `s`.
pub fn find_char_in(s: &str, lo: usize, hi: usize, c: char) -> (r: Option<usize>)
    requires
        lo <= hi <= s@.len(),
    ensures
        match r {
            Some(e) => lo <= e < hi && find_char(
                s@.subrange(lo as int, hi as int),
                c,
            ) == Some(e - lo),
            None => find_char(s@.subrange(lo as int, hi as int), c) is None,
        },
{
    let mut j: usize = lo;
    while j < hi
        invariant
            lo <= j <= hi <= s@.len(),
            (match find_char(s@.subrange(j as int, hi as int), c) {
                Some(e) => find_char(s@.subrange(lo as int, hi as int), c) == Some(e + j - lo),
                None => find_char(s@.subrange(lo as int, hi as int), c) is None,
            }),
        decreases hi - j,
    {
        let cj = s.get_char(j);
        if cj == c {
            proof {
                assert(s@.subrange(j as int, hi as int)[0] == s@[j as int]);
                assert(find_char(s@.subrange(j as int, hi as int), c) == Some(0int));
            }
            return Some(j);
        }
        proof {
            let rem = s@.subrange(j as int, hi as int);
            assert(rem.skip(1) =~= s@.subrange(j + 1, hi as int));
            assert(rem[0] == s@[j as int]);
            assert(find_char(rem, c) == match find_char(rem.skip(1), c) {
                Some(i) => Some(i + 1),
                None => None::<int>,
            });
        }
        j += 1;
    }
    proof {
        assert(s@.subrange(hi as int, hi as int).len() == 0);
    }
    None
}

/// Trims whitespace from both ends of the range `[lo, hi)` of `s`,
/// returning the bounds of the trimmed middle.
pub fn trim_range(s: &str, lo: usize, hi: usize) -> (r: (usize, usize))
    requires
        lo <= hi <= s@.len(),
    ensures
        lo <= r.0 <= r.1 <= hi,
        s@.subrange(r.0 as int, r.1 as int) == trim(
            s@.subrange(lo as int, hi as int),
        ),
{
    let mut a: usize = lo;
    while a < hi
        invariant
            lo <= a <= hi <= s@.len(),
            trim_start(s@.subrange(lo as int, hi as int)) == trim_start(
                s@.subrange(a as int, hi as int),
            ),
        ensures
            lo <= a <= hi <= s@.len(),
            trim_start(s@.subrange(lo as int, hi as int)) == s@.subrange(a as int, hi as int),
        decreases hi - a,
    {
        let c = s.get_char(a);
        proof {
            assert(s@.subrange(a as int, hi as int)[0] == s@[a as int]);
        }
        if !is_space_char(c) {
            break;
        }
        proof {
            let rem = s@.subrange(a as int, hi as int);
            assert(rem.skip(1) =~= s@.subrange(a + 1, hi as int));
        }
        a += 1;
    }
    let ghost started = s@.subrange(a as int, hi as int);
    let mut b: usize = hi;
    while b > a
        invariant
            lo <= a <= b <= hi <= s@.len(),
            started == s@.subrange(a as int, hi as int),
            trim_end(started) == trim_end(s@.subrange(a as int, b as int)),
        ensures
            a <= b <= hi,
            trim_end(started) == s@.subrange(a as int, b as int),
        decreases b,
    {
        let c = s.get_char(b - 1);
        proof {
            let cur = s@.subrange(a as int, b as int);
            assert(cur[cur.len() - 1] == s@[b - 1]);
        }
        if !is_space_char(c) {
            break;
        }
        proof {
            let cur = s@.subrange(a as int, b as int);
            assert(cur.take(cur.len() - 1) =~= s@.subrange(a as int, b - 1));
        }
        b -= 1;
    }
    (a, b)
}

} // verus!
