//! Flag-value extraction from delimiter-separated `key=value` text,
//! such as a kernel command line.
//!
//! The content is split on the delimiter into an ordered token
//! sequence; each token splits on its first `=` into a key and a raw
//! value (tokens without `=` are discarded); the first token, left to
//! right, whose key equals the flag exactly and whose value trims to
//! something non-empty decides the result.

use vstd::prelude::*;
use vstd::string::StrSliceExecFns;
use vstd::string::StringExecFns;

use crate::error::IdentityError;
use crate::text::find_char;
use crate::text::find_char_in;
use crate::text::range_eq;
use crate::text::trim;
use crate::text::trim_range;

verus! {

/// The token sequence that splitting `s` on the delimiter `d` yields,
/// order preserved, empty tokens kept.
pub open spec fn split_tokens(s: Seq<char>, d: Seq<char>) -> Seq<Seq<char>>
    decreases s.len(),
{
    if d.len() == 0 || s.len() == 0 {
        seq![s]
    } else if d.len() <= s.len() && s.take(d.len() as int) == d {
        seq![Seq::<char>::empty()] + split_tokens(s.skip(d.len() as int), d)
    } else {
        let rest = split_tokens(s.skip(1), d);
        seq![seq![s[0]] + rest[0]] + rest.skip(1)
    }
}

/// What a single token contributes: the trimmed value, if the token
/// has an `=`, its key equals `flag` exactly, and the part after the
/// first `=` trims to something non-empty.
pub open spec fn token_result(flag: Seq<char>, t: Seq<char>) -> Option<Seq<char>> {
    match find_char(t, '=') {
        Some(e) => {
            let key = t.take(e);
            let value = t.skip(e + 1);
            if key == flag && trim(value).len() > 0 {
                Some(trim(value))
            } else {
                None
            }
        },
        None => None,
    }
}

/// Left-to-right scan of a token sequence: the first usable match wins.
pub open spec fn token_value(flag: Seq<char>, toks: Seq<Seq<char>>) -> Option<Seq<char>>
    decreases toks.len(),
{
    if toks.len() == 0 {
        None
    } else {
        match token_result(flag, toks[0]) {
            Some(v) => Some(v),
            None => token_value(flag, toks.skip(1)),
        }
    }
}

/// A partially accumulated token grafted onto the front of the token
/// sequence of the remaining content.
pub open spec fn graft(head: Seq<char>, toks: Seq<Seq<char>>) -> Seq<Seq<char>>
    recommends
        toks.len() > 0,
{
    seq![head + toks[0]] + toks.skip(1)
}

/// The value that `find_flag_value` returns: the first usable
/// occurrence of `flag` in `content` split on `delim`. An empty
/// delimiter finds nothing: splitting on it yields only empty and
/// single-character tokens, and no such token carries both a key and a
/// non-empty value.
pub open spec fn flag_value_spec(flag: Seq<char>, content: Seq<char>, delim: Seq<char>) -> Option<
    Seq<char>,
> {
    if delim.len() == 0 {
        None
    } else {
        token_value(flag, split_tokens(content, delim))
    }
}

/// Splitting always yields at least one token.
pub proof fn lemma_split_tokens_len(s: Seq<char>, d: Seq<char>)
    ensures
        split_tokens(s, d).len() >= 1,
{
}

/// Grafting an empty head onto a token sequence leaves it unchanged.
pub proof fn lemma_graft_empty(toks: Seq<Seq<char>>)
    requires
        toks.len() >= 1,
    ensures
        graft(Seq::<char>::empty(), toks) == toks,
{
    assert(Seq::<char>::empty() + toks[0] =~= toks[0]);
    assert(graft(Seq::<char>::empty(), toks) =~~= toks);
}

/// Does the delimiter `d` occur in `s` exactly at position `i`?
fn delim_at(s: &str, d: &str, i: usize) -> (b: bool)
    requires
        i <= s@.len(),
    ensures
        b == (i + d@.len() <= s@.len() && s@.subrange(i as int, i + d@.len()) == d@),
{
    let n = s.unicode_len();
    let dlen = d.unicode_len();
    if dlen > n - i {
        false
    } else {
        range_eq(s, i, i + dlen, d)
    }
}

/// Evaluates the token standing in the range `[lo, hi)` of `s` against
/// `flag`, returning the bounds of the trimmed value on a usable match.
fn token_match(s: &str, flag: &str, lo: usize, hi: usize) -> (r: Option<(usize, usize)>)
    requires
        lo <= hi <= s@.len(),
    ensures
        (match r {
            Some(ab) => lo <= ab.0 < ab.1 <= hi && token_result(
                flag@,
                s@.subrange(lo as int, hi as int),
            ) == Some(s@.subrange(ab.0 as int, ab.1 as int)),
            None => token_result(flag@, s@.subrange(lo as int, hi as int)) is None,
        }),
{
    let ghost t = s@.subrange(lo as int, hi as int);
    match find_char_in(s, lo, hi, '=') {
        None => None,
        Some(e) => {
            proof {
                assert(t.take(e - lo) =~= s@.subrange(lo as int, e as int));
                assert(t.skip(e - lo + 1) =~= s@.subrange(e + 1, hi as int));
            }
            let key_ok = range_eq(s, lo, e, flag);
            if !key_ok {
                return None;
            }
            let tr = trim_range(s, e + 1, hi);
            if tr.0 < tr.1 {
                Some((tr.0, tr.1))
            } else {
                proof {
                    assert(s@.subrange(tr.0 as int, tr.1 as int).len() == 0);
                }
                None
            }
        },
    }
}

/// Finds the value of `flagname` in `cmdline` split on `delimiter`:
/// the first occurrence, left to right, whose key equals the flag
/// exactly and whose value trims to something non-empty. Occurrences
/// whose value trims to empty are passed over, not errors.
pub fn find_flag_value(flagname: &str, cmdline: &str, delimiter: &str) -> (r: Option<String>)
    ensures
        (match r {
            Some(v) => flag_value_spec(flagname@, cmdline@, delimiter@) == Some(v@),
            None => flag_value_spec(flagname@, cmdline@, delimiter@) is None,
        }),
{
    let n = cmdline.unicode_len();
    let dlen = delimiter.unicode_len();
    if dlen == 0 {
        return None;
    }
    let mut ts: usize = 0;
    let mut i: usize = 0;
    proof {
        lemma_split_tokens_len(cmdline@, delimiter@);
        assert(cmdline@.subrange(0, n as int) =~= cmdline@);
        assert(cmdline@.subrange(0, 0) =~= Seq::<char>::empty());
        lemma_graft_empty(split_tokens(cmdline@, delimiter@));
    }
    while i < n
        invariant
            ts <= i <= n,
            n == cmdline@.len(),
            dlen == delimiter@.len(),
            dlen >= 1,
            token_value(flagname@, split_tokens(cmdline@, delimiter@)) == token_value(
                flagname@,
                graft(
                    cmdline@.subrange(ts as int, i as int),
                    split_tokens(cmdline@.subrange(i as int, n as int), delimiter@),
                ),
            ),
        decreases n - i,
    {
        let ghost tok = cmdline@.subrange(ts as int, i as int);
        let ghost rem = cmdline@.subrange(i as int, n as int);
        if delim_at(cmdline, delimiter, i) {
            let ghost rem2 = cmdline@.subrange(i + dlen, n as int);
            proof {
                assert(rem.take(dlen as int) =~= cmdline@.subrange(i as int, i + dlen));
                assert(rem.skip(dlen as int) =~= rem2);
                lemma_split_tokens_len(rem2, delimiter@);
                assert(split_tokens(rem, delimiter@) == seq![Seq::<char>::empty()]
                    + split_tokens(rem2, delimiter@));
                assert(tok + Seq::<char>::empty() =~= tok);
                assert(graft(tok, split_tokens(rem, delimiter@)) =~~= seq![tok] + split_tokens(
                    rem2,
                    delimiter@,
                ));
                assert((seq![tok] + split_tokens(rem2, delimiter@)).skip(1) =~~= split_tokens(
                    rem2,
                    delimiter@,
                ));
            }
            match token_match(cmdline, flagname, ts, i) {
                Some(ab) => {
                    let sub = cmdline.substring_char(ab.0, ab.1);
                    return Some(String::from_str(sub));
                },
                None => {
                    proof {
                        lemma_graft_empty(split_tokens(rem2, delimiter@));
                    }
                },
            }
            i = i + dlen;
            ts = i;
        } else {
            let ghost rem1 = cmdline@.subrange(i + 1, n as int);
            proof {
                if dlen <= rem.len() {
                    assert(rem.take(dlen as int) =~= cmdline@.subrange(i as int, i + dlen));
                }
                assert(rem.skip(1) =~= rem1);
                lemma_split_tokens_len(rem1, delimiter@);
                let rest = split_tokens(rem1, delimiter@);
                assert(rem[0] == cmdline@[i as int]);
                assert(split_tokens(rem, delimiter@) =~~= seq![seq![cmdline@[i as int]] + rest[0]]
                    + rest.skip(1));
                assert(tok + (seq![cmdline@[i as int]] + rest[0]) =~= cmdline@.subrange(
                    ts as int,
                    i + 1,
                ) + rest[0]);
                assert(graft(tok, split_tokens(rem, delimiter@)) =~~= graft(
                    cmdline@.subrange(ts as int, i + 1),
                    rest,
                ));
            }
            i = i + 1;
        }
    }
    let ghost tok = cmdline@.subrange(ts as int, n as int);
    proof {
        assert(cmdline@.subrange(n as int, n as int).len() == 0);
        assert(split_tokens(cmdline@.subrange(n as int, n as int), delimiter@) == seq![
            cmdline@.subrange(n as int, n as int),
        ]);
        assert(graft(tok, split_tokens(cmdline@.subrange(n as int, n as int), delimiter@))
            =~~= seq![tok]);
        assert(seq![tok].skip(1).len() == 0);
    }
    match token_match(cmdline, flagname, ts, n) {
        Some(ab) => {
            proof {
                assert(seq![tok][0] == tok);
                assert(token_value(flagname@, seq![tok]) == token_result(flagname@, tok));
            }
            let sub = cmdline.substring_char(ab.0, ab.1);
            Some(String::from_str(sub))
        },
        None => {
            proof {
                assert(seq![tok][0] == tok);
                assert(token_value(flagname@, seq![tok].skip(1)) is None);
                assert(token_value(flagname@, seq![tok]) is None);
            }
            None
        },
    }
}

/// Applies `find_flag_value` to the outcome of a file read that the
/// caller performed. A failed read becomes an `Io` error carrying
/// `fpath` and the OS error text; content without a usable occurrence
/// of `flag` becomes a `NotFound` error carrying `flag` and `fpath`.
pub fn get_value_by_flag(
    flag: &str,
    fpath: &str,
    delimiter: &str,
    contents: Result<String, String>,
) -> (r: Result<String, IdentityError>)
    ensures
        (match contents {
            Err(e) => r matches Err(IdentityError::Io { path, detail }) && path@ == fpath@
                && detail@ == e@,
            Ok(c) => match flag_value_spec(flag@, c@, delimiter@) {
                Some(v) => r matches Ok(s) && s@ == v,
                None => r matches Err(IdentityError::NotFound { flag: f, path: p }) && f@ == flag@
                    && p@ == fpath@,
            },
        }),
{
    match contents {
        Err(e) => Err(IdentityError::Io { path: String::from_str(fpath), detail: e }),
        Ok(c) => match find_flag_value(flag, c.as_str(), delimiter) {
            Some(v) => Ok(v),
            None => Err(
                IdentityError::NotFound {
                    flag: String::from_str(flag),
                    path: String::from_str(fpath),
                },
            ),
        },
    }
}

/// Empty content never yields a value, whatever the flag and delimiter.
pub proof fn lemma_empty_content_not_found(flag: Seq<char>, delim: Seq<char>)
    ensures
        flag_value_spec(flag, Seq::<char>::empty(), delim) is None,
{
    if delim.len() > 0 {
        let toks = split_tokens(Seq::<char>::empty(), delim);
        assert(toks == seq![Seq::<char>::empty()]);
        assert(find_char(Seq::<char>::empty(), '=') is None);
        assert(token_result(flag, Seq::<char>::empty()) is None);
        assert(toks.skip(1).len() == 0);
        assert(token_value(flag, toks.skip(1)) is None);
    }
}

/// If no token yields a usable match, the scan finds nothing.
pub proof fn lemma_no_qualifying_token(flag: Seq<char>, toks: Seq<Seq<char>>)
    requires
        forall|j: int| 0 <= j < toks.len() ==> token_result(flag, #[trigger] toks[j]) is None,
    ensures
        token_value(flag, toks) is None,
    decreases toks.len(),
{
    if toks.len() > 0 {
        assert(token_result(flag, toks[0]) is None);
        assert forall|j: int|
            0 <= j < toks.skip(1).len() implies token_result(
            flag,
            #[trigger] toks.skip(1)[j],
        ) is None by {
            assert(toks.skip(1)[j] == toks[j + 1]);
        }
        lemma_no_qualifying_token(flag, toks.skip(1));
    }
}

/// A token with no `=` never matters: removing it from the token
/// sequence, wherever it stands and whatever it holds, leaves the
/// scan's result unchanged.
pub proof fn lemma_token_without_eq_ignored(flag: Seq<char>, toks: Seq<Seq<char>>, i: int)
    requires
        0 <= i < toks.len(),
        find_char(toks[i], '=') is None,
    ensures
        token_value(flag, toks) == token_value(flag, toks.remove(i)),
    decreases i,
{
    if i == 0 {
        assert(token_result(flag, toks[0]) is None);
        assert(toks.remove(0) =~~= toks.skip(1));
    } else {
        let rest = toks.skip(1);
        assert(rest[i - 1] == toks[i]);
        lemma_token_without_eq_ignored(flag, rest, i - 1);
        assert(toks.remove(i)[0] == toks[0]);
        assert(toks.remove(i).skip(1) =~~= rest.remove(i - 1));
        assert(toks.remove(i).len() > 0);
    }
}

/// Key matching is exact: if no token's key equals the flag letter for
/// letter, nothing is found — no substring or case-changed key matches.
pub proof fn lemma_exact_match_only(flag: Seq<char>, toks: Seq<Seq<char>>)
    requires
        forall|j: int|
            0 <= j < toks.len() ==> match find_char(#[trigger] toks[j], '=') {
                Some(e) => toks[j].take(e) != flag,
                None => true,
            },
    ensures
        token_value(flag, toks) is None,
{
    assert forall|j: int|
        0 <= j < toks.len() implies token_result(flag, #[trigger] toks[j]) is None by {}
    lemma_no_qualifying_token(flag, toks);
}

/// If every occurrence of the flag carries a value that trims to
/// empty, the scan reports `not found`.
pub proof fn lemma_empty_valued_matches_not_found(flag: Seq<char>, toks: Seq<Seq<char>>)
    requires
        forall|j: int|
            0 <= j < toks.len() ==> match find_char(#[trigger] toks[j], '=') {
                Some(e) => toks[j].take(e) == flag ==> trim(toks[j].skip(e + 1)).len() == 0,
                None => true,
            },
    ensures
        token_value(flag, toks) is None,
{
    assert forall|j: int|
        0 <= j < toks.len() implies token_result(flag, #[trigger] toks[j]) is None by {}
    lemma_no_qualifying_token(flag, toks);
}

/// A value is found exactly when some token qualifies: the scan
/// returns `Some` if and only if a token with the flag's key and a
/// non-empty trimmed value stands somewhere in the sequence.
pub proof fn lemma_found_iff_qualifying_token(flag: Seq<char>, toks: Seq<Seq<char>>)
    ensures
        token_value(flag, toks) is Some <==> exists|j: int|
            0 <= j < toks.len() && #[trigger] token_result(flag, toks[j]) is Some,
    decreases toks.len(),
{
    if toks.len() > 0 {
        lemma_found_iff_qualifying_token(flag, toks.skip(1));
        match token_result(flag, toks[0]) {
            Some(_) => {
                assert(0 <= 0 < toks.len() && token_result(flag, toks[0]) is Some);
            },
            None => {
                if token_value(flag, toks) is Some {
                    let j = choose|j: int|
                        0 <= j < toks.skip(1).len() && #[trigger] token_result(
                            flag,
                            toks.skip(1)[j],
                        ) is Some;
                    assert(toks.skip(1)[j] == toks[j + 1]);
                    assert(token_result(flag, toks[j + 1]) is Some);
                }
                if exists|j: int|
                    0 <= j < toks.len() && #[trigger] token_result(flag, toks[j]) is Some {
                    let j = choose|j: int|
                        0 <= j < toks.len() && #[trigger] token_result(flag, toks[j]) is Some;
                    assert(j != 0);
                    assert(toks.skip(1)[j - 1] == toks[j]);
                    assert(token_result(flag, toks.skip(1)[j - 1]) is Some);
                }
            },
        }
    }
}

/// First match wins: the earliest token with a usable match decides
/// the result, whatever stands after it.
pub proof fn lemma_first_match_wins(flag: Seq<char>, toks: Seq<Seq<char>>, i: int)
    requires
        0 <= i < toks.len(),
        token_result(flag, toks[i]) is Some,
        forall|j: int| 0 <= j < i ==> token_result(flag, #[trigger] toks[j]) is None,
    ensures
        token_value(flag, toks) == token_result(flag, toks[i]),
    decreases i,
{
    if i > 0 {
        let rest = toks.skip(1);
        assert(rest[i - 1] == toks[i]);
        assert forall|j: int|
            0 <= j < i - 1 implies token_result(flag, #[trigger] rest[j]) is None by {
            assert(rest[j] == toks[j + 1]);
        }
        lemma_first_match_wins(flag, rest, i - 1);
        assert(token_result(flag, toks[0]) is None);
    }
}

} // verus!
