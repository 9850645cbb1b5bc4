//! The tokens that a pass would drop, found without touching the buffer.

use vstd::prelude::*;
use crate::compact::{lemma_kept_len, removed_count};
use crate::laws::{lemma_unchanged_iff_token_free, token_free};
use crate::token::{
    lemma_token_len_bounds, match_samsung_patterns, nonempty_patterns, pattern_bytes, token_len,
};

verus! {

/// A token in a buffer: where it starts and how many bytes it has, the
/// leading comma and the value included.
#[derive(Clone, Copy, Debug, PartialEq, Eq)]
pub struct Match {
    pub start: usize,
    pub len: usize,
}

/// The tokens that a scan of `s` from offset `at` on drops, as pairs of start
/// offset and length, in the order in which the scan meets them.
pub open spec fn tokens_from(s: Seq<u8>, pats: Seq<Seq<u8>>, at: int) -> Seq<(int, int)>
    decreases s.len() - at,
    when nonempty_patterns(pats) && 0 <= at
{
    if at >= s.len() {
        Seq::empty()
    } else {
        match token_len(s.skip(at), pats) {
            Some(len) => {
                proof {
                    lemma_token_len_bounds(s.skip(at), pats);
                }
                seq![(at, len)] + tokens_from(s, pats, at + len)
            },
            None => tokens_from(s, pats, at + 1),
        }
    }
}

/// The tokens that a pass over `s` drops.
pub open spec fn tokens(s: Seq<u8>, pats: Seq<Seq<u8>>) -> Seq<(int, int)> {
    tokens_from(s, pats, 0)
}

/// Matches as pairs of start offset and length.
pub open spec fn as_pairs(found: Seq<Match>) -> Seq<(int, int)> {
    Seq::new(found.len(), |i: int| (found[i].start as int, found[i].len as int))
}

/// The sum of the lengths.
pub open spec fn total_len(found: Seq<(int, int)>) -> int
    decreases found.len(),
{
    if found.len() == 0 {
        0
    } else {
        found[0].1 + total_len(found.skip(1))
    }
}

/// The tokens account for every byte that the pass removes.
pub proof fn lemma_tokens_account(s: Seq<u8>, pats: Seq<Seq<u8>>, at: int)
    requires
        nonempty_patterns(pats),
        0 <= at <= s.len(),
    ensures
        total_len(tokens_from(s, pats, at)) == removed_count(s.skip(at), pats),
    decreases s.len() - at,
{
    let rest = s.skip(at);
    lemma_kept_len(rest, pats);
    if at < s.len() {
        lemma_token_len_bounds(rest, pats);
        match token_len(rest, pats) {
            Some(len) => {
                lemma_tokens_account(s, pats, at + len);
                lemma_kept_len(s.skip(at + len), pats);
                assert(rest.skip(len) =~= s.skip(at + len));
                assert(tokens_from(s, pats, at).skip(1) =~= tokens_from(s, pats, at + len));
            },
            None => {
                lemma_tokens_account(s, pats, at + 1);
                lemma_kept_len(s.skip(at + 1), pats);
                assert(rest.skip(1) =~= s.skip(at + 1));
            },
        }
    }
}

/// Every token reported is one that the matching rule finds at its offset,
/// lies inside the sequence, and starts where the one before it has ended or
/// later.
pub proof fn lemma_tokens_ordered(s: Seq<u8>, pats: Seq<Seq<u8>>, at: int)
    requires
        nonempty_patterns(pats),
        0 <= at,
    ensures
        forall|i: int|
            0 <= i < tokens_from(s, pats, at).len() ==> {
                let (start, len) = #[trigger] tokens_from(s, pats, at)[i];
                &&& at <= start
                &&& 0 < len
                &&& start + len <= s.len()
                &&& token_len(s.skip(start), pats) == Some(len)
            },
        forall|i: int, j: int|
            0 <= i < j < tokens_from(s, pats, at).len() ==> (#[trigger] tokens_from(
                s,
                pats,
                at,
            )[i]).0 + tokens_from(s, pats, at)[i].1 <= (#[trigger] tokens_from(s, pats, at)[j]).0,
    decreases s.len() - at,
{
    let found = tokens_from(s, pats, at);
    if at < s.len() {
        lemma_token_len_bounds(s.skip(at), pats);
        match token_len(s.skip(at), pats) {
            Some(len) => {
                let rest = tokens_from(s, pats, at + len);
                lemma_tokens_ordered(s, pats, at + len);
                assert(found[0] == (at, len));
                assert forall|i: int| 0 <= i < found.len() implies {
                    let (start, len) = #[trigger] found[i];
                    &&& at <= start
                    &&& 0 < len
                    &&& start + len <= s.len()
                    &&& token_len(s.skip(start), pats) == Some(len)
                } by {
                    if i > 0 {
                        assert(found[i] == rest[i - 1]);
                    }
                }
                assert forall|i: int, j: int| 0 <= i < j < found.len() implies (#[trigger] found[i]).0
                    + found[i].1 <= (#[trigger] found[j]).0 by {
                    assert(found[j] == rest[j - 1]);
                    if i > 0 {
                        assert(found[i] == rest[i - 1]);
                    }
                }
            },
            None => {
                lemma_tokens_ordered(s, pats, at + 1);
            },
        }
    }
}

/// The scan reports no token exactly when no token starts anywhere in the
/// sequence.
pub proof fn lemma_no_tokens_iff_token_free(s: Seq<u8>, pats: Seq<Seq<u8>>)
    requires
        nonempty_patterns(pats),
    ensures
        tokens(s, pats).len() == 0 <==> token_free(s, pats),
{
    lemma_tokens_account(s, pats, 0);
    lemma_tokens_ordered(s, pats, 0);
    lemma_unchanged_iff_token_free(s, pats);
    assert(s.skip(0) =~= s);
    let found = tokens(s, pats);
    if found.len() > 0 {
        lemma_total_len_bounds(found.skip(1));
        assert(found[0].1 > 0);
    }
}

/// A sum of lengths that are not negative is not negative.
proof fn lemma_total_len_bounds(found: Seq<(int, int)>)
    requires
        forall|i: int| 0 <= i < found.len() ==> (#[trigger] found[i]).1 >= 0,
    ensures
        total_len(found) >= 0,
    decreases found.len(),
{
    if found.len() > 0 {
        lemma_total_len_bounds(found.skip(1));
    }
}

/// Finds the tokens that a pass over `buf` with the pattern set would drop,
/// in ascending order of their offsets. The buffer is only read.
pub fn scan_tokens(buf: &[u8], patterns: &[&str]) -> (found: Vec<Match>)
    requires
        nonempty_patterns(pattern_bytes(patterns@)),
    ensures
        as_pairs(found@) == tokens(buf@, pattern_bytes(patterns@)),
        total_len(as_pairs(found@)) == removed_count(buf@, pattern_bytes(patterns@)),
{
    let ghost pats = pattern_bytes(patterns@);
    let n: usize = buf.len();
    let mut found: Vec<Match> = Vec::new();
    let mut read: usize = 0;
    while read < n
        invariant
            read <= n,
            n == buf@.len(),
            pats == pattern_bytes(patterns@),
            nonempty_patterns(pats),
            as_pairs(found@) + tokens_from(buf@, pats, read as int) == tokens(buf@, pats),
        decreases n - read,
    {
        let ghost seen = as_pairs(found@);
        proof {
            lemma_token_len_bounds(buf@.skip(read as int), pats);
        }
        match match_samsung_patterns(&buf[read..n], patterns) {
            Some(len) => {
                found.push(Match { start: read, len });
                proof {
                    assert(as_pairs(found@) =~= seen.push((read as int, len as int)));
                    assert(seen.push((read as int, len as int)) + tokens_from(
                        buf@,
                        pats,
                        read + len,
                    ) =~= seen + (seq![(read as int, len as int)] + tokens_from(
                        buf@,
                        pats,
                        read + len,
                    )));
                }
                read += len;
            },
            None => {
                read += 1;
            },
        }
    }
    proof {
        lemma_tokens_account(buf@, pats, 0);
        assert(buf@.skip(0) =~= buf@);
    }
    found
}

} // verus!
