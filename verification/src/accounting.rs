//! Passes in sequence, and the accounting of non-zero bytes that bounds what
//! they remove: a pass drops non-zero bytes only, as long as no pattern holds
//! a NUL, so the passes of a sequence cannot drop more bytes in total than the
//! buffer has.

use vstd::prelude::*;
use crate::bytes::has_prefix;
use crate::compact::{compacted, kept, lemma_kept_len, removed_count, zeros};
use crate::token::{
    first_match, is_separator, lemma_first_match_from, lemma_token_len_bounds, lemma_value_end,
    nonempty_patterns, nul_free, token_len, value_end, COMMA, EQUALS,
};

verus! {

/// The buffer after one pass with each of the sets, first to last, each pass
/// working on what the one before it left.
pub open spec fn after_passes(s: Seq<u8>, sets: Seq<Seq<Seq<u8>>>) -> Seq<u8>
    decreases sets.len(),
{
    if sets.len() == 0 {
        s
    } else {
        compacted(after_passes(s, sets.drop_last()), sets.last())
    }
}

/// The number of bytes that the passes remove in total.
pub open spec fn removed_by_passes(s: Seq<u8>, sets: Seq<Seq<Seq<u8>>>) -> nat
    decreases sets.len(),
{
    if sets.len() == 0 {
        0
    } else {
        removed_by_passes(s, sets.drop_last()) + removed_count(
            after_passes(s, sets.drop_last()),
            sets.last(),
        )
    }
}

/// One more pass: the first `n + 1` passes are the first `n` and then a pass
/// with the next set over what these left.
pub proof fn lemma_next_pass(s: Seq<u8>, sets: Seq<Seq<Seq<u8>>>, n: int)
    requires
        0 <= n < sets.len(),
    ensures
        after_passes(s, sets.take(n + 1)) == compacted(after_passes(s, sets.take(n)), sets[n]),
        removed_by_passes(s, sets.take(n + 1)) == removed_by_passes(s, sets.take(n))
            + removed_count(after_passes(s, sets.take(n)), sets[n]),
{
    assert(sets.take(n + 1).drop_last() =~= sets.take(n));
}

/// The number of bytes of `s` that are not zero.
pub open spec fn nonzero_count(s: Seq<u8>) -> nat
    decreases s.len(),
{
    if s.len() == 0 {
        0
    } else {
        nonzero_count(s.drop_last()) + if s.last() != 0u8 { 1nat } else { 0nat }
    }
}

/// A sequence has no more non-zero bytes than bytes.
pub proof fn lemma_nonzero_count_bound(s: Seq<u8>)
    ensures
        nonzero_count(s) <= s.len(),
    decreases s.len(),
{
    if s.len() > 0 {
        lemma_nonzero_count_bound(s.drop_last());
    }
}

/// The count of a concatenation is the sum of the counts.
pub proof fn lemma_nonzero_count_concat(a: Seq<u8>, b: Seq<u8>)
    ensures
        nonzero_count(a + b) == nonzero_count(a) + nonzero_count(b),
    decreases b.len(),
{
    if b.len() == 0 {
        assert(a + b =~= a);
    } else {
        assert((a + b).drop_last() =~= a + b.drop_last());
        lemma_nonzero_count_concat(a, b.drop_last());
    }
}

/// Where every byte is non-zero, the count is the length.
pub proof fn lemma_nonzero_count_full(s: Seq<u8>)
    requires
        forall|i: int| 0 <= i < s.len() ==> s[i] != 0u8,
    ensures
        nonzero_count(s) == s.len(),
    decreases s.len(),
{
    if s.len() > 0 {
        lemma_nonzero_count_full(s.drop_last());
    }
}

/// Zero fill counts for nothing.
pub proof fn lemma_nonzero_count_zeros(n: nat)
    ensures
        nonzero_count(zeros(n)) == 0,
    decreases n,
{
    if n > 0 {
        assert(zeros(n).drop_last() =~= zeros((n - 1) as nat));
        lemma_nonzero_count_zeros((n - 1) as nat);
    }
}

/// A token of a NUL-free set holds no zero byte: the comma, the pattern, the
/// equals sign and the value up to its separator are all non-zero.
pub proof fn lemma_token_bytes_nonzero(rest: Seq<u8>, pats: Seq<Seq<u8>>)
    requires
        nul_free(pats),
        token_len(rest, pats) is Some,
    ensures
        forall|i: int| 0 <= i < token_len(rest, pats)->0 ==> rest[i] != 0u8,
{
    let skip: int = if rest.len() > 0 && rest[0] == COMMA { 1 } else { 0 };
    let body = rest.skip(skip);
    lemma_first_match_from(body, pats, 0);
    lemma_token_len_bounds(rest, pats);
    let k = first_match(body, pats)->0;
    let named = skip + pats[k].len();
    assert(has_prefix(body, pats[k]));
    assert forall|i: int| skip <= i < named implies rest[i] != 0u8 by {
        assert(body.take(pats[k].len() as int)[i - skip] == pats[k][i - skip]);
    }
    if named < rest.len() && rest[named] == EQUALS {
        lemma_value_end(rest, named);
        assert forall|i: int| named <= i < value_end(rest, named) implies rest[i] != 0u8 by {
            assert(!is_separator(rest[i]));
        }
    }
}

/// A pass with a NUL-free set drops exactly as many non-zero bytes as it
/// drops bytes.
pub proof fn lemma_kept_nonzero_count(s: Seq<u8>, pats: Seq<Seq<u8>>)
    requires
        nonempty_patterns(pats),
        nul_free(pats),
    ensures
        nonzero_count(kept(s, pats)) + removed_count(s, pats) == nonzero_count(s),
    decreases s.len(),
{
    if s.len() > 0 {
        lemma_token_len_bounds(s, pats);
        match token_len(s, pats) {
            Some(len) => {
                lemma_token_bytes_nonzero(s, pats);
                lemma_kept_nonzero_count(s.skip(len), pats);
                lemma_kept_len(s.skip(len), pats);
                lemma_nonzero_count_full(s.take(len));
                lemma_nonzero_count_concat(s.take(len), s.skip(len));
                assert(s.take(len) + s.skip(len) =~= s);
            },
            None => {
                lemma_kept_nonzero_count(s.skip(1), pats);
                lemma_kept_len(s.skip(1), pats);
                lemma_nonzero_count_concat(seq![s[0]], kept(s.skip(1), pats));
                lemma_nonzero_count_concat(seq![s[0]], s.skip(1));
                assert(seq![s[0]] + s.skip(1) =~= s);
            },
        }
    }
}

/// After a pass with a NUL-free set, the buffer has as many non-zero bytes
/// fewer as the pass removed.
pub proof fn lemma_compacted_nonzero_count(s: Seq<u8>, pats: Seq<Seq<u8>>)
    requires
        nonempty_patterns(pats),
        nul_free(pats),
    ensures
        nonzero_count(compacted(s, pats)) + removed_count(s, pats) == nonzero_count(s),
        removed_count(s, pats) <= nonzero_count(s),
{
    lemma_kept_nonzero_count(s, pats);
    lemma_nonzero_count_concat(kept(s, pats), zeros(removed_count(s, pats)));
    lemma_nonzero_count_zeros(removed_count(s, pats));
}

/// What a sequence of passes removes in total and the non-zero bytes that
/// are left after it add up to the non-zero bytes of the buffer it began
/// with. So the total never exceeds the buffer's length.
pub proof fn lemma_removed_by_passes(s: Seq<u8>, sets: Seq<Seq<Seq<u8>>>)
    requires
        forall|k: int| 0 <= k < sets.len() ==> nonempty_patterns(#[trigger] sets[k]) && nul_free(sets[k]),
    ensures
        removed_by_passes(s, sets) + nonzero_count(after_passes(s, sets)) == nonzero_count(s),
        removed_by_passes(s, sets) <= s.len(),
        after_passes(s, sets).len() == s.len(),
    decreases sets.len(),
{
    lemma_nonzero_count_bound(s);
    if sets.len() > 0 {
        let front = sets.drop_last();
        assert forall|k: int| 0 <= k < front.len() implies nonempty_patterns(#[trigger] front[k])
            && nul_free(front[k]) by {
            assert(front[k] == sets[k]);
        }
        lemma_removed_by_passes(s, front);
        lemma_compacted_nonzero_count(after_passes(s, front), sets.last());
        lemma_kept_len(after_passes(s, front), sets.last());
    }
}

} // verus!
