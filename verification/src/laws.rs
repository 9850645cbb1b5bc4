//! What holds of a compaction pass on every buffer, and of two passes in a
//! row.

use vstd::prelude::*;
use crate::bytes::has_prefix;
use crate::compact::{compacted, kept, lemma_kept_len, removed_count, zeros};
use crate::token::{
    first_match, is_separator, lemma_first_match_from, lemma_token_len_bounds, nonempty_patterns,
    separator_free, token_len, COMMA,
};

verus! {

/// No token starts anywhere in `s`.
pub open spec fn token_free(s: Seq<u8>, pats: Seq<Seq<u8>>) -> bool {
    forall|i: int| 0 <= i < s.len() ==> token_len(#[trigger] s.skip(i), pats) is None
}

/// Every token that a scan of `s` drops is followed by a separator or runs to
/// the end of `s`. A token with a value always is.
pub open spec fn tokens_terminated(s: Seq<u8>, pats: Seq<Seq<u8>>) -> bool
    decreases s.len(),
    when nonempty_patterns(pats)
{
    if s.len() == 0 {
        true
    } else {
        match token_len(s, pats) {
            Some(len) => {
                proof {
                    lemma_token_len_bounds(s, pats);
                }
                (len == s.len() || is_separator(s[len])) && tokens_terminated(s.skip(len), pats)
            },
            None => tokens_terminated(s.skip(1), pats),
        }
    }
}

/// A pass does not change the length of the buffer, and the count it returns
/// is that length less the number of bytes kept. The kept bytes stand
/// at the front of the result and every byte behind them is zero.
pub proof fn lemma_compacted_layout(s: Seq<u8>, pats: Seq<Seq<u8>>)
    requires
        nonempty_patterns(pats),
    ensures
        compacted(s, pats).len() == s.len(),
        removed_count(s, pats) == s.len() - kept(s, pats).len(),
        compacted(s, pats).take(kept(s, pats).len() as int) == kept(s, pats),
        forall|i: int| kept(s, pats).len() <= i < s.len() ==> compacted(s, pats)[i] == 0u8,
{
    lemma_kept_len(s, pats);
}

/// A pass over a buffer in which no token starts keeps every byte.
pub proof fn lemma_token_free_kept(s: Seq<u8>, pats: Seq<Seq<u8>>)
    requires
        nonempty_patterns(pats),
        token_free(s, pats),
    ensures
        kept(s, pats) == s,
    decreases s.len(),
{
    if s.len() > 0 {
        assert(s.skip(0) =~= s);
        assert forall|i: int| 0 <= i < s.skip(1).len() implies token_len(
            #[trigger] s.skip(1).skip(i),
            pats,
        ) is None by {
            assert(s.skip(1).skip(i) =~= s.skip(i + 1));
        }
        lemma_token_free_kept(s.skip(1), pats);
        assert(seq![s[0]] + s.skip(1) =~= s);
    }
}

/// A pass that removes nothing ran over a buffer in which no token starts.
pub proof fn lemma_nothing_removed_token_free(s: Seq<u8>, pats: Seq<Seq<u8>>)
    requires
        nonempty_patterns(pats),
        removed_count(s, pats) == 0,
    ensures
        token_free(s, pats),
    decreases s.len(),
{
    lemma_kept_len(s, pats);
    if s.len() > 0 {
        lemma_token_len_bounds(s, pats);
        match token_len(s, pats) {
            Some(len) => {
                // The token's bytes are gone, so something was removed.
                lemma_kept_len(s.skip(len), pats);
            },
            None => {
                lemma_kept_len(s.skip(1), pats);
                lemma_nothing_removed_token_free(s.skip(1), pats);
                assert forall|i: int| 0 <= i < s.len() implies token_len(
                    #[trigger] s.skip(i),
                    pats,
                ) is None by {
                    if i == 0 {
                        assert(s.skip(0) =~= s);
                    } else {
                        assert(s.skip(i) =~= s.skip(1).skip(i - 1));
                    }
                }
            },
        }
    }
}

/// A pass removes nothing exactly when no token starts anywhere in the
/// buffer, and then it leaves the buffer as it is.
pub proof fn lemma_unchanged_iff_token_free(s: Seq<u8>, pats: Seq<Seq<u8>>)
    requires
        nonempty_patterns(pats),
    ensures
        removed_count(s, pats) == 0 <==> token_free(s, pats),
        token_free(s, pats) ==> compacted(s, pats) == s,
{
    if removed_count(s, pats) == 0 {
        lemma_nothing_removed_token_free(s, pats);
    }
    if token_free(s, pats) {
        lemma_token_free_kept(s, pats);
    }
}

/// Two passes in a row: where the first pass leaves no token behind, the
/// second removes nothing and changes nothing.
///
/// A first pass can leave a token behind, because dropping a token joins the
/// bytes on both sides of it; `lemma_terminated_tokens_leave_none` names
/// buffers on which it cannot.
pub proof fn lemma_second_pass(s: Seq<u8>, pats: Seq<Seq<u8>>)
    requires
        nonempty_patterns(pats),
        token_free(compacted(s, pats), pats),
    ensures
        removed_count(compacted(s, pats), pats) == 0,
        compacted(compacted(s, pats), pats) == compacted(s, pats),
{
    lemma_unchanged_iff_token_free(compacted(s, pats), pats);
}

/// What a first pass keeps holds no token exactly when a second pass removes
/// nothing.
pub proof fn lemma_kept_token_free_iff_idempotent(s: Seq<u8>, pats: Seq<Seq<u8>>)
    requires
        nonempty_patterns(pats),
    ensures
        token_free(compacted(s, pats), pats) <==> removed_count(compacted(s, pats), pats) == 0,
{
    lemma_unchanged_iff_token_free(compacted(s, pats), pats);
}

/// A token of a separator-free set starts with a comma and a pattern, or with
/// a pattern, and none of these bytes is a separator. Any sequence that
/// begins with the same bytes starts a token too.
proof fn lemma_token_head(u: Seq<u8>, t: Seq<u8>, pats: Seq<Seq<u8>>) -> (head: int)
    requires
        nonempty_patterns(pats),
        separator_free(pats),
        token_len(u, pats) is Some,
    ensures
        0 < head <= u.len(),
        forall|i: int| 0 <= i < head ==> !is_separator(u[i]),
        head <= t.len() && t.take(head) == u.take(head) ==> token_len(t, pats) is Some,
{
    let skip: int = if u.len() > 0 && u[0] == COMMA { 1 } else { 0 };
    let body = u.skip(skip);
    lemma_first_match_from(body, pats, 0);
    let k = first_match(body, pats)->0;
    let head = skip + pats[k].len();
    assert(has_prefix(body, pats[k]));
    assert forall|i: int| 0 <= i < head implies !is_separator(u[i]) by {
        if i >= skip {
            assert(body.take(pats[k].len() as int)[i - skip] == pats[k][i - skip]);
        }
    }
    if head <= t.len() && t.take(head) == u.take(head) {
        // `t` starts with the same comma, if any, and the same pattern.
        assert(t.take(head)[0] == u.take(head)[0]);
        let t_body = t.skip(skip);
        assert(t_body.take(pats[k].len() as int) =~= body.take(pats[k].len() as int)) by {
            assert forall|i: int| 0 <= i < pats[k].len() implies t_body[i] == body[i] by {
                assert(t.take(head)[i + skip] == u.take(head)[i + skip]);
            }
        }
        assert(has_prefix(t_body, pats[k]));
        lemma_first_match_from(t_body, pats, 0);
    }
    head
}

/// Up to its first separator, what a pass leaves behind is what the buffer
/// began with, provided every dropped token was terminated.
proof fn lemma_compacted_head(s: Seq<u8>, pats: Seq<Seq<u8>>, fill: nat, head: int)
    requires
        nonempty_patterns(pats),
        separator_free(pats),
        tokens_terminated(s, pats),
        fill >= removed_count(s, pats),
        0 <= head <= (kept(s, pats) + zeros(fill)).len(),
        forall|i: int| 0 <= i < head ==> !is_separator((kept(s, pats) + zeros(fill))[i]),
    ensures
        head <= s.len(),
        s.take(head) == (kept(s, pats) + zeros(fill)).take(head),
    decreases s.len(),
{
    let u = kept(s, pats) + zeros(fill);
    lemma_kept_len(s, pats);
    if head == 0 {
        assert(s.take(0) =~= u.take(0));
    } else if s.len() == 0 {
        // Nothing is kept, so `u` is zero fill and begins with a separator.
        assert(is_separator(u[0]));
    } else {
        lemma_token_len_bounds(s, pats);
        match token_len(s, pats) {
            Some(len) => {
                // A token is dropped, so there is fill. What follows the
                // token begins with a separator, which starts no token and is
                // kept: again `u` begins with a separator.
                let rest = s.skip(len);
                lemma_kept_len(rest, pats);
                if len < s.len() {
                    assert(rest[0] == s[len]);
                    if token_len(rest, pats) is Some {
                        let h = lemma_token_head(rest, rest, pats);
                    }
                    assert(kept(rest, pats)[0] == rest[0]);
                }
                assert(is_separator(u[0]));
            },
            None => {
                let rest = s.skip(1);
                let v = kept(rest, pats) + zeros(fill);
                assert(u =~= seq![s[0]] + v);
                assert forall|i: int| 0 <= i < head - 1 implies !is_separator(v[i]) by {
                    assert(v[i] == u[i + 1]);
                }
                lemma_compacted_head(rest, pats, fill, head - 1);
                assert(s.take(head) =~= u.take(head)) by {
                    assert forall|i: int| 0 <= i < head implies s.take(head)[i] == u.take(head)[i] by {
                        if i > 0 {
                            assert(rest.take(head - 1)[i - 1] == v.take(head - 1)[i - 1]);
                        }
                    }
                }
            },
        }
    }
}

/// Where every dropped token was terminated, no token starts in what the
/// pass kept, however much zero fill follows it.
proof fn lemma_terminated_kept_token_free(s: Seq<u8>, pats: Seq<Seq<u8>>, fill: nat)
    requires
        nonempty_patterns(pats),
        separator_free(pats),
        tokens_terminated(s, pats),
        fill >= removed_count(s, pats),
    ensures
        token_free(kept(s, pats) + zeros(fill), pats),
    decreases s.len(),
{
    let u = kept(s, pats) + zeros(fill);
    lemma_kept_len(s, pats);
    if s.len() == 0 {
        // Zero fill only: a token would have to begin with a separator.
        assert forall|i: int| 0 <= i < u.len() implies token_len(#[trigger] u.skip(i), pats) is None by {
            if token_len(u.skip(i), pats) is Some {
                let h = lemma_token_head(u.skip(i), u.skip(i), pats);
                assert(is_separator(u.skip(i)[0]));
            }
        }
    } else {
        lemma_token_len_bounds(s, pats);
        match token_len(s, pats) {
            Some(len) => {
                lemma_kept_len(s.skip(len), pats);
                lemma_terminated_kept_token_free(s.skip(len), pats, fill);
            },
            None => {
                let rest = s.skip(1);
                let v = kept(rest, pats) + zeros(fill);
                lemma_terminated_kept_token_free(rest, pats, fill);
                assert(u =~= seq![s[0]] + v);
                assert forall|i: int| 0 <= i < u.len() implies token_len(#[trigger] u.skip(i), pats) is None by {
                    if i > 0 {
                        assert(u.skip(i) =~= v.skip(i - 1));
                    } else {
                        assert(u.skip(0) =~= u);
                        // A token at the front of `u` would start `s` too,
                        // where the scan found none.
                        if token_len(u, pats) is Some {
                            let head = lemma_token_head(u, s, pats);
                            lemma_compacted_head(s, pats, fill, head);
                        }
                    }
                }
            },
        }
    }
}

/// A pass leaves no token behind where no pattern holds a separator and every
/// token it drops is followed by a separator or ends the buffer.
pub proof fn lemma_terminated_tokens_leave_none(s: Seq<u8>, pats: Seq<Seq<u8>>)
    requires
        nonempty_patterns(pats),
        separator_free(pats),
        tokens_terminated(s, pats),
    ensures
        token_free(compacted(s, pats), pats),
{
    lemma_terminated_kept_token_free(s, pats, removed_count(s, pats));
}

/// On such a buffer the pass is idempotent: a second pass removes nothing and
/// changes nothing.
pub proof fn lemma_idempotent_on_terminated_tokens(s: Seq<u8>, pats: Seq<Seq<u8>>)
    requires
        nonempty_patterns(pats),
        separator_free(pats),
        tokens_terminated(s, pats),
    ensures
        removed_count(compacted(s, pats), pats) == 0,
        compacted(compacted(s, pats), pats) == compacted(s, pats),
{
    lemma_terminated_tokens_leave_none(s, pats);
    lemma_second_pass(s, pats);
}

} // verus!
