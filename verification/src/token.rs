//! The matching rule: what counts as a token at the front of a byte sequence.
//!
//! A token is an optional leading comma, one pattern of the set, and, where an
//! equals sign follows the pattern, that sign and the value behind it up to the
//! first separator.

use vstd::prelude::*;
use vstd::string::StringSliceAdditionalSpecFns;
use crate::bytes::{has_prefix, starts_with};

verus! {

/// The byte that may precede a token.
pub const COMMA: u8 = 0x2c;

/// The byte that introduces a token's value.
pub const EQUALS: u8 = 0x3d;

/// Space, newline and NUL end a value.
pub open spec fn is_separator(b: u8) -> bool {
    b == 0x20 || b == 0x0a || b == 0x00
}

/// A pattern set as the byte strings that are compared against the buffer.
pub open spec fn pattern_bytes(patterns: Seq<&str>) -> Seq<Seq<u8>> {
    Seq::new(patterns.len(), |k: int| patterns[k].spec_bytes())
}

/// No pattern of the set is empty. A set with an empty pattern would match
/// without consuming anything, so the scan would not advance.
pub open spec fn nonempty_patterns(pats: Seq<Seq<u8>>) -> bool {
    forall|k: int| 0 <= k < pats.len() ==> (#[trigger] pats[k]).len() > 0
}

/// No byte of any pattern is NUL.
pub open spec fn nul_free(pats: Seq<Seq<u8>>) -> bool {
    forall|k: int, i: int|
        0 <= k < pats.len() && 0 <= i < pats[k].len() ==> #[trigger] pats[k][i] != 0u8
}

/// No pattern holds a space, a newline or a NUL.
pub open spec fn separator_free(pats: Seq<Seq<u8>>) -> bool {
    forall|k: int, i: int|
        0 <= k < pats.len() && 0 <= i < pats[k].len() ==> !is_separator(#[trigger] pats[k][i])
}

/// The index, at or after `from`, of the first pattern that is a prefix of
/// `body`; declaration order breaks ties.
pub open spec fn first_match_from(body: Seq<u8>, pats: Seq<Seq<u8>>, from: int) -> Option<int>
    decreases pats.len() - from,
{
    if from < 0 || from >= pats.len() {
        None
    } else if has_prefix(body, pats[from]) {
        Some(from)
    } else {
        first_match_from(body, pats, from + 1)
    }
}

/// The index of the first pattern of the set that is a prefix of `body`.
pub open spec fn first_match(body: Seq<u8>, pats: Seq<Seq<u8>>) -> Option<int> {
    first_match_from(body, pats, 0)
}

/// The first index at or after `from` that holds a separator, or the length of
/// `s` where none follows.
pub open spec fn value_end(s: Seq<u8>, from: int) -> int
    decreases s.len() - from,
{
    if from < 0 || from >= s.len() {
        s.len() as int
    } else if is_separator(s[from]) {
        from
    } else {
        value_end(s, from + 1)
    }
}

/// The length of the token that starts `rest`, if one does.
///
/// One leading comma is skipped and counted. The first pattern that is a
/// prefix of what follows is the match; if the byte behind it is an equals
/// sign, the token runs on to the end of the value.
pub open spec fn token_len(rest: Seq<u8>, pats: Seq<Seq<u8>>) -> Option<int> {
    let skip: int = if rest.len() > 0 && rest[0] == COMMA { 1 } else { 0 };
    let body = rest.skip(skip);
    if body.len() == 0 {
        None
    } else {
        match first_match(body, pats) {
            None => None,
            Some(k) => {
                let named = skip + pats[k].len();
                if named < rest.len() && rest[named] == EQUALS {
                    Some(value_end(rest, named))
                } else {
                    Some(named)
                }
            },
        }
    }
}

/// What `first_match_from` returns is the least matching index, and `None`
/// means that no pattern from `from` on matches.
pub proof fn lemma_first_match_from(body: Seq<u8>, pats: Seq<Seq<u8>>, from: int)
    requires
        0 <= from,
    ensures
        match first_match_from(body, pats, from) {
            Some(k) => from <= k < pats.len() && has_prefix(body, pats[k]) && forall|j: int|
                from <= j < k ==> !has_prefix(body, #[trigger] pats[j]),
            None => forall|j: int| from <= j < pats.len() ==> !has_prefix(body, #[trigger] pats[j]),
        },
    decreases pats.len() - from,
{
    if from < pats.len() && !has_prefix(body, pats[from]) {
        lemma_first_match_from(body, pats, from + 1);
    }
}

/// A value ends inside the sequence, holds no separator, and is followed by a
/// separator unless it runs to the end.
pub proof fn lemma_value_end(s: Seq<u8>, from: int)
    requires
        0 <= from <= s.len(),
    ensures
        from <= value_end(s, from) <= s.len(),
        forall|i: int| from <= i < value_end(s, from) ==> !is_separator(#[trigger] s[i]),
        value_end(s, from) < s.len() ==> is_separator(s[value_end(s, from)]),
    decreases s.len() - from,
{
    if from < s.len() && !is_separator(s[from]) {
        lemma_value_end(s, from + 1);
    }
}

/// A token lies inside the sequence it starts, and has at least one byte when
/// no pattern is empty.
pub proof fn lemma_token_len_bounds(rest: Seq<u8>, pats: Seq<Seq<u8>>)
    ensures
        match token_len(rest, pats) {
            Some(len) => 0 <= len <= rest.len() && (nonempty_patterns(pats) ==> len > 0),
            None => true,
        },
{
    let skip: int = if rest.len() > 0 && rest[0] == COMMA { 1 } else { 0 };
    let body = rest.skip(skip);
    if body.len() > 0 {
        lemma_first_match_from(body, pats, 0);
        match first_match(body, pats) {
            Some(k) => {
                let named = skip + pats[k].len();
                if named < rest.len() {
                    lemma_value_end(rest, named);
                }
            },
            None => {},
        }
    }
}

/// Whether no pattern of the set is empty, which is what a pass asks of its
/// set.
pub fn has_no_empty_pattern(patterns: &[&str]) -> (ok: bool)
    ensures
        ok == nonempty_patterns(pattern_bytes(patterns@)),
{
    let ghost pats = pattern_bytes(patterns@);
    let mut k: usize = 0;
    while k < patterns.len()
        invariant
            k <= patterns@.len(),
            pats == pattern_bytes(patterns@),
            forall|j: int| 0 <= j < k ==> (#[trigger] pats[j]).len() > 0,
        decreases patterns@.len() - k,
    {
        assert(pats[k as int] == patterns@[k as int].spec_bytes());
        if patterns[k].as_bytes().len() == 0 {
            return false;
        }
        k += 1;
    }
    true
}

/// The end of the value that begins at `from`.
fn find_value_end(buf: &[u8], from: usize) -> (end: usize)
    requires
        from <= buf@.len(),
    ensures
        end == value_end(buf@, from as int),
{
    let n: usize = buf.len();
    let mut i: usize = from;
    while i < n && !(buf[i] == 0x20 || buf[i] == 0x0a || buf[i] == 0x00)
        invariant
            from <= i <= n,
            n == buf@.len(),
            value_end(buf@, from as int) == value_end(buf@, i as int),
        decreases n - i,
    {
        i += 1;
    }
    i
}

/// Applies the matching rule at the front of `buf`: the length of the token
/// that starts there, or `None` where no pattern of the set matches.
pub fn match_samsung_patterns(buf: &[u8], patterns: &[&str]) -> (found: Option<usize>)
    ensures
        match found {
            Some(len) => token_len(buf@, pattern_bytes(patterns@)) == Some(len as int),
            None => token_len(buf@, pattern_bytes(patterns@)) is None,
        },
{
    let n: usize = buf.len();
    if n == 0 {
        return None;
    }
    let skip: usize = if buf[0] == COMMA { 1 } else { 0 };
    if skip == n {
        return None;
    }
    let body: &[u8] = &buf[skip..n];
    let ghost pats = pattern_bytes(patterns@);
    let mut k: usize = 0;
    while k < patterns.len()
        invariant
            k <= patterns@.len(),
            n == buf@.len(),
            skip < n,
            skip == if buf@[0] == COMMA { 1int } else { 0int },
            body@ == buf@.skip(skip as int),
            pats == pattern_bytes(patterns@),
            first_match(body@, pats) == first_match_from(body@, pats, k as int),
        decreases patterns@.len() - k,
    {
        let pat: &[u8] = patterns[k].as_bytes();
        assert(pats[k as int] == pat@);
        if starts_with(body, pat) {
            let named: usize = skip + pat.len();
            if named < n && buf[named] == EQUALS {
                return Some(find_value_end(buf, named));
            }
            return Some(named);
        }
        k += 1;
    }
    None
}

} // verus!
