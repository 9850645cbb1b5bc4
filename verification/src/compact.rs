//! The compaction pass: one scan that drops every token it meets, moves the
//! kept bytes to the front and fills the vacated tail with zero bytes.

use vstd::prelude::*;
use crate::token::{
    lemma_token_len_bounds, match_samsung_patterns, nonempty_patterns, pattern_bytes, token_len,
};

verus! {

/// The bytes that a scan of `s` keeps, in order.
///
/// Where a token starts `s`, the whole token is dropped and the scan goes on
/// behind it; otherwise the first byte is kept and the scan goes on with the
/// next one.
pub open spec fn kept(s: Seq<u8>, pats: Seq<Seq<u8>>) -> Seq<u8>
    decreases s.len(),
    when nonempty_patterns(pats)
{
    if s.len() == 0 {
        Seq::empty()
    } else {
        match token_len(s, pats) {
            Some(len) => {
                proof {
                    lemma_token_len_bounds(s, pats);
                }
                kept(s.skip(len), pats)
            },
            None => seq![s[0]] + kept(s.skip(1), pats),
        }
    }
}

/// `n` zero bytes.
pub open spec fn zeros(n: nat) -> Seq<u8> {
    Seq::new(n, |i: int| 0u8)
}

/// The number of bytes that a scan of `s` drops.
pub open spec fn removed_count(s: Seq<u8>, pats: Seq<Seq<u8>>) -> nat {
    (s.len() - kept(s, pats).len()) as nat
}

/// The buffer after a pass: the kept bytes, then zero bytes up to the length
/// that the buffer had.
pub open spec fn compacted(s: Seq<u8>, pats: Seq<Seq<u8>>) -> Seq<u8> {
    kept(s, pats) + zeros(removed_count(s, pats))
}

/// A scan never keeps more than it was given.
pub proof fn lemma_kept_len(s: Seq<u8>, pats: Seq<Seq<u8>>)
    requires
        nonempty_patterns(pats),
    ensures
        kept(s, pats).len() <= s.len(),
    decreases s.len(),
{
    if s.len() > 0 {
        lemma_token_len_bounds(s, pats);
        match token_len(s, pats) {
            Some(len) => lemma_kept_len(s.skip(len), pats),
            None => lemma_kept_len(s.skip(1), pats),
        }
    }
}

/// Removes every token of the pattern set from `buf` in one forward pass.
///
/// The kept bytes move to the front without changing their order, the rest of
/// the buffer is zeroed, and the number of bytes dropped is returned. The length
/// of the buffer does not change.
pub fn remove_samsung_pattern(buf: &mut [u8], patterns: &[&str]) -> (removed: usize)
    requires
        nonempty_patterns(pattern_bytes(patterns@)),
    ensures
        final(buf)@.len() == old(buf)@.len(),
        final(buf)@ == compacted(old(buf)@, pattern_bytes(patterns@)),
        removed == removed_count(old(buf)@, pattern_bytes(patterns@)),
        removed == old(buf)@.len() - kept(old(buf)@, pattern_bytes(patterns@)).len(),
{
    let ghost pats = pattern_bytes(patterns@);
    let ghost orig = buf@;
    let n: usize = buf.len();
    let mut write: usize = 0;
    let mut read: usize = 0;
    proof {
        assert(orig.skip(0) =~= orig);
    }
    while read < n
        invariant
            write <= read <= n,
            n == buf@.len(),
            n == orig.len(),
            pats == pattern_bytes(patterns@),
            nonempty_patterns(pats),
            buf@.skip(read as int) == orig.skip(read as int),
            buf@.take(write as int) + kept(orig.skip(read as int), pats) == kept(orig, pats),
        decreases n - read,
    {
        let ghost rest = orig.skip(read as int);
        let ghost before = buf@;
        proof {
            lemma_token_len_bounds(rest, pats);
        }
        match match_samsung_patterns(&buf[read..n], patterns) {
            Some(len) => {
                proof {
                    assert(buf@.skip(read + len) =~= buf@.skip(read as int).skip(len as int));
                }
                read += len;
            },
            None => {
                let b: u8 = buf[read];
                buf[write] = b;
                proof {
                    assert(buf@.take(write + 1) =~= before.take(write as int) + seq![b]);
                    assert(buf@.skip(read + 1) =~= before.skip(read as int).skip(1));
                    assert(before.take(write as int) + (seq![b] + kept(rest.skip(1), pats))
                        =~= (before.take(write as int) + seq![b]) + kept(rest.skip(1), pats));
                }
                write += 1;
                read += 1;
            },
        }
    }
    let mut fill: usize = write;
    while fill < n
        invariant
            write <= fill <= n,
            n == buf@.len(),
            n == orig.len(),
            nonempty_patterns(pats),
            buf@.take(write as int) == kept(orig, pats),
            forall|i: int| write <= i < fill ==> buf@[i] == 0u8,
        decreases n - fill,
    {
        buf[fill] = 0;
        fill += 1;
    }
    n - write
}

} // verus!
