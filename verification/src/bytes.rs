//! Prefix and occurrence predicates on byte sequences, with the executable
//! comparison that decides them.

use vstd::prelude::*;

verus! {

/// `pat` stands at the very front of `s`.
pub open spec fn has_prefix(s: Seq<u8>, pat: Seq<u8>) -> bool {
    pat.len() <= s.len() && s.take(pat.len() as int) == pat
}

/// `pat` occurs in `s` starting at offset `pos`.
pub open spec fn occurs_at(s: Seq<u8>, pos: int, pat: Seq<u8>) -> bool {
    0 <= pos <= s.len() && has_prefix(s.skip(pos), pat)
}

/// `needle` occurs somewhere in `s`.
pub open spec fn contains_bytes(s: Seq<u8>, needle: Seq<u8>) -> bool {
    exists|pos: int| occurs_at(s, pos, needle)
}

/// An occurrence at `pos` is a byte-for-byte agreement over the pattern's
/// length, and nothing else.
pub proof fn lemma_occurs_at_bytes(s: Seq<u8>, pos: int, pat: Seq<u8>)
    ensures
        occurs_at(s, pos, pat) <==> (0 <= pos && pos + pat.len() <= s.len() && forall|k: int|
            0 <= k < pat.len() ==> s[pos + k] == pat[k]),
{
    if 0 <= pos && pos + pat.len() <= s.len() {
        let front = s.skip(pos).take(pat.len() as int);
        if forall|k: int| 0 <= k < pat.len() ==> s[pos + k] == pat[k] {
            assert(front =~= pat);
        }
        if front == pat {
            assert forall|k: int| 0 <= k < pat.len() implies s[pos + k] == pat[k] by {
                assert(front[k] == s[pos + k]);
            }
        }
    }
}

/// Whether `buf` begins with the bytes of `pat`.
pub fn starts_with(buf: &[u8], pat: &[u8]) -> (r: bool)
    ensures
        r == has_prefix(buf@, pat@),
{
    let m: usize = pat.len();
    if m > buf.len() {
        return false;
    }
    let mut i: usize = 0;
    while i < m
        invariant
            i <= m,
            m == pat@.len(),
            m <= buf@.len(),
            forall|k: int| 0 <= k < i ==> buf@[k] == pat@[k],
        decreases m - i,
    {
        if buf[i] != pat[i] {
            return false;
        }
        i += 1;
    }
    assert(buf@.take(m as int) =~= pat@);
    true
}

/// The offset of the leftmost occurrence of `needle` in `buf`, if there is
/// one.
pub fn find_bytes(buf: &[u8], needle: &[u8]) -> (found: Option<usize>)
    ensures
        match found {
            Some(pos) => occurs_at(buf@, pos as int, needle@) && forall|q: int|
                0 <= q < pos ==> !occurs_at(buf@, q, needle@),
            None => !contains_bytes(buf@, needle@),
        },
{
    let n: usize = buf.len();
    let m: usize = needle.len();
    if m > n {
        return None;
    }
    if m == 0 {
        assert(buf@.skip(0).take(0) =~= needle@);
        return Some(0);
    }
    let mut pos: usize = 0;
    while pos <= n - m
        invariant
            0 < m <= n,
            n == buf@.len(),
            m == needle@.len(),
            pos <= n - m + 1,
            forall|q: int| 0 <= q < pos ==> !occurs_at(buf@, q, needle@),
        decreases n - m + 1 - pos,
    {
        if starts_with(&buf[pos..n], needle) {
            return Some(pos);
        }
        pos += 1;
    }
    None
}

} // verus!
