//! The byte-pattern patcher: every non-overlapping occurrence of a pattern in
//! a region is overwritten with a replacement, and the offsets are reported.

use vstd::prelude::*;
use crate::bytes::{contains_bytes, occurs_at, starts_with};
use crate::hex::{hex2byte, hex_bytes};

verus! {

/// The offsets that a left-to-right scan of `s` from `from` on patches: the
/// leftmost occurrence of `pat`, then the leftmost one behind its span, and so
/// on. An empty pattern occurs nowhere.
pub open spec fn match_offsets_from(s: Seq<u8>, pat: Seq<u8>, from: int) -> Seq<int>
    decreases s.len() - from,
{
    if pat.len() == 0 || from < 0 || from + pat.len() > s.len() {
        Seq::empty()
    } else if occurs_at(s, from, pat) {
        seq![from] + match_offsets_from(s, pat, from + pat.len())
    } else {
        match_offsets_from(s, pat, from + 1)
    }
}

/// The offsets that a scan of the whole of `s` patches, in ascending order.
pub open spec fn match_offsets(s: Seq<u8>, pat: Seq<u8>) -> Seq<int> {
    match_offsets_from(s, pat, 0)
}

/// `s` with the bytes of `rep` written over it from offset `at` on.
pub open spec fn overwrite(s: Seq<u8>, at: int, rep: Seq<u8>) -> Seq<u8> {
    Seq::new(s.len(), |i: int| if at <= i < at + rep.len() { rep[i - at] } else { s[i] })
}

/// `s` with `rep` written at each of the offsets, first to last.
pub open spec fn overwrite_all(s: Seq<u8>, offsets: Seq<int>, rep: Seq<u8>) -> Seq<u8>
    decreases offsets.len(),
{
    if offsets.len() == 0 {
        s
    } else {
        overwrite(overwrite_all(s, offsets.drop_last(), rep), offsets.last(), rep)
    }
}

/// The region after patching: the replacement stands at every offset that the
/// scan reports, and nothing else has changed.
pub open spec fn patched(s: Seq<u8>, pat: Seq<u8>, rep: Seq<u8>) -> Seq<u8> {
    overwrite_all(s, match_offsets(s, pat), rep)
}

/// Offsets as mathematical integers.
pub open spec fn as_ints(offsets: Seq<usize>) -> Seq<int> {
    Seq::new(offsets.len(), |i: int| offsets[i] as int)
}

/// Every reported offset is an occurrence of the pattern in the scanned
/// sequence, and each lies behind the whole span of the one before it.
pub proof fn lemma_match_offsets_from(s: Seq<u8>, pat: Seq<u8>, from: int)
    requires
        0 <= from,
    ensures
        forall|i: int|
            0 <= i < match_offsets_from(s, pat, from).len() ==> {
                &&& from <= #[trigger] match_offsets_from(s, pat, from)[i]
                &&& occurs_at(s, match_offsets_from(s, pat, from)[i], pat)
                &&& match_offsets_from(s, pat, from)[i] + pat.len() <= s.len()
            },
        forall|i: int, j: int|
            0 <= i < j < match_offsets_from(s, pat, from).len() ==> #[trigger] match_offsets_from(
                s,
                pat,
                from,
            )[i] + pat.len() <= #[trigger] match_offsets_from(s, pat, from)[j],
    decreases s.len() - from,
{
    let offs = match_offsets_from(s, pat, from);
    if pat.len() == 0 || from + pat.len() > s.len() {
        assert(offs.len() == 0);
    } else if occurs_at(s, from, pat) {
        let rest = match_offsets_from(s, pat, from + pat.len());
        lemma_match_offsets_from(s, pat, from + pat.len());
        assert forall|i: int| 0 <= i < offs.len() implies {
            &&& from <= #[trigger] offs[i]
            &&& occurs_at(s, offs[i], pat)
            &&& offs[i] + pat.len() <= s.len()
        } by {
            if i > 0 {
                assert(offs[i] == rest[i - 1]);
            }
        }
        assert forall|i: int, j: int| 0 <= i < j < offs.len() implies #[trigger] offs[i]
            + pat.len() <= #[trigger] offs[j] by {
            assert(offs[j] == rest[j - 1]);
            if i > 0 {
                assert(offs[i] == rest[i - 1]);
            }
        }
    } else {
        lemma_match_offsets_from(s, pat, from + 1);
        assert(offs == match_offsets_from(s, pat, from + 1));
    }
}

/// The scan reports nothing exactly when the pattern is empty or occurs
/// nowhere at or after `from`.
pub proof fn lemma_match_offsets_empty(s: Seq<u8>, pat: Seq<u8>, from: int)
    requires
        0 <= from,
    ensures
        match_offsets_from(s, pat, from).len() == 0 <==> (pat.len() == 0 || forall|pos: int|
            from <= pos ==> !occurs_at(s, pos, pat)),
        from == 0 ==> (match_offsets_from(s, pat, from).len() > 0 <==> pat.len() > 0
            && contains_bytes(s, pat)),
    decreases s.len() - from,
{
    if pat.len() > 0 && from + pat.len() <= s.len() && !occurs_at(s, from, pat) {
        lemma_match_offsets_empty(s, pat, from + 1);
    }
}

/// `p` lies in the span that a replacement written at one of the offsets
/// covers.
pub open spec fn covered(offsets: Seq<int>, width: nat, p: int) -> bool {
    exists|i: int| 0 <= i < offsets.len() && #[trigger] offsets[i] <= p < offsets[i] + width
}

/// Writing a replacement at offsets whose spans lie inside the sequence and
/// do not overlap keeps the length, puts the replacement at each offset and
/// leaves every byte outside the spans as it was.
pub proof fn lemma_overwrite_all_bytes(s: Seq<u8>, offsets: Seq<int>, rep: Seq<u8>)
    requires
        forall|i: int|
            0 <= i < offsets.len() ==> 0 <= #[trigger] offsets[i] && offsets[i] + rep.len()
                <= s.len(),
        forall|i: int, j: int|
            0 <= i < j < offsets.len() ==> #[trigger] offsets[i] + rep.len()
                <= #[trigger] offsets[j],
    ensures
        overwrite_all(s, offsets, rep).len() == s.len(),
        forall|i: int, k: int|
            0 <= i < offsets.len() && 0 <= k < rep.len() ==> overwrite_all(
                s,
                offsets,
                rep,
            )[#[trigger] offsets[i] + k] == #[trigger] rep[k],
        forall|p: int|
            0 <= p < s.len() && !covered(offsets, rep.len(), p) ==> #[trigger] overwrite_all(
                s,
                offsets,
                rep,
            )[p] == s[p],
    decreases offsets.len(),
{
    if offsets.len() > 0 {
        let front = offsets.drop_last();
        let before = overwrite_all(s, front, rep);
        let after = overwrite_all(s, offsets, rep);
        assert forall|i: int| 0 <= i < front.len() implies 0 <= #[trigger] front[i] && front[i]
            + rep.len() <= s.len() by {
            assert(front[i] == offsets[i]);
        }
        assert forall|i: int, j: int| 0 <= i < j < front.len() implies #[trigger] front[i]
            + rep.len() <= #[trigger] front[j] by {
            assert(front[i] == offsets[i] && front[j] == offsets[j]);
        }
        lemma_overwrite_all_bytes(s, front, rep);
        assert forall|i: int, k: int|
            0 <= i < offsets.len() && 0 <= k < rep.len() implies after[#[trigger] offsets[i] + k]
            == #[trigger] rep[k] by {
            if i < front.len() {
                assert(front[i] == offsets[i]);
                assert(before[front[i] + k] == rep[k]);
            }
        }
        assert forall|p: int| 0 <= p < s.len() && !covered(offsets, rep.len(), p) implies after[p]
            == s[p] by {
            if covered(front, rep.len(), p) {
                let i = choose|i: int|
                    0 <= i < front.len() && #[trigger] front[i] <= p < front[i] + rep.len();
                assert(offsets[i] == front[i]);
            }
            assert(!(offsets.last() <= p < offsets.last() + rep.len()));
        }
    }
}

/// The patched region, byte by byte: the replacement stands at every offset
/// that the scan reports, and a byte that no written replacement covers is the
/// byte that stood there before.
pub proof fn lemma_patched_bytes(s: Seq<u8>, pat: Seq<u8>, rep: Seq<u8>)
    requires
        rep.len() <= pat.len(),
    ensures
        patched(s, pat, rep).len() == s.len(),
        forall|i: int, k: int|
            0 <= i < match_offsets(s, pat).len() && 0 <= k < rep.len() ==> patched(
                s,
                pat,
                rep,
            )[#[trigger] match_offsets(s, pat)[i] + k] == #[trigger] rep[k],
        forall|p: int|
            0 <= p < s.len() && !covered(match_offsets(s, pat), rep.len(), p)
                ==> #[trigger] patched(s, pat, rep)[p] == s[p],
{
    lemma_match_offsets_from(s, pat, 0);
    lemma_overwrite_all_bytes(s, match_offsets(s, pat), rep);
}

/// Writes `bytes` into `region` from offset `at` on.
fn write_at(region: &mut [u8], at: usize, bytes: &[u8])
    requires
        at + bytes@.len() <= old(region)@.len(),
    ensures
        final(region)@ == overwrite(old(region)@, at as int, bytes@),
{
    let ghost orig = region@;
    let n: usize = region.len();
    let m: usize = bytes.len();
    let mut k: usize = 0;
    while k < m
        invariant
            k <= m,
            m == bytes@.len(),
            n == region@.len(),
            at + m <= n,
            region@.len() == orig.len(),
            forall|i: int| at <= i < at + k ==> region@[i] == bytes@[i - at],
            forall|i: int| 0 <= i < at || at + k <= i < orig.len() ==> region@[i] == orig[i],
        decreases m - k,
    {
        region[at + k] = bytes[k];
        k += 1;
    }
    assert(region@ =~= overwrite(orig, at as int, bytes@));
}

/// Overwrites every non-overlapping occurrence of `pattern` in `region` with
/// `replacement` and returns the offsets patched, in ascending order.
///
/// The scan runs left to right and resumes behind the span of each match, so
/// no match is found inside bytes that an earlier match covers. An empty
/// result means that the pattern does not occur. The replacement must not be
/// longer than the pattern; bytes of a matched span behind the replacement's
/// end stay as they are.
pub fn hex_patch(region: &mut [u8], pattern: &[u8], replacement: &[u8]) -> (offsets: Vec<usize>)
    requires
        replacement@.len() <= pattern@.len(),
    ensures
        final(region)@.len() == old(region)@.len(),
        as_ints(offsets@) == match_offsets(old(region)@, pattern@),
        final(region)@ == patched(old(region)@, pattern@, replacement@),
        offsets@.len() > 0 <==> pattern@.len() > 0 && contains_bytes(old(region)@, pattern@),
        forall|i: int|
            0 <= i < offsets@.len() ==> occurs_at(old(region)@, #[trigger] offsets@[i] as int, pattern@),
        forall|i: int, j: int|
            0 <= i < j < offsets@.len() ==> #[trigger] offsets@[i] + pattern@.len()
                <= #[trigger] offsets@[j],
{
    let ghost orig = region@;
    let n: usize = region.len();
    let m: usize = pattern.len();
    let mut offsets: Vec<usize> = Vec::new();
    proof {
        lemma_match_offsets_empty(orig, pattern@, 0);
        assert(as_ints(offsets@) + match_offsets(orig, pattern@) =~= match_offsets(orig, pattern@));
    }
    if m == 0 || m > n {
        return offsets;
    }
    let mut pos: usize = 0;
    while pos <= n - m
        invariant
            0 < m <= n,
            n == region@.len(),
            n == orig.len(),
            m == pattern@.len(),
            replacement@.len() <= m,
            pos <= n,
            forall|i: int| pos <= i < n ==> region@[i] == orig[i],
            region@ == overwrite_all(orig, as_ints(offsets@), replacement@),
            as_ints(offsets@) + match_offsets_from(orig, pattern@, pos as int) == match_offsets(
                orig,
                pattern@,
            ),
        decreases n - pos,
    {
        let ghost seen = as_ints(offsets@);
        assert(region@.subrange(pos as int, n as int) =~= orig.skip(pos as int));
        if starts_with(&region[pos..n], pattern) {
            offsets.push(pos);
            write_at(region, pos, replacement);
            proof {
                assert(as_ints(offsets@) =~= seen.push(pos as int));
                assert(as_ints(offsets@).drop_last() =~= seen);
                assert(seen.push(pos as int) + match_offsets_from(orig, pattern@, pos + m) =~= seen
                    + (seq![pos as int] + match_offsets_from(orig, pattern@, pos + m)));
            }
            pos += m;
        } else {
            pos += 1;
        }
    }
    proof {
        lemma_match_offsets_from(orig, pattern@, 0);
        assert forall|i: int| 0 <= i < offsets@.len() implies occurs_at(
            orig,
            #[trigger] offsets@[i] as int,
            pattern@,
        ) by {
            assert(as_ints(offsets@)[i] == offsets@[i]);
        }
        assert forall|i: int, j: int| 0 <= i < j < offsets@.len() implies #[trigger] offsets@[i]
            + pattern@.len() <= #[trigger] offsets@[j] by {
            assert(as_ints(offsets@)[i] == offsets@[i]);
            assert(as_ints(offsets@)[j] == offsets@[j]);
        }
    }
    offsets
}

/// Decodes the hex texts `from` and `to` and patches every occurrence of the
/// first in `region` with the second. Returns whether anything was patched.
///
/// The decoded replacement must not be longer than the decoded pattern.
pub fn samsung_hexpatch(region: &mut [u8], from: &[u8], to: &[u8]) -> (patched_any: bool)
    requires
        to@.len() / 2 <= from@.len() / 2,
    ensures
        final(region)@.len() == old(region)@.len(),
        final(region)@ == patched(old(region)@, hex_bytes(from@), hex_bytes(to@)),
        patched_any == (match_offsets(old(region)@, hex_bytes(from@)).len() > 0),
        patched_any <==> hex_bytes(from@).len() > 0 && contains_bytes(
            old(region)@,
            hex_bytes(from@),
        ),
{
    let pattern: Vec<u8> = hex2byte(from);
    let patch: Vec<u8> = hex2byte(to);
    let offsets: Vec<usize> = hex_patch(region, pattern.as_slice(), patch.as_slice());
    offsets.len() > 0
}

} // verus!
