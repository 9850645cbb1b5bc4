//! Recognition of a boot image by the marker strings it holds.

use vstd::prelude::*;
use vstd::string::StringSliceAdditionalSpecFns;
use crate::bytes::{contains_bytes, find_bytes};

verus! {

/// The marker strings, in the order in which they are looked for.
pub const SAMSUNG_SIGNATURES: [&'static str; 4] = ["SAMSUNG", "EXYNOS", "SM-S906", "OneUI"];

/// The index of the first marker, in table order, that occurs in `s`.
pub open spec fn first_signature_from(s: Seq<u8>, markers: Seq<&str>, from: int) -> Option<int>
    decreases markers.len() - from,
{
    if from < 0 || from >= markers.len() {
        None
    } else if contains_bytes(s, markers[from].spec_bytes()) {
        Some(from)
    } else {
        first_signature_from(s, markers, from + 1)
    }
}

/// Some marker from `from` on occurs in `s` exactly when a first one is found.
pub proof fn lemma_first_signature_from(s: Seq<u8>, markers: Seq<&str>, from: int)
    requires
        0 <= from,
    ensures
        first_signature_from(s, markers, from) is Some <==> exists|k: int|
            from <= k < markers.len() && contains_bytes(s, (#[trigger] markers[k]).spec_bytes()),
    decreases markers.len() - from,
{
    if from < markers.len() && !contains_bytes(s, markers[from].spec_bytes()) {
        lemma_first_signature_from(s, markers, from + 1);
    }
}

/// The index in the marker table of the first marker that `buf` holds
/// anywhere, if it holds one.
pub fn find_samsung_signature(buf: &[u8]) -> (found: Option<usize>)
    ensures
        match found {
            Some(k) => first_signature_from(buf@, SAMSUNG_SIGNATURES@, 0) == Some(k as int),
            None => first_signature_from(buf@, SAMSUNG_SIGNATURES@, 0) is None,
        },
{
    let markers: [&str; 4] = SAMSUNG_SIGNATURES;
    let mut k: usize = 0;
    while k < 4
        invariant
            k <= 4,
            markers@ == SAMSUNG_SIGNATURES@,
            first_signature_from(buf@, markers@, 0) == first_signature_from(buf@, markers@, k as int),
        decreases 4 - k,
    {
        if find_bytes(buf, markers[k].as_bytes()).is_some() {
            return Some(k);
        }
        k += 1;
    }
    None
}

/// Whether `buf` holds one of the marker strings anywhere.
pub fn validate_samsung_boot_image(buf: &[u8]) -> (valid: bool)
    ensures
        valid == exists|k: int|
            0 <= k < SAMSUNG_SIGNATURES@.len() && contains_bytes(
                buf@,
                (#[trigger] SAMSUNG_SIGNATURES@[k]).spec_bytes(),
            ),
{
    proof {
        lemma_first_signature_from(buf@, SAMSUNG_SIGNATURES@, 0);
    }
    find_samsung_signature(buf).is_some()
}

} // verus!
