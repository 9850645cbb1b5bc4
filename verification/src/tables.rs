//! The five fixed pattern sets, one removal function for each, and the pass
//! that applies them all in turn.
//!
//! Within a set the first matching pattern wins, so a pattern that extends an
//! earlier one of its set can never be chosen: where `knox_kap_status` stands
//! in the buffer, it is `knox_kap` that matches.

use vstd::prelude::*;
use crate::accounting::{after_passes, lemma_next_pass, lemma_removed_by_passes, removed_by_passes};
use crate::compact::{compacted, remove_samsung_pattern, removed_count};
use crate::laws::{lemma_idempotent_on_terminated_tokens, tokens_terminated};
use crate::token::{is_separator, nonempty_patterns, nul_free, pattern_bytes, separator_free};

verus! {

/// Knox, warranty-bit and rooting-restriction flags.
pub const KNOX_PATTERNS: [&'static str; 11] = [
    "knox_kap",
    "knox_ccm",
    "knox_rp",
    "knox_tima",
    "knox_kap_status",
    "knox_ccm_status",
    "knox_rp_status",
    "knox_tima_status",
    "warranty_bit",
    "sec_restrict_rooting",
    "sec_restrict_tethering",
];

/// Secure-boot and verified-boot flags.
pub const SECURE_BOOT_PATTERNS: [&'static str; 9] = [
    "sec_boot",
    "secure_boot",
    "verified_boot",
    "boot_verifier",
    "bootloader_locked",
    "sec_boot_dev",
    "sec_boot_recovery",
    "sec_boot_kernel",
    "exynos_secure_boot",
];

/// Vendor security-feature flags.
pub const ONEUI8_PATTERNS: [&'static str; 11] = [
    "oneui_security",
    "samsung_security_policy",
    "sec_enhanced_biometrics",
    "sec_knox_guard",
    "sec_privacy_dashboard",
    "sec_secure_folder",
    "sec_work_profile",
    "samsung_pass",
    "sec_biometric_face",
    "sec_biometric_iris",
    "sec_biometric_fingerprint",
];

/// Device-management flags.
pub const DEVICE_MANAGEMENT_PATTERNS: [&'static str; 7] = [
    "sec_device_management",
    "mdm_mode",
    "enterprise_policy",
    "sec_container",
    "sec_dual_dar",
    "sec_sdp",
    "sec_knox_container",
];

/// Trusted-execution flags.
pub const TRUSTZONE_PATTERNS: [&'static str; 8] = [
    "trustzone",
    "tz_kernel",
    "tz_secure_os",
    "exynos_smc",
    "exynos_tzasc",
    "exynos_tzpc",
    "secure_monitor_call",
    "arm_smccc",
];

/// The text is not empty and holds printable ASCII characters other than the
/// space only.
pub open spec fn is_plain_text(text: Seq<char>) -> bool {
    text.len() > 0 && forall|i: int| 0 <= i < text.len() ==> '!' <= #[trigger] text[i] <= '~'
}

/// Every pattern of the set is plain text.
pub open spec fn plain_patterns(patterns: Seq<&str>) -> bool {
    forall|k: int| 0 <= k < patterns.len() ==> is_plain_text((#[trigger] patterns[k])@)
}

/// Patterns that are plain text are not empty as byte strings and hold no
/// separator, so no NUL either.
pub proof fn lemma_plain_patterns(patterns: Seq<&str>)
    requires
        plain_patterns(patterns),
    ensures
        nonempty_patterns(pattern_bytes(patterns)),
        separator_free(pattern_bytes(patterns)),
        nul_free(pattern_bytes(patterns)),
{
    let pats = pattern_bytes(patterns);
    assert forall|k: int| 0 <= k < pats.len() implies (#[trigger] pats[k]).len() > 0 && forall|
        i: int,
    | 0 <= i < pats[k].len() ==> !is_separator(pats[k][i]) by {
        let text = patterns[k]@;
        assert(is_plain_text(text));
        vstd::utf8::is_ascii_chars_encode_utf8(text);
        assert forall|i: int| 0 <= i < pats[k].len() implies !is_separator(pats[k][i]) by {
            assert(text[i] as u8 == pats[k][i]);
        }
    }
}

/// Each of the five fixed sets is plain text, so none has an empty pattern or
/// a NUL byte.
pub proof fn lemma_fixed_sets()
    ensures
        plain_patterns(KNOX_PATTERNS@),
        plain_patterns(SECURE_BOOT_PATTERNS@),
        plain_patterns(ONEUI8_PATTERNS@),
        plain_patterns(DEVICE_MANAGEMENT_PATTERNS@),
        plain_patterns(TRUSTZONE_PATTERNS@),
{
    assert(plain_patterns(KNOX_PATTERNS@)) by {
        reveal_strlit("knox_kap");
        reveal_strlit("knox_ccm");
        reveal_strlit("knox_rp");
        reveal_strlit("knox_tima");
        reveal_strlit("knox_kap_status");
        reveal_strlit("knox_ccm_status");
        reveal_strlit("knox_rp_status");
        reveal_strlit("knox_tima_status");
        reveal_strlit("warranty_bit");
        reveal_strlit("sec_restrict_rooting");
        reveal_strlit("sec_restrict_tethering");
    }
    assert(plain_patterns(SECURE_BOOT_PATTERNS@)) by {
        reveal_strlit("sec_boot");
        reveal_strlit("secure_boot");
        reveal_strlit("verified_boot");
        reveal_strlit("boot_verifier");
        reveal_strlit("bootloader_locked");
        reveal_strlit("sec_boot_dev");
        reveal_strlit("sec_boot_recovery");
        reveal_strlit("sec_boot_kernel");
        reveal_strlit("exynos_secure_boot");
    }
    assert(plain_patterns(ONEUI8_PATTERNS@)) by {
        reveal_strlit("oneui_security");
        reveal_strlit("samsung_security_policy");
        reveal_strlit("sec_enhanced_biometrics");
        reveal_strlit("sec_knox_guard");
        reveal_strlit("sec_privacy_dashboard");
        reveal_strlit("sec_secure_folder");
        reveal_strlit("sec_work_profile");
        reveal_strlit("samsung_pass");
        reveal_strlit("sec_biometric_face");
        reveal_strlit("sec_biometric_iris");
        reveal_strlit("sec_biometric_fingerprint");
    }
    assert(plain_patterns(DEVICE_MANAGEMENT_PATTERNS@)) by {
        reveal_strlit("sec_device_management");
        reveal_strlit("mdm_mode");
        reveal_strlit("enterprise_policy");
        reveal_strlit("sec_container");
        reveal_strlit("sec_dual_dar");
        reveal_strlit("sec_sdp");
        reveal_strlit("sec_knox_container");
    }
    assert(plain_patterns(TRUSTZONE_PATTERNS@)) by {
        reveal_strlit("trustzone");
        reveal_strlit("tz_kernel");
        reveal_strlit("tz_secure_os");
        reveal_strlit("exynos_smc");
        reveal_strlit("exynos_tzasc");
        reveal_strlit("exynos_tzpc");
        reveal_strlit("secure_monitor_call");
        reveal_strlit("arm_smccc");
    }
}

/// Removes the Knox flags from `buf` and returns the number of bytes removed.
pub fn patch_samsung_knox(buf: &mut [u8]) -> (removed: usize)
    ensures
        final(buf)@.len() == old(buf)@.len(),
        final(buf)@ == compacted(old(buf)@, pattern_bytes(KNOX_PATTERNS@)),
        removed == removed_count(old(buf)@, pattern_bytes(KNOX_PATTERNS@)),
{
    proof {
        lemma_fixed_sets();
        lemma_plain_patterns(KNOX_PATTERNS@);
    }
    let patterns: [&str; 11] = KNOX_PATTERNS;
    remove_samsung_pattern(buf, &patterns)
}

/// Removes the secure-boot flags from `buf` and returns the number of bytes
/// removed.
pub fn patch_samsung_secure_boot(buf: &mut [u8]) -> (removed: usize)
    ensures
        final(buf)@.len() == old(buf)@.len(),
        final(buf)@ == compacted(old(buf)@, pattern_bytes(SECURE_BOOT_PATTERNS@)),
        removed == removed_count(old(buf)@, pattern_bytes(SECURE_BOOT_PATTERNS@)),
{
    proof {
        lemma_fixed_sets();
        lemma_plain_patterns(SECURE_BOOT_PATTERNS@);
    }
    let patterns: [&str; 9] = SECURE_BOOT_PATTERNS;
    remove_samsung_pattern(buf, &patterns)
}

/// Removes the vendor security-feature flags from `buf` and returns the
/// number of bytes removed.
pub fn patch_oneui8_security(buf: &mut [u8]) -> (removed: usize)
    ensures
        final(buf)@.len() == old(buf)@.len(),
        final(buf)@ == compacted(old(buf)@, pattern_bytes(ONEUI8_PATTERNS@)),
        removed == removed_count(old(buf)@, pattern_bytes(ONEUI8_PATTERNS@)),
{
    proof {
        lemma_fixed_sets();
        lemma_plain_patterns(ONEUI8_PATTERNS@);
    }
    let patterns: [&str; 11] = ONEUI8_PATTERNS;
    remove_samsung_pattern(buf, &patterns)
}

/// Removes the device-management flags from `buf` and returns the number of
/// bytes removed.
pub fn patch_samsung_device_management(buf: &mut [u8]) -> (removed: usize)
    ensures
        final(buf)@.len() == old(buf)@.len(),
        final(buf)@ == compacted(old(buf)@, pattern_bytes(DEVICE_MANAGEMENT_PATTERNS@)),
        removed == removed_count(old(buf)@, pattern_bytes(DEVICE_MANAGEMENT_PATTERNS@)),
{
    proof {
        lemma_fixed_sets();
        lemma_plain_patterns(DEVICE_MANAGEMENT_PATTERNS@);
    }
    let patterns: [&str; 7] = DEVICE_MANAGEMENT_PATTERNS;
    remove_samsung_pattern(buf, &patterns)
}

/// Removes the trusted-execution flags from `buf` and returns the number of
/// bytes removed.
pub fn patch_exynos2200_trustzone(buf: &mut [u8]) -> (removed: usize)
    ensures
        final(buf)@.len() == old(buf)@.len(),
        final(buf)@ == compacted(old(buf)@, pattern_bytes(TRUSTZONE_PATTERNS@)),
        removed == removed_count(old(buf)@, pattern_bytes(TRUSTZONE_PATTERNS@)),
{
    proof {
        lemma_fixed_sets();
        lemma_plain_patterns(TRUSTZONE_PATTERNS@);
    }
    let patterns: [&str; 8] = TRUSTZONE_PATTERNS;
    remove_samsung_pattern(buf, &patterns)
}

/// The five fixed sets in the order in which the full pass applies them:
/// Knox, secure boot, vendor security, device management, trusted execution.
pub open spec fn fixed_sets() -> Seq<Seq<Seq<u8>>> {
    seq![
        pattern_bytes(KNOX_PATTERNS@),
        pattern_bytes(SECURE_BOOT_PATTERNS@),
        pattern_bytes(ONEUI8_PATTERNS@),
        pattern_bytes(DEVICE_MANAGEMENT_PATTERNS@),
        pattern_bytes(TRUSTZONE_PATTERNS@),
    ]
}

/// None of the fixed sets has an empty pattern, or a pattern with a separator
/// in it.
pub proof fn lemma_fixed_sets_clean()
    ensures
        fixed_sets().len() == 5,
        forall|k: int|
            0 <= k < 5 ==> {
                &&& nonempty_patterns(#[trigger] fixed_sets()[k])
                &&& separator_free(fixed_sets()[k])
                &&& nul_free(fixed_sets()[k])
            },
{
    lemma_fixed_sets();
    lemma_plain_patterns(KNOX_PATTERNS@);
    lemma_plain_patterns(SECURE_BOOT_PATTERNS@);
    lemma_plain_patterns(ONEUI8_PATTERNS@);
    lemma_plain_patterns(DEVICE_MANAGEMENT_PATTERNS@);
    lemma_plain_patterns(TRUSTZONE_PATTERNS@);
}

/// Each of the fixed passes is idempotent on a buffer in which every token of
/// its set is followed by a separator or ends the buffer: run again on its own
/// result, it removes nothing and changes nothing.
pub proof fn lemma_fixed_pass_idempotent(s: Seq<u8>, k: int)
    requires
        0 <= k < 5,
        tokens_terminated(s, fixed_sets()[k]),
    ensures
        removed_count(compacted(s, fixed_sets()[k]), fixed_sets()[k]) == 0,
        compacted(compacted(s, fixed_sets()[k]), fixed_sets()[k]) == compacted(s, fixed_sets()[k]),
{
    lemma_fixed_sets_clean();
    lemma_idempotent_on_terminated_tokens(s, fixed_sets()[k]);
}

/// Applies the five passes to `buf` in the fixed order and returns the total
/// number of bytes removed, which is never more than the buffer holds.
pub fn patch_samsung_s22_plus(buf: &mut [u8]) -> (total: usize)
    ensures
        final(buf)@.len() == old(buf)@.len(),
        final(buf)@ == after_passes(old(buf)@, fixed_sets()),
        total == removed_by_passes(old(buf)@, fixed_sets()),
        total <= old(buf)@.len(),
{
    let ghost orig = buf@;
    let ghost sets = fixed_sets();
    let len: usize = buf.len();
    proof {
        lemma_fixed_sets_clean();
        assert(sets.take(5) =~= sets);
        assert forall|n: int| 0 <= n < 5 implies removed_by_passes(orig, #[trigger] sets.take(n + 1))
            <= len by {
            lemma_next_pass(orig, sets, n);
            lemma_removed_by_passes(orig, sets.take(n + 1));
        }
        lemma_next_pass(orig, sets, 0);
        lemma_next_pass(orig, sets, 1);
        lemma_next_pass(orig, sets, 2);
        lemma_next_pass(orig, sets, 3);
        lemma_next_pass(orig, sets, 4);
    }
    let mut total: usize = patch_samsung_knox(buf);
    total += patch_samsung_secure_boot(buf);
    total += patch_oneui8_security(buf);
    total += patch_samsung_device_management(buf);
    total += patch_exynos2200_trustzone(buf);
    total
}

} // verus!
