use bootpatch::tables::{
    DEVICE_MANAGEMENT_PATTERNS, KNOX_PATTERNS, ONEUI8_PATTERNS, SECURE_BOOT_PATTERNS,
    TRUSTZONE_PATTERNS,
};
use bootpatch::{
    has_no_empty_pattern, match_samsung_patterns, patch_exynos2200_trustzone, patch_oneui8_security,
    patch_samsung_device_management, patch_samsung_knox, patch_samsung_s22_plus,
    patch_samsung_secure_boot, remove_samsung_pattern,
};

fn padded(kept: &[u8], len: usize) -> Vec<u8> {
    let mut v = kept.to_vec();
    v.resize(len, 0);
    v
}

#[test]
fn matcher_finds_bare_pattern() {
    assert_eq!(match_samsung_patterns(b"knox_kap", &KNOX_PATTERNS), Some(8));
    assert_eq!(match_samsung_patterns(b"knox_rp next", &KNOX_PATTERNS), Some(7));
}

#[test]
fn matcher_counts_leading_comma() {
    assert_eq!(match_samsung_patterns(b",knox_ccm rest", &KNOX_PATTERNS), Some(9));
}

#[test]
fn matcher_takes_value_up_to_separator() {
    assert_eq!(match_samsung_patterns(b"knox_kap=1 x", &KNOX_PATTERNS), Some(10));
    assert_eq!(match_samsung_patterns(b"knox_kap=1\nx", &KNOX_PATTERNS), Some(10));
    assert_eq!(match_samsung_patterns(b"knox_kap=1\0x", &KNOX_PATTERNS), Some(10));
    assert_eq!(match_samsung_patterns(b",knox_kap=abc def", &KNOX_PATTERNS), Some(13));
}

#[test]
fn matcher_takes_value_up_to_end_of_buffer() {
    assert_eq!(match_samsung_patterns(b"knox_kap=12345", &KNOX_PATTERNS), Some(14));
    assert_eq!(match_samsung_patterns(b"knox_kap=", &KNOX_PATTERNS), Some(9));
}

#[test]
fn matcher_value_does_not_end_at_comma() {
    assert_eq!(match_samsung_patterns(b"knox_kap=1,b=2 c", &KNOX_PATTERNS), Some(14));
}

#[test]
fn matcher_empty_value_before_separator() {
    assert_eq!(match_samsung_patterns(b"knox_kap= x", &KNOX_PATTERNS), Some(9));
}

#[test]
fn matcher_rejects_what_is_no_pattern() {
    assert_eq!(match_samsung_patterns(b"", &KNOX_PATTERNS), None);
    assert_eq!(match_samsung_patterns(b",", &KNOX_PATTERNS), None);
    assert_eq!(match_samsung_patterns(b"knox_ka", &KNOX_PATTERNS), None);
    assert_eq!(match_samsung_patterns(b",,knox_kap", &KNOX_PATTERNS), None);
    assert_eq!(match_samsung_patterns(b" knox_kap", &KNOX_PATTERNS), None);
    assert_eq!(match_samsung_patterns(b"xknox_kap", &KNOX_PATTERNS), None);
}

#[test]
fn matcher_with_no_patterns_matches_nothing() {
    let none: [&str; 0] = [];
    assert_eq!(match_samsung_patterns(b"knox_kap", &none), None);
}

#[test]
fn matcher_first_pattern_in_order_wins() {
    assert_eq!(match_samsung_patterns(b"abcd", &["ab", "abcd"]), Some(2));
    assert_eq!(match_samsung_patterns(b"abcd", &["abcd", "ab"]), Some(4));
    assert_eq!(match_samsung_patterns(b"ab=1 z", &["abcd", "ab"]), Some(4));
}

#[test]
fn matcher_pattern_longer_than_buffer() {
    assert_eq!(match_samsung_patterns(b"knox", &KNOX_PATTERNS), None);
    assert_eq!(match_samsung_patterns(b",knox_ka", &KNOX_PATTERNS), None);
}

#[test]
fn knox_token_with_value_between_spaces() {
    let mut buf = b"a=1 ,knox_kap=1 other_prop=2".to_vec();
    let n = buf.len();
    let removed = patch_samsung_knox(&mut buf);
    assert_eq!(removed, 11);
    assert_eq!(buf, padded(b"a=1  other_prop=2", n));
}

#[test]
fn knox_value_runs_over_commas_to_end() {
    let mut buf = b",knox_kap=1,other_prop=2".to_vec();
    let removed = patch_samsung_knox(&mut buf);
    assert_eq!(removed, 24);
    assert_eq!(buf, vec![0u8; 24]);
}

#[test]
fn knox_token_then_separator_then_other_prop() {
    let mut buf = b",knox_kap=1 other_prop=2".to_vec();
    let removed = patch_samsung_knox(&mut buf);
    assert_eq!(removed, 11);
    assert_eq!(buf, padded(b" other_prop=2", 24));
}

#[test]
fn knox_bare_pattern_is_whole_buffer() {
    let mut buf = b"knox_kap".to_vec();
    let removed = patch_samsung_knox(&mut buf);
    assert_eq!(removed, 8);
    assert_eq!(buf, vec![0u8; 8]);
}

#[test]
fn empty_buffer_is_left_alone() {
    let mut buf: Vec<u8> = Vec::new();
    assert_eq!(patch_samsung_knox(&mut buf), 0);
    assert_eq!(patch_samsung_secure_boot(&mut buf), 0);
    assert_eq!(patch_oneui8_security(&mut buf), 0);
    assert_eq!(patch_samsung_device_management(&mut buf), 0);
    assert_eq!(patch_exynos2200_trustzone(&mut buf), 0);
    assert_eq!(patch_samsung_s22_plus(&mut buf), 0);
    assert_eq!(remove_samsung_pattern(&mut buf, &["x"]), 0);
    assert!(buf.is_empty());
}

#[test]
fn buffer_without_tokens_is_unchanged() {
    let input = b"console=ttyS0 root=/dev/sda1 quiet\0".to_vec();
    let mut buf = input.clone();
    assert_eq!(patch_samsung_s22_plus(&mut buf), 0);
    assert_eq!(buf, input);
}

#[test]
fn length_is_conserved() {
    let inputs: [&[u8]; 5] = [
        b"",
        b"knox_kap",
        b"x knox_rp=on y,warranty_bit z",
        b",,,,",
        b"sec_restrict_rooting=1\nsec_restrict_tethering=0\n",
    ];
    for input in inputs {
        let mut buf = input.to_vec();
        let removed = patch_samsung_knox(&mut buf);
        assert_eq!(buf.len(), input.len());
        assert!(removed <= input.len());
        let kept = input.len() - removed;
        assert!(buf[kept..].iter().all(|b| *b == 0));
    }
}

#[test]
fn consecutive_tokens_are_each_removed() {
    let mut buf = b"knox_kapknox_ccm,knox_rp,knox_tima=9 end".to_vec();
    let n = buf.len();
    let removed = patch_samsung_knox(&mut buf);
    assert_eq!(removed, 8 + 8 + 8 + 12);
    assert_eq!(buf, padded(b" end", n));
}

#[test]
fn unmatched_comma_is_kept() {
    let mut buf = b"a,b,knox_rp,c".to_vec();
    let n = buf.len();
    let removed = patch_samsung_knox(&mut buf);
    assert_eq!(removed, 8);
    assert_eq!(buf, padded(b"a,b,c", n));
}

#[test]
fn token_at_end_without_separator() {
    let mut buf = b"quiet warranty_bit=1".to_vec();
    let n = buf.len();
    let removed = patch_samsung_knox(&mut buf);
    assert_eq!(removed, 14);
    assert_eq!(buf, padded(b"quiet ", n));
}

#[test]
fn earlier_pattern_shadows_its_extension() {
    let mut buf = b"knox_kap_status=1 x".to_vec();
    let n = buf.len();
    let removed = patch_samsung_knox(&mut buf);
    assert_eq!(removed, 8);
    assert_eq!(buf, padded(b"_status=1 x", n));
}

#[test]
fn second_pass_removes_nothing_on_separated_tokens() {
    let mut buf = b"a=1 knox_kap=1 b=2 ,knox_rp=x c=3\n".to_vec();
    let first = patch_samsung_knox(&mut buf);
    assert_eq!(first, 10 + 10);
    let after_first = buf.clone();
    let second = patch_samsung_knox(&mut buf);
    assert_eq!(second, 0);
    assert_eq!(buf, after_first);
}

#[test]
fn second_pass_can_find_a_token_joined_by_the_first() {
    let mut buf = b"knox_knox_kapkap".to_vec();
    let first = patch_samsung_knox(&mut buf);
    assert_eq!(first, 8);
    assert_eq!(buf, padded(b"knox_kap", 16));
    let second = patch_samsung_knox(&mut buf);
    assert_eq!(second, 8);
    assert_eq!(buf, vec![0u8; 16]);
}

#[test]
fn removed_equals_length_minus_kept() {
    let input = b"x=1 sec_boot=1 y=2 verified_boot z".to_vec();
    let mut buf = input.clone();
    let removed = patch_samsung_secure_boot(&mut buf);
    let expected_kept = b"x=1  y=2  z";
    assert_eq!(removed, input.len() - expected_kept.len());
    assert_eq!(buf, padded(expected_kept, input.len()));
}

#[test]
fn secure_boot_set() {
    let mut buf = b"secure_boot=1 bootloader_locked boot_verifier=strict\0tail".to_vec();
    let n = buf.len();
    let removed = patch_samsung_secure_boot(&mut buf);
    assert_eq!(removed, 13 + 17 + 20);
    assert_eq!(buf, padded(b"  \0tail", n));
}

#[test]
fn oneui8_set() {
    let mut buf = b"a samsung_pass=1,sec_knox_guard b".to_vec();
    let n = buf.len();
    let removed = patch_oneui8_security(&mut buf);
    assert_eq!(removed, 12 + 17);
    assert_eq!(buf, padded(b"a  b", n));
}

#[test]
fn device_management_set() {
    let mut buf = b"mdm_mode,sec_sdp,enterprise_policy=strict done".to_vec();
    let n = buf.len();
    let removed = patch_samsung_device_management(&mut buf);
    assert_eq!(removed, 8 + 8 + 25);
    assert_eq!(buf, padded(b" done", n));
}

#[test]
fn trustzone_set() {
    let mut buf = b"tz_kernel=on arm_smccc exynos_tzpc=0".to_vec();
    let n = buf.len();
    let removed = patch_exynos2200_trustzone(&mut buf);
    assert_eq!(removed, 12 + 9 + 13);
    assert_eq!(buf, padded(b"  ", n));
}

#[test]
fn each_set_leaves_the_other_sets_alone() {
    let input = b"knox_kap secure_boot oneui_security mdm_mode trustzone".to_vec();
    let n = input.len();

    let mut buf = input.clone();
    assert_eq!(patch_samsung_knox(&mut buf), 8);
    assert_eq!(buf, padded(b" secure_boot oneui_security mdm_mode trustzone", n));

    let mut buf = input.clone();
    assert_eq!(patch_samsung_secure_boot(&mut buf), 11);
    assert_eq!(buf, padded(b"knox_kap  oneui_security mdm_mode trustzone", n));

    let mut buf = input.clone();
    assert_eq!(patch_oneui8_security(&mut buf), 14);
    assert_eq!(buf, padded(b"knox_kap secure_boot  mdm_mode trustzone", n));

    let mut buf = input.clone();
    assert_eq!(patch_samsung_device_management(&mut buf), 8);
    assert_eq!(buf, padded(b"knox_kap secure_boot oneui_security  trustzone", n));

    let mut buf = input.clone();
    assert_eq!(patch_exynos2200_trustzone(&mut buf), 9);
    assert_eq!(buf, padded(b"knox_kap secure_boot oneui_security mdm_mode ", n));
}

#[test]
fn all_sets_in_sequence() {
    let mut buf = b"knox_kap secure_boot oneui_security mdm_mode trustzone".to_vec();
    let n = buf.len();
    let total = patch_samsung_s22_plus(&mut buf);
    assert_eq!(total, 8 + 11 + 14 + 8 + 9);
    assert_eq!(buf, padded(b"    ", n));
}

#[test]
fn sequence_equals_the_five_passes_one_after_another() {
    let input = b"k=1 sec_knox_container=2 tz_secure_os,knox_tima_status x sec_boot_kernel".to_vec();
    let mut one = input.clone();
    let total = patch_samsung_s22_plus(&mut one);

    let mut two = input.clone();
    let mut sum = 0;
    sum += patch_samsung_knox(&mut two);
    sum += patch_samsung_secure_boot(&mut two);
    sum += patch_oneui8_security(&mut two);
    sum += patch_samsung_device_management(&mut two);
    sum += patch_exynos2200_trustzone(&mut two);

    assert_eq!(one, two);
    assert_eq!(total, sum);
    assert!(total <= input.len());
}

#[test]
fn later_pass_sees_what_earlier_pass_joined() {
    let mut buf = b"mdm_knox_rpmode".to_vec();
    let total = patch_samsung_s22_plus(&mut buf);
    assert_eq!(total, 15);
    assert_eq!(buf, vec![0u8; 15]);
}

#[test]
fn general_pass_with_a_set_of_the_caller() {
    let mut buf = b"keep,drop=1 keep,dropkeep drop".to_vec();
    let n = buf.len();
    let removed = remove_samsung_pattern(&mut buf, &["drop"]);
    assert_eq!(removed, 7 + 5 + 4);
    assert_eq!(buf, padded(b"keep keepkeep ", n));
}

#[test]
fn general_pass_equals_fixed_set_pass() {
    let input = b"x knox_ccm_status=1 y".to_vec();
    let mut a = input.clone();
    let mut b = input.clone();
    assert_eq!(patch_samsung_knox(&mut a), remove_samsung_pattern(&mut b, &KNOX_PATTERNS));
    assert_eq!(a, b);
}

#[test]
fn empty_pattern_is_detected() {
    let none: [&str; 0] = [];
    assert!(has_no_empty_pattern(&none));
    assert!(has_no_empty_pattern(&["a"]));
    assert!(has_no_empty_pattern(&KNOX_PATTERNS));
    assert!(has_no_empty_pattern(&SECURE_BOOT_PATTERNS));
    assert!(has_no_empty_pattern(&ONEUI8_PATTERNS));
    assert!(has_no_empty_pattern(&DEVICE_MANAGEMENT_PATTERNS));
    assert!(has_no_empty_pattern(&TRUSTZONE_PATTERNS));
    assert!(!has_no_empty_pattern(&[""]));
    assert!(!has_no_empty_pattern(&["a", "", "b"]));
    assert!(!has_no_empty_pattern(&["a", "b", ""]));
}

#[test]
fn fixed_sets_hold_no_separator() {
    let sets: [&[&str]; 5] = [
        &KNOX_PATTERNS,
        &SECURE_BOOT_PATTERNS,
        &ONEUI8_PATTERNS,
        &DEVICE_MANAGEMENT_PATTERNS,
        &TRUSTZONE_PATTERNS,
    ];
    for set in sets {
        for pattern in set {
            assert!(pattern.bytes().all(|b| b != b' ' && b != b'\n' && b != 0));
        }
    }
}

#[test]
fn fixed_sets_have_their_sizes() {
    assert_eq!(KNOX_PATTERNS.len(), 11);
    assert_eq!(SECURE_BOOT_PATTERNS.len(), 9);
    assert_eq!(ONEUI8_PATTERNS.len(), 11);
    assert_eq!(DEVICE_MANAGEMENT_PATTERNS.len(), 7);
    assert_eq!(TRUSTZONE_PATTERNS.len(), 8);
}

#[test]
fn all_buffers_up_to_a_small_length_stay_in_bounds() {
    let alphabet: [u8; 5] = [b',', b'a', b'=', b' ', 0];
    for len in 0..6usize {
        let mut idx = vec![0usize; len];
        loop {
            let input: Vec<u8> = idx.iter().map(|i| alphabet[*i]).collect();
            let mut buf = input.clone();
            let removed = remove_samsung_pattern(&mut buf, &["a", "a="]);
            assert_eq!(buf.len(), len);
            assert!(removed <= len);
            assert!(buf[len - removed..].iter().all(|b| *b == 0));
            let mut pos = 0;
            while pos < len && idx[pos] == alphabet.len() - 1 {
                idx[pos] = 0;
                pos += 1;
            }
            if pos == len {
                break;
            }
            idx[pos] += 1;
        }
    }
}
