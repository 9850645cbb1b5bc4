use bootpatch::{
    find_bytes, find_samsung_signature, hex2byte, hex_patch, samsung_hexpatch,
    validate_samsung_boot_image,
};

#[test]
fn hex_patch_two_matches() {
    let mut region = vec![0x01, 0x02, 0x03, 0x01, 0x02];
    let offsets = hex_patch(&mut region, &[0x01, 0x02], &[0xAA, 0xBB]);
    assert_eq!(offsets, vec![0, 3]);
    assert_eq!(region, vec![0xAA, 0xBB, 0x03, 0xAA, 0xBB]);
}

#[test]
fn hex_patch_no_match() {
    let mut region = vec![1, 2, 3, 4];
    let offsets = hex_patch(&mut region, &[2, 4], &[9, 9]);
    assert!(offsets.is_empty());
    assert_eq!(region, vec![1, 2, 3, 4]);
}

#[test]
fn hex_patch_matches_do_not_overlap() {
    let mut region = vec![7, 7, 7, 7, 7];
    let offsets = hex_patch(&mut region, &[7, 7], &[1, 2]);
    assert_eq!(offsets, vec![0, 2]);
    assert_eq!(region, vec![1, 2, 1, 2, 7]);
}

#[test]
fn hex_patch_does_not_rescan_what_it_wrote() {
    let mut region = vec![1, 2, 2, 2];
    let offsets = hex_patch(&mut region, &[1, 2], &[0, 1]);
    assert_eq!(offsets, vec![0]);
    assert_eq!(region, vec![0, 1, 2, 2]);
}

#[test]
fn hex_patch_replacement_may_hold_the_pattern() {
    let mut region = vec![5, 6, 5, 6, 5];
    let offsets = hex_patch(&mut region, &[5, 6], &[5, 6]);
    assert_eq!(offsets, vec![0, 2]);
    assert_eq!(region, vec![5, 6, 5, 6, 5]);
}

#[test]
fn hex_patch_shorter_replacement_leaves_rest_of_span() {
    let mut region = vec![1, 2, 3, 9, 1, 2, 3];
    let offsets = hex_patch(&mut region, &[1, 2, 3], &[8]);
    assert_eq!(offsets, vec![0, 4]);
    assert_eq!(region, vec![8, 2, 3, 9, 8, 2, 3]);
}

#[test]
fn hex_patch_empty_replacement_only_reports() {
    let mut region = vec![4, 4, 0, 4];
    let offsets = hex_patch(&mut region, &[4], &[]);
    assert_eq!(offsets, vec![0, 1, 3]);
    assert_eq!(region, vec![4, 4, 0, 4]);
}

#[test]
fn hex_patch_empty_pattern_matches_nothing() {
    let mut region = vec![1, 2, 3];
    let offsets = hex_patch(&mut region, &[], &[]);
    assert!(offsets.is_empty());
    assert_eq!(region, vec![1, 2, 3]);
}

#[test]
fn hex_patch_pattern_longer_than_region() {
    let mut region = vec![1, 2];
    let offsets = hex_patch(&mut region, &[1, 2, 3], &[0, 0, 0]);
    assert!(offsets.is_empty());
    assert_eq!(region, vec![1, 2]);
}

#[test]
fn hex_patch_empty_region() {
    let mut region: Vec<u8> = Vec::new();
    let offsets = hex_patch(&mut region, &[1], &[2]);
    assert!(offsets.is_empty());
    assert!(region.is_empty());
}

#[test]
fn hex_patch_match_at_the_very_end() {
    let mut region = vec![0, 0, 0, 1, 2];
    let offsets = hex_patch(&mut region, &[1, 2], &[3, 4]);
    assert_eq!(offsets, vec![3]);
    assert_eq!(region, vec![0, 0, 0, 3, 4]);
}

#[test]
fn hex_patch_whole_region_is_the_pattern() {
    let mut region = vec![1, 2, 3];
    let offsets = hex_patch(&mut region, &[1, 2, 3], &[7, 8, 9]);
    assert_eq!(offsets, vec![0]);
    assert_eq!(region, vec![7, 8, 9]);
}

#[test]
fn hex_patch_offsets_are_spaced_by_the_pattern() {
    let mut region = b"abababababab".to_vec();
    let offsets = hex_patch(&mut region, b"aba", b"xyz");
    assert_eq!(offsets, vec![0, 4, 8]);
    for pair in offsets.windows(2) {
        assert!(pair[0] + 3 <= pair[1]);
    }
    assert_eq!(region, b"xyzbxyzbxyzb".to_vec());
}

#[test]
fn hex2byte_digits() {
    assert_eq!(hex2byte(b"00"), vec![0x00]);
    assert_eq!(hex2byte(b"0a"), vec![0x0a]);
    assert_eq!(hex2byte(b"A0"), vec![0xa0]);
    assert_eq!(hex2byte(b"ff"), vec![0xff]);
    assert_eq!(hex2byte(b"FF"), vec![0xff]);
    assert_eq!(hex2byte(b"7f"), vec![0x7f]);
    assert_eq!(hex2byte(b"0123456789abcdef"), vec![0x01, 0x23, 0x45, 0x67, 0x89, 0xab, 0xcd, 0xef]);
    assert_eq!(hex2byte(b"0123456789ABCDEF"), vec![0x01, 0x23, 0x45, 0x67, 0x89, 0xab, 0xcd, 0xef]);
    assert_eq!(hex2byte(b"DeadBeef"), vec![0xde, 0xad, 0xbe, 0xef]);
}

#[test]
fn hex2byte_empty() {
    assert_eq!(hex2byte(b""), Vec::<u8>::new());
}

#[test]
fn hex2byte_drops_trailing_odd_character() {
    assert_eq!(hex2byte(b"a"), Vec::<u8>::new());
    assert_eq!(hex2byte(b"abc"), vec![0xab]);
    assert_eq!(hex2byte(b"12345"), vec![0x12, 0x34]);
}

#[test]
fn hex2byte_does_not_reject_other_characters() {
    assert_eq!(hex2byte(b"zz").len(), 1);
    assert_eq!(hex2byte(b"  ").len(), 1);
    assert_eq!(hex2byte(&[0, 255, b'1', b'0']).len(), 2);
    assert_eq!(hex2byte(&[0, 255, b'1', b'0'])[1], 0x10);
    assert_eq!(hex2byte(b"g0"), vec![0x00]);
    assert_eq!(hex2byte(b"0g"), vec![0x10]);
    assert_eq!(hex2byte(b"0 "), vec![0xe9]);
}

#[test]
fn samsung_hexpatch_patches_decoded_bytes() {
    let mut region = vec![0x01, 0x02, 0x03, 0x01, 0x02];
    assert!(samsung_hexpatch(&mut region, b"0102", b"AABB"));
    assert_eq!(region, vec![0xAA, 0xBB, 0x03, 0xAA, 0xBB]);
}

#[test]
fn samsung_hexpatch_reports_no_match() {
    let mut region = vec![0x01, 0x02, 0x03];
    assert!(!samsung_hexpatch(&mut region, b"0201", b"ffff"));
    assert_eq!(region, vec![0x01, 0x02, 0x03]);
}

#[test]
fn samsung_hexpatch_with_empty_texts() {
    let mut region = vec![0x01, 0x02, 0x03];
    assert!(!samsung_hexpatch(&mut region, b"", b""));
    assert!(!samsung_hexpatch(&mut region, b"0", b"f"));
    assert_eq!(region, vec![0x01, 0x02, 0x03]);
}

#[test]
fn samsung_hexpatch_mixed_case_text() {
    let mut region = vec![0xde, 0xad, 0xbe, 0xef];
    assert!(samsung_hexpatch(&mut region, b"ADbe", b"0000"));
    assert_eq!(region, vec![0xde, 0x00, 0x00, 0xef]);
}

#[test]
fn find_bytes_leftmost() {
    assert_eq!(find_bytes(b"xxabxxab", b"ab"), Some(2));
    assert_eq!(find_bytes(b"ab", b"ab"), Some(0));
    assert_eq!(find_bytes(b"xab", b"ab"), Some(1));
    assert_eq!(find_bytes(b"aab", b"ab"), Some(1));
}

#[test]
fn find_bytes_absent() {
    assert_eq!(find_bytes(b"abc", b"abd"), None);
    assert_eq!(find_bytes(b"ab", b"abc"), None);
    assert_eq!(find_bytes(b"", b"a"), None);
}

#[test]
fn find_bytes_empty_needle() {
    assert_eq!(find_bytes(b"abc", b""), Some(0));
    assert_eq!(find_bytes(b"", b""), Some(0));
}

#[test]
fn boot_image_with_marker() {
    assert!(validate_samsung_boot_image(b"....SAMSUNG...."));
    assert!(validate_samsung_boot_image(b"EXYNOS"));
    assert!(validate_samsung_boot_image(b"model=SM-S906B"));
    assert!(validate_samsung_boot_image(b"\0\0OneUI"));
}

#[test]
fn boot_image_without_marker() {
    assert!(!validate_samsung_boot_image(b""));
    assert!(!validate_samsung_boot_image(b"samsung exynos oneui sm-s906"));
    assert!(!validate_samsung_boot_image(b"SAMSUN EXYNO SM-S90 OneU"));
    assert!(!validate_samsung_boot_image(b"SAM\0SUNG"));
}

#[test]
fn first_marker_in_table_order_is_reported() {
    assert_eq!(find_samsung_signature(b"OneUI on EXYNOS by SAMSUNG"), Some(0));
    assert_eq!(find_samsung_signature(b"OneUI on EXYNOS"), Some(1));
    assert_eq!(find_samsung_signature(b"OneUI on SM-S906"), Some(2));
    assert_eq!(find_samsung_signature(b"OneUI"), Some(3));
    assert_eq!(find_samsung_signature(b"none"), None);
}
