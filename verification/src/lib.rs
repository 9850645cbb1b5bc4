//! In-place removal of security-flag tokens from a boot command line or
//! property blob, and a byte-pattern patcher for boot image regions.
//!
//! Every function is stated over `Seq<u8>` models of the buffers it works on:
//! [`compact::kept`] and [`compact::compacted`] say what a compaction pass
//! leaves behind, [`hexpatch::patched`] and [`hexpatch::match_offsets`] say
//! what the patcher rewrites and reports.

pub mod bytes;
pub mod token;
pub mod compact;
pub mod scan;
pub mod accounting;
pub mod laws;
pub mod hex;
pub mod hexpatch;
pub mod tables;
pub mod signature;

pub use token::{has_no_empty_pattern, match_samsung_patterns};
pub use compact::remove_samsung_pattern;
pub use scan::{scan_tokens, Match};
pub use hex::hex2byte;
pub use hexpatch::{hex_patch, samsung_hexpatch};
pub use bytes::find_bytes;
pub use signature::{find_samsung_signature, validate_samsung_boot_image};
pub use tables::{
    patch_exynos2200_trustzone, patch_oneui8_security, patch_samsung_device_management,
    patch_samsung_knox, patch_samsung_s22_plus, patch_samsung_secure_boot,
};
