use scene_core::identity::{empty, format_uuid, new_uuid};
use scene_core::text::pad_decimal;

#[test]
fn empty_identity_is_all_zeros() {
    assert_eq!(empty(), "00000000-0000-0000-0000-000000000000-000000000000000");
}

#[test]
fn format_uuid_writes_hyphenated_hex_and_padded_time() {
    let id = format_uuid(0x67e55044_10b1_426f_9247_bb680e5fe0c8, 1_700_000_000_123);
    assert_eq!(id, "67e55044-10b1-426f-9247-bb680e5fe0c8-001700000000123");
}

#[test]
fn pad_decimal_pads_and_never_cuts() {
    assert_eq!(pad_decimal(0, 15), "000000000000000");
    assert_eq!(pad_decimal(42, 5), "00042");
    assert_eq!(pad_decimal(123456, 3), "123456");
    assert_eq!(pad_decimal(7, 0), "7");
    assert_eq!(pad_decimal(u128::MAX, 15), "340282366920938463463374607431768211455");
}

#[test]
fn new_uuid_has_version_four_shape() {
    let id = new_uuid();
    let chars: Vec<char> = id.chars().collect();
    assert_eq!(chars.len(), 36 + 1 + 15);
    assert_eq!(chars[8], '-');
    assert_eq!(chars[13], '-');
    assert_eq!(chars[14], '4');
    assert_eq!(chars[18], '-');
    assert!(matches!(chars[19], '8' | '9' | 'a' | 'b'));
    assert_eq!(chars[23], '-');
    assert_eq!(chars[36], '-');
    assert!(chars[37..].iter().all(|c| c.is_ascii_digit()));
}
