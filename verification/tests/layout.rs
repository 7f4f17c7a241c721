use thin_arc::layout::{
    allocation_size, fits_fat_addressing, payload_offset, round_up_to_align, slice_payload_size,
};

#[test]
fn offset_is_max_of_alignment_and_count_width() {
    assert_eq!(payload_offset(1, 8), 8);
    assert_eq!(payload_offset(4, 8), 8);
    assert_eq!(payload_offset(8, 8), 8);
    assert_eq!(payload_offset(16, 8), 16);
    assert_eq!(payload_offset(64, 8), 64);
}

#[test]
fn round_up_exact_values() {
    assert_eq!(round_up_to_align(0, 8), Some(0));
    assert_eq!(round_up_to_align(1, 8), Some(8));
    assert_eq!(round_up_to_align(8, 8), Some(8));
    assert_eq!(round_up_to_align(9, 8), Some(16));
    assert_eq!(round_up_to_align(13, 1), Some(13));
}

#[test]
fn round_up_overflow_is_rejected() {
    assert_eq!(round_up_to_align(usize::MAX, 8), None);
    assert_eq!(round_up_to_align(usize::MAX, 1), Some(usize::MAX));
    assert_eq!(round_up_to_align(usize::MAX - 7, 8), Some(usize::MAX - 7));
}

#[test]
fn allocation_size_exact_values() {
    // u64 payload behind an 8-byte count: 8 + 8.
    assert_eq!(allocation_size(8, 8, 8), Some(16));
    // 12 payload bytes of alignment 4: header 8, then padded 8 + 12 -> 24.
    assert_eq!(allocation_size(12, 4, 8), Some(24));
    // Over-aligned payload: header 16, 16 + 4 padded to 32.
    assert_eq!(allocation_size(4, 16, 8), Some(32));
    // Empty payload still needs its header.
    assert_eq!(allocation_size(0, 1, 8), Some(8));
}

#[test]
fn allocation_size_overflow_is_rejected() {
    assert_eq!(allocation_size(usize::MAX, 8, 8), None);
    assert_eq!(allocation_size(usize::MAX - 7, 8, 8), None);
    // Still representable: 8 + (MAX - 20) padded up to 8 is MAX - 7.
    assert_eq!(allocation_size(usize::MAX - 20, 8, 8), Some(usize::MAX - 7));
}

#[test]
fn slice_payload_size_multiplies_and_rejects_overflow() {
    assert_eq!(slice_payload_size(8, 3), Some(24));
    assert_eq!(slice_payload_size(0, 1000), Some(0));
    assert_eq!(slice_payload_size(usize::MAX, 2), None);
    assert_eq!(slice_payload_size(2, usize::MAX), None);
}

#[test]
fn fat_addressing_boundary() {
    assert!(fits_fat_addressing(0));
    assert!(fits_fat_addressing(3));
    assert!(fits_fat_addressing(isize::MAX as usize));
    assert!(!fits_fat_addressing(isize::MAX as usize + 1));
    assert!(!fits_fat_addressing(usize::MAX));
}
