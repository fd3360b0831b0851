//! Numbers as text.

use oxideav_vdpau::text::{byte_list_text, decimal_text, hexadecimal_text, signed_decimal_text};

#[test]
fn decimal_numbers() {
    for n in [0u64, 1, 9, 10, 99, 100, 12345, u32::MAX as u64, u64::MAX] {
        assert_eq!(decimal_text(n), format!("{n}"));
    }
}

#[test]
fn signed_decimal_numbers() {
    for n in [0i32, 1, -1, 42, -42, i32::MAX, i32::MIN] {
        assert_eq!(signed_decimal_text(n), format!("{n}"));
    }
}

#[test]
fn hexadecimal_numbers() {
    for n in [0u32, 0x49_8342, 0xab_cdef, 0xff_ffff, 0x12] {
        assert_eq!(hexadecimal_text(n, 6), format!("{n:06x}"));
    }
    assert_eq!(hexadecimal_text(5, 0), "");
}

#[test]
fn byte_lists() {
    for bytes in [&[][..], &[7][..], &[68, 75, 73, 70][..], &[0, 255][..]] {
        assert_eq!(byte_list_text(bytes), format!("{bytes:?}"));
    }
}
