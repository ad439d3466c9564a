use amia::sbi::Sbiret;
use amia::util::{align_up, memcpy, memset, strcmp, strcpy};

#[test]
fn align_up_rounds_to_multiples() {
    assert_eq!(align_up(0, 4096), 0);
    assert_eq!(align_up(1, 4096), 4096);
    assert_eq!(align_up(4096, 4096), 4096);
    assert_eq!(align_up(4097, 4096), 8192);
    assert_eq!(align_up(10, 3), 12);
    assert_eq!(align_up(u64::MAX, 1), u64::MAX);
}

#[test]
fn memset_fills_prefix_only() {
    let mut buf = [9u8; 8];
    memset(&mut buf, 0xab, 5);
    assert_eq!(buf, [0xab, 0xab, 0xab, 0xab, 0xab, 9, 9, 9]);
    memset(&mut buf, 1, 0);
    assert_eq!(buf[0], 0xab);
}

#[test]
fn memcpy_copies_prefix() {
    let mut dst = [0u8; 6];
    let src = [1u8, 2, 3, 4];
    memcpy(&mut dst, &src, 3);
    assert_eq!(dst, [1, 2, 3, 0, 0, 0]);
}

#[test]
fn strcpy_copies_through_terminator() {
    let mut dst = [7u8; 8];
    let src = b"hey\0junk";
    strcpy(&mut dst, src);
    assert_eq!(&dst, b"hey\0\x07\x07\x07\x07");
    assert_eq!(strcmp(&dst, src), 0);
}

#[test]
fn strcmp_orders_bytes_unsigned() {
    assert_eq!(strcmp(b"abc\0", b"abd\0"), -1);
    assert_eq!(strcmp(b"abd\0", b"abc\0"), 1);
    assert_eq!(strcmp(b"abc\0", b"abc\0"), 0);
    assert_eq!(strcmp(b"ab\0", b"abc\0"), -1);
    assert_eq!(strcmp(b"abc\0", b"ab\0"), 1);
    assert_eq!(strcmp(b"\xff\0", b"\x01\0"), 1);
    assert_eq!(strcmp(b"\0", b"\0"), 0);
}

#[test]
fn sbi_result_splits_error_and_value() {
    assert_eq!(Sbiret { error: 0, value: 42 }.into_result(), Ok(42));
    assert_eq!(Sbiret { error: -2, value: 42 }.into_result(), Err(-2));
}
