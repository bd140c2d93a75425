use veneer::fmt::Buffer;

#[test]
fn all() {
    for i in 0..(u16::MAX as u64) {
        assert_eq!(
            itoa::Buffer::new().format(i).as_bytes(),
            Buffer::new().format(i)
        );
    }
}

#[test]
fn format_exact_values() {
    let mut buf = Buffer::new();
    assert_eq!(buf.format(0), b"0");
    assert_eq!(buf.format(7), b"7");
    assert_eq!(buf.format(10), b"10");
    assert_eq!(buf.format(12345), b"12345");
    assert_eq!(buf.format(1000000), b"1000000");
    assert_eq!(buf.format(u64::MAX), b"18446744073709551615");
}

#[test]
fn format_reuses_buffer() {
    let mut buf = Buffer::new();
    assert_eq!(buf.format(999), b"999");
    // A shorter value afterwards must not pick up stale digits.
    assert_eq!(buf.format(1), b"1");
    assert_eq!(buf.format(100), b"100");
}
