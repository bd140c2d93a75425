use veneer::CStr;

#[test]
fn cstr_roundtrip() {
    let s = CStr::from_bytes(b"hello\0");
    assert_eq!(s.len_with_nul(), 6);
    assert_eq!(s.as_bytes(), b"hello");
}

#[test]
fn cstr_get() {
    let s = CStr::from_bytes(b"ab\0");
    assert_eq!(s.get(0), Some(b'a'));
    assert_eq!(s.get(1), Some(b'b'));
    assert_eq!(s.get(2), Some(0));
    assert_eq!(s.get(3), None);
}

#[test]
fn cstr_empty() {
    let s = CStr::from_bytes(b"\0");
    assert_eq!(s.len_with_nul(), 1);
    assert_eq!(s.as_bytes(), b"");
}

#[test]
fn cstr_interior_bytes_kept() {
    // Only the last byte is the terminator; earlier bytes pass through.
    let s = CStr::from_bytes(&[0xff, 0x00, 0x41, 0x00]);
    assert_eq!(s.as_bytes(), &[0xff, 0x00, 0x41]);
}
