use veneer::fs::directory::{compact, DType, DirectoryContents, IterDir};

/// One raw kernel record: inode, stream offset, record length, type byte,
/// then the null-terminated name, padded out to the record length.
fn raw_record(inode: u64, d_type: u8, name: &[u8], pad: usize) -> Vec<u8> {
    let mut rec = Vec::new();
    rec.extend_from_slice(&inode.to_le_bytes());
    rec.extend_from_slice(&0u64.to_le_bytes());
    let reclen = (19 + name.len() + 1 + pad) as u16;
    rec.extend_from_slice(&reclen.to_le_bytes());
    rec.push(d_type);
    rec.extend_from_slice(name);
    rec.push(0);
    rec.extend_from_slice(&vec![0xaa; pad]);
    rec
}

#[test]
fn compact_single_record() {
    let raw = raw_record(42, 8, b"foo", 5);
    let out = compact(&raw).unwrap();

    let mut expected = Vec::new();
    expected.extend_from_slice(&42u64.to_le_bytes());
    expected.push(8);
    expected.push(4);
    expected.extend_from_slice(b"foo\0");
    assert_eq!(out, expected);
}

#[test]
fn compact_and_iterate() {
    let mut raw = raw_record(1, 4, b".", 0);
    raw.extend_from_slice(&raw_record(2, 4, b"..", 3));
    raw.extend_from_slice(&raw_record(90001, 8, b"veneer.rs", 0));
    let dir = DirectoryContents {
        contents: compact(&raw).unwrap(),
    };

    let mut it = IterDir::new();
    let e = it.next(&dir).unwrap();
    assert_eq!(e.inode(), 1);
    assert_eq!(e.d_type(), DType::DIR);
    assert_eq!(e.name().as_bytes(), b".");

    let e = it.next(&dir).unwrap();
    assert_eq!(e.inode(), 2);
    assert_eq!(e.d_type(), DType::DIR);
    assert_eq!(e.name().as_bytes(), b"..");

    let e = it.next(&dir).unwrap();
    assert_eq!(e.inode(), 90001);
    assert_eq!(e.d_type(), DType::REG);
    assert_eq!(e.name().as_bytes(), b"veneer.rs");

    assert!(it.next(&dir).is_none());
}

#[test]
fn compact_empty_stream() {
    assert_eq!(compact(&[]).unwrap(), Vec::<u8>::new());
}

#[test]
fn compact_rejects_malformed() {
    // A truncated header.
    assert!(compact(&[1, 2, 3]).is_none());

    // A record length running past the buffer.
    let mut raw = raw_record(1, 8, b"x", 0);
    let cut = raw.len() - 1;
    raw.truncate(cut);
    assert!(compact(&raw).is_none());

    // A record length smaller than the header.
    let mut raw = raw_record(1, 8, b"x", 0);
    raw[16] = 5;
    raw[17] = 0;
    assert!(compact(&raw).is_none());

    // A name without its terminator.
    let mut raw = raw_record(1, 8, b"x", 0);
    for b in raw.iter_mut().skip(19) {
        *b = b'y';
    }
    assert!(compact(&raw).is_none());
}

#[test]
fn index_counts_and_replays_entries() {
    let mut raw = raw_record(7, 2, b"tty", 1);
    raw.extend_from_slice(&raw_record(8, 6, b"loop0", 0));
    let dir = DirectoryContents {
        contents: compact(&raw).unwrap(),
    };

    let index = dir.index();
    assert_eq!(index.len(), 2);
    let e = index.entry(&dir, 1);
    assert_eq!(e.inode(), 8);
    assert_eq!(e.d_type(), DType::BLK);
    assert_eq!(e.name().as_bytes(), b"loop0");
    let e = index.entry(&dir, 0);
    assert_eq!(e.inode(), 7);
    assert_eq!(e.d_type(), DType::CHR);
    assert_eq!(e.name().as_bytes(), b"tty");
}

#[test]
fn dtype_codes() {
    let cases: [(u8, DType); 8] = [
        (0, DType::UNKNOWN),
        (1, DType::FIFO),
        (2, DType::CHR),
        (4, DType::DIR),
        (6, DType::BLK),
        (8, DType::REG),
        (10, DType::LNK),
        (12, DType::SOCK),
    ];
    for (code, ty) in cases {
        assert_eq!(DType::from_byte(code), ty);
        assert_eq!(ty.as_byte(), code);
    }
    // Codes the kernel does not define decode as UNKNOWN.
    assert_eq!(DType::from_byte(3), DType::UNKNOWN);
    assert_eq!(DType::from_byte(255), DType::UNKNOWN);
}

#[test]
fn entry_at_rejects_truncated_record() {
    // A record whose name length points past the end of the stream.
    let dir = DirectoryContents {
        contents: vec![0, 0, 0, 0, 0, 0, 0, 0, 8, 200],
    };
    assert!(dir.entry_at(0).is_none());
    // A name length of zero cannot hold the terminator.
    let dir = DirectoryContents {
        contents: vec![0, 0, 0, 0, 0, 0, 0, 0, 8, 0],
    };
    assert!(dir.entry_at(0).is_none());
}
