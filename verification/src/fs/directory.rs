//! The compacted directory-entry record format.
//!
//! The kernel's raw directory stream is kept in a compact form: each record
//! is an 8-byte little-endian inode, one type byte, one name-length byte,
//! and then the name, whose length counts its null terminator.  Everything
//! here parses that format; the bytes come from the embedding program.

use crate::cstr::CStr;
use vstd::prelude::*;
use vstd::slice::slice_subrange;

verus! {

/// The type of a directory entry, as the kernel reports it.
#[derive(Clone, Copy, Debug, PartialEq, Eq, Structural)]
#[allow(clippy::upper_case_acronyms)]
pub enum DType {
    UNKNOWN,
    FIFO,
    CHR,
    DIR,
    BLK,
    REG,
    LNK,
    SOCK,
}

/// The directory-entry type a kernel type byte stands for; codes the kernel
/// does not define map to `UNKNOWN`.
pub open spec fn spec_dtype(b: u8) -> DType {
    if b == 1 {
        DType::FIFO
    } else if b == 2 {
        DType::CHR
    } else if b == 4 {
        DType::DIR
    } else if b == 6 {
        DType::BLK
    } else if b == 8 {
        DType::REG
    } else if b == 10 {
        DType::LNK
    } else if b == 12 {
        DType::SOCK
    } else {
        DType::UNKNOWN
    }
}

impl DType {
    /// Decode a kernel type byte.
    pub fn from_byte(b: u8) -> (r: DType)
        ensures
            r == spec_dtype(b),
    {
        match b {
            1 => DType::FIFO,
            2 => DType::CHR,
            4 => DType::DIR,
            6 => DType::BLK,
            8 => DType::REG,
            10 => DType::LNK,
            12 => DType::SOCK,
            _ => DType::UNKNOWN,
        }
    }

    /// The kernel code for this type; `UNKNOWN` encodes as 0.
    pub fn as_byte(self) -> (r: u8)
        ensures
            spec_dtype(r) == self,
            self == DType::UNKNOWN ==> r == 0,
    {
        match self {
            DType::UNKNOWN => 0,
            DType::FIFO => 1,
            DType::CHR => 2,
            DType::DIR => 4,
            DType::BLK => 6,
            DType::REG => 8,
            DType::LNK => 10,
            DType::SOCK => 12,
        }
    }
}

/// The 64-bit little-endian value stored at offset `o`.
pub open spec fn le64_at(s: Seq<u8>, o: int) -> int {
    s[o] + 0x100 * s[o + 1] + 0x1_0000 * s[o + 2] + 0x100_0000 * s[o + 3] + 0x1_0000_0000 * s[o + 4]
        + 0x100_0000_0000 * s[o + 5] + 0x1_0000_0000_0000 * s[o + 6] + 0x100_0000_0000_0000 * s[o
        + 7]
}

/// A well-formed record starts at `o`: a complete 10-byte header, a name
/// length that counts at least the terminator, the whole name in bounds,
/// and a 0 as the name's last byte.
pub open spec fn wf_record_at(s: Seq<u8>, o: int) -> bool {
    &&& 0 <= o
    &&& o + 10 <= s.len()
    &&& s[o + 9] >= 1
    &&& o + 10 + s[o + 9] <= s.len()
    &&& s[o + 10 + s[o + 9] - 1] == 0
}

/// Where the record at `o` ends and the next record begins.
pub open spec fn record_end(s: Seq<u8>, o: int) -> int {
    o + 10 + s[o + 9]
}

/// The starting offsets of the consecutive well-formed records from `o` up
/// to the first point where no record starts.
pub open spec fn record_offsets(s: Seq<u8>, o: int) -> Seq<int>
    decreases s.len() - o,
{
    if wf_record_at(s, o) {
        seq![o] + record_offsets(s, record_end(s, o))
    } else {
        Seq::empty()
    }
}

/// Every offset the stream index lists is the start of a well-formed record.
pub proof fn lemma_record_offsets_wf(s: Seq<u8>, o: int)
    ensures
        forall|k: int|
            0 <= k < record_offsets(s, o).len() ==> wf_record_at(
                s,
                #[trigger] record_offsets(s, o)[k],
            ),
    decreases s.len() - o,
{
    if wf_record_at(s, o) {
        let rest = record_offsets(s, record_end(s, o));
        lemma_record_offsets_wf(s, record_end(s, o));
        assert forall|k: int| 0 <= k < record_offsets(s, o).len() implies wf_record_at(
            s,
            #[trigger] record_offsets(s, o)[k],
        ) by {
            if k >= 1 {
                assert(record_offsets(s, o)[k] == rest[k - 1]);
            }
        }
    }
}

/// The 16-bit little-endian value stored at offset `o`.
pub open spec fn le16_at(s: Seq<u8>, o: int) -> int {
    s[o] + 0x100 * s[o + 1]
}

/// The position of the first zero byte at or after `o`, or the length of
/// `s` when there is none.
pub open spec fn find_zero(s: Seq<u8>, o: int) -> int
    decreases s.len() - o,
{
    if !(0 <= o < s.len()) {
        s.len() as int
    } else if s[o] == 0 {
        o
    } else {
        find_zero(s, o + 1)
    }
}

/// A well-formed raw kernel record starts at `o`: a complete 19-byte
/// header (inode, stream offset, record length, type), a record length
/// that covers the header and stays in bounds, a null-terminated name,
/// and a name short enough for the compact form's length byte.
pub open spec fn wf_raw_record_at(s: Seq<u8>, o: int) -> bool {
    &&& 0 <= o
    &&& o + 19 <= s.len()
    &&& le16_at(s, o + 16) >= 19
    &&& o + le16_at(s, o + 16) <= s.len()
    &&& find_zero(s, o + 19) < s.len()
    &&& find_zero(s, o + 19) - (o + 19) <= 254
}

/// Where the raw record at `o` ends: its recorded length.
pub open spec fn raw_record_end(s: Seq<u8>, o: int) -> int {
    o + le16_at(s, o + 16)
}

/// The compact form of the raw record at `o`: the inode bytes, the type
/// byte, the name length (terminator included), and the name.
pub open spec fn compact_record(s: Seq<u8>, o: int) -> Seq<u8> {
    let name_end = find_zero(s, o + 19);
    s.subrange(o, o + 8).push(s[o + 18]).push((name_end - (o + 19) + 1) as u8) + s.subrange(
        o + 19,
        name_end + 1,
    )
}

/// The compact form of the whole raw stream from `o` on: the records,
/// which must tile the buffer exactly; `None` where the stream is not well
/// formed.
pub open spec fn compact_from(s: Seq<u8>, o: int) -> Option<Seq<u8>>
    decreases s.len() - o,
{
    if o == s.len() {
        Some(Seq::empty())
    } else if wf_raw_record_at(s, o) {
        match compact_from(s, raw_record_end(s, o)) {
            Some(rest) => Some(compact_record(s, o) + rest),
            None => None,
        }
    } else {
        None
    }
}

/// Rewrite a raw kernel directory stream into the compact record format:
/// for each record the inode, the type byte, and the name prefixed with its
/// length.  `None` exactly where the raw stream is not a well-formed tiling
/// of records.
pub fn compact(raw: &[u8]) -> (r: Option<Vec<u8>>)
    ensures
        match r {
            Some(out) => compact_from(raw@, 0) == Some(out@),
            None => compact_from(raw@, 0) is None,
        },
{
    let len = raw.len();
    let mut out: Vec<u8> = Vec::new();
    let mut o: usize = 0;
    loop
        invariant
            o <= len,
            len == raw@.len(),
            compact_from(raw@, 0) == match compact_from(raw@, o as int) {
                Some(rest) => Some(out@ + rest),
                None => None::<Seq<u8>>,
            },
        ensures
            compact_from(raw@, 0) == Some(out@),
        decreases len - o,
    {
        if o == len {
            assert(out@ + Seq::<u8>::empty() =~= out@);
            break ;
        }
        if len - o < 19 {
            return None;
        }
        let reclen = (raw[o + 16] as usize) + 0x100 * (raw[o + 17] as usize);
        if reclen < 19 || len - o < reclen {
            return None;
        }

        // Scan for the name's terminator.
        let mut z = o + 19;
        while z < len && raw[z] != 0
            invariant
                len == raw@.len(),
                o + 19 <= z <= len,
                find_zero(raw@, o + 19) == find_zero(raw@, z as int),
            decreases len - z,
        {
            z = z + 1;
        }
        if z == len {
            return None;
        }
        assert(find_zero(raw@, o + 19) == z);
        if z - (o + 19) > 254 {
            return None;
        }

        assert(wf_raw_record_at(raw@, o as int));
        let ghost prev = out@;
        out.extend_from_slice(slice_subrange(raw, o, o + 8));
        out.push(raw[o + 18]);
        out.push((z - (o + 19) + 1) as u8);
        out.extend_from_slice(slice_subrange(raw, o + 19, z + 1));
        proof {
            assert(out@ =~= prev + compact_record(raw@, o as int));
            if let Some(rest) = compact_from(raw@, raw_record_end(raw@, o as int)) {
                assert(prev + (compact_record(raw@, o as int) + rest) =~= out@ + rest);
            }
        }
        o = o + reclen;
    }
    Some(out)
}

/// The compact form parses back: a compacted raw record, followed by
/// anything, is a well-formed record carrying the raw record's inode bytes,
/// type byte, and null-terminated name.
pub proof fn lemma_compact_record_parses(s: Seq<u8>, o: int, rest: Seq<u8>)
    requires
        wf_raw_record_at(s, o),
    ensures
        ({
            let out = compact_record(s, o) + rest;
            &&& wf_record_at(out, 0)
            &&& record_end(out, 0) == compact_record(s, o).len()
            &&& le64_at(out, 0) == le64_at(s, o)
            &&& out[8] == s[o + 18]
            &&& out.subrange(10, record_end(out, 0)) == s.subrange(o + 19, find_zero(s, o + 19) + 1)
        }),
{
    let z = find_zero(s, o + 19);
    let rec = compact_record(s, o);
    let out = rec + rest;
    lemma_find_zero_bounds(s, o + 19);
    assert(rec.len() == 10 + (z - (o + 19) + 1));
    assert forall|k: int| 0 <= k < 8 implies out[k] == s[o + k] by {}
    assert(out[9] == (z - (o + 19) + 1) as u8);
    assert(out[10 + (z - (o + 19) + 1) - 1] == s[z]);
    assert(out.subrange(10, record_end(out, 0)) =~= s.subrange(o + 19, z + 1));
}

/// The starting offsets of the raw records from `o` on; meaningful for the
/// streams `compact_from` accepts, where the records tile the buffer.
pub open spec fn raw_offsets(s: Seq<u8>, o: int) -> Seq<int>
    decreases s.len() - o,
{
    if o == s.len() || !wf_raw_record_at(s, o) {
        Seq::empty()
    } else {
        seq![o] + raw_offsets(s, raw_record_end(s, o))
    }
}

/// Record parsing is local: behind a fixed prefix, the records of the rest
/// are found at the same offsets, shifted by the prefix's length.
proof fn lemma_record_offsets_shift(c1: Seq<u8>, c2: Seq<u8>, j: int)
    requires
        0 <= j <= c2.len(),
    ensures
        record_offsets(c1 + c2, c1.len() + j) == record_offsets(c2, j).map_values(
            |x: int| x + c1.len(),
        ),
    decreases c2.len() - j,
{
    let whole = c1 + c2;
    assert(wf_record_at(whole, c1.len() + j) == wf_record_at(c2, j));
    if wf_record_at(c2, j) {
        assert(record_end(whole, c1.len() + j) == c1.len() + record_end(c2, j));
        lemma_record_offsets_shift(c1, c2, record_end(c2, j));
        assert(record_offsets(whole, c1.len() + j) =~= record_offsets(c2, j).map_values(
            |x: int| x + c1.len(),
        ));
    } else {
        assert(record_offsets(whole, c1.len() + j) =~= record_offsets(c2, j).map_values(
            |x: int| x + c1.len(),
        ));
    }
}

/// The compact form of a whole raw stream parses back: it holds exactly one
/// record per raw record, in order, and the `k`-th record carries the
/// `k`-th raw record's inode, type byte, and null-terminated name.
pub proof fn lemma_compact_stream_parses(s: Seq<u8>, o: int)
    requires
        0 <= o <= s.len(),
        compact_from(s, o) is Some,
    ensures
        ({
            let out = compact_from(s, o)->Some_0;
            let offs = record_offsets(out, 0);
            let raws = raw_offsets(s, o);
            &&& offs.len() == raws.len()
            &&& forall|k: int|
                0 <= k < offs.len() ==> {
                    let c = #[trigger] offs[k];
                    let r = raws[k];
                    &&& le64_at(out, c) == le64_at(s, r)
                    &&& out[c + 8] == s[r + 18]
                    &&& out.subrange(c + 10, record_end(out, c)) == s.subrange(
                        r + 19,
                        find_zero(s, r + 19) + 1,
                    )
                }
        }),
    decreases s.len() - o,
{
    let out = compact_from(s, o)->Some_0;
    if o == s.len() {
        assert(!wf_record_at(out, 0));
    } else {
        let rec = compact_record(s, o);
        let end = raw_record_end(s, o);
        let rest = compact_from(s, end)->Some_0;
        assert(out == rec + rest);
        lemma_compact_record_parses(s, o, rest);
        lemma_compact_stream_parses(s, end);
        lemma_record_offsets_shift(rec, rest, 0);
        assert(record_end(out, 0) == rec.len());
        assert(record_offsets(out, 0) == seq![0int] + record_offsets(rest, 0).map_values(
            |x: int| x + rec.len(),
        ));

        let offs = record_offsets(out, 0);
        let rest_offs = record_offsets(rest, 0);
        lemma_record_offsets_wf(rest, 0);
        assert forall|k: int| 0 <= k < offs.len() implies {
            let c = #[trigger] offs[k];
            let r = raw_offsets(s, o)[k];
            &&& le64_at(out, c) == le64_at(s, r)
            &&& out[c + 8] == s[r + 18]
            &&& out.subrange(c + 10, record_end(out, c)) == s.subrange(
                r + 19,
                find_zero(s, r + 19) + 1,
            )
        } by {
            if k >= 1 {
                let x = rest_offs[k - 1];
                let c = offs[k];
                assert(c == x + rec.len());
                assert(wf_record_at(rest, x));
                assert(le64_at(out, c) == le64_at(rest, x));
                assert(out[c + 8] == rest[x + 8]);
                assert(record_end(out, c) == rec.len() + record_end(rest, x));
                assert(out.subrange(c + 10, record_end(out, c)) =~= rest.subrange(
                    x + 10,
                    record_end(rest, x),
                ));
            }
        }
    }
}

/// `find_zero` stays at or after its start, within the sequence, and where
/// it lands inside the sequence that byte is 0.
pub proof fn lemma_find_zero_bounds(s: Seq<u8>, o: int)
    requires
        0 <= o <= s.len(),
    ensures
        o <= find_zero(s, o) <= s.len(),
        find_zero(s, o) < s.len() ==> s[find_zero(s, o)] == 0,
    decreases s.len() - o,
{
    if o < s.len() && s[o] != 0 {
        lemma_find_zero_bounds(s, o + 1);
    }
}

/// One parsed directory entry.
#[derive(Clone, Debug)]
pub struct DirEntry {
    pub inode: u64,
    pub name: CStr,
    pub d_type: DType,
}

impl DirEntry {
    /// The entry's file name, terminator included in the view.
    pub fn name(&self) -> (r: &CStr)
        ensures
            r == &self.name,
    {
        &self.name
    }

    /// The entry's inode number.
    pub fn inode(&self) -> (r: u64)
        ensures
            r == self.inode,
    {
        self.inode
    }

    /// The entry's type.
    pub fn d_type(&self) -> (r: DType)
        ensures
            r == self.d_type,
    {
        self.d_type
    }
}

/// A directory's entries, as one byte stream of compacted records.
pub struct DirectoryContents {
    pub contents: Vec<u8>,
}

impl DirectoryContents {
    /// Parse the record at byte offset `o`: the entry and the offset where
    /// the next record would start.  `None` exactly where no well-formed
    /// record starts — in particular at the end of the stream.
    pub fn entry_at(&self, o: usize) -> (r: Option<(DirEntry, usize)>)
        ensures
            match r {
                Some(pair) => {
                    let s = self.contents@;
                    &&& wf_record_at(s, o as int)
                    &&& pair.0.inode as int == le64_at(s, o as int)
                    &&& pair.0.d_type == spec_dtype(s[o + 8])
                    &&& pair.0.name@ == s.subrange(o + 10, record_end(s, o as int))
                    &&& pair.0.name.wf()
                    &&& pair.1 as int == record_end(s, o as int)
                },
                None => !wf_record_at(self.contents@, o as int),
            },
    {
        let len = self.contents.len();
        if o >= len || len - o < 10 {
            return None;
        }
        let name_len = self.contents[o + 9];
        if name_len == 0 {
            return None;
        }
        let name_len = name_len as usize;
        if len - (o + 10) < name_len {
            return None;
        }
        let name_end = o + 10 + name_len;
        if self.contents[name_end - 1] != 0 {
            return None;
        }

        let inode: u64 = (self.contents[o] as u64) + 0x100 * (self.contents[o + 1] as u64)
            + 0x1_0000 * (self.contents[o + 2] as u64) + 0x100_0000 * (self.contents[o + 3] as u64)
            + 0x1_0000_0000 * (self.contents[o + 4] as u64) + 0x100_0000_0000 * (self.contents[o
            + 5] as u64) + 0x1_0000_0000_0000 * (self.contents[o + 6] as u64)
            + 0x100_0000_0000_0000 * (self.contents[o + 7] as u64);
        let d_type = DType::from_byte(self.contents[o + 8]);
        let name = CStr::from_bytes(slice_subrange(self.contents.as_slice(), o + 10, name_end));

        Some((DirEntry { inode, name, d_type }, name_end))
    }

    /// Index the stream: the starting offset of every record, in order.
    pub fn index(&self) -> (r: BorrowedDirectoryContents)
        ensures
            r.matches(*self),
    {
        let mut offsets: Vec<usize> = Vec::new();
        let mut o: usize = 0;
        loop
            invariant
                o <= self.contents@.len(),
                record_offsets(self.contents@, 0) == offsets@.map_values(|v: usize| v as int)
                    + record_offsets(self.contents@, o as int),
            ensures
                offsets@.map_values(|v: usize| v as int) == record_offsets(self.contents@, 0),
            decreases self.contents@.len() - o,
        {
            match self.entry_at(o) {
                Some(pair) => {
                    let ghost prev = offsets@;
                    offsets.push(o);
                    proof {
                        assert(offsets@.map_values(|v: usize| v as int) =~= prev.map_values(
                            |v: usize| v as int,
                        ).push(o as int));
                        assert(prev.map_values(|v: usize| v as int) + (seq![o as int]
                            + record_offsets(self.contents@, record_end(self.contents@, o as int)))
                            =~= offsets@.map_values(|v: usize| v as int) + record_offsets(
                            self.contents@,
                            record_end(self.contents@, o as int),
                        ));
                    }
                    o = pair.1;
                },
                None => {
                    assert(record_offsets(self.contents@, o as int) =~= Seq::<int>::empty());
                    break ;
                },
            }
        }
        BorrowedDirectoryContents { offsets }
    }
}

/// The index of a directory stream: the byte offset of each record, ready
/// for repeated or reordered access.
pub struct BorrowedDirectoryContents {
    pub offsets: Vec<usize>,
}

impl BorrowedDirectoryContents {
    /// This index lists exactly the record offsets of `d`'s stream.
    pub open spec fn matches(self, d: DirectoryContents) -> bool {
        self.offsets@.map_values(|v: usize| v as int) == record_offsets(d.contents@, 0)
    }

    /// The number of entries in the indexed stream.
    pub fn len(&self) -> (r: usize)
        ensures
            r == self.offsets@.len(),
    {
        self.offsets.len()
    }

    /// The `i`-th entry of the indexed stream.
    pub fn entry(&self, d: &DirectoryContents, i: usize) -> (r: DirEntry)
        requires
            self.matches(*d),
            i < self.offsets@.len(),
        ensures
            ({
                let s = d.contents@;
                let o = self.offsets@[i as int] as int;
                &&& r.inode as int == le64_at(s, o)
                &&& r.d_type == spec_dtype(s[o + 8])
                &&& r.name@ == s.subrange(o + 10, record_end(s, o))
                &&& r.name.wf()
            }),
    {
        let o = self.offsets[i];
        proof {
            lemma_record_offsets_wf(d.contents@, 0);
            assert(record_offsets(d.contents@, 0)[i as int] == o as int);
        }
        match d.entry_at(o) {
            Some(pair) => pair.0,
            None => vstd::pervasive::unreached(),
        }
    }
}

/// A cursor over a directory stream, yielding one entry at a time.
pub struct IterDir {
    pub offset: usize,
}

impl IterDir {
    /// A cursor at the head of the stream.
    pub fn new() -> (r: IterDir)
        ensures
            r.offset == 0,
    {
        IterDir { offset: 0 }
    }

    /// The entry at the cursor, advancing past it; `None` exactly where no
    /// well-formed record starts.
    pub fn next(&mut self, d: &DirectoryContents) -> (r: Option<DirEntry>)
        ensures
            match r {
                Some(e) => {
                    let s = d.contents@;
                    let o = old(self).offset as int;
                    &&& wf_record_at(s, o)
                    &&& e.inode as int == le64_at(s, o)
                    &&& e.d_type == spec_dtype(s[o + 8])
                    &&& e.name@ == s.subrange(o + 10, record_end(s, o))
                    &&& e.name.wf()
                    &&& final(self).offset as int == record_end(s, o)
                },
                None => {
                    &&& !wf_record_at(d.contents@, old(self).offset as int)
                    &&& final(self).offset == old(self).offset
                },
            },
    {
        match d.entry_at(self.offset) {
            Some(pair) => {
                self.offset = pair.1;
                Some(pair.0)
            },
            None => None,
        }
    }
}

} // verus!
