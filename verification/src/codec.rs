//! Decoding of the fixed little-endian wire layout: integer fields read
//! byte by byte at explicit offsets, with no reliance on host struct layout
//! or alignment, plus the stream-level view of a buffer holding several
//! consecutive records.

use vstd::prelude::*;

use crate::extent::{FileExtentItem, IoctlSearchHeader, IoctlSearchItem, ParseError};
use crate::extent::{EXTENT_INLINE_HEADER_SIZE, EXTENT_REG_ITEM_SIZE, SEARCH_HEADER_SIZE};

verus! {

/// The integer that 2 little-endian bytes at `i` denote.
pub open spec fn le16_at(b: Seq<u8>, i: int) -> int {
    b[i] + 0x100 * b[i + 1]
}

/// The integer that 4 little-endian bytes at `i` denote.
pub open spec fn le32_at(b: Seq<u8>, i: int) -> int {
    b[i] + 0x100 * b[i + 1] + 0x1_0000 * b[i + 2] + 0x100_0000 * b[i + 3]
}

/// The integer that 8 little-endian bytes at `i` denote.
pub open spec fn le64_at(b: Seq<u8>, i: int) -> int {
    b[i] + 0x100 * b[i + 1] + 0x1_0000 * b[i + 2] + 0x100_0000 * b[i + 3] + 0x1_0000_0000 * b[i + 4]
        + 0x100_0000_0000 * b[i + 5] + 0x1_0000_0000_0000 * b[i + 6] + 0x100_0000_0000_0000 * b[i
        + 7]
}

pub fn read_le_u16(buf: &Vec<u8>, off: usize) -> (r: u16)
    requires
        off + 2 <= buf.len(),
    ensures
        r == le16_at(buf@, off as int),
{
    let b0 = buf[off] as u16;
    let b1 = buf[off + 1] as u16;
    b0 + 0x100 * b1
}

pub fn read_le_u32(buf: &Vec<u8>, off: usize) -> (r: u32)
    requires
        off + 4 <= buf.len(),
    ensures
        r == le32_at(buf@, off as int),
{
    let b0 = buf[off] as u32;
    let b1 = buf[off + 1] as u32;
    let b2 = buf[off + 2] as u32;
    let b3 = buf[off + 3] as u32;
    b0 + 0x100 * b1 + 0x1_0000 * b2 + 0x100_0000 * b3
}

pub fn read_le_u64(buf: &Vec<u8>, off: usize) -> (r: u64)
    requires
        off + 8 <= buf.len(),
    ensures
        r == le64_at(buf@, off as int),
{
    let b0 = buf[off] as u64;
    let b1 = buf[off + 1] as u64;
    let b2 = buf[off + 2] as u64;
    let b3 = buf[off + 3] as u64;
    let b4 = buf[off + 4] as u64;
    let b5 = buf[off + 5] as u64;
    let b6 = buf[off + 6] as u64;
    let b7 = buf[off + 7] as u64;
    b0 + 0x100 * b1 + 0x1_0000 * b2 + 0x100_0000 * b3 + 0x1_0000_0000 * b4 + 0x100_0000_0000 * b5
        + 0x1_0000_0000_0000 * b6 + 0x100_0000_0000_0000 * b7
}

/// The record header that the 32 bytes at `i` denote.
pub open spec fn header_at(b: Seq<u8>, i: int) -> IoctlSearchHeader {
    IoctlSearchHeader {
        transid: le64_at(b, i) as u64,
        objectid: le64_at(b, i + 8) as u64,
        offset: le64_at(b, i + 16) as u64,
        key_type: le32_at(b, i + 24) as u32,
        len: le32_at(b, i + 28) as u32,
    }
}

/// The extent-data payload that `len` bytes at `i` denote.  The four
/// per-location fields exist on the wire only when the payload has the full
/// non-inline size; otherwise they are left zero and the classifier never
/// reads them.
pub open spec fn item_at(b: Seq<u8>, i: int, len: int) -> FileExtentItem {
    FileExtentItem {
        generation: le64_at(b, i) as u64,
        ram_bytes: le64_at(b, i + 8) as u64,
        compression: b[i + 16],
        encryption: b[i + 17],
        other_encoding: le16_at(b, i + 18) as u16,
        extent_type: b[i + 20],
        disk_bytenr: if len >= EXTENT_REG_ITEM_SIZE {
            le64_at(b, i + 21) as u64
        } else {
            0
        },
        disk_num_bytes: if len >= EXTENT_REG_ITEM_SIZE {
            le64_at(b, i + 29) as u64
        } else {
            0
        },
        offset: if len >= EXTENT_REG_ITEM_SIZE {
            le64_at(b, i + 37) as u64
        } else {
            0
        },
        num_bytes: if len >= EXTENT_REG_ITEM_SIZE {
            le64_at(b, i + 45) as u64
        } else {
            0
        },
    }
}

/// Whether a whole record (header plus declared payload) lies within the
/// buffer at `i`, with a payload long enough to hold at least the fixed
/// part of an extent-data item.
pub open spec fn record_ok(b: Seq<u8>, i: int) -> bool {
    &&& 0 <= i
    &&& i + SEARCH_HEADER_SIZE <= b.len()
    &&& i + SEARCH_HEADER_SIZE + header_at(b, i).len <= b.len()
    &&& header_at(b, i).len >= EXTENT_INLINE_HEADER_SIZE
}

/// The record that the bytes at `i` denote.
pub open spec fn record_at(b: Seq<u8>, i: int) -> IoctlSearchItem {
    IoctlSearchItem {
        header: header_at(b, i),
        item: item_at(b, i + SEARCH_HEADER_SIZE, header_at(b, i).len as int),
    }
}

/// Bytes that the record at `i` occupies: the fixed header plus the
/// declared payload.
pub open spec fn record_size(b: Seq<u8>, i: int) -> int {
    SEARCH_HEADER_SIZE + header_at(b, i).len
}

/// The violation reported for a malformed record at `i`: truncation when
/// the buffer cannot even hold the header and the shortest payload, or
/// when the declared payload reaches past the end; otherwise the declared
/// payload is shorter than the fixed part of an extent-data item.
pub open spec fn spec_decode_error(b: Seq<u8>, i: int) -> ParseError {
    if i + SEARCH_HEADER_SIZE + EXTENT_INLINE_HEADER_SIZE > b.len() {
        ParseError::Truncated
    } else if header_at(b, i).len < EXTENT_INLINE_HEADER_SIZE {
        ParseError::PayloadLength { len: header_at(b, i).len }
    } else {
        ParseError::Truncated
    }
}

/// Decode the record at `pos`, validating that it lies within the buffer.
///
/// Truncation (header or declared payload reaching past the end of the
/// buffer) and a payload shorter than the fixed part of an extent-data
/// item are protocol violations; both are reported, never read past.
pub fn decode_record(buf: &Vec<u8>, pos: usize) -> (r: Result<IoctlSearchItem, ParseError>)
    requires
        pos <= buf@.len(),
    ensures
        record_ok(buf@, pos as int) ==> r == Ok::<IoctlSearchItem, ParseError>(
            record_at(buf@, pos as int),
        ),
        !record_ok(buf@, pos as int) ==> r == Err::<IoctlSearchItem, ParseError>(
            spec_decode_error(buf@, pos as int),
        ),
{
    if buf.len() - pos < 32 + 21 {
        return Err(ParseError::Truncated);
    }
    let header = IoctlSearchHeader {
        transid: read_le_u64(buf, pos),
        objectid: read_le_u64(buf, pos + 8),
        offset: read_le_u64(buf, pos + 16),
        key_type: read_le_u32(buf, pos + 24),
        len: read_le_u32(buf, pos + 28),
    };
    if header.len < 21 {
        return Err(ParseError::PayloadLength { len: header.len });
    }
    if (buf.len() - pos - 32) < header.len as usize {
        return Err(ParseError::Truncated);
    }
    let body = pos + 32;
    let full = header.len >= 53;
    let item = FileExtentItem {
        generation: read_le_u64(buf, body),
        ram_bytes: read_le_u64(buf, body + 8),
        compression: buf[body + 16],
        encryption: buf[body + 17],
        other_encoding: read_le_u16(buf, body + 18),
        extent_type: buf[body + 20],
        disk_bytenr: if full {
            read_le_u64(buf, body + 21)
        } else {
            0
        },
        disk_num_bytes: if full {
            read_le_u64(buf, body + 29)
        } else {
            0
        },
        offset: if full {
            read_le_u64(buf, body + 37)
        } else {
            0
        },
        num_bytes: if full {
            read_le_u64(buf, body + 45)
        } else {
            0
        },
    };
    Ok(IoctlSearchItem { header, item })
}

/// Whether `n` consecutive records lie at the start of the buffer.
pub open spec fn stream_ok(b: Seq<u8>, n: nat) -> bool
    decreases n,
{
    n == 0 || (record_ok(b, 0) && stream_ok(b.skip(record_size(b, 0)), (n - 1) as nat))
}

/// The first `n` consecutive records of the buffer, in order.
pub open spec fn stream_records(b: Seq<u8>, n: nat) -> Seq<IoctlSearchItem>
    decreases n,
{
    if n == 0 {
        Seq::<IoctlSearchItem>::empty()
    } else {
        seq![record_at(b, 0)] + stream_records(b.skip(record_size(b, 0)), (n - 1) as nat)
    }
}

/// Bytes that the first `n` consecutive records of the buffer occupy.
pub open spec fn stream_size(b: Seq<u8>, n: nat) -> int
    decreases n,
{
    if n == 0 {
        0
    } else {
        record_size(b, 0) + stream_size(b.skip(record_size(b, 0)), (n - 1) as nat)
    }
}

/// A record at the start of a buffer reads the same after more bytes are
/// appended: decoding looks only at the bytes the record occupies.
proof fn lemma_record_prefix(a: Seq<u8>, b: Seq<u8>)
    requires
        record_ok(a, 0),
    ensures
        record_ok(a + b, 0),
        record_at(a + b, 0) == record_at(a, 0),
        record_size(a + b, 0) == record_size(a, 0),
{
    assert forall|k: int| 0 <= k < a.len() implies (a + b)[k] == a[k] by {}
    assert(header_at(a + b, 0) == header_at(a, 0));
    assert(item_at(a + b, SEARCH_HEADER_SIZE as int, header_at(a, 0).len as int) == item_at(
        a,
        SEARCH_HEADER_SIZE as int,
        header_at(a, 0).len as int,
    ));
}

/// Decoding a record is position-independent: the record at `i` reads the
/// same as the record at the start of the buffer's tail from `i` on.
pub proof fn lemma_record_at_shift(b: Seq<u8>, i: int)
    requires
        0 <= i <= b.len(),
    ensures
        record_ok(b.skip(i), 0) == record_ok(b, i),
        record_ok(b, i) ==> record_at(b.skip(i), 0) == record_at(b, i) && record_size(b.skip(i), 0)
            == record_size(b, i),
{
    let t = b.skip(i);
    assert(t.len() == b.len() - i);
    assert forall|x: int| 0 <= x < t.len() implies t[x] == b[i + x] by {}
    if i + SEARCH_HEADER_SIZE <= b.len() {
        assert(header_at(t, 0) == header_at(b, i));
        if record_ok(b, i) {
            assert(item_at(t, SEARCH_HEADER_SIZE as int, header_at(b, i).len as int) == item_at(
                b,
                i + SEARCH_HEADER_SIZE,
                header_at(b, i).len as int,
            ));
        }
    }
}

/// Pagination correctness at the decode level: a page holding exactly `n`
/// records followed by a buffer holding `m` more decodes, as one stream, to
/// the two pages' records in order.  Reading a record stream page by page
/// therefore yields exactly the records of a single unpaginated pass over
/// the concatenated pages.
pub proof fn lemma_stream_concat(a: Seq<u8>, b: Seq<u8>, n: nat, m: nat)
    requires
        stream_ok(a, n),
        stream_size(a, n) == a.len(),
        stream_ok(b, m),
    ensures
        stream_ok(a + b, (n + m) as nat),
        stream_records(a + b, (n + m) as nat) == stream_records(a, n) + stream_records(b, m),
        stream_size(a + b, (n + m) as nat) == a.len() + stream_size(b, m),
    decreases n,
{
    if n == 0 {
        assert(a.len() == 0);
        assert(a + b =~= b);
        assert(stream_records(a, 0) + stream_records(b, m) =~= stream_records(b, m));
    } else {
        let rs = record_size(a, 0);
        lemma_record_prefix(a, b);
        let a1 = a.skip(rs);
        assert((a + b).skip(rs) =~= a1 + b);
        assert(stream_size(a1, (n - 1) as nat) == a1.len());
        lemma_stream_concat(a1, b, (n - 1) as nat, m);
        assert(stream_records(a + b, (n + m) as nat) == seq![record_at(a, 0)] + (stream_records(
            a1,
            (n - 1) as nat,
        ) + stream_records(b, m)));
        assert(seq![record_at(a, 0)] + (stream_records(a1, (n - 1) as nat) + stream_records(b, m))
            =~= (seq![record_at(a, 0)] + stream_records(a1, (n - 1) as nat)) + stream_records(
            b,
            m,
        ));
    }
}

} // verus!
