//! The paginated query session: the per-file state machine that walks the
//! records of a reusable page buffer and decides when another page must be
//! loaded.  Loading a page is a kernel call that the embedding program
//! performs; the session only consumes what came back.

use vstd::prelude::*;

use crate::codec::{decode_record, record_at, record_ok, record_size, spec_decode_error};
use crate::codec::{lemma_record_at_shift, stream_ok, stream_records, stream_size};
use crate::extent::{IoctlSearchItem, ParseError, BTRFS_EXTENT_DATA_KEY};

verus! {

/// Capacity of the reusable page buffer handed to the kernel query.
pub const SV2_BUF_SIZE: usize = 65536;

/// A page that returns at most this many items is treated as the final
/// page of the session; no further query is issued.  A page of a walk
/// that still has records to yield comes back far above this low-water
/// mark, so reaching it means the query ran dry.
pub const SV2_LAST_PAGE_THRESHOLD: u32 = 512;

/// The query range handed to the kernel: all extent-data records of one
/// inode, any transaction id, any logical offset, with the logical-offset
/// minimum advanced between pages.
#[derive(Clone, Copy, Debug, PartialEq, Eq, Hash, Structural)]
pub struct IoctlSearchKey {
    pub tree_id: u64,
    pub min_objectid: u64,
    pub max_objectid: u64,
    pub min_offset: u64,
    pub max_offset: u64,
    pub min_transid: u64,
    pub max_transid: u64,
    pub min_type: u32,
    pub max_type: u32,
    pub nr_items: u32,
    pub unused: u32,
    pub unused1: u64,
    pub unused2: u64,
    pub unused3: u64,
    pub unused4: u64,
}

/// The freshly initialised search range for one inode.
pub open spec fn spec_new_key(st_ino: u64) -> IoctlSearchKey {
    IoctlSearchKey {
        tree_id: 0,
        min_objectid: st_ino,
        max_objectid: st_ino,
        min_offset: 0,
        max_offset: u64::MAX,
        min_transid: 0,
        max_transid: u64::MAX,
        min_type: BTRFS_EXTENT_DATA_KEY,
        max_type: BTRFS_EXTENT_DATA_KEY,
        nr_items: u32::MAX,
        unused: 0,
        unused1: 0,
        unused2: 0,
        unused3: 0,
        unused4: 0,
    }
}

/// The search range with its logical-offset minimum advanced to one past
/// `last`, the offset of the last record of a drained page; saturates at
/// the largest offset.
pub open spec fn spec_advance_key(k: IoctlSearchKey, last: u64) -> IoctlSearchKey {
    IoctlSearchKey { min_offset: spec_next_min_offset(last), ..k }
}

pub open spec fn spec_next_min_offset(last: u64) -> u64 {
    if last == u64::MAX {
        u64::MAX
    } else {
        (last + 1) as u64
    }
}

impl IoctlSearchKey {
    pub fn new(st_ino: u64) -> (r: Self)
        ensures
            r == spec_new_key(st_ino),
    {
        IoctlSearchKey {
            tree_id: 0,
            min_objectid: st_ino,
            max_objectid: st_ino,
            min_offset: 0,
            max_offset: u64::MAX,
            min_transid: 0,
            max_transid: u64::MAX,
            min_type: BTRFS_EXTENT_DATA_KEY,
            max_type: BTRFS_EXTENT_DATA_KEY,
            nr_items: u32::MAX,
            unused: 0,
            unused1: 0,
            unused2: 0,
            unused3: 0,
            unused4: 0,
        }
    }
}

/// The search range and the reusable page buffer.  The embedding program
/// copies the range into the kernel's argument block before each page load
/// and copies the returned bytes back into `buf`; the buffer is reused
/// across files to avoid repeated large allocations.
#[derive(Debug)]
pub struct Sv2Args {
    pub key: IoctlSearchKey,
    pub buf: Vec<u8>,
}

impl Sv2Args {
    pub fn new() -> (r: Self)
        ensures
            r.key == spec_new_key(0),
            r.buf@.len() == SV2_BUF_SIZE,
            forall|i: int| 0 <= i < r.buf@.len() ==> r.buf@[i] == 0,
    {
        let mut buf: Vec<u8> = Vec::new();
        let mut i: usize = 0;
        while i < SV2_BUF_SIZE
            invariant
                i <= SV2_BUF_SIZE,
                buf@.len() == i,
                forall|j: int| 0 <= j < buf@.len() ==> buf@[j] == 0,
            decreases SV2_BUF_SIZE - i,
        {
            buf.push(0);
            i = i + 1;
        }
        Sv2Args { key: IoctlSearchKey::new(0), buf }
    }

    /// Reset the search range for a new file; the buffer contents are kept.
    pub fn set_key(&mut self, ino: u64)
        ensures
            final(self).key == spec_new_key(ino),
            final(self).buf == old(self).buf,
    {
        self.key = IoctlSearchKey::new(ino);
    }
}

/// Cursor state of one file's record walk: position within the current
/// page, items not yet consumed from it, and whether this page was marked
/// final.
///
/// A fresh session requests a page; a loaded page is drained record by
/// record; a drained non-final page requests the next page; a drained
/// final page ends the session.
#[derive(Clone, Copy, Debug, PartialEq, Eq, Structural)]
pub struct Sv2Session {
    pub pos: usize,
    pub nrest_item: u32,
    pub last: bool,
}

impl Sv2Session {
    /// Another page must be loaded before the next record can be read.
    pub open spec fn spec_need_load(self) -> bool {
        self.nrest_item == 0 && !self.last
    }

    /// The session has yielded every record.
    pub open spec fn spec_finished(self) -> bool {
        self.nrest_item == 0 && self.last
    }

    pub fn new() -> (r: Self)
        ensures
            r.pos == 0,
            r.spec_need_load(),
    {
        Sv2Session { pos: 0, nrest_item: 0, last: false }
    }

    pub fn need_load(&self) -> (r: bool)
        ensures
            r == self.spec_need_load(),
    {
        self.nrest_item == 0 && !self.last
    }

    pub fn finished(&self) -> (r: bool)
        ensures
            r == self.spec_finished(),
    {
        self.nrest_item == 0 && self.last
    }

    /// Record a freshly loaded page holding `nr_items` records.  A page at
    /// or below the protocol's low-water item count is the final page.
    pub fn load_page(&mut self, nr_items: u32)
        ensures
            final(self).pos == 0,
            final(self).nrest_item == nr_items,
            final(self).last == (nr_items <= SV2_LAST_PAGE_THRESHOLD),
    {
        self.pos = 0;
        self.nrest_item = nr_items;
        self.last = nr_items <= SV2_LAST_PAGE_THRESHOLD;
    }

    /// Yield the next record of the current page, or `None` once the
    /// session has ended.  On the last record of a page the search range's
    /// minimum logical offset advances to one past that record's offset,
    /// so that the next page load continues where this one stopped.  A
    /// malformed record reports its violation and leaves the session and
    /// the search range unchanged.
    pub fn next_record(&mut self, args: &mut Sv2Args) -> (r: Result<
        Option<IoctlSearchItem>,
        ParseError,
    >)
        requires
            !old(self).spec_need_load(),
            old(self).pos <= old(args).buf@.len(),
        ensures
            final(self).pos <= final(args).buf@.len(),
            final(args).buf == old(args).buf,
            old(self).spec_finished() ==> r == Ok::<Option<IoctlSearchItem>, ParseError>(None)
                && *final(self) == *old(self) && final(args).key == old(args).key,
            old(self).nrest_item > 0 && record_ok(old(args).buf@, old(self).pos as int) ==> {
                let rec = record_at(old(args).buf@, old(self).pos as int);
                &&& r == Ok::<Option<IoctlSearchItem>, ParseError>(Some(rec))
                &&& final(self).pos == old(self).pos + record_size(
                    old(args).buf@,
                    old(self).pos as int,
                )
                &&& final(self).nrest_item == old(self).nrest_item - 1
                &&& final(self).last == old(self).last
                &&& final(args).key == (if old(self).nrest_item == 1 {
                    spec_advance_key(old(args).key, rec.header.offset)
                } else {
                    old(args).key
                })
            },
            old(self).nrest_item > 0 && !record_ok(old(args).buf@, old(self).pos as int) ==> r
                == Err::<Option<IoctlSearchItem>, ParseError>(
                spec_decode_error(old(args).buf@, old(self).pos as int),
            ) && *final(self) == *old(self) && final(args).key == old(args).key,
    {
        if self.nrest_item == 0 {
            // The current page is drained and was final: end of session.
            return Ok(None);
        }
        let rec = match decode_record(&args.buf, self.pos) {
            Ok(rec) => rec,
            Err(e) => {
                return Err(e);
            },
        };
        let buf_len = args.buf.len();
        assert(self.pos + 32 + rec.header.len <= buf_len);
        self.pos = self.pos + 32 + rec.header.len as usize;
        self.nrest_item = self.nrest_item - 1;
        if self.nrest_item == 0 {
            // Drained this page: continue the next page one past the last
            // record's logical offset.
            let last_offset = rec.header.offset;
            let next_min: u64 = if last_offset == u64::MAX {
                u64::MAX
            } else {
                last_offset + 1
            };
            args.key.min_offset = next_min;
        }
        Ok(Some(rec))
    }

    /// Drain every record left in the current page, in order, appending
    /// them to `out`.  This succeeds exactly when the page's remaining
    /// items decode as a well-formed record stream, and then yields
    /// exactly that stream: walking a session page by page reproduces the
    /// one unpaginated record sequence (`codec::lemma_stream_concat`
    /// concatenates the pages).
    #[verifier::loop_isolation(false)]
    pub fn drain_page(&mut self, args: &mut Sv2Args, out: &mut Vec<IoctlSearchItem>) -> (r: Result<
        (),
        ParseError,
    >)
        requires
            old(self).pos <= old(args).buf@.len(),
        ensures
            final(args).buf == old(args).buf,
            r is Ok <==> stream_ok(
                old(args).buf@.skip(old(self).pos as int),
                old(self).nrest_item as nat,
            ),
            r is Ok ==> {
                let tail0 = old(args).buf@.skip(old(self).pos as int);
                let n0 = old(self).nrest_item as nat;
                &&& final(out)@ == old(out)@ + stream_records(tail0, n0)
                &&& final(self).nrest_item == 0
                &&& final(self).pos == old(self).pos + stream_size(tail0, n0)
                &&& final(self).last == old(self).last
                &&& final(args).key == (if n0 == 0 {
                    old(args).key
                } else {
                    spec_advance_key(
                        old(args).key,
                        stream_records(tail0, n0).last().header.offset,
                    )
                })
            },
    {
        let ghost bufv0 = args.buf;
        let ghost buf0 = args.buf@;
        let ghost pos0 = self.pos as int;
        let ghost tail0 = buf0.skip(pos0);
        let ghost n0 = self.nrest_item as nat;
        let ghost last0 = self.last;
        let ghost key0 = args.key;
        let ghost out0 = out@;
        let ghost mut acc: Seq<IoctlSearchItem> = Seq::empty();
        while self.nrest_item > 0
            invariant
                args.buf == bufv0,
                args.buf@ == buf0,
                pos0 <= self.pos <= buf0.len(),
                self.last == last0,
                out@ == out0 + acc,
                acc.len() + self.nrest_item == n0,
                stream_ok(tail0, n0) <==> stream_ok(
                    buf0.skip(self.pos as int),
                    self.nrest_item as nat,
                ),
                stream_ok(buf0.skip(self.pos as int), self.nrest_item as nat) ==> stream_records(
                    tail0,
                    n0,
                ) == acc + stream_records(buf0.skip(self.pos as int), self.nrest_item as nat)
                    && stream_size(tail0, n0) == (self.pos - pos0) + stream_size(
                    buf0.skip(self.pos as int),
                    self.nrest_item as nat,
                ),
                self.nrest_item > 0 ==> args.key == key0,
                self.nrest_item == 0 ==> args.key == (if n0 == 0 {
                    key0
                } else {
                    spec_advance_key(key0, acc.last().header.offset)
                }),
            decreases self.nrest_item,
        {
            let ghost cur = buf0.skip(self.pos as int);
            let ghost rem = self.nrest_item as nat;
            proof {
                lemma_record_at_shift(buf0, self.pos as int);
            }
            let step = self.next_record(args);
            let rec: IoctlSearchItem;
            match step {
                Ok(Some(r0)) => {
                    rec = r0;
                },
                Ok(None) => {
                    // Unreachable: with items left on the page the session
                    // yields a record or reports a violation.
                    proof {
                        assert(false);
                    }
                    return Err(ParseError::Truncated);
                },
                Err(e) => {
                    // The record here is malformed, so no well-formed
                    // stream of the remaining items exists.
                    proof {
                        assert(!record_ok(cur, 0));
                        assert(!stream_ok(cur, rem));
                    }
                    return Err(e);
                },
            }
            proof {
                let rs = record_size(cur, 0);
                assert(record_ok(cur, 0));
                assert(record_at(cur, 0) == rec);
                assert(buf0.skip(self.pos as int) =~= cur.skip(rs));
                assert(stream_ok(cur, rem) <==> stream_ok(cur.skip(rs), (rem - 1) as nat));
                if stream_ok(cur.skip(rs), (rem - 1) as nat) {
                    assert(stream_records(tail0, n0) == acc + stream_records(cur, rem));
                    assert(stream_records(cur, rem) == seq![rec] + stream_records(
                        cur.skip(rs),
                        (rem - 1) as nat,
                    ));
                    assert(acc + (seq![rec] + stream_records(cur.skip(rs), (rem - 1) as nat)) =~= (
                    acc + seq![rec]) + stream_records(cur.skip(rs), (rem - 1) as nat));
                }
                acc = acc + seq![rec];
            }
            out.push(rec);
        }
        proof {
            assert(stream_ok(buf0.skip(self.pos as int), 0nat));
            if stream_ok(tail0, n0) {
                assert(stream_records(tail0, n0) == acc + stream_records(
                    buf0.skip(self.pos as int),
                    0nat,
                ));
                assert(acc + stream_records(buf0.skip(self.pos as int), 0nat) =~= acc);
            }
        }
        Ok(())
    }
}

} // verus!
