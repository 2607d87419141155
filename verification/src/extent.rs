//! Typed model of extent-data records and the classifier that turns one
//! decoded record into a semantic (key, compression, stat) tuple.

use vstd::prelude::*;

use crate::stats::ExtentStat;

verus! {

/// ioctl command group of the filesystem's private interface.
pub const BTRFS_IOCTL_MAGIC: u8 = 0x94;

/// Record type of extent-data items in the metadata tree.
pub const BTRFS_EXTENT_DATA_KEY: u32 = 108;

pub const BTRFS_FILE_EXTENT_INLINE: u8 = 0;

pub const BTRFS_FILE_EXTENT_REG: u8 = 1;

pub const BTRFS_FILE_EXTENT_PREALLOC: u8 = 2;

/// Size of the fixed record header on the wire.
pub const SEARCH_HEADER_SIZE: u32 = 32;

/// Bytes of an extent-data payload that precede the inline file data.
pub const EXTENT_INLINE_HEADER_SIZE: u32 = 21;

/// Size of a full non-inline extent-data payload.
pub const EXTENT_REG_ITEM_SIZE: u32 = 53;

/// Minimum allocation unit of the filesystem; physical offsets of backed
/// extents are aligned to it.
pub const ALLOC_UNIT: u64 = 4096;

/// Compression algorithm of an extent, encoded as a small integer on disk.
#[derive(Clone, Copy, Debug, PartialEq, Eq, Structural)]
pub enum Compression {
    Uncompressed,
    Zlib,
    Lzo,
    Zstd,
}

impl Compression {
    /// Index of this algorithm's statistics bucket.
    pub open spec fn as_int(self) -> int {
        match self {
            Compression::Uncompressed => 0,
            Compression::Zlib => 1,
            Compression::Lzo => 2,
            Compression::Zstd => 3,
        }
    }

    pub fn as_usize(self) -> (r: usize)
        ensures
            r == self.as_int(),
            r < 4,
    {
        match self {
            Compression::Uncompressed => 0,
            Compression::Zlib => 1,
            Compression::Lzo => 2,
            Compression::Zstd => 3,
        }
    }

    pub fn from_usize(n: usize) -> (r: Self)
        requires
            n < 4,
        ensures
            r.as_int() == n,
    {
        match n {
            0 => Compression::Uncompressed,
            1 => Compression::Zlib,
            2 => Compression::Lzo,
            _ => Compression::Zstd,
        }
    }

    /// The checked decoding used by the classifier: an unknown code is a
    /// protocol violation, not a panic.
    pub fn try_from_u8(n: u8) -> (r: Option<Self>)
        ensures
            n < 4 ==> (r matches Some(c) && c.as_int() == n),
            n >= 4 ==> r is None,
    {
        match n {
            0 => Some(Compression::Uncompressed),
            1 => Some(Compression::Zlib),
            2 => Some(Compression::Lzo),
            3 => Some(Compression::Zstd),
            _ => None,
        }
    }

    pub open spec fn spec_name(self) -> Seq<char> {
        match self {
            Compression::Uncompressed => "none"@,
            Compression::Zlib => "zlib"@,
            Compression::Lzo => "lzo"@,
            Compression::Zstd => "zstd"@,
        }
    }

    pub fn name(&self) -> (r: &'static str)
        ensures
            r@ == self.spec_name(),
    {
        match self {
            Compression::Uncompressed => "none",
            Compression::Zlib => "zlib",
            Compression::Lzo => "lzo",
            Compression::Zstd => "zstd",
        }
    }
}

/// Kind of an extent-data record.
///
/// Inline data lives in the metadata itself and is never shared; regular
/// and preallocated extents are addressable by physical location and may be
/// referenced from several files.
#[derive(Clone, Copy, Debug, PartialEq, Eq, Hash, Structural)]
pub enum ExtentType {
    Inline,
    Regular,
    Prealloc,
}

impl ExtentType {
    pub fn from_u8(n: u8) -> (r: Self)
        requires
            n <= 2,
        ensures
            n == BTRFS_FILE_EXTENT_INLINE ==> r is Inline,
            n == BTRFS_FILE_EXTENT_REG ==> r is Regular,
            n == BTRFS_FILE_EXTENT_PREALLOC ==> r is Prealloc,
    {
        match n {
            0 => ExtentType::Inline,
            1 => ExtentType::Regular,
            _ => ExtentType::Prealloc,
        }
    }

    /// The checked decoding used by the classifier: an unknown code is a
    /// protocol violation, not a panic.
    pub fn try_from_u8(n: u8) -> (r: Option<Self>)
        ensures
            n == BTRFS_FILE_EXTENT_INLINE ==> r == Some(ExtentType::Inline),
            n == BTRFS_FILE_EXTENT_REG ==> r == Some(ExtentType::Regular),
            n == BTRFS_FILE_EXTENT_PREALLOC ==> r == Some(ExtentType::Prealloc),
            n > 2 ==> r is None,
    {
        match n {
            0 => Some(ExtentType::Inline),
            1 => Some(ExtentType::Regular),
            2 => Some(ExtentType::Prealloc),
            _ => None,
        }
    }
}

/// Identity of a physical extent: its kind and, for non-inline extents, the
/// physical offset expressed in allocation units.  Two non-inline extents
/// with the same key are the same physical extent, whichever files
/// reference them; for inline extents the numeric key is a placeholder and
/// is never consulted.
#[derive(Clone, Copy, Debug, PartialEq, Eq, Hash, Structural)]
pub struct ExtentKey {
    pub extent_type: ExtentType,
    pub key: u64,
}

impl ExtentKey {
    pub fn new(extent_type: ExtentType, key: u64) -> (r: Self)
        ensures
            r.extent_type == extent_type,
            r.key == key,
    {
        ExtentKey { extent_type, key }
    }

    pub fn extent_type(&self) -> (r: ExtentType)
        ensures
            r == self.extent_type,
    {
        self.extent_type
    }

    pub fn key(&self) -> (r: u64)
        ensures
            r == self.key,
    {
        self.key
    }
}

/// A structural protocol violation found while classifying a record.
/// Each variant carries the offending wire value.
#[derive(Clone, Copy, Debug, PartialEq, Eq, Structural)]
pub enum ParseError {
    /// The buffer ends before the record's declared extent does.
    Truncated,
    /// An extent-data payload whose declared length fits neither an inline
    /// extent (at least the fixed inline header) nor a non-inline one
    /// (exactly the full item size).
    PayloadLength { len: u32 },
    /// The physical byte offset of a backed extent is not a multiple of the
    /// allocation unit.
    UnalignedExtent { bytenr: u64 },
    /// A compression code outside the closed set of known algorithms.
    UnknownCompression { code: u8 },
    /// An extent type outside the three defined kinds.
    UnknownExtentType { code: u8 },
}

/// Fixed record header preceding each returned item: all fields are
/// little-endian on the wire.
#[derive(Clone, Copy, Debug, PartialEq, Eq, Hash, Structural)]
pub struct IoctlSearchHeader {
    pub transid: u64,
    pub objectid: u64,
    pub offset: u64,
    pub key_type: u32,
    pub len: u32,
}

/// Extent-data payload.  The trailing four fields are meaningful only for
/// non-inline extents; for inline extents the decoder leaves them zero.
#[derive(Clone, Copy, Debug, PartialEq, Eq, Hash, Structural)]
pub struct FileExtentItem {
    pub generation: u64,
    pub ram_bytes: u64,
    pub compression: u8,
    pub encryption: u8,
    pub other_encoding: u16,
    pub extent_type: u8,
    pub disk_bytenr: u64,
    pub disk_num_bytes: u64,
    pub offset: u64,
    pub num_bytes: u64,
}

/// One decoded record: header plus extent-data payload.
#[derive(Clone, Copy, Debug, PartialEq, Eq, Hash, Structural)]
pub struct IoctlSearchItem {
    pub header: IoctlSearchHeader,
    pub item: FileExtentItem,
}

/// What the classifier owes for a given record, stated as a function of the
/// record alone.  `None` stands for a hole: a range with no backing extent,
/// which contributes nothing.
pub open spec fn spec_parse(rec: IoctlSearchItem) -> Result<
    Option<(ExtentKey, Compression, ExtentStat)>,
    ParseError,
> {
    let hlen = rec.header.len;
    if rec.item.compression >= 4 {
        Err(ParseError::UnknownCompression { code: rec.item.compression })
    } else if rec.item.extent_type > 2 {
        Err(ParseError::UnknownExtentType { code: rec.item.extent_type })
    } else if rec.item.extent_type == BTRFS_FILE_EXTENT_INLINE {
        if hlen < EXTENT_INLINE_HEADER_SIZE {
            Err(ParseError::PayloadLength { len: hlen })
        } else {
            Ok(
                Some(
                    (
                        ExtentKey { extent_type: ExtentType::Inline, key: 0 },
                        spec_compression_of(rec.item.compression),
                        ExtentStat {
                            disk: (hlen - EXTENT_INLINE_HEADER_SIZE) as u64,
                            uncomp: rec.item.ram_bytes,
                            refd: rec.item.ram_bytes,
                        },
                    ),
                ),
            )
        }
    } else if hlen != EXTENT_REG_ITEM_SIZE {
        Err(ParseError::PayloadLength { len: hlen })
    } else if rec.item.disk_bytenr == 0 {
        Ok(None)
    } else if rec.item.disk_bytenr % ALLOC_UNIT != 0 {
        Err(ParseError::UnalignedExtent { bytenr: rec.item.disk_bytenr })
    } else {
        Ok(
            Some(
                (
                    ExtentKey {
                        extent_type: if rec.item.extent_type == BTRFS_FILE_EXTENT_REG {
                            ExtentType::Regular
                        } else {
                            ExtentType::Prealloc
                        },
                        key: rec.item.disk_bytenr / ALLOC_UNIT,
                    },
                    spec_compression_of(rec.item.compression),
                    ExtentStat {
                        disk: rec.item.disk_num_bytes,
                        uncomp: rec.item.ram_bytes,
                        refd: rec.item.num_bytes,
                    },
                ),
            ),
        )
    }
}

/// The compression variant that a known on-disk code denotes.
pub open spec fn spec_compression_of(code: u8) -> Compression {
    if code == 0 {
        Compression::Uncompressed
    } else if code == 1 {
        Compression::Zlib
    } else if code == 2 {
        Compression::Lzo
    } else {
        Compression::Zstd
    }
}

impl IoctlSearchItem {
    /// Classify one decoded record, validating its structural invariants.
    ///
    /// Inline extents account their stored bytes directly (payload length
    /// minus the fixed inline header); non-inline payloads must have
    /// exactly the full item size; a zero physical offset denotes a hole
    /// and yields no extent; any other physical offset must be aligned to
    /// the allocation unit and is keyed by its allocation-unit index.
    pub fn parse(&self) -> (r: Result<Option<(ExtentKey, Compression, ExtentStat)>, ParseError>)
        ensures
            r == spec_parse(*self),
    {
        let hlen = self.header.len;
        let comp_type = match Compression::try_from_u8(self.item.compression) {
            Some(c) => c,
            None => {
                return Err(ParseError::UnknownCompression { code: self.item.compression });
            },
        };
        let extent_type = match ExtentType::try_from_u8(self.item.extent_type) {
            Some(t) => t,
            None => {
                return Err(ParseError::UnknownExtentType { code: self.item.extent_type });
            },
        };
        if matches!(extent_type, ExtentType::Inline) {
            if hlen < EXTENT_INLINE_HEADER_SIZE {
                return Err(ParseError::PayloadLength { len: hlen });
            }
            let disk_num_bytes = (hlen - EXTENT_INLINE_HEADER_SIZE) as u64;
            return Ok(
                Some(
                    (
                        ExtentKey::new(extent_type, 0),
                        comp_type,
                        ExtentStat {
                            disk: disk_num_bytes,
                            uncomp: self.item.ram_bytes,
                            refd: self.item.ram_bytes,
                        },
                    ),
                ),
            );
        }
        if hlen != EXTENT_REG_ITEM_SIZE {
            return Err(ParseError::PayloadLength { len: hlen });
        }
        let disk_bytenr = self.item.disk_bytenr;
        if disk_bytenr == 0 {
            // A hole: no backing extent, nothing to account.
            return Ok(None);
        }
        if disk_bytenr % ALLOC_UNIT != 0 {
            return Err(ParseError::UnalignedExtent { bytenr: disk_bytenr });
        }
        Ok(
            Some(
                (
                    ExtentKey::new(extent_type, disk_bytenr / ALLOC_UNIT),
                    comp_type,
                    ExtentStat {
                        disk: self.item.disk_num_bytes,
                        uncomp: self.item.ram_bytes,
                        refd: self.item.num_bytes,
                    },
                ),
            ),
        )
    }
}

} // verus!
