use vstd::prelude::*;

use crate::error::VolitionError;
use vstd::string::{StringExecFns, StringSliceAdditionalSpecFns};
use vstd::utf8::{decode_utf8, encode_utf8_decode_utf8};
use crate::util::{
    aligned, check_fits_buf, i32_bytes, le_i32, lemma_i32_bytes_read, lemma_i32_read_bytes,
    lemma_subrange_of_concat, push_i32_le, read_bytes, read_cstr, read_i32_le, round_up, spec_cstr,
};

verus! {

/// Header of a `.vpp_pc` archive, 0x180 bytes on disk.
#[derive(Debug, Clone, Copy)]
pub struct Packfile {
    pub magic: i32,
    pub version: i32,
    /// Unused. filename/pathname/pad probably, 65/256/3 bytes
    pub packfile_name_bufs: [u8; 324],
    pub flags: i32,
    /// Label from SRTT "packfile starts at this sector"
    /// Always Zero in SR2PC.
    pub sector: i32,
    pub num_files: i32,
    /// Size of this packfile itself
    pub len_packfile: i32,
    pub len_entries: i32,
    pub len_stems: i32,
    pub len_exts: i32,
    /// Label from SRTT.
    /// Uncompressed size
    pub len_data: i32,
    /// Label from SRTT
    /// Always -1 in SR2PC, which doesn't use compression?
    pub len_compressed: i32,
    /// Label from SRTT
    pub ptr_entries: i32,
    /// Label from SRTT
    pub ptr_names: i32,
    /// Label from SRTT
    pub ptr_data: i32,
    /// Label from SRTT
    /// "how many files have open handles into the packfile"
    pub open_count: i32,
}

/// One file record of the entry block, 28 bytes on disk.
#[derive(Debug, Clone, Copy)]
pub struct PackfileEntry {
    /// Offset of file stem (name without extension) in stem block
    pub off_stem: i32,
    /// Offset of file extension in extension block
    pub off_ext: i32,
    pub unknown_08: i32,
    /// Offset of data in data block
    pub off_data: i32,
    pub len_data: i32,
    /// Always -1
    pub runtime_14: i32,
    /// Always Zero
    pub runtime_18: i32,
}

/// The `usize` that `x as usize` gives.
pub open spec fn usize_of_i32(x: i32) -> int {
    if x >= 0 {
        x as int
    } else {
        x + usize::MAX + 1
    }
}

/// `x as usize`, written without a cast of a negative number.
pub fn i32_as_usize(x: i32) -> (r: usize)
    ensures
        r == usize_of_i32(x),
{
    if x >= 0 {
        x as usize
    } else {
        let m = -(x + 1);
        usize::MAX - (m as usize)
    }
}

impl Default for Packfile {
    fn default() -> (r: Self)
        ensures
            r.magic == Packfile::SIGNATURE,
            r.version == Packfile::VERSION,
            r.packfile_name_bufs@ == Seq::new(324, |i: int| 0u8),
            r.flags == 0,
            r.sector == 0,
            r.num_files == 0,
            r.len_packfile == 0,
            r.len_entries == 0,
            r.len_stems == 0,
            r.len_exts == 0,
            r.len_data == 0,
            r.len_compressed == -1,
            r.ptr_entries == -1,
            r.ptr_names == -1,
            r.ptr_data == -1,
            r.open_count == 0,
    {
        let r = Self {
            magic: Self::SIGNATURE,
            version: Self::VERSION,
            packfile_name_bufs: [0; 324],
            flags: 0,
            sector: 0,
            num_files: 0,
            len_packfile: 0,
            len_entries: 0,
            len_stems: 0,
            len_exts: 0,
            len_data: 0,
            len_compressed: -1,
            ptr_entries: -1,
            ptr_names: -1,
            ptr_data: -1,
            open_count: 0,
        };
        assert(r.packfile_name_bufs@ =~= Seq::new(324, |i: int| 0u8));
        r
    }
}

impl Packfile {
    pub const SIGNATURE: i32 = 0x51890ACE;
    pub const VERSION: i32 = 4;
    /// "The header is actually different pieces aligned to 2048 bytes for historical cd drive reasons..."
    pub const SECTOR_SIZE: usize = 0x800;
    /// Size of the header on disk.
    pub const SIZE: usize = 0x180;
    /// Entry data is compressed
    pub const FLAG_COMPRESSED: i32 = 1;
    /// If NOT compressed: Remove padding between files in data block (each file is sector-aligned by default).
    /// If IS compressed: Compress entire data block instead files individually. Padding is not removed.
    pub const FLAG_CONDENSED: i32 = 2;

    pub fn is_compressed(&self) -> (r: bool)
        ensures
            r == (self.flags & Self::FLAG_COMPRESSED != 0),
    {
        self.flags & Self::FLAG_COMPRESSED != 0
    }

    /// I have no clue what "condensing" means
    pub fn is_condensed(&self) -> (r: bool)
        ensures
            r == (self.flags & Self::FLAG_CONDENSED != 0),
    {
        self.flags & Self::FLAG_CONDENSED != 0
    }

    /// Offset of the entry block from the start of the header.
    pub open spec fn spec_off_entry_block(self) -> int {
        Self::SECTOR_SIZE as int
    }

    /// Offset of the stem block from the start of the header.
    pub open spec fn spec_off_stem_block(self) -> int {
        self.spec_off_entry_block() + round_up(usize_of_i32(self.len_entries), Self::SECTOR_SIZE as int)
    }

    /// Offset of the extension block from the start of the header.
    pub open spec fn spec_off_ext_block(self) -> int {
        self.spec_off_stem_block() + round_up(usize_of_i32(self.len_stems), Self::SECTOR_SIZE as int)
    }

    /// Offset of the data block from the start of the header.
    pub open spec fn spec_off_data_block(self) -> int {
        self.spec_off_ext_block() + round_up(usize_of_i32(self.len_exts), Self::SECTOR_SIZE as int)
    }

    /// The stem block offset can be computed without overflow.
    pub open spec fn stem_block_fits(self) -> bool {
        &&& round_up(usize_of_i32(self.len_entries), Self::SECTOR_SIZE as int) <= usize::MAX
        &&& self.spec_off_stem_block() <= usize::MAX
    }

    /// The extension block offset can be computed without overflow.
    pub open spec fn ext_block_fits(self) -> bool {
        &&& self.stem_block_fits()
        &&& round_up(usize_of_i32(self.len_stems), Self::SECTOR_SIZE as int) <= usize::MAX
        &&& self.spec_off_ext_block() <= usize::MAX
    }

    /// The data block offset can be computed without overflow.
    pub open spec fn data_block_fits(self) -> bool {
        &&& self.ext_block_fits()
        &&& round_up(usize_of_i32(self.len_exts), Self::SECTOR_SIZE as int) <= usize::MAX
        &&& self.spec_off_data_block() <= usize::MAX
    }

    /// Offset of file entries relative to header
    pub fn off_entry_block(&self) -> (r: usize)
        ensures
            r == self.spec_off_entry_block(),
    {
        Self::SECTOR_SIZE
    }

    /// Offset of file stems relative to header
    pub fn off_stem_block(&self) -> (r: usize)
        requires
            self.stem_block_fits(),
        ensures
            r == self.spec_off_stem_block(),
    {
        self.off_entry_block() + self.align_sector(i32_as_usize(self.len_entries))
    }

    /// Offset of file extensions relative to header
    pub fn off_ext_block(&self) -> (r: usize)
        requires
            self.ext_block_fits(),
        ensures
            r == self.spec_off_ext_block(),
    {
        self.off_stem_block() + self.align_sector(i32_as_usize(self.len_stems))
    }

    /// Offset of data relative to header
    pub fn off_data_block(&self) -> (r: usize)
        requires
            self.data_block_fits(),
        ensures
            r == self.spec_off_data_block(),
    {
        self.off_ext_block() + self.align_sector(i32_as_usize(self.len_exts))
    }

    /// `offset` rounded up to a whole number of sectors.
    pub fn align_sector(&self, offset: usize) -> (r: usize)
        requires
            round_up(offset as int, Self::SECTOR_SIZE as int) <= usize::MAX,
        ensures
            r == round_up(offset as int, Self::SECTOR_SIZE as int),
    {
        aligned(offset, Self::SECTOR_SIZE)
    }
}

/// The first check that the header at the start of `b` fails, if any.
pub open spec fn packfile_error(b: Seq<u8>) -> Option<VolitionError> {
    if b.len() < Packfile::SIZE {
        Some(VolitionError::BufferTooSmall { for_what: "Packfile", need: Packfile::SIZE, avail: b.len() as usize })
    } else if le_i32(b, 0) != Packfile::SIGNATURE {
        Some(VolitionError::InvalidPackfileSignature(le_i32(b, 0)))
    } else if le_i32(b, 4) != Packfile::VERSION {
        Some(VolitionError::UnknownPackfileVersion(le_i32(b, 4)))
    } else if le_i32(b, 0x16c) != -1 {
        Some(VolitionError::ExpectedExactValue { field: "Packfile::len_compressed", expected: -1i32, got: le_i32(b, 0x16c) })
    } else if le_i32(b, 0x17c) != 0 {
        Some(VolitionError::ExpectedExactValue { field: "Packfile::open_count_maybe", expected: 0i32, got: le_i32(b, 0x17c) })
    } else {
        None
    }
}

/// `p` holds the header fields stored at the start of `b`.
pub open spec fn packfile_read_from(p: Packfile, b: Seq<u8>) -> bool {
    &&& p.magic == le_i32(b, 0)
    &&& p.version == le_i32(b, 4)
    &&& p.packfile_name_bufs@ == b.subrange(8, 0x14c)
    &&& p.flags == le_i32(b, 0x14c)
    &&& p.sector == le_i32(b, 0x150)
    &&& p.num_files == le_i32(b, 0x154)
    &&& p.len_packfile == le_i32(b, 0x158)
    &&& p.len_entries == le_i32(b, 0x15c)
    &&& p.len_stems == le_i32(b, 0x160)
    &&& p.len_exts == le_i32(b, 0x164)
    &&& p.len_data == le_i32(b, 0x168)
    &&& p.len_compressed == le_i32(b, 0x16c)
    &&& p.ptr_entries == le_i32(b, 0x170)
    &&& p.ptr_names == le_i32(b, 0x174)
    &&& p.ptr_data == le_i32(b, 0x178)
    &&& p.open_count == le_i32(b, 0x17c)
}

/// The bytes that `Packfile::to_bytes` writes for `p`.
pub open spec fn packfile_bytes(p: Packfile) -> Seq<u8> {
    i32_bytes(Packfile::SIGNATURE) + i32_bytes(p.version) + p.packfile_name_bufs@ + i32_bytes(p.flags)
        + i32_bytes(p.sector) + i32_bytes(p.num_files) + i32_bytes(p.len_packfile) + i32_bytes(
        p.len_entries,
    ) + i32_bytes(p.len_stems) + i32_bytes(p.len_exts) + i32_bytes(p.len_data) + i32_bytes(
        p.len_compressed,
    ) + i32_bytes(p.ptr_entries) + i32_bytes(p.ptr_names) + i32_bytes(p.ptr_data) + i32_bytes(0)
}

/// A header that `from_data` accepts when it reads it back.
pub open spec fn packfile_valid(p: Packfile) -> bool {
    &&& p.magic == Packfile::SIGNATURE
    &&& p.version == Packfile::VERSION
    &&& p.len_compressed == -1
    &&& p.open_count == 0
}

impl Packfile {
    /// Decodes the header at the start of `buf`.
    pub fn from_data(buf: &[u8]) -> (r: Result<Self, VolitionError>)
        ensures
            match packfile_error(buf@) {
                Some(e) => r == Err::<Packfile, VolitionError>(e),
                None => r matches Ok(p) && packfile_read_from(p, buf@),
            },
    {
        check_fits_buf(buf, Self::SIZE, "Packfile")?;

        let magic = read_i32_le(buf, 0);
        if magic != Self::SIGNATURE {
            return Err(VolitionError::InvalidPackfileSignature(magic));
        }

        let version = read_i32_le(buf, 0x4);
        if version != Self::VERSION {
            return Err(VolitionError::UnknownPackfileVersion(version));
        }

        let len_compressed = read_i32_le(buf, 0x16c);
        if len_compressed != -1 {
            return Err(
                VolitionError::ExpectedExactValue {
                    field: "Packfile::len_compressed",
                    expected: -1,
                    got: len_compressed,
                },
            );
        }

        let open_count_maybe = read_i32_le(buf, 0x17c);
        if open_count_maybe != 0 {
            return Err(
                VolitionError::ExpectedExactValue {
                    field: "Packfile::open_count_maybe",
                    expected: 0,
                    got: open_count_maybe,
                },
            );
        }

        Ok(
            Self {
                magic,
                version,
                packfile_name_bufs: read_bytes(buf, 0x08),
                flags: read_i32_le(buf, 0x14c),
                sector: read_i32_le(buf, 0x150),
                num_files: read_i32_le(buf, 0x154),
                len_packfile: read_i32_le(buf, 0x158),
                len_entries: read_i32_le(buf, 0x15c),
                len_stems: read_i32_le(buf, 0x160),
                len_exts: read_i32_le(buf, 0x164),
                len_data: read_i32_le(buf, 0x168),
                len_compressed,
                ptr_entries: read_i32_le(buf, 0x170),
                ptr_names: read_i32_le(buf, 0x174),
                ptr_data: read_i32_le(buf, 0x178),
                open_count: open_count_maybe,
            },
        )
    }

    /// Encodes the header; the signature and the open count are always written
    /// as `SIGNATURE` and zero.
    pub fn to_bytes(&self) -> (r: Vec<u8>)
        ensures
            r@ == packfile_bytes(*self),
            r@.len() == Self::SIZE,
    {
        let mut bytes = Vec::new();
        push_i32_le(&mut bytes, Self::SIGNATURE);
        push_i32_le(&mut bytes, self.version);
        bytes.extend_from_slice(self.packfile_name_bufs.as_slice());
        push_i32_le(&mut bytes, self.flags);
        push_i32_le(&mut bytes, self.sector);
        push_i32_le(&mut bytes, self.num_files);
        push_i32_le(&mut bytes, self.len_packfile);
        push_i32_le(&mut bytes, self.len_entries);
        push_i32_le(&mut bytes, self.len_stems);
        push_i32_le(&mut bytes, self.len_exts);
        push_i32_le(&mut bytes, self.len_data);
        push_i32_le(&mut bytes, self.len_compressed);
        push_i32_le(&mut bytes, self.ptr_entries);
        push_i32_le(&mut bytes, self.ptr_names);
        push_i32_le(&mut bytes, self.ptr_data);
        push_i32_le(&mut bytes, 0);
        bytes
    }
}

/// Writing back a header that was read gives the bytes it was read from.
pub proof fn lemma_packfile_write_after_read(p: Packfile, b: Seq<u8>)
    requires
        packfile_error(b) is None,
        packfile_read_from(p, b),
    ensures
        packfile_bytes(p) == b.take(Packfile::SIZE as int),
{
    let offs = seq![0int, 4, 0x14c, 0x150, 0x154, 0x158, 0x15c, 0x160, 0x164, 0x168, 0x16c, 0x170, 0x174, 0x178, 0x17c];
    assert forall|i: int| 0 <= i < offs.len() implies #[trigger] i32_bytes(le_i32(b, offs[i])) == b.subrange(offs[i], offs[i] + 4) by {
        lemma_i32_bytes_read(b, offs[i]);
    }
    assert(i32_bytes(le_i32(b, offs[0])) == b.subrange(0, 4));
    assert(i32_bytes(le_i32(b, offs[1])) == b.subrange(4, 8));
    assert(i32_bytes(le_i32(b, offs[2])) == b.subrange(0x14c, 0x150));
    assert(i32_bytes(le_i32(b, offs[3])) == b.subrange(0x150, 0x154));
    assert(i32_bytes(le_i32(b, offs[4])) == b.subrange(0x154, 0x158));
    assert(i32_bytes(le_i32(b, offs[5])) == b.subrange(0x158, 0x15c));
    assert(i32_bytes(le_i32(b, offs[6])) == b.subrange(0x15c, 0x160));
    assert(i32_bytes(le_i32(b, offs[7])) == b.subrange(0x160, 0x164));
    assert(i32_bytes(le_i32(b, offs[8])) == b.subrange(0x164, 0x168));
    assert(i32_bytes(le_i32(b, offs[9])) == b.subrange(0x168, 0x16c));
    assert(i32_bytes(le_i32(b, offs[10])) == b.subrange(0x16c, 0x170));
    assert(i32_bytes(le_i32(b, offs[11])) == b.subrange(0x170, 0x174));
    assert(i32_bytes(le_i32(b, offs[12])) == b.subrange(0x174, 0x178));
    assert(i32_bytes(le_i32(b, offs[13])) == b.subrange(0x178, 0x17c));
    assert(i32_bytes(le_i32(b, offs[14])) == b.subrange(0x17c, 0x180));
    assert(packfile_bytes(p) =~= b.take(Packfile::SIZE as int));
}

/// A header with the signature, the version and the fixed runtime fields set
/// reads back from its bytes as itself.
pub proof fn lemma_packfile_read_after_write(p: Packfile)
    requires
        packfile_valid(p),
    ensures
        packfile_error(packfile_bytes(p)) is None,
        packfile_read_from(p, packfile_bytes(p)),
{
    let b = packfile_bytes(p);
    assert(b.len() == 0x180);
    assert(b.subrange(0, 4) =~= i32_bytes(Packfile::SIGNATURE));
    assert(b.subrange(4, 8) =~= i32_bytes(p.version));
    assert(b.subrange(8, 0x14c) =~= p.packfile_name_bufs@);
    assert(b.subrange(0x14c, 0x150) =~= i32_bytes(p.flags));
    assert(b.subrange(0x150, 0x154) =~= i32_bytes(p.sector));
    assert(b.subrange(0x154, 0x158) =~= i32_bytes(p.num_files));
    assert(b.subrange(0x158, 0x15c) =~= i32_bytes(p.len_packfile));
    assert(b.subrange(0x15c, 0x160) =~= i32_bytes(p.len_entries));
    assert(b.subrange(0x160, 0x164) =~= i32_bytes(p.len_stems));
    assert(b.subrange(0x164, 0x168) =~= i32_bytes(p.len_exts));
    assert(b.subrange(0x168, 0x16c) =~= i32_bytes(p.len_data));
    assert(b.subrange(0x16c, 0x170) =~= i32_bytes(p.len_compressed));
    assert(b.subrange(0x170, 0x174) =~= i32_bytes(p.ptr_entries));
    assert(b.subrange(0x174, 0x178) =~= i32_bytes(p.ptr_names));
    assert(b.subrange(0x178, 0x17c) =~= i32_bytes(p.ptr_data));
    assert(b.subrange(0x17c, 0x180) =~= i32_bytes(0));
    lemma_i32_read_bytes(b, 0, Packfile::SIGNATURE);
    lemma_i32_read_bytes(b, 4, p.version);
    lemma_i32_read_bytes(b, 0x14c, p.flags);
    lemma_i32_read_bytes(b, 0x150, p.sector);
    lemma_i32_read_bytes(b, 0x154, p.num_files);
    lemma_i32_read_bytes(b, 0x158, p.len_packfile);
    lemma_i32_read_bytes(b, 0x15c, p.len_entries);
    lemma_i32_read_bytes(b, 0x160, p.len_stems);
    lemma_i32_read_bytes(b, 0x164, p.len_exts);
    lemma_i32_read_bytes(b, 0x168, p.len_data);
    lemma_i32_read_bytes(b, 0x16c, p.len_compressed);
    lemma_i32_read_bytes(b, 0x170, p.ptr_entries);
    lemma_i32_read_bytes(b, 0x174, p.ptr_names);
    lemma_i32_read_bytes(b, 0x178, p.ptr_data);
    lemma_i32_read_bytes(b, 0x17c, 0);
}

impl PackfileEntry {
    /// The entry that `default` gives: zero offsets and lengths, and the runtime
    /// fields as they appear on disk.
    pub open spec fn default_spec() -> PackfileEntry {
        PackfileEntry {
            off_stem: 0,
            off_ext: 0,
            unknown_08: 0,
            off_data: 0,
            len_data: 0,
            runtime_14: -1i32,
            runtime_18: 0,
        }
    }
}

impl Default for PackfileEntry {
    fn default() -> (r: Self)
        ensures
            r == PackfileEntry::default_spec(),
    {
        Self {
            off_stem: 0,
            off_ext: 0,
            unknown_08: 0,
            off_data: 0,
            len_data: 0,
            runtime_14: -1,
            runtime_18: 0,
        }
    }
}

/// What `PackfileEntry::from_data` gives for the bytes `b`.
pub open spec fn entry_parse(b: Seq<u8>) -> Result<PackfileEntry, VolitionError> {
    if b.len() < PackfileEntry::SIZE {
        Err(VolitionError::BufferTooSmall { for_what: "PackfileEntry", need: PackfileEntry::SIZE, avail: b.len() as usize })
    } else if le_i32(b, 0x14) != -1 {
        Err(VolitionError::ExpectedExactValue { field: "PackfileEntry::runtime_14", expected: -1i32, got: le_i32(b, 0x14) })
    } else if le_i32(b, 0x18) != 0 {
        Err(VolitionError::ExpectedExactValue { field: "PackfileEntry::runtime_18", expected: 0i32, got: le_i32(b, 0x18) })
    } else {
        Ok(
            PackfileEntry {
                off_stem: le_i32(b, 0x0),
                off_ext: le_i32(b, 0x4),
                unknown_08: le_i32(b, 0x8),
                off_data: le_i32(b, 0xc),
                len_data: le_i32(b, 0x10),
                runtime_14: le_i32(b, 0x14),
                runtime_18: le_i32(b, 0x18),
            },
        )
    }
}

/// The bytes that `PackfileEntry::to_bytes` writes for `e`.
pub open spec fn entry_bytes(e: PackfileEntry) -> Seq<u8> {
    i32_bytes(e.off_stem) + i32_bytes(e.off_ext) + i32_bytes(e.unknown_08) + i32_bytes(e.off_data)
        + i32_bytes(e.len_data) + i32_bytes(-1i32) + i32_bytes(0)
}

impl PackfileEntry {
    /// Size of an entry on disk.
    pub const SIZE: usize = 28;

    /// Decodes the entry at the start of `buf`.
    pub fn from_data(buf: &[u8]) -> (r: Result<Self, VolitionError>)
        ensures
            r == entry_parse(buf@),
    {
        check_fits_buf(buf, Self::SIZE, "PackfileEntry")?;

        let runtime_14 = read_i32_le(buf, 0x14);
        let runtime_18 = read_i32_le(buf, 0x18);

        if runtime_14 != -1 {
            return Err(
                VolitionError::ExpectedExactValue {
                    field: "PackfileEntry::runtime_14",
                    expected: -1,
                    got: runtime_14,
                },
            );
        }

        if runtime_18 != 0 {
            return Err(
                VolitionError::ExpectedExactValue {
                    field: "PackfileEntry::runtime_18",
                    expected: 0,
                    got: runtime_18,
                },
            );
        }

        Ok(
            Self {
                off_stem: read_i32_le(buf, 0x0),
                off_ext: read_i32_le(buf, 0x4),
                unknown_08: read_i32_le(buf, 0x8),
                off_data: read_i32_le(buf, 0xc),
                len_data: read_i32_le(buf, 0x10),
                runtime_14,
                runtime_18,
            },
        )
    }

    /// Encodes the entry; the runtime fields are always written as -1 and 0.
    pub fn to_bytes(&self) -> (r: Vec<u8>)
        ensures
            r@ == entry_bytes(*self),
            r@.len() == Self::SIZE,
    {
        let mut bytes = Vec::new();
        push_i32_le(&mut bytes, self.off_stem);
        push_i32_le(&mut bytes, self.off_ext);
        push_i32_le(&mut bytes, self.unknown_08);
        push_i32_le(&mut bytes, self.off_data);
        push_i32_le(&mut bytes, self.len_data);
        push_i32_le(&mut bytes, -1);
        push_i32_le(&mut bytes, 0);
        bytes
    }
}

/// Writing back an entry that was read gives the bytes it was read from.
pub proof fn lemma_entry_write_after_read(b: Seq<u8>)
    requires
        entry_parse(b) is Ok,
    ensures
        entry_bytes(entry_parse(b)->Ok_0) == b.take(PackfileEntry::SIZE as int),
{
    lemma_i32_bytes_read(b, 0x0);
    lemma_i32_bytes_read(b, 0x4);
    lemma_i32_bytes_read(b, 0x8);
    lemma_i32_bytes_read(b, 0xc);
    lemma_i32_bytes_read(b, 0x10);
    lemma_i32_bytes_read(b, 0x14);
    lemma_i32_bytes_read(b, 0x18);
    assert(entry_bytes(entry_parse(b)->Ok_0) =~= b.take(PackfileEntry::SIZE as int));
}

/// An entry whose runtime fields hold -1 and 0 reads back from its bytes as itself.
pub proof fn lemma_entry_read_after_write(e: PackfileEntry)
    requires
        e.runtime_14 == -1,
        e.runtime_18 == 0,
    ensures
        entry_parse(entry_bytes(e)) == Ok::<PackfileEntry, VolitionError>(e),
{
    let b = entry_bytes(e);
    assert(b.subrange(0x0, 0x4) =~= i32_bytes(e.off_stem));
    assert(b.subrange(0x4, 0x8) =~= i32_bytes(e.off_ext));
    assert(b.subrange(0x8, 0xc) =~= i32_bytes(e.unknown_08));
    assert(b.subrange(0xc, 0x10) =~= i32_bytes(e.off_data));
    assert(b.subrange(0x10, 0x14) =~= i32_bytes(e.len_data));
    assert(b.subrange(0x14, 0x18) =~= i32_bytes(-1i32));
    assert(b.subrange(0x18, 0x1c) =~= i32_bytes(0));
    lemma_i32_read_bytes(b, 0x0, e.off_stem);
    lemma_i32_read_bytes(b, 0x4, e.off_ext);
    lemma_i32_read_bytes(b, 0x8, e.unknown_08);
    lemma_i32_read_bytes(b, 0xc, e.off_data);
    lemma_i32_read_bytes(b, 0x10, e.len_data);
    lemma_i32_read_bytes(b, 0x14, -1i32);
    lemma_i32_read_bytes(b, 0x18, 0);
}

/// The first `n` entries of the entry block, or the error of the first one that
/// fails to decode.
pub open spec fn spec_read_entries(buf: Seq<u8>, n: nat) -> Result<Seq<PackfileEntry>, VolitionError>
    decreases n,
{
    if n == 0 {
        Ok(Seq::empty())
    } else {
        match spec_read_entries(buf, (n - 1) as nat) {
            Err(e) => Err(e),
            Ok(es) => match entry_parse(buf.skip(Packfile::SECTOR_SIZE + PackfileEntry::SIZE * (n - 1))) {
                Ok(e) => Ok(es.push(e)),
                Err(e) => Err(e),
            },
        }
    }
}

/// Entries that were read successfully lie inside the buffer.
proof fn lemma_read_entries_in_buffer(buf: Seq<u8>, n: nat)
    requires
        n > 0,
        buf.len() >= Packfile::SECTOR_SIZE,
        spec_read_entries(buf, n) is Ok,
    ensures
        Packfile::SECTOR_SIZE + PackfileEntry::SIZE * n <= buf.len(),
    decreases n,
{
    if n > 1 {
        lemma_read_entries_in_buffer(buf, (n - 1) as nat);
    }
    let off = Packfile::SECTOR_SIZE + PackfileEntry::SIZE * (n - 1);
    assert(buf.skip(off).len() == buf.len() - off);
}

/// The file name `stem.ext` made of the two strings found at `off_stem` and `off_ext`.
pub open spec fn spec_filename(buf: Seq<u8>, off_stem: int, off_ext: int) -> Result<Seq<char>, VolitionError> {
    match spec_cstr(buf, off_stem) {
        Err(e) => Err(e),
        Ok(stem) => match spec_cstr(buf, off_ext) {
            Err(e) => Err(e),
            Ok(ext) => Ok(decode_utf8(stem) + seq!['.'] + decode_utf8(ext)),
        },
    }
}

/// The names of `entries` in order, or the error of the first one that fails.
pub open spec fn spec_read_filenames(p: Packfile, buf: Seq<u8>, entries: Seq<PackfileEntry>) -> Result<Seq<Seq<char>>, VolitionError>
    decreases entries.len(),
{
    if entries.len() == 0 {
        Ok(Seq::empty())
    } else {
        match spec_read_filenames(p, buf, entries.drop_last()) {
            Err(e) => Err(e),
            Ok(names) => match spec_filename(
                buf,
                p.spec_off_stem_block() + usize_of_i32(entries.last().off_stem),
                p.spec_off_ext_block() + usize_of_i32(entries.last().off_ext),
            ) {
                Err(e) => Err(e),
                Ok(name) => Ok(names.push(name)),
            },
        }
    }
}

/// The name offsets of every entry can be computed without overflow.
pub open spec fn name_offsets_fit(p: Packfile, entries: Seq<PackfileEntry>) -> bool {
    entries.len() > 0 ==> {
        &&& p.ext_block_fits()
        &&& forall|i: int|
            0 <= i < entries.len() ==> {
                &&& p.spec_off_stem_block() + usize_of_i32(#[trigger] entries[i].off_stem) <= usize::MAX
                &&& p.spec_off_ext_block() + usize_of_i32(entries[i].off_ext) <= usize::MAX
            }
    }
}

/// Where the contents of `entry` start and end, relative to the header.
pub open spec fn entry_data_range(p: Packfile, entry: PackfileEntry) -> (int, int) {
    let start = p.spec_off_data_block() + usize_of_i32(entry.off_data);
    (start, start + usize_of_i32(entry.len_data))
}

impl Packfile {
    /// Decodes the `num_files` entries that follow the header.
    pub fn read_entries(&self, buf: &[u8]) -> (r: Result<Vec<PackfileEntry>, VolitionError>)
        requires
            self.num_files >= 0,
            self.num_files > 0 ==> buf@.len() >= Self::SECTOR_SIZE,
        ensures
            match spec_read_entries(buf@, self.num_files as nat) {
                Ok(es) => r matches Ok(v) && v@ == es,
                Err(e) => r == Err::<Vec<PackfileEntry>, VolitionError>(e),
            },
    {
        let n = self.num_files as usize;
        let mut entries = Vec::new();
        let mut off = Self::SECTOR_SIZE;
        let mut i: usize = 0;
        while i < n
            invariant
                n == self.num_files,
                i <= n,
                off == Self::SECTOR_SIZE + PackfileEntry::SIZE * i,
                n > 0 ==> buf@.len() >= Self::SECTOR_SIZE,
                i > 0 ==> off <= buf@.len(),
                spec_read_entries(buf@, i as nat) == Ok::<Seq<PackfileEntry>, VolitionError>(entries@),
            decreases n - i,
        {
            proof {
                if i > 0 {
                    lemma_read_entries_in_buffer(buf@, i as nat);
                }
            }
            let rest = &buf[off..buf.len()];
            assert(rest@ == buf@.skip(off as int));
            match PackfileEntry::from_data(rest) {
                Ok(e) => {
                    entries.push(e);
                    assert(buf@.len() >= off + PackfileEntry::SIZE);
                    off = off + PackfileEntry::SIZE;
                    i = i + 1;
                },
                Err(e) => {
                    proof {
                        lemma_read_entries_err_stays(buf@, (i + 1) as nat, self.num_files as nat);
                    }
                    return Err(e);
                },
            }
        }
        Ok(entries)
    }

    /// The `stem.ext` names of `entries`, read from the stem and extension blocks.
    pub fn read_filenames(&self, buf: &[u8], entries: &[PackfileEntry]) -> (r: Result<Vec<String>, VolitionError>)
        requires
            entries@.len() == self.num_files,
            name_offsets_fit(*self, entries@),
        ensures
            match spec_read_filenames(*self, buf@, entries@) {
                Ok(names) => r matches Ok(v) && v@.len() == names.len() && forall|i: int|
                    0 <= i < names.len() ==> #[trigger] v@[i]@ == names[i],
                Err(e) => r == Err::<Vec<String>, VolitionError>(e),
            },
    {
        let mut names: Vec<String> = Vec::new();
        let mut i: usize = 0;
        while i < entries.len()
            invariant
                i <= entries@.len(),
                name_offsets_fit(*self, entries@),
                spec_read_filenames(*self, buf@, entries@.take(i as int)) matches Ok(ns) && names@.len()
                    == ns.len() && forall|j: int| 0 <= j < ns.len() ==> #[trigger] names@[j]@ == ns[j],
            decreases entries@.len() - i,
        {
            let entry = &entries[i];
            assert(entries@.take(i + 1).drop_last() =~= entries@.take(i as int));
            let stem = read_cstr(buf, self.off_stem_block() + i32_as_usize(entry.off_stem));
            let stem = match stem {
                Ok(s) => s,
                Err(e) => {
                    proof { lemma_read_filenames_err_stays(*self, buf@, entries@, i + 1); }
                    return Err(e);
                },
            };
            let ext = read_cstr(buf, self.off_ext_block() + i32_as_usize(entry.off_ext));
            let ext = match ext {
                Ok(s) => s,
                Err(e) => {
                    proof { lemma_read_filenames_err_stays(*self, buf@, entries@, i + 1); }
                    return Err(e);
                },
            };
            let mut name = String::from_str(stem);
            name.append(".");
            name.append(ext);
            proof {
                reveal_strlit(".");
                encode_utf8_decode_utf8(stem@);
                encode_utf8_decode_utf8(ext@);
            }
            names.push(name);
            i = i + 1;
        }
        assert(entries@.take(entries@.len() as int) =~= entries@);
        Ok(names)
    }

    /// The contents of the file that `entry` describes.
    pub fn entry_data<'a>(&self, buf: &'a [u8], entry: &PackfileEntry) -> (r: Result<&'a [u8], VolitionError>)
        requires
            !self.is_compressed_spec() ==> {
                &&& self.data_block_fits()
                &&& entry_data_range(*self, *entry).0 <= usize::MAX
                &&& entry_data_range(*self, *entry).1 <= usize::MAX
            },
        ensures
            self.is_compressed_spec() ==> r == Err::<&[u8], VolitionError>(VolitionError::PackfileCompression),
            !self.is_compressed_spec() ==> {
                let (start, end) = entry_data_range(*self, *entry);
                if buf@.len() < end {
                    r == Err::<&[u8], VolitionError>(VolitionError::BufferTooSmall {
                        for_what: "packfile entry contents",
                        need: end as usize,
                        avail: buf@.len() as usize,
                    })
                } else {
                    r matches Ok(s) && s@ == buf@.subrange(start, end)
                }
            },
    {
        if self.is_compressed() {
            return Err(VolitionError::PackfileCompression);
        }

        let start = self.off_data_block() + i32_as_usize(entry.off_data);
        let end = start + i32_as_usize(entry.len_data);

        if buf.len() < end {
            Err(VolitionError::BufferTooSmall {
                for_what: "packfile entry contents",
                need: end,
                avail: buf.len(),
            })
        } else {
            Ok(&buf[start..end])
        }
    }

    /// Whether the compression flag is set.
    pub open spec fn is_compressed_spec(self) -> bool {
        self.flags & Self::FLAG_COMPRESSED != 0
    }
}

/// Once an entry fails to decode, reading more entries fails with the same error.
proof fn lemma_read_entries_err_stays(buf: Seq<u8>, i: nat, n: nat)
    requires
        i <= n,
        spec_read_entries(buf, i) is Err,
    ensures
        spec_read_entries(buf, n) == spec_read_entries(buf, i),
    decreases n - i,
{
    if i < n {
        lemma_read_entries_err_stays(buf, i, (n - 1) as nat);
    }
}

/// Once a name fails to decode, reading more names fails with the same error.
proof fn lemma_read_filenames_err_stays(p: Packfile, buf: Seq<u8>, entries: Seq<PackfileEntry>, i: int)
    requires
        0 < i <= entries.len(),
        spec_read_filenames(p, buf, entries.take(i)) is Err,
    ensures
        spec_read_filenames(p, buf, entries) == spec_read_filenames(p, buf, entries.take(i)),
    decreases entries.len() - i,
{
    if i < entries.len() {
        assert(entries.take(i + 1).drop_last() =~= entries.take(i));
        lemma_read_filenames_err_stays(p, buf, entries, i + 1);
    } else {
        assert(entries.take(i) =~= entries);
    }
}

/// `x` rounded up to a whole number of sectors, where that fits in a `usize`.
fn sector_aligned_checked(x: usize) -> (r: Option<usize>)
    ensures
        r == if round_up(x as int, Packfile::SECTOR_SIZE as int) <= usize::MAX {
            Some(round_up(x as int, Packfile::SECTOR_SIZE as int) as usize)
        } else {
            None
        },
{
    let rem = x % Packfile::SECTOR_SIZE;
    if rem == 0 {
        Some(x)
    } else {
        (x - rem).checked_add(Packfile::SECTOR_SIZE)
    }
}

impl Packfile {
    /// Whether the offsets of the stem, extension and data blocks can be
    /// computed without overflow.
    pub fn blocks_fit(&self) -> (r: bool)
        ensures
            r == self.data_block_fits(),
    {
        let entries = match sector_aligned_checked(i32_as_usize(self.len_entries)) {
            Some(v) => v,
            None => {
                return false;
            },
        };
        let stems_at = match Self::SECTOR_SIZE.checked_add(entries) {
            Some(v) => v,
            None => {
                return false;
            },
        };
        let stems = match sector_aligned_checked(i32_as_usize(self.len_stems)) {
            Some(v) => v,
            None => {
                return false;
            },
        };
        let exts_at = match stems_at.checked_add(stems) {
            Some(v) => v,
            None => {
                return false;
            },
        };
        let exts = match sector_aligned_checked(i32_as_usize(self.len_exts)) {
            Some(v) => v,
            None => {
                return false;
            },
        };
        exts_at.checked_add(exts).is_some()
    }

    /// Whether the name offsets of every one of `entries` can be computed
    /// without overflow.
    pub fn name_offsets_fit(&self, entries: &[PackfileEntry]) -> (r: bool)
        ensures
            r == name_offsets_fit(*self, entries@),
    {
        if entries.len() == 0 {
            true
        } else {
            self.offsets_of_names_fit(entries)
        }
    }

    /// Whether the stem and extension block offsets can be computed without overflow.
    fn ext_block_fits_checked(&self) -> (r: bool)
        ensures
            r == self.ext_block_fits(),
    {
        let entries = match sector_aligned_checked(i32_as_usize(self.len_entries)) {
            Some(v) => v,
            None => {
                return false;
            },
        };
        let stems_at = match Self::SECTOR_SIZE.checked_add(entries) {
            Some(v) => v,
            None => {
                return false;
            },
        };
        let stems = match sector_aligned_checked(i32_as_usize(self.len_stems)) {
            Some(v) => v,
            None => {
                return false;
            },
        };
        stems_at.checked_add(stems).is_some()
    }

    /// Whether the block offsets fit and the name offsets of `entries` can be
    /// added to them.
    fn offsets_of_names_fit(&self, entries: &[PackfileEntry]) -> (r: bool)
        requires
            entries@.len() > 0,
        ensures
            r == name_offsets_fit(*self, entries@),
    {
        if !self.ext_block_fits_checked() {
            return false;
        }
        let stem_block = self.off_stem_block();
        let ext_block = self.off_ext_block();
        let mut i: usize = 0;
        while i < entries.len()
            invariant
                i <= entries@.len(),
                self.ext_block_fits(),
                stem_block == self.spec_off_stem_block(),
                ext_block == self.spec_off_ext_block(),
                forall|k: int|
                    0 <= k < i ==> {
                        &&& self.spec_off_stem_block() + usize_of_i32(#[trigger] entries@[k].off_stem) <= usize::MAX
                        &&& self.spec_off_ext_block() + usize_of_i32(entries@[k].off_ext) <= usize::MAX
                    },
            decreases entries@.len() - i,
        {
            if stem_block.checked_add(i32_as_usize(entries[i].off_stem)).is_none() || ext_block.checked_add(
                i32_as_usize(entries[i].off_ext),
            ).is_none() {
                return false;
            }
            i = i + 1;
        }
        true
    }

    /// Whether the place of the contents of `entry` can be computed without
    /// overflow (always so for a compressed archive, which is refused first).
    pub fn entry_range_fits(&self, entry: &PackfileEntry) -> (r: bool)
        ensures
            r == (!self.is_compressed_spec() ==> {
                &&& self.data_block_fits()
                &&& entry_data_range(*self, *entry).0 <= usize::MAX
                &&& entry_data_range(*self, *entry).1 <= usize::MAX
            }),
    {
        if self.is_compressed() {
            return true;
        }
        if !self.blocks_fit() {
            return false;
        }
        match self.off_data_block().checked_add(i32_as_usize(entry.off_data)) {
            Some(start) => start.checked_add(i32_as_usize(entry.len_data)).is_some(),
            None => false,
        }
    }
}

} // verus!
