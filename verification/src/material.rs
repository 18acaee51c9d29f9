use vstd::prelude::*;

use crate::error::VolitionError;
use crate::packfile::{i32_as_usize, usize_of_i32};
use crate::util::{
    lemma_repeat_parse_len, lemma_round_up,
    align, check_fits_buf, is_nonsensical_float, le_i16, le_i32, le_u16, le_u32, lemma_repeat_parse_stops, read_bytes,
    read_i16_le, read_i32_le, read_u16_le, read_u32_le, repeat_parse, round_up, validate_f32, Parsed,
};

verus! {

pub const MAX_MATERIALS: u32 = 200;
pub const MAX_CONSTANTS: u32 = 1000;
pub const MAX_UKNOWN3S: u32 = 500;
pub const MAX_UKNOWN4S: u16 = 50;
pub const MAX_UKNOWN4_VALUE: usize = 0xffff;

/// Appears at least in city chunks and static meshes.  0x24 bytes on disk.
#[derive(Debug, Clone, Copy, PartialEq, Eq)]
pub struct MaterialBlock {
    /// Number of materials immediately after this header.
    pub num_materials: u32,
    /// Always Zero.
    pub unknown_04: i32,
    /// Always Zero.
    pub unknown_08: i32,
    /// Always Zero.
    pub unknown_0c: i32,
    /// Shader constants are just standard floats
    pub num_shader_consts: u32,
    /// Always Zero.
    pub unknown_14: i32,
    /// Always Zero.
    pub unknown_18: i32,
    pub num_mat_unknown3: u32,
    /// Always Zero.
    pub unknown_20: i32,
}

/// A material record, 0x18 bytes on disk.
#[derive(Debug, Clone, Copy, PartialEq, Eq)]
pub struct Material {
    /// name checksum?
    pub shader_hash: i32,
    /// name checksum?
    pub material_hash: i32,
    pub flags: i32,
    pub num_unknown: i16,
    pub num_textures: i16,
    pub unk_10: i16,
    pub unk_12: i16,
    pub runtime_14: i32,
}

/// A texture slot of a material, 4 bytes on disk.
#[derive(Debug, Clone, Copy, PartialEq, Eq)]
pub struct MaterialTextureEntry {
    /// Texture index. -1 if entry is unused
    pub index: i16,
    /// Texture flags? -1 if entry is unused
    pub flags: i16,
}

/// 0x10 bytes on disk.
#[derive(Debug, Clone, Copy, PartialEq, Eq)]
pub struct MaterialUnknown3 {
    pub unk_00: i32,
    pub unk_04: i32,
    pub num_mat_unk4: u16,
    pub unk_06: i16,
    pub ptr_08: i32,
}

/// The first check that the material block header in `b` fails, if any.
pub open spec fn material_block_parse(b: Seq<u8>) -> Result<MaterialBlock, VolitionError> {
    if b.len() < MaterialBlock::SIZE {
        Err(VolitionError::BufferTooSmall { for_what: "MaterialBlock", need: MaterialBlock::SIZE, avail: b.len() as usize })
    } else if le_u32(b, 0x0) > MAX_MATERIALS {
        Err(VolitionError::ValueTooHigh { field: "MaterialBlock::num_materials", max: MAX_MATERIALS as usize, got: le_u32(b, 0x0) as usize })
    } else if le_i32(b, 0x4) != 0 {
        Err(VolitionError::ExpectedExactValue { field: "MaterialBlock::unknown_04", expected: 0i32, got: le_i32(b, 0x4) })
    } else if le_i32(b, 0x8) != 0 {
        Err(VolitionError::ExpectedExactValue { field: "MaterialBlock::unknown_08", expected: 0i32, got: le_i32(b, 0x8) })
    } else if le_i32(b, 0xc) != 0 {
        Err(VolitionError::ExpectedExactValue { field: "MaterialBlock::unknown_0c", expected: 0i32, got: le_i32(b, 0xc) })
    } else if le_u32(b, 0x10) > MAX_CONSTANTS {
        Err(VolitionError::ValueTooHigh { field: "MaterialBlock::num_shader_consts", max: MAX_CONSTANTS as usize, got: le_u32(b, 0x10) as usize })
    } else if le_i32(b, 0x14) != 0 {
        Err(VolitionError::ExpectedExactValue { field: "MaterialBlock::unknown_14", expected: 0i32, got: le_i32(b, 0x14) })
    } else if le_i32(b, 0x18) != 0 {
        Err(VolitionError::ExpectedExactValue { field: "MaterialBlock::unknown_18", expected: 0i32, got: le_i32(b, 0x18) })
    } else if le_u32(b, 0x1c) > MAX_UKNOWN3S {
        Err(VolitionError::ValueTooHigh { field: "MaterialBlock::num_mat_unknown3", max: MAX_UKNOWN3S as usize, got: le_u32(b, 0x1c) as usize })
    } else if le_i32(b, 0x20) != 0 {
        Err(VolitionError::ExpectedExactValue { field: "MaterialBlock::unknown_20", expected: 0i32, got: le_i32(b, 0x20) })
    } else {
        Ok(
            MaterialBlock {
                num_materials: le_u32(b, 0x0),
                unknown_04: 0,
                unknown_08: 0,
                unknown_0c: 0,
                num_shader_consts: le_u32(b, 0x10),
                unknown_14: 0,
                unknown_18: 0,
                num_mat_unknown3: le_u32(b, 0x1c),
                unknown_20: 0,
            },
        )
    }
}

/// What `Material::from_data` gives for `b`.
pub open spec fn material_parse(b: Seq<u8>) -> Result<Material, VolitionError> {
    if b.len() < Material::SIZE {
        Err(VolitionError::BufferTooSmall { for_what: "Material", need: Material::SIZE, avail: b.len() as usize })
    } else {
        Ok(
            Material {
                shader_hash: le_i32(b, 0x0),
                material_hash: le_i32(b, 0x4),
                flags: le_i32(b, 0x8),
                num_unknown: le_i16(b, 0xc),
                num_textures: le_i16(b, 0xe),
                unk_10: le_i16(b, 0x10),
                unk_12: le_i16(b, 0x12),
                runtime_14: le_i32(b, 0x14),
            },
        )
    }
}

/// What `MaterialTextureEntry::from_data` gives for `b`.
pub open spec fn texture_entry_parse(b: Seq<u8>) -> Result<MaterialTextureEntry, VolitionError> {
    if b.len() < MaterialTextureEntry::SIZE {
        Err(VolitionError::BufferTooSmall { for_what: "MaterialTextureEntry", need: MaterialTextureEntry::SIZE, avail: b.len() as usize })
    } else {
        Ok(MaterialTextureEntry { index: le_i16(b, 0x0), flags: le_i16(b, 0x2) })
    }
}

/// What `MaterialUnknown3::from_data` gives for `b`.
pub open spec fn unknown3_parse(b: Seq<u8>) -> Result<MaterialUnknown3, VolitionError> {
    if b.len() < MaterialUnknown3::SIZE {
        Err(VolitionError::BufferTooSmall { for_what: "MaterialUnknown3", need: MaterialUnknown3::SIZE, avail: b.len() as usize })
    } else if le_u16(b, 0x8) > MAX_UKNOWN4S {
        Err(VolitionError::ValueTooHigh { field: "MaterialBlock::num_mat_unk4", max: MAX_UKNOWN4S as usize, got: le_u16(b, 0x8) as usize })
    } else if le_i32(b, 0xc) != -1 {
        Err(VolitionError::ExpectedExactValue { field: "MaterialBlock::ptr_08", expected: -1i32, got: le_i32(b, 0xc) })
    } else {
        Ok(
            MaterialUnknown3 {
                unk_00: le_i32(b, 0x0),
                unk_04: le_i32(b, 0x4),
                num_mat_unk4: le_u16(b, 0x8),
                unk_06: le_i16(b, 0xa),
                ptr_08: le_i32(b, 0xc),
            },
        )
    }
}

impl MaterialBlock {
    /// Size on disk.
    pub const SIZE: usize = 0x24;

    /// Decodes the material block header at the start of `buf`.
    pub fn from_data(buf: &[u8]) -> (r: Result<Self, VolitionError>)
        ensures
            r == material_block_parse(buf@),
    {
        check_fits_buf(buf, Self::SIZE, "MaterialBlock")?;

        let num_materials = read_u32_le(buf, 0x0);
        if num_materials > MAX_MATERIALS {
            return Err(VolitionError::ValueTooHigh {
                field: "MaterialBlock::num_materials",
                max: MAX_MATERIALS as usize,
                got: num_materials as usize,
            });
        }

        let unknown_04 = read_i32_le(buf, 0x4);
        if unknown_04 != 0 {
            return Err(VolitionError::ExpectedExactValue { field: "MaterialBlock::unknown_04", expected: 0, got: unknown_04 });
        }

        let unknown_08 = read_i32_le(buf, 0x8);
        if unknown_08 != 0 {
            return Err(VolitionError::ExpectedExactValue { field: "MaterialBlock::unknown_08", expected: 0, got: unknown_08 });
        }

        let unknown_0c = read_i32_le(buf, 0xc);
        if unknown_0c != 0 {
            return Err(VolitionError::ExpectedExactValue { field: "MaterialBlock::unknown_0c", expected: 0, got: unknown_0c });
        }

        let num_shader_consts = read_u32_le(buf, 0x10);
        if num_shader_consts > MAX_CONSTANTS {
            return Err(VolitionError::ValueTooHigh {
                field: "MaterialBlock::num_shader_consts",
                max: MAX_CONSTANTS as usize,
                got: num_shader_consts as usize,
            });
        }

        let unknown_14 = read_i32_le(buf, 0x14);
        if unknown_14 != 0 {
            return Err(VolitionError::ExpectedExactValue { field: "MaterialBlock::unknown_14", expected: 0, got: unknown_14 });
        }

        let unknown_18 = read_i32_le(buf, 0x18);
        if unknown_18 != 0 {
            return Err(VolitionError::ExpectedExactValue { field: "MaterialBlock::unknown_18", expected: 0, got: unknown_18 });
        }

        let num_mat_unknown3 = read_u32_le(buf, 0x1c);
        if num_mat_unknown3 > MAX_UKNOWN3S {
            return Err(VolitionError::ValueTooHigh {
                field: "MaterialBlock::num_mat_unknown3",
                max: MAX_UKNOWN3S as usize,
                got: num_mat_unknown3 as usize,
            });
        }

        let unknown_20 = read_i32_le(buf, 0x20);
        if unknown_20 != 0 {
            return Err(VolitionError::ExpectedExactValue { field: "MaterialBlock::unknown_20", expected: 0, got: unknown_20 });
        }

        Ok(
            Self {
                num_materials,
                unknown_04,
                unknown_08,
                unknown_0c,
                num_shader_consts,
                unknown_14,
                unknown_18,
                num_mat_unknown3,
                unknown_20,
            },
        )
    }
}

impl Material {
    /// Size on disk.
    pub const SIZE: usize = 0x18;

    /// Decodes the material at the start of `buf`.  `runtime_14` is usually,
    /// but not always, -1, so it is not checked.
    pub fn from_data(buf: &[u8]) -> (r: Result<Self, VolitionError>)
        ensures
            r == material_parse(buf@),
    {
        check_fits_buf(buf, Self::SIZE, "Material")?;

        let runtime_14 = read_i32_le(buf, 0x14);

        Ok(
            Self {
                shader_hash: read_i32_le(buf, 0x0),
                material_hash: read_i32_le(buf, 0x4),
                flags: read_i32_le(buf, 0x8),
                num_unknown: read_i16_le(buf, 0xc),
                num_textures: read_i16_le(buf, 0xe),
                unk_10: read_i16_le(buf, 0x10),
                unk_12: read_i16_le(buf, 0x12),
                runtime_14,
            },
        )
    }
}

impl MaterialTextureEntry {
    /// Size on disk.
    pub const SIZE: usize = 4;

    /// Both fields hold -1: the slot is unused.
    pub open spec fn spec_is_placeholder(self) -> bool {
        self.index == -1 && self.flags == -1
    }

    /// The slot refers to a texture.
    pub open spec fn spec_is_valid(self) -> bool {
        self.index >= 0 && self.flags != -1
    }

    pub fn is_placeholder(&self) -> (r: bool)
        ensures
            r == self.spec_is_placeholder(),
    {
        self.index == -1 && self.flags == -1
    }

    pub fn is_valid(&self) -> (r: bool)
        ensures
            r == self.spec_is_valid(),
    {
        self.index >= 0 && self.flags != -1
    }

    /// The entry of an unused slot.
    pub fn placeholder() -> (r: Self)
        ensures
            r == (MaterialTextureEntry { index: -1i16, flags: -1i16 }),
    {
        Self { index: -1, flags: -1 }
    }

    /// Decodes the entry at the start of `buf`.
    pub fn from_data(buf: &[u8]) -> (r: Result<Self, VolitionError>)
        ensures
            r == texture_entry_parse(buf@),
    {
        check_fits_buf(buf, Self::SIZE, "MaterialTextureEntry")?;
        Ok(Self { index: read_i16_le(buf, 0x0), flags: read_i16_le(buf, 0x2) })
    }
}

impl MaterialUnknown3 {
    /// Size on disk.
    pub const SIZE: usize = 0x10;

    /// Decodes the record at the start of `buf`.
    pub fn from_data(buf: &[u8]) -> (r: Result<Self, VolitionError>)
        ensures
            r == unknown3_parse(buf@),
    {
        check_fits_buf(buf, Self::SIZE, "MaterialUnknown3")?;

        let num_mat_unk4 = read_u16_le(buf, 0x8);
        if num_mat_unk4 > MAX_UKNOWN4S {
            return Err(VolitionError::ValueTooHigh {
                field: "MaterialBlock::num_mat_unk4",
                max: MAX_UKNOWN4S as usize,
                got: num_mat_unk4 as usize,
            });
        }

        let ptr_08 = read_i32_le(buf, 0xc);
        if ptr_08 != -1 {
            return Err(VolitionError::ExpectedExactValue { field: "MaterialBlock::ptr_08", expected: -1, got: ptr_08 });
        }

        Ok(
            Self {
                unk_00: read_i32_le(buf, 0x0),
                unk_04: read_i32_le(buf, 0x4),
                num_mat_unk4,
                unk_06: read_i16_le(buf, 0xa),
                ptr_08,
            },
        )
    }
}

// ---------------------------------------------------------------- Matlib

/// A material library: the material block and everything that follows it.
#[derive(Debug, Clone)]
pub struct Matlib {
    pub materials: Vec<Material>,
    pub mat_unk1s: Vec<[u8; 16]>,
    /// Shader constants, as IEEE-754 bit patterns.
    pub mat_consts: Vec<u32>,
    pub mat_textures: Vec<MaterialTextureEntry>,
    pub mat_unknown3s: Vec<MaterialUnknown3>,
    pub mat_unknown4s: Vec<i32>,
}

/// The contents of a `Matlib`.
pub struct MatlibView {
    pub materials: Seq<Material>,
    pub mat_unk1s: Seq<Seq<u8>>,
    pub mat_consts: Seq<u32>,
    pub mat_textures: Seq<MaterialTextureEntry>,
    pub mat_unknown3s: Seq<MaterialUnknown3>,
    pub mat_unknown4s: Seq<i32>,
}

impl View for Matlib {
    type V = MatlibView;

    open spec fn view(&self) -> MatlibView {
        MatlibView {
            materials: self.materials@,
            mat_unk1s: self.mat_unk1s@.map_values(|a: [u8; 16]| a@),
            mat_consts: self.mat_consts@,
            mat_textures: self.mat_textures@,
            mat_unknown3s: self.mat_unknown3s@,
            mat_unknown4s: self.mat_unknown4s@,
        }
    }
}

/// The `usize` that `x as usize` gives.
pub open spec fn usize_of_i16(x: i16) -> int {
    if x >= 0 {
        x as int
    } else {
        x + usize::MAX + 1
    }
}

/// `x as usize`, written without a cast of a negative number.
pub fn i16_as_usize(x: i16) -> (r: usize)
    ensures
        r == usize_of_i16(x),
{
    if x >= 0 {
        x as usize
    } else {
        let m = -(x + 1);
        usize::MAX - (m as usize)
    }
}

/// `material_parse` as a value.
pub open spec fn material_parser() -> spec_fn(Seq<u8>) -> Result<Material, VolitionError> {
    |b: Seq<u8>| material_parse(b)
}

/// `unknown3_parse` as a value.
pub open spec fn unknown3_parser() -> spec_fn(Seq<u8>) -> Result<MaterialUnknown3, VolitionError> {
    |b: Seq<u8>| unknown3_parse(b)
}

/// The offset after the unknown 6-byte records of the first `k` materials, each
/// group 4-aligned; `None` where the offset overflows.
pub open spec fn skip_unknowns(off: int, ms: Seq<Material>, k: nat) -> Option<int>
    decreases k,
{
    if k == 0 {
        Some(off)
    } else {
        match skip_unknowns(off, ms, (k - 1) as nat) {
            None => None,
            Some(o) => {
                let a = round_up(o, 4);
                let extra = usize_of_i16(ms[k - 1].num_unknown) * 6;
                if a > usize::MAX || extra > usize::MAX || a + extra > usize::MAX {
                    None
                } else {
                    Some(a + extra)
                }
            },
        }
    }
}

/// How the unknown records after the materials are skipped: nothing is
/// skipped for no material; for each further material the offset is first
/// brought to the next multiple of 4 (at most 3 bytes on) and then moves past
/// its `num_unknown` records of 6 bytes each (the count taken as `usize`).
pub proof fn lemma_skip_unknowns_step(off: int, ms: Seq<Material>, k: nat)
    requires
        k < ms.len(),
        0 <= off,
    ensures
        skip_unknowns(off, ms, 0) == Some(off),
        skip_unknowns(off, ms, k + 1) matches Some(o2) ==> (skip_unknowns(off, ms, k) matches Some(o) && {
            let a = o2 - 6 * usize_of_i16(ms[k as int].num_unknown);
            &&& a % 4 == 0
            &&& o <= a < o + 4
        }),
        skip_unknowns(off, ms, k) matches Some(o) ==> {
            let a = o + (4 - o % 4) % 4;
            let o2 = a + 6 * usize_of_i16(ms[k as int].num_unknown);
            o2 <= usize::MAX ==> skip_unknowns(off, ms, k + 1) == Some(o2)
        },
        ms[k as int].num_unknown >= 0 ==> usize_of_i16(ms[k as int].num_unknown) == ms[k as int].num_unknown,
{
    lemma_skip_unknowns_nonneg(off, ms, k);
    if let Some(o) = skip_unknowns(off, ms, k) {
        lemma_round_up(o, 4);
        let r = round_up(o, 4);
        assert(r == o + (4 - o % 4) % 4) by {
            if o % 4 != 0 {
                assert((4 - o % 4) % 4 == 4 - o % 4);
            }
        }
    }
}

/// The offsets that `skip_unknowns` gives are not negative.
proof fn lemma_skip_unknowns_nonneg(off: int, ms: Seq<Material>, k: nat)
    requires
        0 <= off,
    ensures
        skip_unknowns(off, ms, k) matches Some(o) ==> 0 <= o,
    decreases k,
{
    if k > 0 {
        lemma_skip_unknowns_nonneg(off, ms, (k - 1) as nat);
        if let Some(o) = skip_unknowns(off, ms, (k - 1) as nat) {
            lemma_round_up(o, 4);
        }
    }
}

/// The first `n` 16-byte chunks from `off`; `None` where one runs past the end.
pub open spec fn raw_chunks(buf: Seq<u8>, off: int, n: nat) -> Option<Seq<Seq<u8>>>
    decreases n,
{
    if n == 0 {
        Some(Seq::empty())
    } else {
        match raw_chunks(buf, off, (n - 1) as nat) {
            None => None,
            Some(cs) => {
                let o = off + 16 * (n - 1);
                if o + 16 > buf.len() {
                    None
                } else {
                    Some(cs.push(buf.subrange(o, o + 16)))
                }
            },
        }
    }
}

/// The first `n` shader constants from `off`, each a sensible float.
pub open spec fn consts_parse(buf: Seq<u8>, off: int, n: nat) -> Parsed<Seq<u32>>
    decreases n,
{
    if n == 0 {
        Parsed::Done(Seq::empty(), off)
    } else {
        match consts_parse(buf, off, (n - 1) as nat) {
            Parsed::Done(cs, o) => if o + 4 > buf.len() {
                Parsed::Panic
            } else if is_nonsensical_float(le_u32(buf, o)) {
                Parsed::Failed(VolitionError::NonsensicalFloat { field: "Material constant", got: le_u32(buf, o) }, o)
            } else {
                Parsed::Done(cs.push(le_u32(buf, o)), o + 4)
            },
            Parsed::Failed(e, o) => Parsed::Failed(e, o),
            Parsed::Panic => Parsed::Panic,
        }
    }
}

/// Why texture slot `i` of a material with `num_textures` textures is wrong, if it is.
pub open spec fn slot_problem(e: MaterialTextureEntry, i: int, num_textures: i16) -> Option<&'static str> {
    if i < num_textures && !e.spec_is_valid() {
        Some("Found invalid MaterialTextureEntry in used range")
    } else if i >= num_textures && !e.spec_is_placeholder() {
        Some("Found non-placeholder MaterialTextureEntry in unused range")
    } else {
        None
    }
}

/// The first `i` texture slots of a material: used slots must be valid, the
/// others placeholders.
pub open spec fn slots_parse(buf: Seq<u8>, off: int, num_textures: i16, i: nat) -> Parsed<Seq<MaterialTextureEntry>>
    decreases i,
{
    if i == 0 {
        Parsed::Done(Seq::empty(), off)
    } else {
        match slots_parse(buf, off, num_textures, (i - 1) as nat) {
            Parsed::Done(es, o) => if o > buf.len() {
                Parsed::Panic
            } else {
                match texture_entry_parse(buf.skip(o)) {
                    Err(e) => Parsed::Failed(e, o),
                    Ok(e) => match slot_problem(e, i - 1, num_textures) {
                        Some(d) => Parsed::Failed(VolitionError::UnexpectedValue { desc: d, got: le_i32(buf, o) }, o),
                        None => Parsed::Done(es.push(e), o + MaterialTextureEntry::SIZE),
                    },
                }
            },
            Parsed::Failed(e, o) => Parsed::Failed(e, o),
            Parsed::Panic => Parsed::Panic,
        }
    }
}

/// The 16 texture slots of each of the first `k` materials.
pub open spec fn textures_parse(buf: Seq<u8>, off: int, ms: Seq<Material>, k: nat) -> Parsed<Seq<MaterialTextureEntry>>
    decreases k,
{
    if k == 0 {
        Parsed::Done(Seq::empty(), off)
    } else {
        match textures_parse(buf, off, ms, (k - 1) as nat) {
            Parsed::Done(ts, o) => match slots_parse(buf, o, ms[k - 1].num_textures, 16) {
                Parsed::Done(es, o2) => Parsed::Done(ts + es, o2),
                Parsed::Failed(e, o) => Parsed::Failed(e, o),
                Parsed::Panic => Parsed::Panic,
            },
            Parsed::Failed(e, o) => Parsed::Failed(e, o),
            Parsed::Panic => Parsed::Panic,
        }
    }
}

/// The first `n` unknown-4 values from `off`, each at most `MAX_UKNOWN4_VALUE`.
pub open spec fn unk4_values(buf: Seq<u8>, off: int, n: nat) -> Parsed<Seq<i32>>
    decreases n,
{
    if n == 0 {
        Parsed::Done(Seq::empty(), off)
    } else {
        match unk4_values(buf, off, (n - 1) as nat) {
            Parsed::Done(vs, o) => if o + 4 > buf.len() {
                Parsed::Panic
            } else if usize_of_i32(le_i32(buf, o)) > MAX_UKNOWN4_VALUE {
                Parsed::Failed(
                    VolitionError::ValueTooHigh {
                        field: "Material unk4",
                        max: MAX_UKNOWN4_VALUE,
                        got: usize_of_i32(le_i32(buf, o)) as usize,
                    },
                    o,
                )
            } else {
                Parsed::Done(vs.push(le_i32(buf, o)), o + 4)
            },
            Parsed::Failed(e, o) => Parsed::Failed(e, o),
            Parsed::Panic => Parsed::Panic,
        }
    }
}

/// The unknown-4 values of each of the first `k` unknown-3 records.
pub open spec fn unknown4s_parse(buf: Seq<u8>, off: int, us: Seq<MaterialUnknown3>, k: nat) -> Parsed<Seq<i32>>
    decreases k,
{
    if k == 0 {
        Parsed::Done(Seq::empty(), off)
    } else {
        match unknown4s_parse(buf, off, us, (k - 1) as nat) {
            Parsed::Done(vs, o) => match unk4_values(buf, o, us[k - 1].num_mat_unk4 as nat) {
                Parsed::Done(ws, o2) => Parsed::Done(vs + ws, o2),
                Parsed::Failed(e, o) => Parsed::Failed(e, o),
                Parsed::Panic => Parsed::Panic,
            },
            Parsed::Failed(e, o) => Parsed::Failed(e, o),
            Parsed::Panic => Parsed::Panic,
        }
    }
}

/// The part of the library after the material block header and the materials.
pub open spec fn matlib_tail_parse(buf: Seq<u8>, o2: int, mb: MaterialBlock, ms: Seq<Material>) -> Parsed<MatlibView> {
    match skip_unknowns(o2, ms, ms.len()) {
        None => Parsed::Panic,
        Some(o3) => match raw_chunks(buf, o3, mb.num_materials as nat) {
            None => Parsed::Panic,
            Some(unk1s) => {
                let o4 = o3 + 16 * mb.num_materials;
                if round_up(o4, 16) > usize::MAX {
                    Parsed::Panic
                } else {
                    match consts_parse(buf, round_up(o4, 16), mb.num_shader_consts as nat) {
                        Parsed::Done(consts, o5) => match textures_parse(buf, o5, ms, ms.len()) {
                            Parsed::Done(textures, o6) => match repeat_parse(
                                buf,
                                o6,
                                mb.num_mat_unknown3 as nat,
                                MaterialUnknown3::SIZE as int,
                                unknown3_parser(),
                            ) {
                                Parsed::Done(u3s, o7) => match unknown4s_parse(buf, o7, u3s, u3s.len()) {
                                    Parsed::Done(u4s, o8) => Parsed::Done(
                                        MatlibView {
                                            materials: ms,
                                            mat_unk1s: unk1s,
                                            mat_consts: consts,
                                            mat_textures: textures,
                                            mat_unknown3s: u3s,
                                            mat_unknown4s: u4s,
                                        },
                                        o8,
                                    ),
                                    Parsed::Failed(e, o) => Parsed::Failed(e, o),
                                    Parsed::Panic => Parsed::Panic,
                                },
                                Parsed::Failed(e, o) => Parsed::Failed(e, o),
                                Parsed::Panic => Parsed::Panic,
                            },
                            Parsed::Failed(e, o) => Parsed::Failed(e, o),
                            Parsed::Panic => Parsed::Panic,
                        },
                        Parsed::Failed(e, o) => Parsed::Failed(e, o),
                        Parsed::Panic => Parsed::Panic,
                    }
                }
            },
        },
    }
}

/// Records read one after another: record `j` is parsed at `off + size * j`.
proof fn lemma_repeat_parse_at<T>(buf: Seq<u8>, off: int, n: nat, size: int, parse: spec_fn(Seq<u8>) -> Result<T, VolitionError>)
    ensures
        repeat_parse(buf, off, n, size, parse) matches Parsed::Done(items, o) ==> {
            &&& items.len() == n
            &&& o == off + size * n
            &&& forall|j: int| 0 <= j < n ==> parse(buf.skip(off + size * j)) == Ok::<T, VolitionError>(#[trigger] items[j])
        },
    decreases n,
{
    if n > 0 {
        lemma_repeat_parse_at(buf, off, (n - 1) as nat, size, parse);
        if let Parsed::Done(items, o) = repeat_parse(buf, off, n, size, parse) {
            let prev = repeat_parse(buf, off, (n - 1) as nat, size, parse)->Done_0;
            assert(items == prev.push(items[n - 1]));
            assert forall|j: int| 0 <= j < n implies parse(buf.skip(off + size * j)) == Ok::<T, VolitionError>(
                #[trigger] items[j],
            ) by {
                if j < n - 1 {
                    assert(items[j] == prev[j]);
                } else {
                    assert(size * j == size * (n - 1));
                }
            }
            assert(size * n == size * (n - 1) + size) by (nonlinear_arith);
        }
    }
}

/// Chunk `j` is the 16 bytes at `off + 16 * j`.
proof fn lemma_raw_chunks_at(buf: Seq<u8>, off: int, n: nat)
    ensures
        raw_chunks(buf, off, n) matches Some(cs) ==> cs.len() == n && forall|j: int|
            0 <= j < n ==> #[trigger] cs[j] == buf.subrange(off + 16 * j, off + 16 * j + 16),
    decreases n,
{
    if n > 0 {
        lemma_raw_chunks_at(buf, off, (n - 1) as nat);
    }
}

/// Constant `j` is the 32-bit word at `off + 4 * j`; reading ends after them.
proof fn lemma_consts_at(buf: Seq<u8>, off: int, n: nat)
    ensures
        consts_parse(buf, off, n) matches Parsed::Done(cs, o) ==> {
            &&& cs.len() == n
            &&& o == off + 4 * n
            &&& forall|j: int| 0 <= j < n ==> #[trigger] cs[j] == le_u32(buf, off + 4 * j)
        },
    decreases n,
{
    if n > 0 {
        lemma_consts_at(buf, off, (n - 1) as nat);
    }
}

/// Slot `j` of a material is the index and flags at `off + 4 * j`.
proof fn lemma_slots_at(buf: Seq<u8>, off: int, nt: i16, n: nat)
    requires
        0 <= off,
    ensures
        slots_parse(buf, off, nt, n) matches Parsed::Done(es, o) ==> {
            &&& es.len() == n
            &&& o == off + 4 * n
            &&& forall|j: int|
                0 <= j < n ==> #[trigger] es[j] == (MaterialTextureEntry {
                    index: le_i16(buf, off + 4 * j),
                    flags: le_i16(buf, off + 4 * j + 2),
                })
        },
    decreases n,
{
    if n > 0 {
        lemma_slots_at(buf, off, nt, (n - 1) as nat);
        if let Parsed::Done(es0, o0) = slots_parse(buf, off, nt, (n - 1) as nat) {
            if o0 <= buf.len() {
                let b = buf.skip(o0);
                if b.len() >= MaterialTextureEntry::SIZE {
                    assert(le_i16(b, 0) == le_i16(buf, o0));
                    assert(le_i16(b, 2) == le_i16(buf, o0 + 2));
                }
            }
        }
    }
}

/// The 16 slots of material `i` are the 64 bytes at `off + 64 * i`.
proof fn lemma_textures_at(buf: Seq<u8>, off: int, ms: Seq<Material>, k: nat)
    requires
        0 <= off,
    ensures
        textures_parse(buf, off, ms, k) matches Parsed::Done(ts, o) ==> {
            &&& ts.len() == 16 * k
            &&& o == off + 64 * k
            &&& forall|j: int|
                0 <= j < 16 * k ==> #[trigger] ts[j] == (MaterialTextureEntry {
                    index: le_i16(buf, off + 4 * j),
                    flags: le_i16(buf, off + 4 * j + 2),
                })
        },
    decreases k,
{
    if k > 0 {
        lemma_textures_at(buf, off, ms, (k - 1) as nat);
        if let Parsed::Done(ts0, o0) = textures_parse(buf, off, ms, (k - 1) as nat) {
            lemma_slots_at(buf, o0, ms[k - 1].num_textures, 16);
            if let Parsed::Done(ts, o) = textures_parse(buf, off, ms, k) {
                let es = slots_parse(buf, o0, ms[k - 1].num_textures, 16)->Done_0;
                assert(ts == ts0 + es);
                assert forall|j: int| 0 <= j < 16 * k implies #[trigger] ts[j] == (MaterialTextureEntry {
                    index: le_i16(buf, off + 4 * j),
                    flags: le_i16(buf, off + 4 * j + 2),
                }) by {
                    if j >= 16 * (k - 1) {
                        assert(ts[j] == es[j - 16 * (k - 1)]);
                        assert(o0 + 4 * (j - 16 * (k - 1)) == off + 4 * j);
                    } else {
                        assert(ts[j] == ts0[j]);
                    }
                }
            }
        }
    }
}

/// The unknown-4 values of one record are the 32-bit words at `off + 4 * j`.
proof fn lemma_unk4_values_at(buf: Seq<u8>, off: int, n: nat)
    ensures
        unk4_values(buf, off, n) matches Parsed::Done(vs, o) ==> {
            &&& vs.len() == n
            &&& o == off + 4 * n
            &&& forall|j: int| 0 <= j < n ==> #[trigger] vs[j] == le_i32(buf, off + 4 * j)
        },
    decreases n,
{
    if n > 0 {
        lemma_unk4_values_at(buf, off, (n - 1) as nat);
    }
}

/// All unknown-4 values, record after record, are the 32-bit words from `off` on.
proof fn lemma_unknown4s_at(buf: Seq<u8>, off: int, us: Seq<MaterialUnknown3>, k: nat)
    ensures
        unknown4s_parse(buf, off, us, k) matches Parsed::Done(vs, o) ==> {
            &&& o == off + 4 * vs.len()
            &&& forall|j: int| 0 <= j < vs.len() ==> #[trigger] vs[j] == le_i32(buf, off + 4 * j)
        },
    decreases k,
{
    if k > 0 {
        lemma_unknown4s_at(buf, off, us, (k - 1) as nat);
        if let Parsed::Done(vs0, o0) = unknown4s_parse(buf, off, us, (k - 1) as nat) {
            lemma_unk4_values_at(buf, o0, us[k - 1].num_mat_unk4 as nat);
            if let Parsed::Done(vs, o) = unknown4s_parse(buf, off, us, k) {
                let ws = unk4_values(buf, o0, us[k - 1].num_mat_unk4 as nat)->Done_0;
                assert(vs == vs0 + ws);
                assert forall|j: int| 0 <= j < vs.len() implies #[trigger] vs[j] == le_i32(buf, off + 4 * j) by {
                    if j >= vs0.len() {
                        assert(vs[j] == ws[j - vs0.len()]);
                    } else {
                        assert(vs[j] == vs0[j]);
                    }
                }
            }
        }
    }
}

/// What `Matlib::from_data` decodes from `off` in `buf`.
pub open spec fn matlib_parse(buf: Seq<u8>, off: int) -> Parsed<MatlibView> {
    if off > buf.len() {
        Parsed::Panic
    } else {
        match material_block_parse(buf.skip(off)) {
            Err(e) => Parsed::Failed(e, off),
            Ok(mb) => match repeat_parse(
                buf,
                off + MaterialBlock::SIZE,
                mb.num_materials as nat,
                Material::SIZE as int,
                material_parser(),
            ) {
                Parsed::Done(ms, o2) => matlib_tail_parse(buf, o2, mb, ms),
                Parsed::Failed(e, o) => Parsed::Failed(e, o),
                Parsed::Panic => Parsed::Panic,
            },
        }
    }
}

/// Where the material library is read from.  From `off` come the material
/// block header and the materials, `Material::SIZE` bytes each; after the
/// materials' unknown records, one 16-byte chunk per material; from the first
/// multiple of 16 at or after the chunks, the shader constants, 4 bytes each;
/// right after them 16 texture slots of 4 bytes (index, flags) per material;
/// then the unknown-3 records, 16 bytes each, and the unknown-4 values, 4
/// bytes each.  Reading ends after the last value.
pub proof fn lemma_matlib_layout(buf: Seq<u8>, off: int)
    requires
        0 <= off,
    ensures
        matlib_parse(buf, off) matches Parsed::Done(v, end) ==> {
            let n = v.materials.len();
            let o2 = off + MaterialBlock::SIZE + Material::SIZE * n;
            &&& material_block_parse(buf.skip(off)) matches Ok(mb) && mb.num_materials == n
                && mb.num_shader_consts == v.mat_consts.len() && mb.num_mat_unknown3 == v.mat_unknown3s.len()
            &&& forall|j: int|
                0 <= j < n ==> material_parse(buf.skip(off + MaterialBlock::SIZE + Material::SIZE * j)) == Ok::<
                    Material,
                    VolitionError,
                >(#[trigger] v.materials[j])
            &&& skip_unknowns(o2, v.materials, n) matches Some(o3) && {
                let c0 = round_up(o3 + 16 * n, 16);
                let t0 = c0 + 4 * v.mat_consts.len();
                let u0 = t0 + 64 * n;
                let w0 = u0 + 16 * v.mat_unknown3s.len();
                &&& v.mat_unk1s.len() == n
                &&& forall|j: int| 0 <= j < n ==> #[trigger] v.mat_unk1s[j] == buf.subrange(o3 + 16 * j, o3 + 16 * j + 16)
                &&& c0 % 16 == 0 && o3 + 16 * n <= c0 < o3 + 16 * n + 16
                &&& forall|j: int| 0 <= j < v.mat_consts.len() ==> #[trigger] v.mat_consts[j] == le_u32(buf, c0 + 4 * j)
                &&& v.mat_textures.len() == 16 * n
                &&& forall|j: int|
                    0 <= j < 16 * n ==> #[trigger] v.mat_textures[j] == (MaterialTextureEntry {
                        index: le_i16(buf, t0 + 4 * j),
                        flags: le_i16(buf, t0 + 4 * j + 2),
                    })
                &&& forall|j: int|
                    0 <= j < v.mat_unknown3s.len() ==> unknown3_parse(buf.skip(u0 + 16 * j)) == Ok::<
                        MaterialUnknown3,
                        VolitionError,
                    >(#[trigger] v.mat_unknown3s[j])
                &&& forall|j: int| 0 <= j < v.mat_unknown4s.len() ==> #[trigger] v.mat_unknown4s[j] == le_i32(buf, w0 + 4 * j)
                &&& end == w0 + 4 * v.mat_unknown4s.len()
            }
        },
{
    if let Parsed::Done(v, end) = matlib_parse(buf, off) {
        let mb = material_block_parse(buf.skip(off))->Ok_0;
        let o1 = off + MaterialBlock::SIZE;
        lemma_repeat_parse_at(buf, o1, mb.num_materials as nat, Material::SIZE as int, material_parser());
        let ms = repeat_parse(buf, o1, mb.num_materials as nat, Material::SIZE as int, material_parser())->Done_0;
        let o2 = repeat_parse(buf, o1, mb.num_materials as nat, Material::SIZE as int, material_parser())->Done_1;
        let n = ms.len();
        assert(v.materials == ms);
        lemma_skip_unknowns_nonneg(o2, ms, n);
        let o3 = skip_unknowns(o2, ms, n)->Some_0;
        lemma_raw_chunks_at(buf, o3, mb.num_materials as nat);
        let o4 = o3 + 16 * mb.num_materials;
        lemma_round_up(o4, 16);
        let c0 = round_up(o4, 16);
        lemma_consts_at(buf, c0, mb.num_shader_consts as nat);
        let o5 = consts_parse(buf, c0, mb.num_shader_consts as nat)->Done_1;
        lemma_textures_at(buf, o5, ms, ms.len());
        let o6 = textures_parse(buf, o5, ms, ms.len())->Done_1;
        lemma_repeat_parse_at(buf, o6, mb.num_mat_unknown3 as nat, MaterialUnknown3::SIZE as int, unknown3_parser());
        let u3s = repeat_parse(buf, o6, mb.num_mat_unknown3 as nat, MaterialUnknown3::SIZE as int, unknown3_parser())->Done_0;
        let o7 = repeat_parse(buf, o6, mb.num_mat_unknown3 as nat, MaterialUnknown3::SIZE as int, unknown3_parser())->Done_1;
        lemma_unknown4s_at(buf, o7, u3s, u3s.len());
    }
}

// ---------------------------------------------------------------- Matlib, implemented

proof fn lemma_consts_stops(buf: Seq<u8>, off: int, k: nat, n: nat)
    requires
        k <= n,
        !(consts_parse(buf, off, k) is Done),
    ensures
        consts_parse(buf, off, n) == consts_parse(buf, off, k),
    decreases n - k,
{
    if k < n {
        lemma_consts_stops(buf, off, k, (n - 1) as nat);
    }
}

proof fn lemma_slots_stops(buf: Seq<u8>, off: int, nt: i16, k: nat, n: nat)
    requires
        k <= n,
        !(slots_parse(buf, off, nt, k) is Done),
    ensures
        slots_parse(buf, off, nt, n) == slots_parse(buf, off, nt, k),
    decreases n - k,
{
    if k < n {
        lemma_slots_stops(buf, off, nt, k, (n - 1) as nat);
    }
}

proof fn lemma_textures_stops(buf: Seq<u8>, off: int, ms: Seq<Material>, k: nat, n: nat)
    requires
        k <= n,
        !(textures_parse(buf, off, ms, k) is Done),
    ensures
        textures_parse(buf, off, ms, n) == textures_parse(buf, off, ms, k),
    decreases n - k,
{
    if k < n {
        lemma_textures_stops(buf, off, ms, k, (n - 1) as nat);
    }
}

proof fn lemma_unk4_values_stops(buf: Seq<u8>, off: int, k: nat, n: nat)
    requires
        k <= n,
        !(unk4_values(buf, off, k) is Done),
    ensures
        unk4_values(buf, off, n) == unk4_values(buf, off, k),
    decreases n - k,
{
    if k < n {
        lemma_unk4_values_stops(buf, off, k, (n - 1) as nat);
    }
}

proof fn lemma_unknown4s_stops(buf: Seq<u8>, off: int, us: Seq<MaterialUnknown3>, k: nat, n: nat)
    requires
        k <= n,
        !(unknown4s_parse(buf, off, us, k) is Done),
    ensures
        unknown4s_parse(buf, off, us, n) == unknown4s_parse(buf, off, us, k),
    decreases n - k,
{
    if k < n {
        lemma_unknown4s_stops(buf, off, us, k, (n - 1) as nat);
    }
}

proof fn lemma_skip_unknowns_stops(off: int, ms: Seq<Material>, k: nat, n: nat)
    requires
        k <= n,
        skip_unknowns(off, ms, k) is None,
    ensures
        skip_unknowns(off, ms, n) is None,
    decreases n - k,
{
    if k < n {
        lemma_skip_unknowns_stops(off, ms, k, (n - 1) as nat);
    }
}

proof fn lemma_raw_chunks_stops(buf: Seq<u8>, off: int, k: nat, n: nat)
    requires
        k <= n,
        raw_chunks(buf, off, k) is None,
    ensures
        raw_chunks(buf, off, n) is None,
    decreases n - k,
{
    if k < n {
        lemma_raw_chunks_stops(buf, off, k, (n - 1) as nat);
    }
}

/// The materials at `*data_offset`.
fn read_materials(buf: &[u8], data_offset: &mut usize, n: usize) -> (r: Result<Vec<Material>, VolitionError>)
    requires
        !(repeat_parse(buf@, *old(data_offset) as int, n as nat, Material::SIZE as int, material_parser()) is Panic),
    ensures
        match repeat_parse(buf@, *old(data_offset) as int, n as nat, Material::SIZE as int, material_parser()) {
            Parsed::Done(items, o) => r matches Ok(v) && v@ == items && *final(data_offset) == o,
            Parsed::Failed(e, o) => r == Err::<Vec<Material>, VolitionError>(e) && *final(data_offset) == o,
            Parsed::Panic => false,
        },
{
    let ghost start = *data_offset as int;
    let ghost parse = material_parser();
    let mut items: Vec<Material> = Vec::new();
    let mut i: usize = 0;
    while i < n
        invariant
            i <= n,
            parse == material_parser(),
            start == *old(data_offset) as int,
            !(repeat_parse(buf@, start, n as nat, Material::SIZE as int, parse) is Panic),
            repeat_parse(buf@, start, i as nat, Material::SIZE as int, parse) == Parsed::Done(items@, *data_offset as int),
        decreases n - i,
    {
        if *data_offset > buf.len() {
            proof {
                lemma_repeat_parse_stops(buf@, start, (i + 1) as nat, n as nat, Material::SIZE as int, parse);
            }
            assert(false);
        }
        let rest = &buf[*data_offset..buf.len()];
        assert(rest@ == buf@.skip(*data_offset as int));
        assert(parse(rest@) == material_parse(rest@));
        match Material::from_data(rest) {
            Ok(h) => {
                items.push(h);
                *data_offset = *data_offset + Material::SIZE;
            },
            Err(e) => {
                proof {
                    assert(repeat_parse(buf@, start, (i + 1) as nat, Material::SIZE as int, parse)
                        == Parsed::<Seq<Material>>::Failed(e, *data_offset as int));
                    lemma_repeat_parse_stops(buf@, start, (i + 1) as nat, n as nat, Material::SIZE as int, parse);
                }
                return Err(e);
            },
        }
        i = i + 1;
    }
    Ok(items)
}

/// The unknown-3 records at `*data_offset`.
fn read_unknown3s(buf: &[u8], data_offset: &mut usize, n: usize) -> (r: Result<Vec<MaterialUnknown3>, VolitionError>)
    requires
        !(repeat_parse(buf@, *old(data_offset) as int, n as nat, MaterialUnknown3::SIZE as int, unknown3_parser()) is Panic),
    ensures
        match repeat_parse(buf@, *old(data_offset) as int, n as nat, MaterialUnknown3::SIZE as int, unknown3_parser()) {
            Parsed::Done(items, o) => r matches Ok(v) && v@ == items && *final(data_offset) == o,
            Parsed::Failed(e, o) => r == Err::<Vec<MaterialUnknown3>, VolitionError>(e) && *final(data_offset) == o,
            Parsed::Panic => false,
        },
{
    let ghost start = *data_offset as int;
    let ghost parse = unknown3_parser();
    let mut items: Vec<MaterialUnknown3> = Vec::new();
    let mut i: usize = 0;
    while i < n
        invariant
            i <= n,
            parse == unknown3_parser(),
            start == *old(data_offset) as int,
            !(repeat_parse(buf@, start, n as nat, MaterialUnknown3::SIZE as int, parse) is Panic),
            repeat_parse(buf@, start, i as nat, MaterialUnknown3::SIZE as int, parse) == Parsed::Done(items@, *data_offset as int),
        decreases n - i,
    {
        if *data_offset > buf.len() {
            proof {
                lemma_repeat_parse_stops(buf@, start, (i + 1) as nat, n as nat, MaterialUnknown3::SIZE as int, parse);
            }
            assert(false);
        }
        let rest = &buf[*data_offset..buf.len()];
        assert(rest@ == buf@.skip(*data_offset as int));
        assert(parse(rest@) == unknown3_parse(rest@));
        match MaterialUnknown3::from_data(rest) {
            Ok(h) => {
                items.push(h);
                *data_offset = *data_offset + MaterialUnknown3::SIZE;
            },
            Err(e) => {
                proof {
                    assert(repeat_parse(buf@, start, (i + 1) as nat, MaterialUnknown3::SIZE as int, parse)
                        == Parsed::<Seq<MaterialUnknown3>>::Failed(e, *data_offset as int));
                    lemma_repeat_parse_stops(buf@, start, (i + 1) as nat, n as nat, MaterialUnknown3::SIZE as int, parse);
                }
                return Err(e);
            },
        }
        i = i + 1;
    }
    Ok(items)
}

/// Skips the unknown 6-byte records of every material.
fn skip_material_unknowns(data_offset: &mut usize, materials: &Vec<Material>)
    requires
        skip_unknowns(*old(data_offset) as int, materials@, materials@.len()) is Some,
    ensures
        *final(data_offset) == skip_unknowns(*old(data_offset) as int, materials@, materials@.len())->Some_0,
{
    let ghost start = *data_offset as int;
    let mut i: usize = 0;
    while i < materials.len()
        invariant
            i <= materials@.len(),
            start == *old(data_offset) as int,
            skip_unknowns(start, materials@, materials@.len()) is Some,
            skip_unknowns(start, materials@, i as nat) == Some(*data_offset as int),
        decreases materials@.len() - i,
    {
        proof {
            if skip_unknowns(start, materials@, (i + 1) as nat) is None {
                lemma_skip_unknowns_stops(start, materials@, (i + 1) as nat, materials@.len());
            }
        }
        align(data_offset, 4);
        let extra = i16_as_usize(materials[i].num_unknown) * 6;
        *data_offset = *data_offset + extra;
        i = i + 1;
    }
}

/// The view of 16-byte chunks.
pub open spec fn chunks_view(v: Seq<[u8; 16]>) -> Seq<Seq<u8>> {
    v.map_values(|a: [u8; 16]| a@)
}

/// The `n` 16-byte chunks at `*data_offset`.
fn read_chunks(buf: &[u8], data_offset: &mut usize, n: usize) -> (r: Vec<[u8; 16]>)
    requires
        raw_chunks(buf@, *old(data_offset) as int, n as nat) is Some,
    ensures
        chunks_view(r@) == raw_chunks(buf@, *old(data_offset) as int, n as nat)->Some_0,
        *final(data_offset) == *old(data_offset) + 16 * n,
{
    let ghost start = *data_offset as int;
    let mut chunks: Vec<[u8; 16]> = Vec::new();
    let mut i: usize = 0;
    assert(chunks_view(chunks@) =~= Seq::<Seq<u8>>::empty());
    while i < n
        invariant
            i <= n,
            start == *old(data_offset) as int,
            raw_chunks(buf@, start, n as nat) is Some,
            raw_chunks(buf@, start, i as nat) == Some(chunks_view(chunks@)),
            *data_offset == start + 16 * i,
        decreases n - i,
    {
        proof {
            if raw_chunks(buf@, start, (i + 1) as nat) is None {
                lemma_raw_chunks_stops(buf@, start, (i + 1) as nat, n as nat);
            }
        }
        let ghost old_chunks = chunks@;
        let c: [u8; 16] = read_bytes(buf, *data_offset);
        chunks.push(c);
        assert(chunks_view(chunks@) =~= chunks_view(old_chunks).push(c@));
        assert(*data_offset + 16 <= buf.len());
        *data_offset = *data_offset + 16;
        i = i + 1;
    }
    chunks
}

/// The `n` shader constants at `*data_offset`.
fn read_consts(buf: &[u8], data_offset: &mut usize, n: usize) -> (r: Result<Vec<u32>, VolitionError>)
    requires
        !(consts_parse(buf@, *old(data_offset) as int, n as nat) is Panic),
    ensures
        match consts_parse(buf@, *old(data_offset) as int, n as nat) {
            Parsed::Done(items, o) => r matches Ok(v) && v@ == items && *final(data_offset) == o,
            Parsed::Failed(e, o) => r == Err::<Vec<u32>, VolitionError>(e) && *final(data_offset) == o,
            Parsed::Panic => false,
        },
{
    let ghost start = *data_offset as int;
    let mut consts: Vec<u32> = Vec::new();
    let mut i: usize = 0;
    while i < n
        invariant
            i <= n,
            start == *old(data_offset) as int,
            !(consts_parse(buf@, start, n as nat) is Panic),
            consts_parse(buf@, start, i as nat) == Parsed::Done(consts@, *data_offset as int),
        decreases n - i,
    {
        proof {
            if !(consts_parse(buf@, start, (i + 1) as nat) is Done) {
                lemma_consts_stops(buf@, start, (i + 1) as nat, n as nat);
            }
        }
        let value = read_u32_le(buf, *data_offset);
        match validate_f32(value, "Material constant") {
            Ok(()) => {},
            Err(e) => {
                return Err(e);
            },
        }
        consts.push(value);
        assert(*data_offset + 4 <= buf.len());
        *data_offset = *data_offset + 4;
        i = i + 1;
    }
    Ok(consts)
}

/// The 16 texture slots of one material at `*data_offset`.
fn read_slots(buf: &[u8], data_offset: &mut usize, num_textures: i16) -> (r: Result<Vec<MaterialTextureEntry>, VolitionError>)
    requires
        !(slots_parse(buf@, *old(data_offset) as int, num_textures, 16) is Panic),
    ensures
        match slots_parse(buf@, *old(data_offset) as int, num_textures, 16) {
            Parsed::Done(items, o) => r matches Ok(v) && v@ == items && *final(data_offset) == o,
            Parsed::Failed(e, o) => r == Err::<Vec<MaterialTextureEntry>, VolitionError>(e) && *final(data_offset) == o,
            Parsed::Panic => false,
        },
{
    let ghost start = *data_offset as int;
    let mut entries: Vec<MaterialTextureEntry> = Vec::new();
    let mut i: i16 = 0;
    while i < 16
        invariant
            0 <= i <= 16,
            start == *old(data_offset) as int,
            !(slots_parse(buf@, start, num_textures, 16) is Panic),
            slots_parse(buf@, start, num_textures, i as nat) == Parsed::Done(entries@, *data_offset as int),
        decreases 16 - i,
    {
        proof {
            if !(slots_parse(buf@, start, num_textures, (i + 1) as nat) is Done) {
                lemma_slots_stops(buf@, start, num_textures, (i + 1) as nat, 16);
            }
        }
        if *data_offset > buf.len() {
            assert(false);
        }
        let rest = &buf[*data_offset..buf.len()];
        assert(rest@ == buf@.skip(*data_offset as int));
        let entry = match MaterialTextureEntry::from_data(rest) {
            Ok(e) => e,
            Err(e) => {
                return Err(e);
            },
        };
        if i < num_textures && !entry.is_valid() {
            let got = read_i32_le(buf, *data_offset);
            return Err(VolitionError::UnexpectedValue { desc: "Found invalid MaterialTextureEntry in used range", got });
        } else if i >= num_textures && !entry.is_placeholder() {
            let got = read_i32_le(buf, *data_offset);
            return Err(
                VolitionError::UnexpectedValue { desc: "Found non-placeholder MaterialTextureEntry in unused range", got },
            );
        }
        entries.push(entry);
        *data_offset = *data_offset + MaterialTextureEntry::SIZE;
        i = i + 1;
    }
    Ok(entries)
}

/// The texture slots of every material at `*data_offset`.
fn read_textures(buf: &[u8], data_offset: &mut usize, materials: &Vec<Material>) -> (r: Result<Vec<MaterialTextureEntry>, VolitionError>)
    requires
        !(textures_parse(buf@, *old(data_offset) as int, materials@, materials@.len()) is Panic),
    ensures
        match textures_parse(buf@, *old(data_offset) as int, materials@, materials@.len()) {
            Parsed::Done(items, o) => r matches Ok(v) && v@ == items && *final(data_offset) == o,
            Parsed::Failed(e, o) => r == Err::<Vec<MaterialTextureEntry>, VolitionError>(e) && *final(data_offset) == o,
            Parsed::Panic => false,
        },
{
    let ghost start = *data_offset as int;
    let mut textures: Vec<MaterialTextureEntry> = Vec::new();
    let mut k: usize = 0;
    while k < materials.len()
        invariant
            k <= materials@.len(),
            start == *old(data_offset) as int,
            !(textures_parse(buf@, start, materials@, materials@.len()) is Panic),
            textures_parse(buf@, start, materials@, k as nat) == Parsed::Done(textures@, *data_offset as int),
        decreases materials@.len() - k,
    {
        proof {
            if !(textures_parse(buf@, start, materials@, (k + 1) as nat) is Done) {
                lemma_textures_stops(buf@, start, materials@, (k + 1) as nat, materials@.len());
            }
        }
        let mut slots = match read_slots(buf, data_offset, materials[k].num_textures) {
            Ok(s) => s,
            Err(e) => {
                return Err(e);
            },
        };
        let ghost before = textures@;
        textures.append(&mut slots);
        k = k + 1;
    }
    Ok(textures)
}

/// The `n` unknown-4 values at `*data_offset`.
fn read_unk4_values(buf: &[u8], data_offset: &mut usize, n: u16) -> (r: Result<Vec<i32>, VolitionError>)
    requires
        !(unk4_values(buf@, *old(data_offset) as int, n as nat) is Panic),
    ensures
        match unk4_values(buf@, *old(data_offset) as int, n as nat) {
            Parsed::Done(items, o) => r matches Ok(v) && v@ == items && *final(data_offset) == o,
            Parsed::Failed(e, o) => r == Err::<Vec<i32>, VolitionError>(e) && *final(data_offset) == o,
            Parsed::Panic => false,
        },
{
    let ghost start = *data_offset as int;
    let mut values: Vec<i32> = Vec::new();
    let mut i: u16 = 0;
    while i < n
        invariant
            i <= n,
            start == *old(data_offset) as int,
            !(unk4_values(buf@, start, n as nat) is Panic),
            unk4_values(buf@, start, i as nat) == Parsed::Done(values@, *data_offset as int),
        decreases n - i,
    {
        proof {
            if !(unk4_values(buf@, start, (i + 1) as nat) is Done) {
                lemma_unk4_values_stops(buf@, start, (i + 1) as nat, n as nat);
            }
        }
        let value = read_i32_le(buf, *data_offset);
        if i32_as_usize(value) > MAX_UKNOWN4_VALUE {
            return Err(VolitionError::ValueTooHigh {
                field: "Material unk4",
                max: MAX_UKNOWN4_VALUE,
                got: i32_as_usize(value),
            });
        }
        values.push(value);
        assert(*data_offset + 4 <= buf.len());
        *data_offset = *data_offset + 4;
        i = i + 1;
    }
    Ok(values)
}

/// The unknown-4 values of every unknown-3 record at `*data_offset`.
fn read_unknown4s(buf: &[u8], data_offset: &mut usize, us: &Vec<MaterialUnknown3>) -> (r: Result<Vec<i32>, VolitionError>)
    requires
        !(unknown4s_parse(buf@, *old(data_offset) as int, us@, us@.len()) is Panic),
    ensures
        match unknown4s_parse(buf@, *old(data_offset) as int, us@, us@.len()) {
            Parsed::Done(items, o) => r matches Ok(v) && v@ == items && *final(data_offset) == o,
            Parsed::Failed(e, o) => r == Err::<Vec<i32>, VolitionError>(e) && *final(data_offset) == o,
            Parsed::Panic => false,
        },
{
    let ghost start = *data_offset as int;
    let mut values: Vec<i32> = Vec::new();
    let mut k: usize = 0;
    while k < us.len()
        invariant
            k <= us@.len(),
            start == *old(data_offset) as int,
            !(unknown4s_parse(buf@, start, us@, us@.len()) is Panic),
            unknown4s_parse(buf@, start, us@, k as nat) == Parsed::Done(values@, *data_offset as int),
        decreases us@.len() - k,
    {
        proof {
            if !(unknown4s_parse(buf@, start, us@, (k + 1) as nat) is Done) {
                lemma_unknown4s_stops(buf@, start, us@, (k + 1) as nat, us@.len());
            }
        }
        let mut more = match read_unk4_values(buf, data_offset, us[k].num_mat_unk4) {
            Ok(v) => v,
            Err(e) => {
                return Err(e);
            },
        };
        values.append(&mut more);
        k = k + 1;
    }
    Ok(values)
}


impl Matlib {
    /// Decodes the material library at `*data_offset`, moving the offset past
    /// everything that was decoded.
    pub fn from_data(buf: &[u8], data_offset: &mut usize) -> (r: Result<Self, VolitionError>)
        requires
            !(matlib_parse(buf@, *old(data_offset) as int) is Panic),
        ensures
            match matlib_parse(buf@, *old(data_offset) as int) {
                Parsed::Done(v, o) => r matches Ok(m) && m@ == v && *final(data_offset) == o,
                Parsed::Failed(e, o) => r == Err::<Matlib, VolitionError>(e) && *final(data_offset) == o,
                Parsed::Panic => false,
            },
    {
        let ghost start = *data_offset as int;
        let rest = &buf[*data_offset..buf.len()];
        assert(rest@ == buf@.skip(start));
        let material_block = MaterialBlock::from_data(rest)?;
        *data_offset = *data_offset + MaterialBlock::SIZE;

        let num_materials = material_block.num_materials as usize;
        let num_mat_consts = material_block.num_shader_consts as usize;
        let num_mat_unknown3 = material_block.num_mat_unknown3 as usize;

        let ghost o1 = *data_offset as int;
        let materials = read_materials(buf, data_offset, num_materials)?;
        proof {
            lemma_repeat_parse_len(buf@, o1, num_materials as nat, Material::SIZE as int, material_parser());
        }
        let ghost o2 = *data_offset as int;
        assert(matlib_parse(buf@, start) == matlib_tail_parse(buf@, o2, material_block, materials@));

        skip_material_unknowns(data_offset, &materials);
        let ghost o3 = *data_offset as int;

        let mat_unk1s = read_chunks(buf, data_offset, num_materials);

        align(data_offset, 16);

        let mat_consts = read_consts(buf, data_offset, num_mat_consts)?;

        let mat_textures = read_textures(buf, data_offset, &materials)?;

        let ghost o6 = *data_offset as int;
        let mat_unknown3s = read_unknown3s(buf, data_offset, num_mat_unknown3)?;
        proof {
            lemma_repeat_parse_len(buf@, o6, num_mat_unknown3 as nat, MaterialUnknown3::SIZE as int, unknown3_parser());
        }

        let mat_unknown4s = read_unknown4s(buf, data_offset, &mat_unknown3s)?;

        let lib = Self { materials, mat_unk1s, mat_consts, mat_textures, mat_unknown3s, mat_unknown4s };
        assert(lib@.mat_unk1s == chunks_view(lib.mat_unk1s@));
        Ok(lib)
    }
}

} // verus!
