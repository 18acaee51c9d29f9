use vstd::prelude::*;

use crate::error::VolitionError;
use crate::geometry::{quaternion_at, vector_at, Quaternion, Vector};
use crate::material::{matlib_parse, Matlib, MatlibView};
use crate::mesh::{
    lemma_repeat_parse_end_any, lemma_repeat_parse_items, lod_data_parse, lod_mesh_header_parse, lods_view, LodMeshData,
    LodMeshDataView, LodMeshHeader, VertexBuffer,
};
use crate::util::{
    align, lemma_round_up, check_fits_buf, is_first_nul, le_i16, le_i32, le_u16, le_u32, lemma_repeat_parse_stops, read_bytes,
    read_cstr, read_i16_le, read_i32_le, read_u16_le, read_u32_le, repeat_parse, round_up, spec_cstr, Parsed,
};
use vstd::string::StringSliceAdditionalSpecFns;
use vstd::utf8::{decode_utf8, encode_utf8_decode_utf8};

verus! {

pub const MAX_TEXTURES: u16 = 100;
pub const MAX_NAVPOINTS: u16 = 100;
pub const MAX_BONES: u32 = 500;

/// Header of a static mesh (cmesh/smesh), 0x30 bytes on disk.
#[derive(Debug, Clone, Copy, PartialEq, Eq)]
pub struct StaticMeshHeader {
    pub magic: i32,
    pub version: i16,
    pub mesh_flags: i16,
    pub unk_08: i32,
    pub num_textures: u16,
    pub num_navpoints: u16,
    pub unk_10: i32,
    pub bounding_center: Vector,
    /// IEEE-754 bit pattern of the radius.
    pub bounding_radius: u32,
    /// maybe?
    pub num_bones: u32,
    pub unk_28: i32,
    pub unk_2c: i32,
}

/// Navigation reference point, 96 bytes on disk.  Used for IK?
#[derive(Debug, Clone, Copy)]
pub struct StaticMeshNavpoint {
    /// name to reference nav point by
    pub name: [u8; 64],
    /// vid this navp is attached to.
    pub vid: i32,
    /// position of navpoint in object coords
    pub pos: Vector,
    /// quaternion representation of navpoint
    pub orient: Quaternion,
}

/// The contents of a navpoint.
pub struct NavpointView {
    pub name: Seq<u8>,
    pub vid: i32,
    pub pos: Vector,
    pub orient: Quaternion,
}

impl View for StaticMeshNavpoint {
    type V = NavpointView;

    open spec fn view(&self) -> NavpointView {
        NavpointView { name: self.name@, vid: self.vid, pos: self.pos, orient: self.orient }
    }
}

/// What `StaticMeshHeader::from_data` gives for `b`.
pub open spec fn static_mesh_header_parse(b: Seq<u8>) -> Result<StaticMeshHeader, VolitionError> {
    if b.len() < StaticMeshHeader::SIZE {
        Err(VolitionError::BufferTooSmall { for_what: "StaticMeshHeader", need: StaticMeshHeader::SIZE, avail: b.len() as usize })
    } else if le_i32(b, 0) != StaticMeshHeader::SIGNATURE {
        Err(VolitionError::ExpectedExactValue { field: "StaticMesh::magic", expected: StaticMeshHeader::SIGNATURE, got: le_i32(b, 0) })
    } else if le_i16(b, 0x4) != StaticMeshHeader::VERSION {
        Err(VolitionError::UnknownStaticMeshVersion(le_i16(b, 0x4)))
    } else if le_u16(b, 0xc) > MAX_TEXTURES {
        Err(VolitionError::ValueTooHigh { field: "StaticMeshHeader::num_textures", max: MAX_TEXTURES as usize, got: le_u16(b, 0xc) as usize })
    } else if le_u16(b, 0xe) > MAX_NAVPOINTS {
        Err(VolitionError::ValueTooHigh { field: "StaticMeshHeader::num_navpoints", max: MAX_NAVPOINTS as usize, got: le_u16(b, 0xe) as usize })
    } else if le_u32(b, 0x24) > MAX_BONES {
        Err(VolitionError::ValueTooHigh { field: "StaticMeshHeader::num_bones", max: MAX_BONES as usize, got: le_u32(b, 0x24) as usize })
    } else {
        Ok(
            StaticMeshHeader {
                magic: le_i32(b, 0),
                version: le_i16(b, 0x4),
                mesh_flags: le_i16(b, 0x6),
                unk_08: le_i32(b, 0x8),
                num_textures: le_u16(b, 0xc),
                num_navpoints: le_u16(b, 0xe),
                unk_10: le_i32(b, 0x10),
                bounding_center: vector_at(b, 0x14),
                bounding_radius: le_u32(b, 0x20),
                num_bones: le_u32(b, 0x24),
                unk_28: le_i32(b, 0x28),
                unk_2c: le_i32(b, 0x2c),
            },
        )
    }
}

/// What `StaticMeshNavpoint::from_data` gives for `b`.
pub open spec fn navpoint_parse(b: Seq<u8>) -> Result<NavpointView, VolitionError> {
    if b.len() < StaticMeshNavpoint::SIZE {
        Err(VolitionError::BufferTooSmall { for_what: "StaticMeshNavpoint", need: StaticMeshNavpoint::SIZE, avail: b.len() as usize })
    } else {
        Ok(
            NavpointView {
                name: b.subrange(0, 64),
                vid: le_i32(b, 64),
                pos: vector_at(b, 68),
                orient: quaternion_at(b, 80),
            },
        )
    }
}

impl StaticMeshHeader {
    pub const SIGNATURE: i32 = 0x424BD00D;
    pub const VERSION: i16 = 33;
    /// Size on disk.
    pub const SIZE: usize = 0x30;

    /// Decodes the header at the start of `buf`.
    pub fn from_data(buf: &[u8]) -> (r: Result<Self, VolitionError>)
        ensures
            r == static_mesh_header_parse(buf@),
    {
        check_fits_buf(buf, Self::SIZE, "StaticMeshHeader")?;

        let magic = read_i32_le(buf, 0);
        if magic != Self::SIGNATURE {
            return Err(VolitionError::ExpectedExactValue { field: "StaticMesh::magic", expected: Self::SIGNATURE, got: magic });
        }

        let version = read_i16_le(buf, 0x4);
        if version != Self::VERSION {
            return Err(VolitionError::UnknownStaticMeshVersion(version));
        }

        let num_textures = read_u16_le(buf, 0xc);
        if num_textures > MAX_TEXTURES {
            return Err(VolitionError::ValueTooHigh {
                field: "StaticMeshHeader::num_textures",
                max: MAX_TEXTURES as usize,
                got: num_textures as usize,
            });
        }

        let num_navpoints = read_u16_le(buf, 0xe);
        if num_navpoints > MAX_NAVPOINTS {
            return Err(VolitionError::ValueTooHigh {
                field: "StaticMeshHeader::num_navpoints",
                max: MAX_NAVPOINTS as usize,
                got: num_navpoints as usize,
            });
        }

        let num_bones = read_u32_le(buf, 0x24);
        if num_bones > MAX_BONES {
            return Err(VolitionError::ValueTooHigh {
                field: "StaticMeshHeader::num_bones",
                max: MAX_BONES as usize,
                got: num_bones as usize,
            });
        }

        Ok(
            Self {
                magic,
                version,
                mesh_flags: read_i16_le(buf, 0x6),
                unk_08: read_i32_le(buf, 0x8),
                num_textures,
                num_navpoints,
                unk_10: read_i32_le(buf, 0x10),
                bounding_center: Vector::from_le_unsized(&buf[0x14..buf.len()])?,
                bounding_radius: read_u32_le(buf, 0x20),
                num_bones,
                unk_28: read_i32_le(buf, 0x28),
                unk_2c: read_i32_le(buf, 0x2c),
            },
        )
    }
}

impl StaticMeshNavpoint {
    pub const MAX_NAME_LENGTH: usize = 64;
    /// Size on disk.
    pub const SIZE: usize = 96;

    /// Decodes the navpoint at the start of `buf`.
    pub fn from_data(buf: &[u8]) -> (r: Result<Self, VolitionError>)
        ensures
            match navpoint_parse(buf@) {
                Ok(v) => r matches Ok(n) && n@ == v,
                Err(e) => r == Err::<StaticMeshNavpoint, VolitionError>(e),
            },
    {
        check_fits_buf(buf, Self::SIZE, "StaticMeshNavpoint")?;
        Ok(
            Self {
                name: read_bytes(buf, 0x0),
                vid: read_i32_le(buf, Self::MAX_NAME_LENGTH),
                pos: Vector::from_le_unsized(&buf[Self::MAX_NAME_LENGTH + 4..buf.len()])?,
                orient: Quaternion::from_le_unsized(&buf[Self::MAX_NAME_LENGTH + 16..buf.len()])?,
            },
        )
    }

    /// The navpoint's name: the NUL-terminated UTF-8 text of the name field.
    pub fn name(&self) -> (r: Result<&str, VolitionError>)
        ensures
            match spec_cstr(self.name@, 0) {
                Ok(text) => r matches Ok(s) && s.spec_bytes() == text,
                Err(e) => r == Err::<&str, VolitionError>(e),
            },
    {
        read_cstr(self.name.as_slice(), 0)
    }
}

/// `navpoint_parse` as a value.
pub open spec fn navpoint_parser() -> spec_fn(Seq<u8>) -> Result<NavpointView, VolitionError> {
    |b: Seq<u8>| navpoint_parse(b)
}

/// `n` little-endian `i32` values one after another from `off`; `None` when
/// they run past the end of `buf`.
pub open spec fn i32_run(buf: Seq<u8>, off: int, n: nat) -> Option<Seq<i32>> {
    if n > 0 && off + 4 * n > buf.len() {
        None
    } else {
        Some(Seq::new(n, |i: int| le_i32(buf, off + 4 * i)))
    }
}

/// `n` NUL-terminated UTF-8 names one after another from `off`, stopping at the
/// first that cannot be read.
pub open spec fn names_parse(buf: Seq<u8>, off: int, n: nat) -> Parsed<Seq<Seq<char>>>
    decreases n,
{
    if n == 0 {
        Parsed::Done(Seq::empty(), off)
    } else {
        match names_parse(buf, off, (n - 1) as nat) {
            Parsed::Done(names, o) => match spec_cstr(buf, o) {
                Ok(text) => Parsed::Done(names.push(decode_utf8(text)), o + text.len() + 1),
                Err(e) => Parsed::Failed(e, o),
            },
            Parsed::Failed(e, o) => Parsed::Failed(e, o),
            Parsed::Panic => Parsed::Panic,
        }
    }
}

/// The texts of a sequence of strings.
pub open spec fn strings_view(v: Seq<String>) -> Seq<Seq<char>> {
    v.map_values(|s: String| s@)
}

/// The contents of a sequence of navpoints.
pub open spec fn navpoints_view(v: Seq<StaticMeshNavpoint>) -> Seq<NavpointView> {
    v.map_values(|n: StaticMeshNavpoint| n@)
}

/// Reads `n` little-endian `i32` values from `*data_offset`, moving the offset
/// past them.
fn read_i32_run(buf: &[u8], data_offset: &mut usize, n: usize) -> (r: Vec<i32>)
    requires
        i32_run(buf@, *old(data_offset) as int, n as nat) is Some,
    ensures
        r@ == i32_run(buf@, *old(data_offset) as int, n as nat)->Some_0,
        *final(data_offset) == *old(data_offset) + 4 * n,
{
    let ghost start = *data_offset as int;
    let mut values: Vec<i32> = Vec::new();
    let mut i: usize = 0;
    while i < n
        invariant
            i <= n,
            start == *old(data_offset) as int,
            n > 0 ==> start + 4 * n <= buf@.len(),
            *data_offset == start + 4 * i,
            values@ == Seq::new(i as nat, |k: int| le_i32(buf@, start + 4 * k)),
        decreases n - i,
    {
        assert(start + 4 * i + 4 <= start + 4 * n);
        let v = read_i32_le(buf, *data_offset);
        values.push(v);
        assert(*data_offset + 4 <= buf.len());
        *data_offset = *data_offset + 4;
        i = i + 1;
        assert(values@ =~= Seq::new(i as nat, |k: int| le_i32(buf@, start + 4 * k)));
    }
    assert(values@ =~= i32_run(buf@, start, n as nat)->Some_0);
    values
}

proof fn lemma_names_stops(buf: Seq<u8>, off: int, k: nat, n: nat)
    requires
        k <= n,
        !(names_parse(buf, off, k) is Done),
    ensures
        names_parse(buf, off, n) == names_parse(buf, off, k),
    decreases n - k,
{
    if k < n {
        lemma_names_stops(buf, off, k, (n - 1) as nat);
    }
}

/// Reads `n` texture names from `*data_offset`, moving the offset past each
/// name and its terminating NUL.
fn read_texture_names(buf: &[u8], data_offset: &mut usize, n: usize) -> (r: Result<Vec<String>, VolitionError>)
    ensures
        match names_parse(buf@, *old(data_offset) as int, n as nat) {
            Parsed::Done(names, o) => r matches Ok(v) && strings_view(v@) == names && *final(data_offset) == o,
            Parsed::Failed(e, o) => r == Err::<Vec<String>, VolitionError>(e) && *final(data_offset) == o,
            Parsed::Panic => false,
        },
{
    let ghost start = *data_offset as int;
    let mut names: Vec<String> = Vec::new();
    assert(strings_view(names@) =~= Seq::empty());
    let mut i: usize = 0;
    while i < n
        invariant
            i <= n,
            start == *old(data_offset) as int,
            names_parse(buf@, start, i as nat) == Parsed::Done(strings_view(names@), *data_offset as int),
        decreases n - i,
    {
        let ghost before = names@;
        match read_cstr(buf, *data_offset) {
            Ok(name) => {
                let len = name.len();
                assert(*data_offset + len < buf.len()) by {
                    let t = buf@.skip(*data_offset as int);
                    let k = choose|k: int| is_first_nul(t, k);
                    assert(name.spec_bytes() == t.take(k));
                }
                *data_offset = *data_offset + len;
                *data_offset = *data_offset + 1;
                let owned = String::from_str(name);
                proof {
                    encode_utf8_decode_utf8(name@);
                }
                names.push(owned);
                assert(strings_view(names@) =~= strings_view(before).push(owned@));
            },
            Err(e) => {
                proof {
                    lemma_names_stops(buf@, start, (i + 1) as nat, n as nat);
                }
                return Err(e);
            },
        }
        i = i + 1;
    }
    Ok(names)
}

/// Reads `n` navpoints from `*data_offset`, moving the offset past them.
fn read_navpoints(buf: &[u8], data_offset: &mut usize, n: usize) -> (r: Result<Vec<StaticMeshNavpoint>, VolitionError>)
    requires
        !(repeat_parse(buf@, *old(data_offset) as int, n as nat, StaticMeshNavpoint::SIZE as int, navpoint_parser()) is Panic),
    ensures
        match repeat_parse(buf@, *old(data_offset) as int, n as nat, StaticMeshNavpoint::SIZE as int, navpoint_parser()) {
            Parsed::Done(items, o) => r matches Ok(v) && navpoints_view(v@) == items && *final(data_offset) == o,
            Parsed::Failed(e, o) => r == Err::<Vec<StaticMeshNavpoint>, VolitionError>(e) && *final(data_offset) == o,
            Parsed::Panic => false,
        },
{
    let ghost start = *data_offset as int;
    let ghost parse = navpoint_parser();
    let mut items: Vec<StaticMeshNavpoint> = Vec::new();
    assert(navpoints_view(items@) =~= Seq::empty());
    let mut i: usize = 0;
    while i < n
        invariant
            i <= n,
            parse == navpoint_parser(),
            start == *old(data_offset) as int,
            !(repeat_parse(buf@, start, n as nat, StaticMeshNavpoint::SIZE as int, parse) is Panic),
            repeat_parse(buf@, start, i as nat, StaticMeshNavpoint::SIZE as int, parse) == Parsed::Done(navpoints_view(items@), *data_offset as int),
        decreases n - i,
    {
        if *data_offset > buf.len() {
            proof {
                lemma_repeat_parse_stops(buf@, start, (i + 1) as nat, n as nat, StaticMeshNavpoint::SIZE as int, parse);
            }
            assert(false);
        }
        let rest = &buf[*data_offset..buf.len()];
        assert(rest@ == buf@.skip(*data_offset as int));
        assert(parse(rest@) == navpoint_parse(rest@));
        let ghost before = items@;
        match StaticMeshNavpoint::from_data(rest) {
            Ok(p) => {
                items.push(p);
                assert(navpoints_view(items@) =~= navpoints_view(before).push(p@));
                *data_offset = *data_offset + StaticMeshNavpoint::SIZE;
            },
            Err(e) => {
                proof {
                    assert(repeat_parse(buf@, start, (i + 1) as nat, StaticMeshNavpoint::SIZE as int, parse)
                        == Parsed::<Seq<NavpointView>>::Failed(e, *data_offset as int));
                    lemma_repeat_parse_stops(buf@, start, (i + 1) as nat, n as nat, StaticMeshNavpoint::SIZE as int, parse);
                }
                return Err(e);
            },
        }
        i = i + 1;
    }
    Ok(items)
}

/// A decoded cmesh/smesh.
#[derive(Debug, Clone)]
pub struct StaticMesh {
    pub header: StaticMeshHeader,
    /// Probably. At least matches texture count.
    pub texture_flags: Vec<i32>,
    pub texture_names: Vec<String>,
    pub navpoints: Vec<StaticMeshNavpoint>,
    /// Maybe.
    pub bone_indices: Vec<i32>,
    pub matlib: Matlib,
    pub mesh_header: LodMeshHeader,
    pub lod_meshes: Vec<LodMeshData>,
}

/// The contents of a static mesh.
pub struct StaticMeshView {
    pub header: StaticMeshHeader,
    pub texture_flags: Seq<i32>,
    pub texture_names: Seq<Seq<char>>,
    pub navpoints: Seq<NavpointView>,
    pub bone_indices: Seq<i32>,
    pub matlib: MatlibView,
    pub mesh_header: LodMeshHeader,
    pub lod_meshes: Seq<LodMeshDataView>,
}

impl View for StaticMesh {
    type V = StaticMeshView;

    open spec fn view(&self) -> StaticMeshView {
        StaticMeshView {
            header: self.header,
            texture_flags: self.texture_flags@,
            texture_names: strings_view(self.texture_names@),
            navpoints: navpoints_view(self.navpoints@),
            bone_indices: self.bone_indices@,
            matlib: self.matlib@,
            mesh_header: self.mesh_header,
            lod_meshes: lods_view(self.lod_meshes@),
        }
    }
}

/// What the navpoint section decodes from `off`: nothing when there are no
/// navpoints, else the navpoints from the next multiple of 16.
pub open spec fn navpoints_parse(buf: Seq<u8>, off: int, n: nat) -> Parsed<Seq<NavpointView>> {
    if n == 0 {
        Parsed::Done(Seq::empty(), off)
    } else if round_up(off, 16) > usize::MAX {
        Parsed::Panic
    } else {
        repeat_parse(buf, round_up(off, 16), n, StaticMeshNavpoint::SIZE as int, navpoint_parser())
    }
}

/// What the bone section decodes from `off`: nothing when there are no bones,
/// else `n` indices from the next multiple of 16.
pub open spec fn bones_parse(buf: Seq<u8>, off: int, n: nat) -> Parsed<Seq<i32>> {
    if n == 0 {
        Parsed::Done(Seq::empty(), off)
    } else if round_up(off, 16) > usize::MAX {
        Parsed::Panic
    } else {
        match i32_run(buf, round_up(off, 16), n) {
            Some(bones) => Parsed::Done(bones, round_up(off, 16) + 4 * n),
            None => Parsed::Panic,
        }
    }
}

/// What follows the material library: the LOD mesh header at `off` and the
/// levels of detail after it.
pub open spec fn static_mesh_lods_parse(buf: Seq<u8>, off: int, unk_2c: i32) -> Parsed<(LodMeshHeader, Seq<LodMeshDataView>)> {
    if off > buf.len() {
        Parsed::Panic
    } else {
        match lod_mesh_header_parse(buf.skip(off)) {
            Err(e) => Parsed::Failed(e, off),
            Ok(mh) => match lod_data_parse(mh, buf, off + LodMeshHeader::SIZE, unk_2c) {
                Parsed::Done(lods, o) => Parsed::Done((mh, lods), o),
                Parsed::Failed(e, o) => Parsed::Failed(e, o),
                Parsed::Panic => Parsed::Panic,
            },
        }
    }
}

/// What `StaticMesh::from_data` decodes for the header at the start of `buf`
/// and the sections from `off` on.
pub open spec fn static_mesh_parse(buf: Seq<u8>, off: int) -> Parsed<StaticMeshView> {
    match static_mesh_header_parse(buf) {
        Err(e) => Parsed::Failed(e, off),
        Ok(h) => {
            let nt = h.num_textures as nat;
            let o1 = off + 0x40;
            let o2 = round_up(o1 + 4 * nt, 16) + 1;
            if o2 > usize::MAX {
                Parsed::Panic
            } else {
                match i32_run(buf, o1, nt) {
                    None => Parsed::Panic,
                    Some(flags) => match names_parse(buf, o2, nt) {
                        Parsed::Failed(e, o) => Parsed::Failed(e, o),
                        Parsed::Panic => Parsed::Panic,
                        Parsed::Done(names, o3) => match navpoints_parse(buf, o3, h.num_navpoints as nat) {
                            Parsed::Failed(e, o) => Parsed::Failed(e, o),
                            Parsed::Panic => Parsed::Panic,
                            Parsed::Done(navs, o4) => match bones_parse(buf, o4, h.num_bones as nat) {
                                Parsed::Failed(e, o) => Parsed::Failed(e, o),
                                Parsed::Panic => Parsed::Panic,
                                Parsed::Done(bones, o5) => if round_up(o5, 4) > usize::MAX {
                                    Parsed::Panic
                                } else {
                                    match matlib_parse(buf, round_up(o5, 4)) {
                                        Parsed::Failed(e, o) => Parsed::Failed(e, o),
                                        Parsed::Panic => Parsed::Panic,
                                        Parsed::Done(matlib, o6) => match static_mesh_lods_parse(buf, o6, h.unk_2c) {
                                            Parsed::Failed(e, o) => Parsed::Failed(e, o),
                                            Parsed::Panic => Parsed::Panic,
                                            Parsed::Done(lods, o7) => Parsed::Done(
                                                StaticMeshView {
                                                    header: h,
                                                    texture_flags: flags,
                                                    texture_names: names,
                                                    navpoints: navs,
                                                    bone_indices: bones,
                                                    matlib,
                                                    mesh_header: lods.0,
                                                    lod_meshes: lods.1,
                                                },
                                                o7,
                                            ),
                                        },
                                    }
                                },
                            },
                        },
                    },
                }
            }
        },
    }
}

/// The navpoints, where there are any, lie at the first multiple of 16 at or
/// after `off`, one after another.
proof fn lemma_navpoints_layout(buf: Seq<u8>, off: int, n: nat)
    requires
        0 <= off,
    ensures
        navpoints_parse(buf, off, n) matches Parsed::Done(navs, o) ==> {
            let q = if n > 0 { round_up(off, 16) } else { off };
            &&& n > 0 ==> q % 16 == 0 && off <= q < off + 16
            &&& navs.len() == n
            &&& forall|j: int|
                0 <= j < n ==> navpoint_parse(buf.skip(q + StaticMeshNavpoint::SIZE * j)) == Ok::<NavpointView, VolitionError>(
                    #[trigger] navs[j],
                )
            &&& o == q + StaticMeshNavpoint::SIZE * n
        },
{
    if n > 0 {
        lemma_round_up(off, 16);
        let q = round_up(off, 16);
        lemma_repeat_parse_items(buf, q, n, StaticMeshNavpoint::SIZE as int, navpoint_parser());
        lemma_repeat_parse_end_any(buf, q, n, StaticMeshNavpoint::SIZE as int, navpoint_parser());
    }
}

/// The bone indices, where there are any, lie at the first multiple of 16 at
/// or after `off`, 4 bytes each.
proof fn lemma_bones_layout(buf: Seq<u8>, off: int, n: nat)
    requires
        0 <= off,
    ensures
        bones_parse(buf, off, n) matches Parsed::Done(bones, o) ==> {
            let r = if n > 0 { round_up(off, 16) } else { off };
            &&& n > 0 ==> r % 16 == 0 && off <= r < off + 16
            &&& bones.len() == n
            &&& forall|j: int| 0 <= j < n ==> #[trigger] bones[j] == le_i32(buf, r + 4 * j)
            &&& o == r + 4 * n
        },
{
    if n > 0 {
        lemma_round_up(off, 16);
    }
}

/// The names end after where they start.
proof fn lemma_names_end(buf: Seq<u8>, off: int, n: nat)
    ensures
        names_parse(buf, off, n) matches Parsed::Done(names, o) ==> off <= o,
    decreases n,
{
    if n > 0 {
        lemma_names_end(buf, off, (n - 1) as nat);
    }
}

/// Where a static mesh is read from.  The texture flags, 4 bytes each, start
/// 0x40 bytes after `off`; the texture names start one byte after the first
/// multiple of 16 at or after the flags.  Where there are navpoints they start
/// at the first multiple of 16 after the names, `StaticMeshNavpoint::SIZE`
/// bytes each; where there are bones their indices, 4 bytes each, start at the
/// first multiple of 16 after that.  The material library starts at the first
/// multiple of 4 after that, the LOD mesh header right after the library, and
/// the levels of detail right after the header.
#[verifier::spinoff_prover]
#[verifier::rlimit(30)]
pub proof fn lemma_static_mesh_layout(buf: Seq<u8>, off: int)
    requires
        0 <= off,
    ensures
        static_mesh_parse(buf, off) matches Parsed::Done(v, end) ==> {
            let nt = v.header.num_textures as int;
            let o1 = off + 0x40;
            let f_end = o1 + 4 * nt;
            let n0 = round_up(f_end, 16) + 1;
            &&& static_mesh_header_parse(buf) == Ok::<StaticMeshHeader, VolitionError>(v.header)
            &&& v.texture_flags.len() == nt
            &&& forall|j: int| 0 <= j < nt ==> #[trigger] v.texture_flags[j] == le_i32(buf, o1 + 4 * j)
            &&& (n0 - 1) % 16 == 0 && f_end <= n0 - 1 < f_end + 16
            &&& names_parse(buf, n0, nt as nat) matches Parsed::Done(names, o3) && names == v.texture_names && {
                let nn = v.header.num_navpoints as int;
                let q = if nn > 0 { round_up(o3, 16) } else { o3 };
                let o4 = q + StaticMeshNavpoint::SIZE * nn;
                let nb = v.header.num_bones as int;
                let r = if nb > 0 { round_up(o4, 16) } else { o4 };
                let o5 = r + 4 * nb;
                let m = round_up(o5, 4);
                &&& nn > 0 ==> q % 16 == 0 && o3 <= q < o3 + 16
                &&& v.navpoints.len() == nn
                &&& forall|j: int|
                    0 <= j < nn ==> navpoint_parse(buf.skip(q + StaticMeshNavpoint::SIZE * j)) == Ok::<
                        NavpointView,
                        VolitionError,
                    >(#[trigger] v.navpoints[j])
                &&& nb > 0 ==> r % 16 == 0 && o4 <= r < o4 + 16
                &&& v.bone_indices.len() == nb
                &&& forall|j: int| 0 <= j < nb ==> #[trigger] v.bone_indices[j] == le_i32(buf, r + 4 * j)
                &&& m % 4 == 0 && o5 <= m < o5 + 4
                &&& matlib_parse(buf, m) matches Parsed::Done(lib, o6) && lib == v.matlib && {
                    &&& o6 <= buf.len()
                    &&& lod_mesh_header_parse(buf.skip(o6)) == Ok::<LodMeshHeader, VolitionError>(v.mesh_header)
                    &&& lod_data_parse(v.mesh_header, buf, o6 + LodMeshHeader::SIZE, v.header.unk_2c) == Parsed::Done(
                        v.lod_meshes,
                        end,
                    )
                }
            }
        },
{
    if let Parsed::Done(v, end) = static_mesh_parse(buf, off) {
        let h = v.header;
        let nt = h.num_textures as int;
        let o1 = off + 0x40;
        lemma_round_up(o1 + 4 * nt, 16);
        let n0 = round_up(o1 + 4 * nt, 16) + 1;
        let o3 = names_parse(buf, n0, nt as nat)->Done_1;
        lemma_names_end(buf, n0, nt as nat);
        lemma_navpoints_layout(buf, o3, h.num_navpoints as nat);
        let o4 = navpoints_parse(buf, o3, h.num_navpoints as nat)->Done_1;
        lemma_bones_layout(buf, o4, h.num_bones as nat);
        let o5 = bones_parse(buf, o4, h.num_bones as nat)->Done_1;
        lemma_round_up(o5, 4);
    }
}

/// Reads the navpoint section at `*data_offset`.
fn read_navpoint_section(buf: &[u8], data_offset: &mut usize, n: usize) -> (r: Result<Vec<StaticMeshNavpoint>, VolitionError>)
    requires
        !(navpoints_parse(buf@, *old(data_offset) as int, n as nat) is Panic),
    ensures
        match navpoints_parse(buf@, *old(data_offset) as int, n as nat) {
            Parsed::Done(items, o) => r matches Ok(v) && navpoints_view(v@) == items && *final(data_offset) == o,
            Parsed::Failed(e, o) => r == Err::<Vec<StaticMeshNavpoint>, VolitionError>(e) && *final(data_offset) == o,
            Parsed::Panic => false,
        },
{
    if n > 0 {
        align(data_offset, 16);
        read_navpoints(buf, data_offset, n)
    } else {
        let v: Vec<StaticMeshNavpoint> = Vec::new();
        assert(navpoints_view(v@) =~= Seq::empty());
        Ok(v)
    }
}

/// Reads the bone section at `*data_offset`.
fn read_bone_section(buf: &[u8], data_offset: &mut usize, n: usize) -> (r: Vec<i32>)
    requires
        !(bones_parse(buf@, *old(data_offset) as int, n as nat) is Panic),
    ensures
        bones_parse(buf@, *old(data_offset) as int, n as nat) == Parsed::Done(r@, *final(data_offset) as int),
{
    if n > 0 {
        align(data_offset, 16);
        read_i32_run(buf, data_offset, n)
    } else {
        let v: Vec<i32> = Vec::new();
        assert(v@ =~= Seq::empty());
        v
    }
}

impl StaticMesh {
    /// Decodes a static mesh: the header at the start of `buf`, then the
    /// sections from `*data_offset + 0x40` on, moving the offset past
    /// everything that was decoded.
    pub fn from_data(buf: &[u8], data_offset: &mut usize) -> (r: Result<Self, VolitionError>)
        requires
            !(static_mesh_parse(buf@, *old(data_offset) as int) is Panic),
        ensures
            match static_mesh_parse(buf@, *old(data_offset) as int) {
                Parsed::Done(v, o) => r matches Ok(m) && m@ == v && *final(data_offset) == o,
                Parsed::Failed(e, o) => r == Err::<StaticMesh, VolitionError>(e) && *final(data_offset) == o,
                Parsed::Panic => false,
            },
    {
        let header = StaticMeshHeader::from_data(buf)?;

        let num_textures = header.num_textures as usize;
        let num_navpoints = header.num_navpoints as usize;
        let num_bones = header.num_bones as usize;

        *data_offset = *data_offset + 0x40;
        let texture_flags = read_i32_run(buf, data_offset, num_textures);

        align(data_offset, 16);
        // Some files have an extra NUL byte before the names.
        *data_offset = *data_offset + 1;
        let texture_names = read_texture_names(buf, data_offset, num_textures)?;

        let navpoints = read_navpoint_section(buf, data_offset, num_navpoints)?;
        let bone_indices = read_bone_section(buf, data_offset, num_bones);

        align(data_offset, 4);
        let matlib = Matlib::from_data(buf, data_offset)?;

        if *data_offset > buf.len() {
            assert(false);
        }
        let rest = &buf[*data_offset..buf.len()];
        assert(rest@ == buf@.skip(*data_offset as int));
        let mesh_header = LodMeshHeader::from_le_bytes(rest)?;
        *data_offset = *data_offset + LodMeshHeader::SIZE;

        let lod_meshes = mesh_header.read_data(buf, data_offset, header.unk_2c)?;

        Ok(Self { header, texture_flags, texture_names, navpoints, bone_indices, matlib, mesh_header, lod_meshes })
    }
}

/// Size in bytes of the vertex data that `h` describes.
pub open spec fn vbuf_len(h: VertexBuffer) -> int {
    h.num_vertices as int * h.stride as int
}

/// Where the first `k` of the vertex buffers `vhs` end when they are laid out
/// back to back from `off`.
pub open spec fn vbufs_end(vhs: Seq<VertexBuffer>, off: int, k: nat) -> int
    decreases k,
{
    if k == 0 {
        off
    } else {
        vbufs_end(vhs, off, (k - 1) as nat) + vbuf_len(vhs[k - 1])
    }
}

/// Where the vertex data of the GPU geometry of `lod` starts when the level
/// begins after `off`.
pub open spec fn gpu_vstart(off: int) -> int {
    round_up(off, 16)
}

/// Where the index data of the GPU geometry of `lod` starts when the level
/// begins after `off`.
pub open spec fn gpu_istart(lod: LodMeshDataView, off: int) -> int {
    let vhs = lod.gpu_geometry.vertex_headers;
    round_up(vbufs_end(vhs, gpu_vstart(off), vhs.len()), 16)
}

/// Where the GPU data of the first `k` levels of `lods` ends: each level's
/// vertex buffers from the next multiple of 16, then its 16-bit indices from
/// the next multiple of 16.
pub open spec fn gpu_lods_end(lods: Seq<LodMeshDataView>, k: nat) -> int
    decreases k,
{
    if k == 0 {
        0
    } else {
        let lod = lods[k - 1];
        gpu_istart(lod, gpu_lods_end(lods, (k - 1) as nat)) + 2 * lod.gpu_geometry.index_header.num_indices
    }
}

/// The GPU buffers of every level of `lods` in the GPU file `buf`: the vertex
/// buffers and the index buffer of each.
pub open spec fn gpu_buffer_views(buf: Seq<u8>, lods: Seq<LodMeshDataView>) -> Seq<(Seq<Seq<u8>>, Seq<u8>)> {
    Seq::new(
        lods.len(),
        |i: int|
            {
                let lod = lods[i];
                let off = gpu_lods_end(lods, i as nat);
                let vhs = lod.gpu_geometry.vertex_headers;
                let vs = gpu_vstart(off);
                let is = gpu_istart(lod, off);
                (
                    Seq::new(vhs.len(), |j: int| buf.subrange(vbufs_end(vhs, vs, j as nat), vbufs_end(vhs, vs, (j + 1) as nat))),
                    buf.subrange(is, is + 2 * lod.gpu_geometry.index_header.num_indices),
                )
            },
    )
}

/// The contents of the buffers that `StaticMesh::gpu_buffers` hands out.
pub open spec fn buffers_view(v: Seq<(Vec<&[u8]>, &[u8])>) -> Seq<(Seq<Seq<u8>>, Seq<u8>)> {
    v.map_values(|p: (Vec<&[u8]>, &[u8])| (p.0@.map_values(|s: &[u8]| s@), p.1@))
}

proof fn lemma_vbufs_end_mono(vhs: Seq<VertexBuffer>, off: int, j: nat, k: nat)
    requires
        j <= k,
    ensures
        vbufs_end(vhs, off, j) <= vbufs_end(vhs, off, k),
    decreases k - j,
{
    if j < k {
        lemma_vbufs_end_mono(vhs, off, j, (k - 1) as nat);
        assert(vbuf_len(vhs[k - 1]) >= 0) by (nonlinear_arith)
            requires
                vhs[k - 1].num_vertices >= 0,
                vhs[k - 1].stride >= 0,
        ;
    }
}

proof fn lemma_gpu_lods_end_step(lods: Seq<LodMeshDataView>, k: nat)
    ensures
        gpu_lods_end(lods, k) <= gpu_vstart(gpu_lods_end(lods, k)),
        gpu_vstart(gpu_lods_end(lods, k)) <= vbufs_end(
            lods[k as int].gpu_geometry.vertex_headers,
            gpu_vstart(gpu_lods_end(lods, k)),
            lods[k as int].gpu_geometry.vertex_headers.len(),
        ),
        vbufs_end(
            lods[k as int].gpu_geometry.vertex_headers,
            gpu_vstart(gpu_lods_end(lods, k)),
            lods[k as int].gpu_geometry.vertex_headers.len(),
        ) <= gpu_istart(lods[k as int], gpu_lods_end(lods, k)),
        gpu_istart(lods[k as int], gpu_lods_end(lods, k)) <= gpu_lods_end(lods, k + 1),
        0 <= gpu_lods_end(lods, k),
    decreases k,
{
    if k > 0 {
        lemma_gpu_lods_end_step(lods, (k - 1) as nat);
    }
    let off = gpu_lods_end(lods, k);
    let vhs = lods[k as int].gpu_geometry.vertex_headers;
    lemma_round_up(off, 16);
    lemma_vbufs_end_mono(vhs, gpu_vstart(off), 0, vhs.len());
    lemma_round_up(vbufs_end(vhs, gpu_vstart(off), vhs.len()), 16);
}

proof fn lemma_gpu_lods_end_mono(lods: Seq<LodMeshDataView>, j: nat, k: nat)
    requires
        j <= k,
    ensures
        gpu_lods_end(lods, j) <= gpu_lods_end(lods, k),
    decreases k - j,
{
    if j < k {
        lemma_gpu_lods_end_mono(lods, j, (k - 1) as nat);
        lemma_gpu_lods_end_step(lods, (k - 1) as nat);
    }
}

/// How the GPU file is cut into levels: the GPU data of the first level starts
/// at byte 0; the vertex data of each level starts at the first multiple of 16
/// at or after the end of the level before it, its vertex buffers follow one
/// another, each `num_vertices * stride` bytes long; its 16-bit indices start at
/// the first multiple of 16 at or after its last vertex buffer, and the level
/// ends after them.
pub proof fn lemma_gpu_layout(buf: Seq<u8>, lods: Seq<LodMeshDataView>)
    ensures
        gpu_lods_end(lods, 0) == 0,
        forall|k: int|
            0 <= k < lods.len() ==> {
                let e = gpu_lods_end(lods, k as nat);
                let vhs = lods[k].gpu_geometry.vertex_headers;
                let vs = #[trigger] gpu_buffer_views(buf, lods)[k];
                let v0 = round_up(e, 16);
                let ve = vbufs_end(vhs, v0, vhs.len());
                let i0 = round_up(ve, 16);
                let ni = lods[k].gpu_geometry.index_header.num_indices;
                &&& v0 % 16 == 0 && e <= v0 < e + 16
                &&& i0 % 16 == 0 && ve <= i0 < ve + 16
                &&& vs.0.len() == vhs.len()
                &&& forall|j: int|
                    0 <= j < vhs.len() ==> {
                        &&& vbufs_end(vhs, v0, (j + 1) as nat) == vbufs_end(vhs, v0, j as nat) + vhs[j].num_vertices
                            * vhs[j].stride
                        &&& #[trigger] vs.0[j] == buf.subrange(
                            vbufs_end(vhs, v0, j as nat),
                            vbufs_end(vhs, v0, (j + 1) as nat),
                        )
                    }
                &&& vbufs_end(vhs, v0, 0) == v0
                &&& vs.1 == buf.subrange(i0, i0 + 2 * ni)
                &&& gpu_lods_end(lods, (k + 1) as nat) == i0 + 2 * ni
            },
{
    assert forall|k: int| 0 <= k < lods.len() implies {
        let e = gpu_lods_end(lods, k as nat);
        let vhs = lods[k].gpu_geometry.vertex_headers;
        let vs = #[trigger] gpu_buffer_views(buf, lods)[k];
        let v0 = round_up(e, 16);
        let ve = vbufs_end(vhs, v0, vhs.len());
        let i0 = round_up(ve, 16);
        let ni = lods[k].gpu_geometry.index_header.num_indices;
        &&& v0 % 16 == 0 && e <= v0 < e + 16
        &&& i0 % 16 == 0 && ve <= i0 < ve + 16
        &&& vs.0.len() == vhs.len()
        &&& forall|j: int|
            0 <= j < vhs.len() ==> {
                &&& vbufs_end(vhs, v0, (j + 1) as nat) == vbufs_end(vhs, v0, j as nat) + vhs[j].num_vertices
                    * vhs[j].stride
                &&& #[trigger] vs.0[j] == buf.subrange(vbufs_end(vhs, v0, j as nat), vbufs_end(vhs, v0, (j + 1) as nat))
            }
        &&& vbufs_end(vhs, v0, 0) == v0
        &&& vs.1 == buf.subrange(i0, i0 + 2 * ni)
        &&& gpu_lods_end(lods, (k + 1) as nat) == i0 + 2 * ni
    } by {
        let e = gpu_lods_end(lods, k as nat);
        let vhs = lods[k].gpu_geometry.vertex_headers;
        lemma_gpu_lods_end_step(lods, k as nat);
        lemma_round_up(e, 16);
        let v0 = round_up(e, 16);
        lemma_vbufs_end_mono(vhs, v0, 0, vhs.len());
        lemma_round_up(vbufs_end(vhs, v0, vhs.len()), 16);
    }
}

impl StaticMesh {
    /// The vertex buffers and the index buffer of each level of detail, cut
    /// from the GPU file `buf`.
    #[verifier::rlimit(30)]
    pub fn gpu_buffers<'a>(&self, buf: &'a [u8]) -> (r: Result<Vec<(Vec<&'a [u8]>, &'a [u8])>, VolitionError>)
        requires
            gpu_lods_end(self@.lod_meshes, self@.lod_meshes.len()) <= buf@.len(),
        ensures
            r matches Ok(v) && buffers_view(v@) == gpu_buffer_views(buf@, self@.lod_meshes),
    {
        let ghost lods = self@.lod_meshes;
        let n = self.lod_meshes.len();
        let buf_len = buf.len();
        let mut offset: usize = 0;
        let mut datas: Vec<(Vec<&'a [u8]>, &'a [u8])> = Vec::new();
        let mut i: usize = 0;
        while i < n
            invariant
                n == self.lod_meshes@.len(),
                lods == self@.lod_meshes,
                lods.len() == n,
                i <= n,
                gpu_lods_end(lods, n as nat) <= buf_len,
                buf_len == buf@.len(),
                offset == gpu_lods_end(lods, i as nat),
                buffers_view(datas@) == gpu_buffer_views(buf@, lods).take(i as int),
            decreases n - i,
        {
            let lod_mesh = &self.lod_meshes[i];
            let ghost lod = lods[i as int];
            assert(lod == lod_mesh@);
            let ghost vhs = lod.gpu_geometry.vertex_headers;
            proof {
                lemma_gpu_lods_end_step(lods, i as nat);
                lemma_gpu_lods_end_mono(lods, (i + 1) as nat, n as nat);
            }
            align(&mut offset, 16);
            let ghost vs = offset as int;
            let headers = &lod_mesh.gpu_geometry.vertex_headers;
            let mut vbufs: Vec<&'a [u8]> = Vec::new();
            let mut j: usize = 0;
            while j < headers.len()
                invariant
                    headers@ == vhs,
                    j <= vhs.len(),
                    vbufs_end(vhs, vs, vhs.len()) <= buf_len,
                    buf_len == buf@.len(),
                    offset == vbufs_end(vhs, vs, j as nat),
                    vbufs@.len() == j,
                    vbufs@.map_values(|s: &[u8]| s@) == Seq::new(
                        j as nat,
                        |k: int| buf@.subrange(vbufs_end(vhs, vs, k as nat), vbufs_end(vhs, vs, (k + 1) as nat)),
                    ),
                decreases vhs.len() - j,
            {
                let vertex_head = &headers[j];
                assert(*vertex_head == vhs[j as int]);
                proof {
                    lemma_vbufs_end_mono(vhs, vs, (j + 1) as nat, vhs.len());
                    lemma_vbufs_end_mono(vhs, vs, 0, j as nat);
                }
                let len = vertex_head.num_vertices as usize * vertex_head.stride as usize;
                let end = offset + len;
                let ghost before = vbufs@;
                let piece = &buf[offset..end];
                assert(piece@ == buf@.subrange(vbufs_end(vhs, vs, j as nat), vbufs_end(vhs, vs, (j + 1) as nat)));
                vbufs.push(piece);
                offset = end;
                j = j + 1;
                assert(vbufs@.map_values(|s: &[u8]| s@) =~= Seq::new(
                    j as nat,
                    |k: int| buf@.subrange(vbufs_end(vhs, vs, k as nat), vbufs_end(vhs, vs, (k + 1) as nat)),
                )) by {
                    assert forall|k: int| 0 <= k < j - 1 implies vbufs@[k]@ == before.map_values(|s: &[u8]| s@)[k] by {
                        assert(vbufs@[k] == before[k]);
                    }
                }
            }

            align(&mut offset, 16);
            let len = lod_mesh.gpu_geometry.index_header.num_indices as usize * 2;
            let end = offset + len;
            let ghost before = datas@;
            datas.push((vbufs, &buf[offset..end]));
            offset = end;
            i = i + 1;
            assert(buffers_view(datas@) =~= gpu_buffer_views(buf@, lods).take(i as int)) by {
                assert(buffers_view(datas@) =~= buffers_view(before).push(buffers_view(datas@)[i - 1]));
                assert(buffers_view(datas@)[i - 1] == gpu_buffer_views(buf@, lods)[i - 1]) by {
                    assert(buffers_view(datas@)[i - 1].0 =~= gpu_buffer_views(buf@, lods)[i - 1].0);
                }
            }
        }
        assert(gpu_buffer_views(buf@, lods).take(n as int) =~= gpu_buffer_views(buf@, lods));
        Ok(datas)
    }
}

impl StaticMesh {
    /// Whether the GPU file `buf` is long enough for the buffers of every
    /// level of detail.
    pub fn gpu_buffers_fit(&self, buf: &[u8]) -> (r: bool)
        ensures
            r == (gpu_lods_end(self@.lod_meshes, self@.lod_meshes.len()) <= buf@.len()),
    {
        let ghost lods = self@.lod_meshes;
        let n = self.lod_meshes.len();
        let len = buf.len();
        let mut offset: usize = 0;
        let mut i: usize = 0;
        while i < n
            invariant
                n == lods.len(),
                lods == self@.lod_meshes,
                len == buf@.len(),
                i <= n,
                offset == gpu_lods_end(lods, i as nat),
                offset <= len,
            decreases n - i,
        {
            let lod_mesh = &self.lod_meshes[i];
            assert(lod_mesh@ == lods[i as int]);
            let ghost vhs = lods[i as int].gpu_geometry.vertex_headers;
            proof {
                lemma_gpu_lods_end_step(lods, i as nat);
            }
            if offset % 16 != 0 && len - offset < 16 - offset % 16 {
                proof {
                    lemma_gpu_lods_end_mono(lods, (i + 1) as nat, n as nat);
                }
                return false;
            }
            align(&mut offset, 16);
            let ghost vs = offset as int;
            let headers = &lod_mesh.gpu_geometry.vertex_headers;
            let mut j: usize = 0;
            while j < headers.len()
                invariant
                    headers@ == vhs,
                    j <= vhs.len(),
                    len == buf@.len(),
                    offset == vbufs_end(vhs, vs, j as nat),
                    offset <= len,
                    i < n,
                    n == lods.len(),
                    lods == self@.lod_meshes,
                    vhs == lods[i as int].gpu_geometry.vertex_headers,
                    vs == gpu_vstart(gpu_lods_end(lods, i as nat)),
                    gpu_lods_end(lods, (i + 1) as nat) >= gpu_istart(lods[i as int], gpu_lods_end(lods, i as nat)),
                    gpu_istart(lods[i as int], gpu_lods_end(lods, i as nat)) >= vbufs_end(vhs, vs, vhs.len()),
                decreases vhs.len() - j,
            {
                let vertex_head = &headers[j];
                assert(*vertex_head == vhs[j as int]);
                assert((vertex_head.num_vertices as int) * (vertex_head.stride as int) <= 0xffff_ffffint * 0xffffint)
                    by (nonlinear_arith)
                    requires
                        vertex_head.num_vertices <= 0xffff_ffff,
                        vertex_head.stride <= 0xffff,
                ;
                let size = (vertex_head.num_vertices as u64) * (vertex_head.stride as u64);
                if size > (len - offset) as u64 {
                    proof {
                        lemma_vbufs_end_mono(vhs, vs, (j + 1) as nat, vhs.len());
                        lemma_gpu_lods_end_mono(lods, (i + 1) as nat, n as nat);
                        assert(vbufs_end(vhs, vs, (j + 1) as nat) == offset + vbuf_len(vhs[j as int]));
                        assert(vbuf_len(vhs[j as int]) == size);
                        assert(vbufs_end(vhs, vs, (j + 1) as nat) > len);
                    }
                    return false;
                }
                offset = offset + size as usize;
                j = j + 1;
            }
            if offset % 16 != 0 && len - offset < 16 - offset % 16 {
                proof {
                    lemma_gpu_lods_end_mono(lods, (i + 1) as nat, n as nat);
                }
                return false;
            }
            align(&mut offset, 16);
            let ilen = (lod_mesh.gpu_geometry.index_header.num_indices as u64) * 2;
            if ilen > (len - offset) as u64 {
                proof {
                    lemma_gpu_lods_end_mono(lods, (i + 1) as nat, n as nat);
                }
                return false;
            }
            offset = offset + ilen as usize;
            i = i + 1;
        }
        true
    }
}

} // verus!
