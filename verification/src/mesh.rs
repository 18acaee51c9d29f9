use vstd::prelude::*;

use crate::error::VolitionError;
use crate::geometry::{aabb_at, aabb_bytes, lemma_vector_roundtrip, AABB};
use crate::util::{align, lemma_repeat_parse_len, lemma_round_up, read_bytes, round_up};
use crate::util::{
    check_fits_buf, i16_bytes, i32_bytes, i32_of_bits, le_i16, le_i32, le_u16, le_u32, lemma_i16_bytes_read,
    lemma_i16_read_bytes, lemma_i32_bytes_read, lemma_i32_read_bytes, lemma_u16_bytes_read, lemma_u16_read_bytes,
    lemma_u32_bytes_read, lemma_u32_read_bytes, push_i16_le, push_i32_le, push_u16_le, push_u32_le, read_i16_le,
    read_i32_le, read_u16_le, read_u32_le, u16_bytes, u32_bytes, vec_to_array, Parsed, repeat_parse,
    lemma_repeat_parse_stops,
};

verus! {

pub const MAX_SURFACES: u16 = 100;
pub const MAX_LODS: u32 = 100;
pub const MAX_UVS: u8 = 4;
pub const V_ATTR_FLAG_BONES: u8 = 1;
pub const V_ATTR_FLAG_NORMAL: u8 = 2;
/// maybe morph
pub const V_ATTR_FLAG_UNK: u8 = 4;

/// Header of a surface list, 16 bytes on disk.
#[derive(Debug, Clone, Copy, PartialEq, Eq)]
pub struct MeshHeader {
    pub unk_00: i16,
    pub num_surfaces: u16,
    /// Always -1
    pub ptr_04: i32,
    /// Always -1
    pub ptr_08: i32,
    /// Always 0
    pub unk_0c: i32,
}

/// A draw range of a mesh, 16 bytes on disk.
#[derive(Debug, Clone, Copy, PartialEq, Eq)]
pub struct Surface {
    /// Which vertex buffer to use
    pub vbuf: u32,
    /// First index
    pub start_index: u32,
    /// First vertex
    pub start_vertex: u32,
    pub num_indices: u16,
    pub material: u16,
}

/// Header of an index buffer, 20 bytes on disk.
#[derive(Debug, Clone, Copy, PartialEq, Eq)]
pub struct IndexBuffer {
    pub mesh_type: i16,
    pub num_vertex_buffers: u16,
    pub num_indices: u32,
    /// Always -1
    pub runtime_08: i32,
    /// Always -1
    pub runtime_0c: i32,
    /// Always 0
    pub runtime_10: u32,
}

/// Header of a vertex buffer, 16 bytes on disk.
#[derive(Debug, Clone, Copy, PartialEq, Eq)]
pub struct VertexBuffer {
    pub attributes: u8,
    pub num_uv_channels: u8,
    pub stride: u16,
    pub num_vertices: u32,
    /// Always -1
    pub ptr_render_data: i32,
    /// Always 0
    pub unk_0c: i32,
}

/// Header of a model with several levels of detail, 40 bytes on disk.
#[derive(Debug, Clone, Copy, PartialEq, Eq)]
pub struct LodMeshHeader {
    pub bbox: AABB,
    pub flags: i32,
    pub num_lods: u32,
    pub ptr_gpu: i32,
    pub ptr_cpu: i32,
}

// ---------------------------------------------------------------- MeshHeader

/// What `MeshHeader::from_le_bytes` gives for `b`.
pub open spec fn mesh_header_parse(b: Seq<u8>) -> Result<MeshHeader, VolitionError> {
    if b.len() < MeshHeader::SIZE {
        Err(VolitionError::BufferTooSmall { for_what: "MeshHeader", need: MeshHeader::SIZE, avail: b.len() as usize })
    } else if le_u16(b, 0x2) > MAX_SURFACES {
        Err(VolitionError::ValueTooHigh { field: "GeometryHeader::num_surfaces", max: MAX_SURFACES as usize, got: le_u16(b, 0x2) as usize })
    } else if le_i32(b, 0x4) != -1 {
        Err(VolitionError::ExpectedExactValue { field: "GeometryHeader::unk_04", expected: -1i32, got: le_i32(b, 0x4) })
    } else if le_i32(b, 0x8) != -1 {
        Err(VolitionError::ExpectedExactValue { field: "GeometryHeader::unk_08", expected: -1i32, got: le_i32(b, 0x8) })
    } else if le_i32(b, 0xc) != 0 {
        Err(VolitionError::ExpectedExactValue { field: "GeometryHeader::unk_0c", expected: 0i32, got: le_i32(b, 0xc) })
    } else {
        Ok(
            MeshHeader {
                unk_00: le_i16(b, 0x0),
                num_surfaces: le_u16(b, 0x2),
                ptr_04: le_i32(b, 0x4),
                ptr_08: le_i32(b, 0x8),
                unk_0c: le_i32(b, 0xc),
            },
        )
    }
}

/// The bytes of a mesh header; the fixed fields are written as -1, -1 and 0.
pub open spec fn mesh_header_bytes(h: MeshHeader) -> Seq<u8> {
    i16_bytes(h.unk_00) + u16_bytes(h.num_surfaces) + i32_bytes(-1i32) + i32_bytes(-1i32) + i32_bytes(0i32)
}

impl MeshHeader {
    /// Size on disk.
    pub const SIZE: usize = 16;

    /// Decodes the header at the start of `buf`.
    pub fn from_le_bytes(buf: &[u8]) -> (r: Result<Self, VolitionError>)
        ensures
            r == mesh_header_parse(buf@),
    {
        check_fits_buf(buf, Self::SIZE, "MeshHeader")?;

        let num_surfaces = read_u16_le(buf, 0x2);
        if num_surfaces > MAX_SURFACES {
            return Err(VolitionError::ValueTooHigh {
                field: "GeometryHeader::num_surfaces",
                max: MAX_SURFACES as usize,
                got: num_surfaces as usize,
            });
        }

        let ptr_04 = read_i32_le(buf, 0x4);
        if ptr_04 != -1 {
            return Err(VolitionError::ExpectedExactValue { field: "GeometryHeader::unk_04", expected: -1, got: ptr_04 });
        }

        let ptr_08 = read_i32_le(buf, 0x8);
        if ptr_08 != -1 {
            return Err(VolitionError::ExpectedExactValue { field: "GeometryHeader::unk_08", expected: -1, got: ptr_08 });
        }

        let unk_0c = read_i32_le(buf, 0xc);
        if unk_0c != 0 {
            return Err(VolitionError::ExpectedExactValue { field: "GeometryHeader::unk_0c", expected: 0, got: unk_0c });
        }

        Ok(Self { unk_00: read_i16_le(buf, 0x0), num_surfaces, ptr_04, ptr_08, unk_0c })
    }

    /// Encodes the header.
    pub fn to_le_bytes(&self) -> (r: [u8; 16])
        ensures
            r@ == mesh_header_bytes(*self),
    {
        let mut v = Vec::new();
        push_i16_le(&mut v, self.unk_00);
        push_u16_le(&mut v, self.num_surfaces);
        push_i32_le(&mut v, -1);
        push_i32_le(&mut v, -1);
        push_i32_le(&mut v, 0);
        vec_to_array(&v)
    }
}

/// Writing back a mesh header that was read gives the bytes it was read from.
pub proof fn lemma_mesh_header_write_after_read(b: Seq<u8>)
    requires
        mesh_header_parse(b) is Ok,
    ensures
        mesh_header_bytes(mesh_header_parse(b)->Ok_0) == b.take(MeshHeader::SIZE as int),
{
    lemma_i16_bytes_read(b, 0x0);
    lemma_u16_bytes_read(b, 0x2);
    lemma_i32_bytes_read(b, 0x4);
    lemma_i32_bytes_read(b, 0x8);
    lemma_i32_bytes_read(b, 0xc);
    assert(mesh_header_bytes(mesh_header_parse(b)->Ok_0) =~= b.take(MeshHeader::SIZE as int));
}

/// A mesh header with at most `MAX_SURFACES` surfaces and the fixed fields set
/// reads back from its bytes as itself.
pub proof fn lemma_mesh_header_read_after_write(h: MeshHeader)
    requires
        h.num_surfaces <= MAX_SURFACES,
        h.ptr_04 == -1,
        h.ptr_08 == -1,
        h.unk_0c == 0,
    ensures
        mesh_header_parse(mesh_header_bytes(h)) == Ok::<MeshHeader, VolitionError>(h),
{
    let b = mesh_header_bytes(h);
    assert(b.subrange(0x0, 0x2) =~= i16_bytes(h.unk_00));
    assert(b.subrange(0x2, 0x4) =~= u16_bytes(h.num_surfaces));
    assert(b.subrange(0x4, 0x8) =~= i32_bytes(-1i32));
    assert(b.subrange(0x8, 0xc) =~= i32_bytes(-1i32));
    assert(b.subrange(0xc, 0x10) =~= i32_bytes(0i32));
    lemma_i16_read_bytes(b, 0x0, h.unk_00);
    lemma_u16_read_bytes(b, 0x2, h.num_surfaces);
    lemma_i32_read_bytes(b, 0x4, -1i32);
    lemma_i32_read_bytes(b, 0x8, -1i32);
    lemma_i32_read_bytes(b, 0xc, 0i32);
}

// ---------------------------------------------------------------- Surface

/// What `Surface::from_le_bytes` gives for `b`.
pub open spec fn surface_parse(b: Seq<u8>) -> Result<Surface, VolitionError> {
    if b.len() < Surface::SIZE {
        Err(VolitionError::BufferTooSmall { for_what: "Surface", need: Surface::SIZE, avail: b.len() as usize })
    } else {
        Ok(
            Surface {
                vbuf: le_u32(b, 0x0),
                start_index: le_u32(b, 0x4),
                start_vertex: le_u32(b, 0x8),
                num_indices: le_u16(b, 0xc),
                material: le_u16(b, 0xe),
            },
        )
    }
}

/// The bytes of a surface.
pub open spec fn surface_bytes(s: Surface) -> Seq<u8> {
    u32_bytes(s.vbuf) + u32_bytes(s.start_index) + u32_bytes(s.start_vertex) + u16_bytes(s.num_indices) + u16_bytes(
        s.material,
    )
}

impl Surface {
    /// Size on disk.
    pub const SIZE: usize = 16;

    /// Decodes the surface at the start of `buf`.
    pub fn from_le_bytes(buf: &[u8]) -> (r: Result<Self, VolitionError>)
        ensures
            r == surface_parse(buf@),
    {
        check_fits_buf(buf, Self::SIZE, "Surface")?;
        Ok(
            Self {
                vbuf: read_u32_le(buf, 0x0),
                start_index: read_u32_le(buf, 0x4),
                start_vertex: read_u32_le(buf, 0x8),
                num_indices: read_u16_le(buf, 0xc),
                material: read_u16_le(buf, 0xe),
            },
        )
    }

    /// Encodes the surface.
    pub fn to_le_bytes(&self) -> (r: [u8; 16])
        ensures
            r@ == surface_bytes(*self),
    {
        let mut v = Vec::new();
        push_u32_le(&mut v, self.vbuf);
        push_u32_le(&mut v, self.start_index);
        push_u32_le(&mut v, self.start_vertex);
        push_u16_le(&mut v, self.num_indices);
        push_u16_le(&mut v, self.material);
        vec_to_array(&v)
    }
}

/// Writing back a surface that was read gives the bytes it was read from.
pub proof fn lemma_surface_write_after_read(b: Seq<u8>)
    requires
        surface_parse(b) is Ok,
    ensures
        surface_bytes(surface_parse(b)->Ok_0) == b.take(Surface::SIZE as int),
{
    lemma_u32_bytes_read(b, 0x0);
    lemma_u32_bytes_read(b, 0x4);
    lemma_u32_bytes_read(b, 0x8);
    lemma_u16_bytes_read(b, 0xc);
    lemma_u16_bytes_read(b, 0xe);
    assert(surface_bytes(surface_parse(b)->Ok_0) =~= b.take(Surface::SIZE as int));
}

/// Every surface reads back from its bytes as itself.
pub proof fn lemma_surface_read_after_write(s: Surface)
    ensures
        surface_parse(surface_bytes(s)) == Ok::<Surface, VolitionError>(s),
{
    let b = surface_bytes(s);
    assert(b.subrange(0x0, 0x4) =~= u32_bytes(s.vbuf));
    assert(b.subrange(0x4, 0x8) =~= u32_bytes(s.start_index));
    assert(b.subrange(0x8, 0xc) =~= u32_bytes(s.start_vertex));
    assert(b.subrange(0xc, 0xe) =~= u16_bytes(s.num_indices));
    assert(b.subrange(0xe, 0x10) =~= u16_bytes(s.material));
    lemma_u32_read_bytes(b, 0x0, s.vbuf);
    lemma_u32_read_bytes(b, 0x4, s.start_index);
    lemma_u32_read_bytes(b, 0x8, s.start_vertex);
    lemma_u16_read_bytes(b, 0xc, s.num_indices);
    lemma_u16_read_bytes(b, 0xe, s.material);
}

// ---------------------------------------------------------------- IndexBuffer

/// What `IndexBuffer::from_le_bytes` gives for `b`.
pub open spec fn index_buffer_parse(b: Seq<u8>) -> Result<IndexBuffer, VolitionError> {
    if b.len() < IndexBuffer::SIZE {
        Err(VolitionError::BufferTooSmall { for_what: "IndexBuffer", need: IndexBuffer::SIZE, avail: b.len() as usize })
    } else if le_i32(b, 0x8) != -1 {
        Err(VolitionError::ExpectedExactValue { field: "IndexBuffer::runtime_08", expected: -1i32, got: le_i32(b, 0x8) })
    } else if le_i32(b, 0xc) != -1 {
        Err(VolitionError::ExpectedExactValue { field: "IndexBuffer::runtime_0c", expected: -1i32, got: le_i32(b, 0xc) })
    } else if le_u32(b, 0x10) != 0 {
        Err(VolitionError::ExpectedExactValue { field: "IndexBuffer::runtime_10", expected: 0i32, got: i32_of_bits(le_u32(b, 0x10)) })
    } else {
        Ok(
            IndexBuffer {
                mesh_type: le_i16(b, 0x0),
                num_vertex_buffers: le_u16(b, 0x2),
                num_indices: le_u32(b, 0x4),
                runtime_08: le_i32(b, 0x8),
                runtime_0c: le_i32(b, 0xc),
                runtime_10: le_u32(b, 0x10),
            },
        )
    }
}

/// The bytes of an index buffer header; the runtime fields are written as -1, -1 and 0.
pub open spec fn index_buffer_bytes(h: IndexBuffer) -> Seq<u8> {
    i16_bytes(h.mesh_type) + u16_bytes(h.num_vertex_buffers) + u32_bytes(h.num_indices) + i32_bytes(-1i32)
        + i32_bytes(-1i32) + i32_bytes(0i32)
}

impl IndexBuffer {
    /// Size on disk.
    pub const SIZE: usize = 20;

    /// Decodes the header at the start of `buf`.
    pub fn from_le_bytes(buf: &[u8]) -> (r: Result<Self, VolitionError>)
        ensures
            r == index_buffer_parse(buf@),
    {
        check_fits_buf(buf, Self::SIZE, "IndexBuffer")?;

        let runtime_08 = read_i32_le(buf, 0x8);
        if runtime_08 != -1 {
            return Err(VolitionError::ExpectedExactValue { field: "IndexBuffer::runtime_08", expected: -1, got: runtime_08 });
        }

        let runtime_0c = read_i32_le(buf, 0xc);
        if runtime_0c != -1 {
            return Err(VolitionError::ExpectedExactValue { field: "IndexBuffer::runtime_0c", expected: -1, got: runtime_0c });
        }

        let runtime_10 = read_u32_le(buf, 0x10);
        if runtime_10 != 0 {
            return Err(VolitionError::ExpectedExactValue {
                field: "IndexBuffer::runtime_10",
                expected: 0,
                got: crate::util::i32_from_bits(runtime_10),
            });
        }

        Ok(
            Self {
                mesh_type: read_i16_le(buf, 0x0),
                num_vertex_buffers: read_u16_le(buf, 0x2),
                num_indices: read_u32_le(buf, 0x4),
                runtime_08,
                runtime_0c,
                runtime_10,
            },
        )
    }

    /// Encodes the header.
    pub fn to_le_bytes(&self) -> (r: [u8; 20])
        ensures
            r@ == index_buffer_bytes(*self),
    {
        let mut v = Vec::new();
        push_i16_le(&mut v, self.mesh_type);
        push_u16_le(&mut v, self.num_vertex_buffers);
        push_u32_le(&mut v, self.num_indices);
        push_i32_le(&mut v, -1);
        push_i32_le(&mut v, -1);
        push_i32_le(&mut v, 0);
        vec_to_array(&v)
    }
}

/// Writing back an index buffer header that was read gives the bytes it was read from.
pub proof fn lemma_index_buffer_write_after_read(b: Seq<u8>)
    requires
        index_buffer_parse(b) is Ok,
    ensures
        index_buffer_bytes(index_buffer_parse(b)->Ok_0) == b.take(IndexBuffer::SIZE as int),
{
    lemma_i16_bytes_read(b, 0x0);
    lemma_u16_bytes_read(b, 0x2);
    lemma_u32_bytes_read(b, 0x4);
    lemma_i32_bytes_read(b, 0x8);
    lemma_i32_bytes_read(b, 0xc);
    lemma_u32_bytes_read(b, 0x10);
    assert(i32_bytes(0i32) == u32_bytes(0u32));
    assert(index_buffer_bytes(index_buffer_parse(b)->Ok_0) =~= b.take(IndexBuffer::SIZE as int));
}

/// An index buffer header with its runtime fields set reads back from its bytes as itself.
pub proof fn lemma_index_buffer_read_after_write(h: IndexBuffer)
    requires
        h.runtime_08 == -1,
        h.runtime_0c == -1,
        h.runtime_10 == 0,
    ensures
        index_buffer_parse(index_buffer_bytes(h)) == Ok::<IndexBuffer, VolitionError>(h),
{
    let b = index_buffer_bytes(h);
    assert(b.subrange(0x0, 0x2) =~= i16_bytes(h.mesh_type));
    assert(b.subrange(0x2, 0x4) =~= u16_bytes(h.num_vertex_buffers));
    assert(b.subrange(0x4, 0x8) =~= u32_bytes(h.num_indices));
    assert(b.subrange(0x8, 0xc) =~= i32_bytes(-1i32));
    assert(b.subrange(0xc, 0x10) =~= i32_bytes(-1i32));
    assert(b.subrange(0x10, 0x14) =~= u32_bytes(0u32));
    lemma_i16_read_bytes(b, 0x0, h.mesh_type);
    lemma_u16_read_bytes(b, 0x2, h.num_vertex_buffers);
    lemma_u32_read_bytes(b, 0x4, h.num_indices);
    lemma_i32_read_bytes(b, 0x8, -1i32);
    lemma_i32_read_bytes(b, 0xc, -1i32);
    lemma_u32_read_bytes(b, 0x10, 0u32);
}

// ---------------------------------------------------------------- VertexBuffer

/// Bytes of bone, normal and unknown data in a vertex with attribute flags `attr`.
pub open spec fn spec_attr_len(attr: u8) -> int {
    (if attr & V_ATTR_FLAG_BONES != 0 { 8int } else { 0int }) + (if attr & V_ATTR_FLAG_NORMAL != 0 { 4int } else { 0int })
        + (if attr & V_ATTR_FLAG_UNK != 0 { 8int } else { 0int })
}

/// The vertex stride that the attribute flags and UV channel count call for.
pub open spec fn expected_stride(attr: u8, num_uvs: u8) -> int {
    12 + spec_attr_len(attr) + 4 * num_uvs
}

/// What `VertexBuffer::from_le_bytes` gives for `b`.
pub open spec fn vertex_buffer_parse(b: Seq<u8>) -> Result<VertexBuffer, VolitionError> {
    if b.len() < VertexBuffer::SIZE {
        Err(VolitionError::BufferTooSmall { for_what: "VertexBuffer", need: VertexBuffer::SIZE, avail: b.len() as usize })
    } else if b[0] > 5 {
        Err(VolitionError::UnexpectedValue { desc: "VertexBuffer::attr unknown type", got: b[0] as i32 })
    } else if b[1] > MAX_UVS {
        Err(VolitionError::UnexpectedValue { desc: "MeshHeader::num_uvs higher than expected", got: b[1] as i32 })
    } else if le_u16(b, 0x2) != expected_stride(b[0], b[1]) {
        Err(
            VolitionError::ExpectedExactValue {
                field: "VertexBuffer::stride (calculated from format)",
                expected: expected_stride(b[0], b[1]) as i32,
                got: (expected_stride(b[0], b[1]) - le_u16(b, 0x2)) as i32,
            },
        )
    } else if le_i32(b, 0x8) != -1 {
        Err(VolitionError::ExpectedExactValue { field: "VertexBuffer::ptr_render_data", expected: -1i32, got: le_i32(b, 0x8) })
    } else if le_i32(b, 0xc) != 0 {
        Err(VolitionError::ExpectedExactValue { field: "VertexBuffer::unk_0c", expected: 0i32, got: le_i32(b, 0xc) })
    } else {
        Ok(
            VertexBuffer {
                attributes: b[0],
                num_uv_channels: b[1],
                stride: le_u16(b, 0x2),
                num_vertices: le_u32(b, 0x4),
                ptr_render_data: le_i32(b, 0x8),
                unk_0c: le_i32(b, 0xc),
            },
        )
    }
}

/// The bytes of a vertex buffer header; the fixed fields are written as -1 and 0.
pub open spec fn vertex_buffer_bytes(h: VertexBuffer) -> Seq<u8> {
    seq![h.attributes, h.num_uv_channels] + u16_bytes(h.stride) + u32_bytes(h.num_vertices) + i32_bytes(-1i32)
        + i32_bytes(0i32)
}

/// Bytes of bone, normal and unknown data in a vertex with attribute flags `attr`.
pub fn vertex_attr_len(attr: u8) -> (r: usize)
    ensures
        r == spec_attr_len(attr),
{
    let mut attr_len: usize = 0;
    if attr & V_ATTR_FLAG_BONES != 0 {
        attr_len += 8;
    }
    if attr & V_ATTR_FLAG_NORMAL != 0 {
        attr_len += 4;
    }
    if attr & V_ATTR_FLAG_UNK != 0 {
        attr_len += 8;
    }
    attr_len
}

impl VertexBuffer {
    /// Size on disk.
    pub const SIZE: usize = 16;

    pub fn has_bones(&self) -> (r: bool)
        ensures
            r == (self.attributes & V_ATTR_FLAG_BONES != 0),
    {
        self.attributes & V_ATTR_FLAG_BONES != 0
    }

    pub fn has_normals(&self) -> (r: bool)
        ensures
            r == (self.attributes & V_ATTR_FLAG_NORMAL != 0),
    {
        self.attributes & V_ATTR_FLAG_NORMAL != 0
    }

    /// maybe morph
    pub fn has_unk_attr(&self) -> (r: bool)
        ensures
            r == (self.attributes & V_ATTR_FLAG_UNK != 0),
    {
        self.attributes & V_ATTR_FLAG_UNK != 0
    }

    /// Offset of the normal within a vertex.
    pub fn off_normal(&self) -> (r: usize)
        ensures
            r == if self.attributes & V_ATTR_FLAG_BONES != 0 { 20int } else { 12int },
    {
        if self.has_bones() {
            12 + 8
        } else {
            12
        }
    }

    /// Offset of the first UV pair within a vertex.
    pub fn off_uv(&self) -> (r: usize)
        ensures
            r == 12 + spec_attr_len(self.attributes),
    {
        let mut off: usize = 12;
        if self.has_bones() {
            off += 8
        };
        if self.has_normals() {
            off += 4
        };
        if self.has_unk_attr() {
            off += 8
        };
        off
    }

    /// Bytes of bone, normal and unknown data in a vertex.
    pub fn attr_len(&self) -> (r: usize)
        ensures
            r == spec_attr_len(self.attributes),
    {
        vertex_attr_len(self.attributes)
    }

    /// Decodes the header at the start of `buf`.
    pub fn from_le_bytes(buf: &[u8]) -> (r: Result<Self, VolitionError>)
        ensures
            r == vertex_buffer_parse(buf@),
    {
        check_fits_buf(buf, Self::SIZE, "VertexBuffer")?;

        let attributes = buf[0];
        if attributes > 5 {
            return Err(VolitionError::UnexpectedValue { desc: "VertexBuffer::attr unknown type", got: attributes as i32 });
        }

        let num_uv_channels = buf[1];

        if num_uv_channels > MAX_UVS {
            return Err(
                VolitionError::UnexpectedValue { desc: "MeshHeader::num_uvs higher than expected", got: num_uv_channels as i32 },
            );
        }

        let stride = read_u16_le(buf, 0x2);

        let uv_len = (num_uv_channels as usize) * 4;
        let expected_stride = 12 + vertex_attr_len(attributes) + uv_len;

        if stride as usize != expected_stride {
            return Err(VolitionError::ExpectedExactValue {
                field: "VertexBuffer::stride (calculated from format)",
                expected: expected_stride as i32,
                got: expected_stride as i32 - stride as i32,
            });
        }

        let ptr_render_data = read_i32_le(buf, 0x8);
        if ptr_render_data != -1 {
            return Err(
                VolitionError::ExpectedExactValue { field: "VertexBuffer::ptr_render_data", expected: -1, got: ptr_render_data },
            );
        }

        let unk_0c = read_i32_le(buf, 0xc);
        if unk_0c != 0 {
            return Err(VolitionError::ExpectedExactValue { field: "VertexBuffer::unk_0c", expected: 0, got: unk_0c });
        }

        Ok(Self { attributes, num_uv_channels, stride, num_vertices: read_u32_le(buf, 0x4), ptr_render_data, unk_0c })
    }

    /// Encodes the header.
    pub fn to_le_bytes(&self) -> (r: [u8; 16])
        ensures
            r@ == vertex_buffer_bytes(*self),
    {
        let mut v = Vec::new();
        v.push(self.attributes);
        v.push(self.num_uv_channels);
        push_u16_le(&mut v, self.stride);
        push_u32_le(&mut v, self.num_vertices);
        push_i32_le(&mut v, -1);
        push_i32_le(&mut v, 0);
        assert(v@ =~= vertex_buffer_bytes(*self));
        vec_to_array(&v)
    }
}

/// Writing back a vertex buffer header that was read gives the bytes it was read from.
pub proof fn lemma_vertex_buffer_write_after_read(b: Seq<u8>)
    requires
        vertex_buffer_parse(b) is Ok,
    ensures
        vertex_buffer_bytes(vertex_buffer_parse(b)->Ok_0) == b.take(VertexBuffer::SIZE as int),
{
    lemma_u16_bytes_read(b, 0x2);
    lemma_u32_bytes_read(b, 0x4);
    lemma_i32_bytes_read(b, 0x8);
    lemma_i32_bytes_read(b, 0xc);
    assert(vertex_buffer_bytes(vertex_buffer_parse(b)->Ok_0) =~= b.take(VertexBuffer::SIZE as int));
}

/// A vertex buffer header that passes the format checks reads back from its bytes as itself.
pub proof fn lemma_vertex_buffer_read_after_write(h: VertexBuffer)
    requires
        h.attributes <= 5,
        h.num_uv_channels <= MAX_UVS,
        h.stride == expected_stride(h.attributes, h.num_uv_channels),
        h.ptr_render_data == -1,
        h.unk_0c == 0,
    ensures
        vertex_buffer_parse(vertex_buffer_bytes(h)) == Ok::<VertexBuffer, VolitionError>(h),
{
    let b = vertex_buffer_bytes(h);
    assert(b.subrange(0x2, 0x4) =~= u16_bytes(h.stride));
    assert(b.subrange(0x4, 0x8) =~= u32_bytes(h.num_vertices));
    assert(b.subrange(0x8, 0xc) =~= i32_bytes(-1i32));
    assert(b.subrange(0xc, 0x10) =~= i32_bytes(0i32));
    lemma_u16_read_bytes(b, 0x2, h.stride);
    lemma_u32_read_bytes(b, 0x4, h.num_vertices);
    lemma_i32_read_bytes(b, 0x8, -1i32);
    lemma_i32_read_bytes(b, 0xc, 0i32);
}

// ---------------------------------------------------------------- LodMeshHeader

/// What `LodMeshHeader::from_le_bytes` gives for `b`.
pub open spec fn lod_mesh_header_parse(b: Seq<u8>) -> Result<LodMeshHeader, VolitionError> {
    if b.len() < LodMeshHeader::SIZE {
        Err(VolitionError::BufferTooSmall { for_what: "LodMeshHeader", need: LodMeshHeader::SIZE, avail: b.len() as usize })
    } else if le_u32(b, 0x1c) > MAX_LODS {
        Err(VolitionError::ValueTooHigh { field: "MeshHeader::num_lods", max: MAX_LODS as usize, got: le_u32(b, 0x1c) as usize })
    } else if le_u32(b, 0x1c) == 0 {
        Err(VolitionError::UnexpectedValue { desc: "MeshHeader::num_lods cannot be zero", got: 0i32 })
    } else if le_i32(b, 0x20) != -1 {
        Err(VolitionError::ExpectedExactValue { field: "MeshHeader::ptr_gpu", expected: -1i32, got: le_i32(b, 0x20) })
    } else if le_i32(b, 0x24) != 0 && le_i32(b, 0x24) != -1 {
        Err(VolitionError::UnexpectedValue { desc: "MeshHeader::ptr_cpu should be either -1 or 0", got: le_i32(b, 0x24) })
    } else {
        Ok(
            LodMeshHeader {
                bbox: aabb_at(b, 0),
                flags: le_i32(b, 0x18),
                num_lods: le_u32(b, 0x1c),
                ptr_gpu: le_i32(b, 0x20),
                ptr_cpu: le_i32(b, 0x24),
            },
        )
    }
}

/// The bytes of a LOD mesh header.
pub open spec fn lod_mesh_header_bytes(h: LodMeshHeader) -> Seq<u8> {
    aabb_bytes(h.bbox) + i32_bytes(h.flags) + u32_bytes(h.num_lods) + i32_bytes(h.ptr_gpu) + i32_bytes(h.ptr_cpu)
}

impl LodMeshHeader {
    /// Size on disk.
    pub const SIZE: usize = 40;

    /// Decodes the header at the start of `buf`.
    pub fn from_le_bytes(buf: &[u8]) -> (r: Result<Self, VolitionError>)
        ensures
            r == lod_mesh_header_parse(buf@),
    {
        check_fits_buf(buf, Self::SIZE, "LodMeshHeader")?;
        let num_lods = read_u32_le(buf, 0x1c);
        if num_lods > MAX_LODS {
            return Err(VolitionError::ValueTooHigh {
                field: "MeshHeader::num_lods",
                max: MAX_LODS as usize,
                got: num_lods as usize,
            });
        }

        if num_lods == 0 {
            return Err(VolitionError::UnexpectedValue { desc: "MeshHeader::num_lods cannot be zero", got: num_lods as i32 });
        }

        let ptr_gpu = read_i32_le(buf, 0x20);
        if ptr_gpu != -1 {
            return Err(VolitionError::ExpectedExactValue { field: "MeshHeader::ptr_gpu", expected: -1, got: ptr_gpu });
        }

        let ptr_cpu = read_i32_le(buf, 0x24);
        if ptr_cpu != 0 && ptr_cpu != -1 {
            return Err(
                VolitionError::UnexpectedValue { desc: "MeshHeader::ptr_cpu should be either -1 or 0", got: ptr_cpu },
            );
        }

        Ok(Self { bbox: AABB::read_at(buf, 0)?, flags: read_i32_le(buf, 0x18), num_lods, ptr_gpu, ptr_cpu })
    }

    /// Encodes the header.
    pub fn to_le_bytes(&self) -> (r: [u8; 40])
        ensures
            r@ == lod_mesh_header_bytes(*self),
    {
        let mut v = Vec::new();
        let bbox = self.bbox.to_le_bytes();
        v.extend_from_slice(bbox.as_slice());
        push_i32_le(&mut v, self.flags);
        push_u32_le(&mut v, self.num_lods);
        push_i32_le(&mut v, self.ptr_gpu);
        push_i32_le(&mut v, self.ptr_cpu);
        vec_to_array(&v)
    }

    /// Whether the CPU-side (shadow) geometry is present.
    pub fn has_cpu_geometry(&self) -> (r: bool)
        ensures
            r == (self.ptr_cpu == -1),
    {
        self.ptr_cpu == -1
    }
}

/// Writing back a LOD mesh header that was read gives the bytes it was read from.
pub proof fn lemma_lod_mesh_header_write_after_read(b: Seq<u8>)
    requires
        lod_mesh_header_parse(b) is Ok,
    ensures
        lod_mesh_header_bytes(lod_mesh_header_parse(b)->Ok_0) == b.take(LodMeshHeader::SIZE as int),
{
    let h = lod_mesh_header_parse(b)->Ok_0;
    lemma_vector_roundtrip(b, 0, h.bbox.min);
    lemma_vector_roundtrip(b, 12, h.bbox.max);
    lemma_i32_bytes_read(b, 0x18);
    lemma_u32_bytes_read(b, 0x1c);
    lemma_i32_bytes_read(b, 0x20);
    lemma_i32_bytes_read(b, 0x24);
    assert(lod_mesh_header_bytes(h) =~= b.take(LodMeshHeader::SIZE as int));
}

/// A LOD mesh header that passes the format checks reads back from its bytes as itself.
pub proof fn lemma_lod_mesh_header_read_after_write(h: LodMeshHeader)
    requires
        0 < h.num_lods <= MAX_LODS,
        h.ptr_gpu == -1,
        h.ptr_cpu == 0 || h.ptr_cpu == -1,
    ensures
        lod_mesh_header_parse(lod_mesh_header_bytes(h)) == Ok::<LodMeshHeader, VolitionError>(h),
{
    let b = lod_mesh_header_bytes(h);
    assert(b.subrange(0, 12) =~= crate::geometry::vector_bytes(h.bbox.min));
    assert(b.subrange(12, 24) =~= crate::geometry::vector_bytes(h.bbox.max));
    lemma_vector_roundtrip(b, 0, h.bbox.min);
    lemma_vector_roundtrip(b, 12, h.bbox.max);
    assert(b.subrange(0x18, 0x1c) =~= i32_bytes(h.flags));
    assert(b.subrange(0x1c, 0x20) =~= u32_bytes(h.num_lods));
    assert(b.subrange(0x20, 0x24) =~= i32_bytes(h.ptr_gpu));
    assert(b.subrange(0x24, 0x28) =~= i32_bytes(h.ptr_cpu));
    lemma_i32_read_bytes(b, 0x18, h.flags);
    lemma_u32_read_bytes(b, 0x1c, h.num_lods);
    lemma_i32_read_bytes(b, 0x20, h.ptr_gpu);
    lemma_i32_read_bytes(b, 0x24, h.ptr_cpu);
}

/// `surface_parse` as a value.
pub open spec fn surface_parser() -> spec_fn(Seq<u8>) -> Result<Surface, VolitionError> {
    |b: Seq<u8>| surface_parse(b)
}

impl MeshHeader {
    /// Decodes the `num_surfaces` surfaces at `*data_offset`, moving the offset
    /// past each one that decodes.
    pub fn read_surfaces(&self, buf: &[u8], data_offset: &mut usize) -> (r: Result<Vec<Surface>, VolitionError>)
        requires
            !(repeat_parse(buf@, *old(data_offset) as int, self.num_surfaces as nat, Surface::SIZE as int, surface_parser()) is Panic),
        ensures
            match repeat_parse(buf@, *old(data_offset) as int, self.num_surfaces as nat, Surface::SIZE as int, surface_parser()) {
                Parsed::Done(items, o) => r matches Ok(v) && v@ == items && *final(data_offset) == o,
                Parsed::Failed(e, o) => r == Err::<Vec<Surface>, VolitionError>(e) && *final(data_offset) == o,
                Parsed::Panic => false,
            },
    {
        let ghost start = *data_offset as int;
        let ghost parse = surface_parser();
        let n = self.num_surfaces as usize;
        let mut surfaces: Vec<Surface> = Vec::new();
        let mut i: usize = 0;
        while i < n
            invariant
                i <= n,
                n == self.num_surfaces,
                parse == surface_parser(),
                start == *old(data_offset) as int,
                !(repeat_parse(buf@, start, n as nat, Surface::SIZE as int, parse) is Panic),
                repeat_parse(buf@, start, i as nat, Surface::SIZE as int, parse) == Parsed::Done(surfaces@, *data_offset as int),
            decreases n - i,
        {
            if *data_offset > buf.len() {
                proof {
                    lemma_repeat_parse_stops(buf@, start, (i + 1) as nat, n as nat, Surface::SIZE as int, parse);
                }
                assert(false);
            }
            let rest = &buf[*data_offset..buf.len()];
            assert(rest@ == buf@.skip(*data_offset as int));
            match Surface::from_le_bytes(rest) {
                Ok(s) => {
                    assert(parse(rest@) == surface_parse(rest@));
                    surfaces.push(s);
                    *data_offset = *data_offset + Surface::SIZE;
                },
                Err(e) => {
                    proof {
                        assert(parse(rest@) == surface_parse(rest@));
                        assert(repeat_parse(buf@, start, (i + 1) as nat, Surface::SIZE as int, parse)
                            == Parsed::<Seq<Surface>>::Failed(e, *data_offset as int));
                        lemma_repeat_parse_stops(buf@, start, (i + 1) as nat, n as nat, Surface::SIZE as int, parse);
                    }
                    return Err(e);
                },
            }
            i = i + 1;
        }
        Ok(surfaces)
    }
}

// ---------------------------------------------------------------- decoded meshes

/// Deserialized geometry of one level of detail.
#[derive(Debug, Clone)]
pub struct Mesh {
    pub surface_header: MeshHeader,
    pub surfaces: Vec<Surface>,
    pub index_header: IndexBuffer,
    pub vertex_headers: Vec<VertexBuffer>,
}

/// The contents of a `Mesh`.
pub struct MeshView {
    pub surface_header: MeshHeader,
    pub surfaces: Seq<Surface>,
    pub index_header: IndexBuffer,
    pub vertex_headers: Seq<VertexBuffer>,
}

impl View for Mesh {
    type V = MeshView;

    open spec fn view(&self) -> MeshView {
        MeshView {
            surface_header: self.surface_header,
            surfaces: self.surfaces@,
            index_header: self.index_header,
            vertex_headers: self.vertex_headers@,
        }
    }
}

/// Deserialized level of detail.
#[derive(Debug, Clone)]
pub struct LodMeshData {
    /// Headers for geometry that lives in VRAM
    pub gpu_geometry: Mesh,
    /// Headers for geometry that lives in CPU RAM
    /// Purpose unknown, sometimes not present
    /// Always has exactly one vertex buffer
    /// Never has UV channels. Only possible extra attribute is bones.
    /// If exists, number of surfaces matches gpu data
    pub cpu_geometry: Option<Mesh>,
    pub unk_20b: Option<[u8; 20]>,
    /// CPU vertex buffer in raw bytes. Empty if `cpu` == `None`
    /// Format is always 3xf32 coords only
    pub cpu_vdata: Vec<u8>,
    /// CPU index buffer in raw bytes. Empty if `cpu` == `None`
    /// Format is always u16 tri-strip
    pub cpu_idata: Vec<u8>,
}

/// The contents of a `LodMeshData`.
pub struct LodMeshDataView {
    pub gpu_geometry: MeshView,
    pub cpu_geometry: Option<MeshView>,
    pub unk_20b: Option<Seq<u8>>,
    pub cpu_vdata: Seq<u8>,
    pub cpu_idata: Seq<u8>,
}

impl View for LodMeshData {
    type V = LodMeshDataView;

    open spec fn view(&self) -> LodMeshDataView {
        LodMeshDataView {
            gpu_geometry: self.gpu_geometry@,
            cpu_geometry: match self.cpu_geometry {
                Some(m) => Some(m@),
                None => None,
            },
            unk_20b: match self.unk_20b {
                Some(u) => Some(u@),
                None => None,
            },
            cpu_vdata: self.cpu_vdata@,
            cpu_idata: self.cpu_idata@,
        }
    }
}

/// `mesh_header_parse` as a value.
pub open spec fn mesh_header_parser() -> spec_fn(Seq<u8>) -> Result<MeshHeader, VolitionError> {
    |b: Seq<u8>| mesh_header_parse(b)
}

/// `vertex_buffer_parse` as a value.
pub open spec fn vertex_buffer_parser() -> spec_fn(Seq<u8>) -> Result<VertexBuffer, VolitionError> {
    |b: Seq<u8>| vertex_buffer_parse(b)
}

/// The mesh headers at `off`.
pub fn read_mesh_headers(buf: &[u8], data_offset: &mut usize, n: usize) -> (r: Result<Vec<MeshHeader>, VolitionError>)
    requires
        !(repeat_parse(buf@, *old(data_offset) as int, n as nat, MeshHeader::SIZE as int, mesh_header_parser()) is Panic),
    ensures
        match repeat_parse(buf@, *old(data_offset) as int, n as nat, MeshHeader::SIZE as int, mesh_header_parser()) {
            Parsed::Done(items, o) => r matches Ok(v) && v@ == items && *final(data_offset) == o,
            Parsed::Failed(e, o) => r == Err::<Vec<MeshHeader>, VolitionError>(e) && *final(data_offset) == o,
            Parsed::Panic => false,
        },
{
    let ghost start = *data_offset as int;
    let ghost parse = mesh_header_parser();
    let mut items: Vec<MeshHeader> = Vec::new();
    let mut i: usize = 0;
    while i < n
        invariant
            i <= n,
            parse == mesh_header_parser(),
            start == *old(data_offset) as int,
            !(repeat_parse(buf@, start, n as nat, MeshHeader::SIZE as int, parse) is Panic),
            repeat_parse(buf@, start, i as nat, MeshHeader::SIZE as int, parse) == Parsed::Done(items@, *data_offset as int),
        decreases n - i,
    {
        if *data_offset > buf.len() {
            proof {
                lemma_repeat_parse_stops(buf@, start, (i + 1) as nat, n as nat, MeshHeader::SIZE as int, parse);
            }
            assert(false);
        }
        let rest = &buf[*data_offset..buf.len()];
        assert(rest@ == buf@.skip(*data_offset as int));
        assert(parse(rest@) == mesh_header_parse(rest@));
        match MeshHeader::from_le_bytes(rest) {
            Ok(h) => {
                items.push(h);
                *data_offset = *data_offset + MeshHeader::SIZE;
            },
            Err(e) => {
                proof {
                    assert(repeat_parse(buf@, start, (i + 1) as nat, MeshHeader::SIZE as int, parse)
                        == Parsed::<Seq<MeshHeader>>::Failed(e, *data_offset as int));
                    lemma_repeat_parse_stops(buf@, start, (i + 1) as nat, n as nat, MeshHeader::SIZE as int, parse);
                }
                return Err(e);
            },
        }
        i = i + 1;
    }
    Ok(items)
}

/// The vertex buffer headers at `off`.
pub fn read_vertex_buffers(buf: &[u8], data_offset: &mut usize, n: usize) -> (r: Result<Vec<VertexBuffer>, VolitionError>)
    requires
        !(repeat_parse(buf@, *old(data_offset) as int, n as nat, VertexBuffer::SIZE as int, vertex_buffer_parser()) is Panic),
    ensures
        match repeat_parse(buf@, *old(data_offset) as int, n as nat, VertexBuffer::SIZE as int, vertex_buffer_parser()) {
            Parsed::Done(items, o) => r matches Ok(v) && v@ == items && *final(data_offset) == o,
            Parsed::Failed(e, o) => r == Err::<Vec<VertexBuffer>, VolitionError>(e) && *final(data_offset) == o,
            Parsed::Panic => false,
        },
{
    let ghost start = *data_offset as int;
    let ghost parse = vertex_buffer_parser();
    let mut items: Vec<VertexBuffer> = Vec::new();
    let mut i: usize = 0;
    while i < n
        invariant
            i <= n,
            parse == vertex_buffer_parser(),
            start == *old(data_offset) as int,
            !(repeat_parse(buf@, start, n as nat, VertexBuffer::SIZE as int, parse) is Panic),
            repeat_parse(buf@, start, i as nat, VertexBuffer::SIZE as int, parse) == Parsed::Done(items@, *data_offset as int),
        decreases n - i,
    {
        if *data_offset > buf.len() {
            proof {
                lemma_repeat_parse_stops(buf@, start, (i + 1) as nat, n as nat, VertexBuffer::SIZE as int, parse);
            }
            assert(false);
        }
        let rest = &buf[*data_offset..buf.len()];
        assert(rest@ == buf@.skip(*data_offset as int));
        assert(parse(rest@) == vertex_buffer_parse(rest@));
        match VertexBuffer::from_le_bytes(rest) {
            Ok(h) => {
                items.push(h);
                *data_offset = *data_offset + VertexBuffer::SIZE;
            },
            Err(e) => {
                proof {
                    assert(repeat_parse(buf@, start, (i + 1) as nat, VertexBuffer::SIZE as int, parse)
                        == Parsed::<Seq<VertexBuffer>>::Failed(e, *data_offset as int));
                    lemma_repeat_parse_stops(buf@, start, (i + 1) as nat, n as nat, VertexBuffer::SIZE as int, parse);
                }
                return Err(e);
            },
        }
        i = i + 1;
    }
    Ok(items)
}

// ---------------------------------------------------------------- read_data, specified

/// The optional 20 unknown bytes that precede the mesh headers, and the
/// 16-aligned offset after them.
pub open spec fn lod_prefix(buf: Seq<u8>, off: int, unk_2c: i32) -> Parsed<Option<Seq<u8>>> {
    let o = if unk_2c != 0 { off + 20 } else { off };
    if unk_2c != 0 && off + 20 > buf.len() {
        Parsed::Panic
    } else if round_up(o, 16) > usize::MAX {
        Parsed::Panic
    } else {
        Parsed::Done(if unk_2c != 0 { Some(buf.subrange(off, off + 20)) } else { None }, round_up(o, 16))
    }
}

/// The CPU-side mesh headers, present when `has_cpu` holds.
pub open spec fn cpu_headers_parse(buf: Seq<u8>, off: int, n: nat, has_cpu: bool) -> Parsed<Option<Seq<MeshHeader>>> {
    if has_cpu {
        match repeat_parse(buf, off, n, MeshHeader::SIZE as int, mesh_header_parser()) {
            Parsed::Done(hs, o) => Parsed::Done(Some(hs), o),
            Parsed::Failed(e, o) => Parsed::Failed(e, o),
            Parsed::Panic => Parsed::Panic,
        }
    } else {
        Parsed::Done(None, off)
    }
}

/// The `vbuf` of the first surface that does not use vertex buffer 0.
pub open spec fn first_bad_vbuf(cs: Seq<Surface>) -> Option<u32>
    decreases cs.len(),
{
    if cs.len() == 0 {
        None
    } else if cs[0].vbuf != 0 {
        Some(cs[0].vbuf)
    } else {
        first_bad_vbuf(cs.drop_first())
    }
}

/// The surfaces of the first `k` levels: GPU surfaces, then CPU surfaces when
/// there are CPU headers.  CPU surfaces must all use vertex buffer 0.
pub open spec fn lod_surfaces(
    buf: Seq<u8>,
    off: int,
    gh: Seq<MeshHeader>,
    ch: Option<Seq<MeshHeader>>,
    k: nat,
) -> Parsed<Seq<(Seq<Surface>, Option<Seq<Surface>>)>>
    decreases k,
{
    if k == 0 {
        Parsed::Done(Seq::empty(), off)
    } else {
        match lod_surfaces(buf, off, gh, ch, (k - 1) as nat) {
            Parsed::Done(items, o) => match repeat_parse(
                buf,
                o,
                gh[k - 1].num_surfaces as nat,
                Surface::SIZE as int,
                surface_parser(),
            ) {
                Parsed::Done(gs, o2) => match ch {
                    None => Parsed::Done(items.push((gs, None)), o2),
                    Some(chs) => if chs[k - 1].num_surfaces != gh[k - 1].num_surfaces {
                        Parsed::Failed(
                            VolitionError::ExpectedExactValue {
                                field: "MeshHeader::num_surfaces (cpu)",
                                expected: gh[k - 1].num_surfaces as i32,
                                got: chs[k - 1].num_surfaces as i32,
                            },
                            o2,
                        )
                    } else {
                        match repeat_parse(
                        buf,
                        o2,
                        chs[k - 1].num_surfaces as nat,
                        Surface::SIZE as int,
                        surface_parser(),
                    ) {
                        Parsed::Done(cs, o3) => match first_bad_vbuf(cs) {
                            Some(v) => Parsed::Failed(
                                VolitionError::ExpectedExactValue {
                                    field: "Surface::vbuf (cpu)",
                                    expected: 0i32,
                                    got: i32_of_bits(v),
                                },
                                o3,
                            ),
                            None => Parsed::Done(items.push((gs, Some(cs))), o3),
                        },
                        Parsed::Failed(e, o) => Parsed::Failed(e, o),
                        Parsed::Panic => Parsed::Panic,
                    }
                    },
                },
                Parsed::Failed(e, o) => Parsed::Failed(e, o),
                Parsed::Panic => Parsed::Panic,
            },
            Parsed::Failed(e, o) => Parsed::Failed(e, o),
            Parsed::Panic => Parsed::Panic,
        }
    }
}

/// The GPU index buffer header, at the next 4-aligned offset, and its vertex buffer headers.
pub open spec fn gpu_buffers_parse(buf: Seq<u8>, off: int) -> Parsed<(IndexBuffer, Seq<VertexBuffer>)> {
    let o1 = round_up(off, 4);
    if o1 > usize::MAX || o1 > buf.len() {
        Parsed::Panic
    } else {
        match index_buffer_parse(buf.skip(o1)) {
            Err(e) => Parsed::Failed(e, o1),
            Ok(ib) => if ib.mesh_type != 0 {
                Parsed::Failed(
                    VolitionError::ExpectedExactValue { field: "MeshData::mesh_type (gpu)", expected: 0i32, got: ib.mesh_type as i32 },
                    o1 + IndexBuffer::SIZE,
                )
            } else {
                match repeat_parse(
                    buf,
                    o1 + IndexBuffer::SIZE,
                    ib.num_vertex_buffers as nat,
                    VertexBuffer::SIZE as int,
                    vertex_buffer_parser(),
                ) {
                    Parsed::Done(vh, o2) => Parsed::Done((ib, vh), o2),
                    Parsed::Failed(e, o) => Parsed::Failed(e, o),
                    Parsed::Panic => Parsed::Panic,
                }
            },
        }
    }
}

/// The CPU vertex and index data: the vertex data starts at the next 16-aligned
/// offset and takes its length rounded up to 16; two bytes per index follow.
pub open spec fn cpu_data_parse(buf: Seq<u8>, off: int, ib: IndexBuffer, vh: VertexBuffer) -> Parsed<(Seq<u8>, Seq<u8>)> {
    let o4 = round_up(off, 16);
    let raw = vh.num_vertices * vh.stride;
    let lv = round_up(raw, 16);
    let li = ib.num_indices * 2;
    if o4 > usize::MAX || raw > usize::MAX || lv > usize::MAX || o4 + lv > usize::MAX || o4 + lv > buf.len() {
        Parsed::Panic
    } else if li > usize::MAX || o4 + lv + li > usize::MAX || o4 + lv + li > buf.len() {
        Parsed::Panic
    } else {
        Parsed::Done((buf.subrange(o4, o4 + lv), buf.subrange(o4 + lv, o4 + lv + li)), o4 + lv + li)
    }
}

/// Where the CPU data lies: the vertex data starts at the first multiple of 16
/// at or after `off` and takes `num_vertices * stride` bytes rounded up to a
/// multiple of 16; the indices, two bytes each, start right after it; reading
/// ends after them.
pub proof fn lemma_cpu_data_layout(buf: Seq<u8>, off: int, ib: IndexBuffer, vh: VertexBuffer)
    requires
        0 <= off,
    ensures
        cpu_data_parse(buf, off, ib, vh) matches Parsed::Done((vd, id), o) ==> {
            let raw = vh.num_vertices * vh.stride;
            let s = round_up(off, 16);
            &&& s % 16 == 0 && off <= s < off + 16
            &&& vd.len() % 16 == 0 && raw <= vd.len() < raw + 16
            &&& id.len() == 2 * ib.num_indices
            &&& vd == buf.subrange(s, s + vd.len())
            &&& id == buf.subrange(s + vd.len(), s + vd.len() + id.len())
            &&& o == s + vd.len() + id.len()
        },
{
    lemma_round_up(off, 16);
    let raw = vh.num_vertices * vh.stride;
    assert(vh.num_vertices * vh.stride >= 0) by (nonlinear_arith)
        requires
            vh.num_vertices >= 0,
            vh.stride >= 0,
    ;
    lemma_round_up(raw, 16);
}

/// A level decoded with CPU geometry has one CPU vertex buffer, CPU vertex
/// data of `num_vertices * stride` bytes rounded up to a multiple of 16, and
/// two bytes of CPU index data per index.
pub proof fn lemma_cpu_buffers_layout(buf: Seq<u8>, off: int)
    requires
        0 <= off,
    ensures
        cpu_buffers_parse(buf, off) matches Parsed::Done((ib, vh, vd, id), o) ==> {
            let raw = vh.num_vertices * vh.stride;
            let o1 = round_up(off, 4);
            let s = round_up(o1 + IndexBuffer::SIZE + VertexBuffer::SIZE, 16);
            &&& vd.len() % 16 == 0 && raw <= vd.len() < raw + 16
            &&& id.len() == 2 * ib.num_indices
            &&& off <= o
            &&& o1 % 4 == 0 && off <= o1 < off + 4
            &&& index_buffer_parse(buf.skip(o1)) == Ok::<IndexBuffer, VolitionError>(ib)
            &&& ib.num_vertex_buffers == 1 && ib.mesh_type == 7
            &&& vertex_buffer_parse(buf.skip(o1 + IndexBuffer::SIZE)) == Ok::<VertexBuffer, VolitionError>(vh)
            &&& vd == buf.subrange(s, s + vd.len())
            &&& id == buf.subrange(s + vd.len(), s + vd.len() + id.len())
            &&& o == s + vd.len() + id.len()
        },
{
    let o1 = round_up(off, 4);
    lemma_round_up(off, 4);
    if let Parsed::Done((ib, vh, vd, id), o) = cpu_buffers_parse(buf, off) {
        let o2 = o1 + IndexBuffer::SIZE;
        lemma_cpu_data_layout(buf, o2 + VertexBuffer::SIZE, ib, vh);
    }
}

/// The CPU index buffer header, its single vertex buffer header and the CPU data.
pub open spec fn cpu_buffers_parse(buf: Seq<u8>, off: int) -> Parsed<(IndexBuffer, VertexBuffer, Seq<u8>, Seq<u8>)> {
    let o1 = round_up(off, 4);
    if o1 > usize::MAX || o1 > buf.len() {
        Parsed::Panic
    } else {
        match index_buffer_parse(buf.skip(o1)) {
            Err(e) => Parsed::Failed(e, o1),
            Ok(ib) => if ib.num_vertex_buffers != 1 {
                Parsed::Failed(
                    VolitionError::ExpectedExactValue {
                        field: "IndexBufferHeader::num_vertex_buffers (cpu)",
                        expected: 1i32,
                        got: ib.num_vertex_buffers as i32,
                    },
                    o1,
                )
            } else if ib.mesh_type != 7 {
                Parsed::Failed(
                    VolitionError::ExpectedExactValue { field: "MeshData::mesh_type (cpu)", expected: 7i32, got: ib.mesh_type as i32 },
                    o1 + IndexBuffer::SIZE,
                )
            } else {
                let o2 = o1 + IndexBuffer::SIZE;
                if o2 > buf.len() {
                    Parsed::Panic
                } else {
                    match vertex_buffer_parse(buf.skip(o2)) {
                        Err(e) => Parsed::Failed(e, o2),
                        Ok(vh) => if vh.attributes & V_ATTR_FLAG_NORMAL != 0 {
                            Parsed::Failed(
                                VolitionError::UnexpectedValue {
                                    desc: "VertexBufferHeader::attributes shouldn't have normals (cpu)",
                                    got: vh.attributes as i32,
                                },
                                o2,
                            )
                        } else if vh.attributes & V_ATTR_FLAG_UNK != 0 {
                            Parsed::Failed(
                                VolitionError::UnexpectedValue {
                                    desc: "VertexBufferHeader::attributes shouldn't have unk_attr (cpu)",
                                    got: vh.attributes as i32,
                                },
                                o2,
                            )
                        } else if vh.num_uv_channels != 0 {
                            Parsed::Failed(
                                VolitionError::ExpectedExactValue {
                                    field: "VertexBufferHeader::num_uvs (cpu)",
                                    expected: 0i32,
                                    got: vh.num_uv_channels as i32,
                                },
                                o2,
                            )
                        } else {
                            match cpu_data_parse(buf, o2 + VertexBuffer::SIZE, ib, vh) {
                                Parsed::Done((vd, id), o3) => Parsed::Done((ib, vh, vd, id), o3),
                                Parsed::Failed(e, o) => Parsed::Failed(e, o),
                                Parsed::Panic => Parsed::Panic,
                            }
                        },
                    }
                }
            },
        }
    }
}

/// The buffers of one level, and the level they complete.
#[verifier::opaque]
pub open spec fn one_lod_parse(
    buf: Seq<u8>,
    off: int,
    gh: MeshHeader,
    ch: Option<MeshHeader>,
    sp: (Seq<Surface>, Option<Seq<Surface>>),
    unk: Option<Seq<u8>>,
) -> Parsed<LodMeshDataView> {
    match gpu_buffers_parse(buf, off) {
        Parsed::Done((ib, vh), o2) => {
            let gpu = MeshView { surface_header: gh, surfaces: sp.0, index_header: ib, vertex_headers: vh };
            match ch {
                None => Parsed::Done(
                    LodMeshDataView {
                        gpu_geometry: gpu,
                        cpu_geometry: None,
                        unk_20b: unk,
                        cpu_vdata: Seq::empty(),
                        cpu_idata: Seq::empty(),
                    },
                    o2,
                ),
                Some(c) => match cpu_buffers_parse(buf, o2) {
                    Parsed::Done((ib2, vh2, vd, id), o3) => Parsed::Done(
                        LodMeshDataView {
                            gpu_geometry: gpu,
                            cpu_geometry: Some(
                                MeshView {
                                    surface_header: c,
                                    surfaces: sp.1.unwrap(),
                                    index_header: ib2,
                                    vertex_headers: seq![vh2],
                                },
                            ),
                            unk_20b: unk,
                            cpu_vdata: vd,
                            cpu_idata: id,
                        },
                        o3,
                    ),
                    Parsed::Failed(e, o) => Parsed::Failed(e, o),
                    Parsed::Panic => Parsed::Panic,
                },
            }
        },
        Parsed::Failed(e, o) => Parsed::Failed(e, o),
        Parsed::Panic => Parsed::Panic,
    }
}

/// The `i`-th CPU header, when there are CPU headers.
pub open spec fn nth_header(ch: Option<Seq<MeshHeader>>, i: int) -> Option<MeshHeader> {
    match ch {
        Some(c) => Some(c[i]),
        None => None,
    }
}

/// The buffers of the first `k` levels and the decoded levels.
pub open spec fn lod_buffers(
    buf: Seq<u8>,
    off: int,
    gh: Seq<MeshHeader>,
    ch: Option<Seq<MeshHeader>>,
    surfs: Seq<(Seq<Surface>, Option<Seq<Surface>>)>,
    unk: Option<Seq<u8>>,
    k: nat,
) -> Parsed<Seq<LodMeshDataView>>
    decreases k,
{
    if k == 0 {
        Parsed::Done(Seq::empty(), off)
    } else {
        match lod_buffers(buf, off, gh, ch, surfs, unk, (k - 1) as nat) {
            Parsed::Done(items, o) => match one_lod_parse(buf, o, gh[k - 1], nth_header(ch, k - 1), surfs[k - 1], unk) {
                Parsed::Done(v, o2) => Parsed::Done(items.push(v), o2),
                Parsed::Failed(e, o) => Parsed::Failed(e, o),
                Parsed::Panic => Parsed::Panic,
            },
            Parsed::Failed(e, o) => Parsed::Failed(e, o),
            Parsed::Panic => Parsed::Panic,
        }
    }
}

/// What `LodMeshHeader::read_data` decodes for header `h` from `off` in `buf`.
pub open spec fn lod_data_parse(h: LodMeshHeader, buf: Seq<u8>, off: int, unk_2c: i32) -> Parsed<Seq<LodMeshDataView>> {
    let n = h.num_lods as nat;
    match lod_prefix(buf, off, unk_2c) {
        Parsed::Done(unk, o1) => match repeat_parse(buf, o1, n, MeshHeader::SIZE as int, mesh_header_parser()) {
            Parsed::Done(gh, o2) => match cpu_headers_parse(buf, o2, n, h.ptr_cpu == -1) {
                Parsed::Done(ch, o3) => match lod_surfaces(buf, o3, gh, ch, n) {
                    Parsed::Done(surfs, o4) => lod_buffers(buf, o4, gh, ch, surfs, unk, n),
                    Parsed::Failed(e, o) => Parsed::Failed(e, o),
                    Parsed::Panic => Parsed::Panic,
                },
                Parsed::Failed(e, o) => Parsed::Failed(e, o),
                Parsed::Panic => Parsed::Panic,
            },
            Parsed::Failed(e, o) => Parsed::Failed(e, o),
            Parsed::Panic => Parsed::Panic,
        },
        Parsed::Failed(e, o) => Parsed::Failed(e, o),
        Parsed::Panic => Parsed::Panic,
    }
}

// ---------------------------------------------------------------- read_data, implemented

/// The GPU index buffer header and its vertex buffer headers at `*data_offset`.
fn read_gpu_buffers(buf: &[u8], data_offset: &mut usize) -> (r: Result<(IndexBuffer, Vec<VertexBuffer>), VolitionError>)
    requires
        !(gpu_buffers_parse(buf@, *old(data_offset) as int) is Panic),
    ensures
        match gpu_buffers_parse(buf@, *old(data_offset) as int) {
            Parsed::Done((ib, vh), o) => r matches Ok((i, v)) && i == ib && v@ == vh && *final(data_offset) == o,
            Parsed::Failed(e, o) => r == Err::<(IndexBuffer, Vec<VertexBuffer>), VolitionError>(e) && *final(data_offset) == o,
            Parsed::Panic => false,
        },
{
    align(data_offset, 4);
    let rest = &buf[*data_offset..buf.len()];
    assert(rest@ == buf@.skip(*data_offset as int));
    let index_header = IndexBuffer::from_le_bytes(rest)?;
    let num_vertex_buffers = index_header.num_vertex_buffers as usize;
    *data_offset = *data_offset + IndexBuffer::SIZE;

    if index_header.mesh_type != 0 {
        return Err(VolitionError::ExpectedExactValue {
            field: "MeshData::mesh_type (gpu)",
            expected: 0,
            got: index_header.mesh_type as i32,
        });
    }

    let vertex_headers = read_vertex_buffers(buf, data_offset, num_vertex_buffers)?;
    Ok((index_header, vertex_headers))
}

/// The CPU index buffer header, its vertex buffer header and the CPU data at `*data_offset`.
fn read_cpu_buffers(buf: &[u8], data_offset: &mut usize) -> (r: Result<(IndexBuffer, VertexBuffer, Vec<u8>, Vec<u8>), VolitionError>)
    requires
        !(cpu_buffers_parse(buf@, *old(data_offset) as int) is Panic),
    ensures
        match cpu_buffers_parse(buf@, *old(data_offset) as int) {
            Parsed::Done((ib, vh, vd, id), o) => r matches Ok((i, v, d, x)) && i == ib && v == vh && d@ == vd && x@ == id
                && *final(data_offset) == o,
            Parsed::Failed(e, o) => r == Err::<(IndexBuffer, VertexBuffer, Vec<u8>, Vec<u8>), VolitionError>(e)
                && *final(data_offset) == o,
            Parsed::Panic => false,
        },
{
    align(data_offset, 4);
    let rest = &buf[*data_offset..buf.len()];
    assert(rest@ == buf@.skip(*data_offset as int));
    let index_header = IndexBuffer::from_le_bytes(rest)?;

    let num_vertex_buffers = index_header.num_vertex_buffers as usize;
    if num_vertex_buffers != 1 {
        return Err(VolitionError::ExpectedExactValue {
            field: "IndexBufferHeader::num_vertex_buffers (cpu)",
            expected: 1,
            got: num_vertex_buffers as i32,
        });
    }

    *data_offset = *data_offset + IndexBuffer::SIZE;

    if index_header.mesh_type != 7 {
        return Err(VolitionError::ExpectedExactValue {
            field: "MeshData::mesh_type (cpu)",
            expected: 7,
            got: index_header.mesh_type as i32,
        });
    }

    let rest = &buf[*data_offset..buf.len()];
    assert(rest@ == buf@.skip(*data_offset as int));
    let vertex_header = VertexBuffer::from_le_bytes(rest)?;

    if vertex_header.has_normals() {
        return Err(VolitionError::UnexpectedValue {
            desc: "VertexBufferHeader::attributes shouldn't have normals (cpu)",
            got: vertex_header.attributes as i32,
        });
    }

    if vertex_header.has_unk_attr() {
        return Err(VolitionError::UnexpectedValue {
            desc: "VertexBufferHeader::attributes shouldn't have unk_attr (cpu)",
            got: vertex_header.attributes as i32,
        });
    }

    if vertex_header.num_uv_channels != 0 {
        return Err(VolitionError::ExpectedExactValue {
            field: "VertexBufferHeader::num_uvs (cpu)",
            expected: 0,
            got: vertex_header.num_uv_channels as i32,
        });
    }

    *data_offset = *data_offset + VertexBuffer::SIZE;

    let num_indices = index_header.num_indices as usize;

    align(data_offset, 16);
    let mut len_cpu_vdata: usize = 0;
    len_cpu_vdata = len_cpu_vdata + vertex_header.num_vertices as usize * vertex_header.stride as usize;
    align(&mut len_cpu_vdata, 16);
    let mut cpu_vdata: Vec<u8> = Vec::new();
    cpu_vdata.extend_from_slice(&buf[*data_offset..(*data_offset + len_cpu_vdata)]);
    *data_offset = *data_offset + len_cpu_vdata;

    let len_cpu_idata = num_indices * 2;
    let mut cpu_idata: Vec<u8> = Vec::new();
    cpu_idata.extend_from_slice(&buf[*data_offset..(*data_offset + len_cpu_idata)]);
    *data_offset = *data_offset + len_cpu_idata;

    Ok((index_header, vertex_header, cpu_vdata, cpu_idata))
}

/// The contents of decoded surface lists.
pub open spec fn surf_pairs_view(v: Seq<(Vec<Surface>, Option<Vec<Surface>>)>) -> Seq<(Seq<Surface>, Option<Seq<Surface>>)> {
    v.map_values(
        |p: (Vec<Surface>, Option<Vec<Surface>>)|
            (
                p.0@,
                match p.1 {
                    Some(c) => Some(c@),
                    None => None,
                },
            ),
    )
}

/// The view of optional headers.
pub open spec fn opt_headers_view(ch: Option<Vec<MeshHeader>>) -> Option<Seq<MeshHeader>> {
    match ch {
        Some(v) => Some(v@),
        None => None,
    }
}

/// `first_bad_vbuf` finds the first surface with a nonzero vertex buffer.
proof fn lemma_first_bad_vbuf(cs: Seq<Surface>, j: int)
    requires
        0 <= j <= cs.len(),
        forall|k: int| 0 <= k < j ==> (#[trigger] cs[k]).vbuf == 0,
    ensures
        j < cs.len() && cs[j].vbuf != 0 ==> first_bad_vbuf(cs) == Some(cs[j].vbuf),
        j == cs.len() ==> first_bad_vbuf(cs) == None::<u32>,
    decreases j,
{
    if j > 0 {
        let rest = cs.drop_first();
        assert forall|k: int| 0 <= k < j - 1 implies (#[trigger] rest[k]).vbuf == 0 by {
            assert(rest[k] == cs[k + 1]);
        }
        lemma_first_bad_vbuf(rest, j - 1);
        assert(cs[0].vbuf == 0);
        if j < cs.len() {
            assert(rest[j - 1] == cs[j]);
        }
    }
}

/// The `vbuf` of the first surface that does not use vertex buffer 0.
fn first_nonzero_vbuf(surfaces: &Vec<Surface>) -> (r: Option<u32>)
    ensures
        r == first_bad_vbuf(surfaces@),
{
    let mut j: usize = 0;
    while j < surfaces.len()
        invariant
            j <= surfaces@.len(),
            forall|k: int| 0 <= k < j ==> (#[trigger] surfaces@[k]).vbuf == 0,
        decreases surfaces@.len() - j,
    {
        if surfaces[j].vbuf != 0 {
            proof {
                lemma_first_bad_vbuf(surfaces@, j as int);
            }
            return Some(surfaces[j].vbuf);
        }
        j = j + 1;
    }
    proof {
        lemma_first_bad_vbuf(surfaces@, j as int);
    }
    None
}

/// Once the surfaces of a level fail, reading more levels fails the same way.
proof fn lemma_lod_surfaces_stops(buf: Seq<u8>, off: int, gh: Seq<MeshHeader>, ch: Option<Seq<MeshHeader>>, k: nat, n: nat)
    requires
        k <= n,
        !(lod_surfaces(buf, off, gh, ch, k) is Done),
    ensures
        lod_surfaces(buf, off, gh, ch, n) == lod_surfaces(buf, off, gh, ch, k),
    decreases n - k,
{
    if k < n {
        lemma_lod_surfaces_stops(buf, off, gh, ch, k, (n - 1) as nat);
    }
}

/// The GPU and CPU surfaces of the `n` levels.
fn read_lod_surfaces(
    buf: &[u8],
    data_offset: &mut usize,
    gh: &Vec<MeshHeader>,
    ch: &Option<Vec<MeshHeader>>,
    n: usize,
) -> (r: Result<Vec<(Vec<Surface>, Option<Vec<Surface>>)>, VolitionError>)
    requires
        gh@.len() == n,
        ch matches Some(c) ==> c@.len() == n,
        !(lod_surfaces(buf@, *old(data_offset) as int, gh@, opt_headers_view(*ch), n as nat) is Panic),
    ensures
        match lod_surfaces(buf@, *old(data_offset) as int, gh@, opt_headers_view(*ch), n as nat) {
            Parsed::Done(items, o) => r matches Ok(v) && surf_pairs_view(v@) == items && *final(data_offset) == o,
            Parsed::Failed(e, o) => r == Err::<Vec<(Vec<Surface>, Option<Vec<Surface>>)>, VolitionError>(e)
                && *final(data_offset) == o,
            Parsed::Panic => false,
        },
{
    let ghost start = *data_offset as int;
    let ghost chv = opt_headers_view(*ch);
    let mut ret: Vec<(Vec<Surface>, Option<Vec<Surface>>)> = Vec::new();
    assert(surf_pairs_view(ret@) =~= Seq::<(Seq<Surface>, Option<Seq<Surface>>)>::empty());
    let mut i: usize = 0;
    while i < n
        invariant
            i <= n,
            gh@.len() == n,
            ch matches Some(c) ==> c@.len() == n,
            chv == opt_headers_view(*ch),
            start == *old(data_offset) as int,
            !(lod_surfaces(buf@, start, gh@, chv, n as nat) is Panic),
            lod_surfaces(buf@, start, gh@, chv, i as nat) == Parsed::Done(surf_pairs_view(ret@), *data_offset as int),
        decreases n - i,
    {
        let ghost before = *data_offset as int;
        let ghost old_ret = ret@;
        let ghost gparse = repeat_parse(buf@, before, gh@[i as int].num_surfaces as nat, Surface::SIZE as int, surface_parser());
        proof {
            if gparse is Panic {
                lemma_lod_surfaces_stops(buf@, start, gh@, chv, (i + 1) as nat, n as nat);
            }
        }
        let g_surfs = match gh[i].read_surfaces(buf, data_offset) {
            Ok(v) => v,
            Err(e) => {
                proof {
                    lemma_lod_surfaces_stops(buf@, start, gh@, chv, (i + 1) as nat, n as nat);
                }
                return Err(e);
            },
        };
        match ch {
            Some(chs) => {
                if chs[i].num_surfaces != gh[i].num_surfaces {
                    proof {
                        lemma_lod_surfaces_stops(buf@, start, gh@, chv, (i + 1) as nat, n as nat);
                    }
                    return Err(VolitionError::ExpectedExactValue {
                        field: "MeshHeader::num_surfaces (cpu)",
                        expected: gh[i].num_surfaces as i32,
                        got: chs[i].num_surfaces as i32,
                    });
                }
                let ghost mid = *data_offset as int;
                let ghost cparse = repeat_parse(buf@, mid, chs@[i as int].num_surfaces as nat, Surface::SIZE as int, surface_parser());
                proof {
                    if cparse is Panic {
                        lemma_lod_surfaces_stops(buf@, start, gh@, chv, (i + 1) as nat, n as nat);
                    }
                }
                let surfaces = match chs[i].read_surfaces(buf, data_offset) {
                    Ok(v) => v,
                    Err(e) => {
                        proof {
                            lemma_lod_surfaces_stops(buf@, start, gh@, chv, (i + 1) as nat, n as nat);
                        }
                        return Err(e);
                    },
                };
                match first_nonzero_vbuf(&surfaces) {
                    Some(v) => {
                        proof {
                            lemma_lod_surfaces_stops(buf@, start, gh@, chv, (i + 1) as nat, n as nat);
                        }
                        return Err(VolitionError::ExpectedExactValue {
                            field: "Surface::vbuf (cpu)",
                            expected: 0,
                            got: crate::util::i32_from_bits(v),
                        });
                    },
                    None => {},
                }
                let ghost pair = (g_surfs@, Some(surfaces@));
                ret.push((g_surfs, Some(surfaces)));
                proof {
                    assert(surf_pairs_view(ret@) =~= surf_pairs_view(old_ret).push(pair));
                    assert(chv == Some(chs@));
                }
            },
            None => {
                let ghost pair = (g_surfs@, None::<Seq<Surface>>);
                ret.push((g_surfs, None));
                proof {
                    assert(surf_pairs_view(ret@) =~= surf_pairs_view(old_ret).push(pair));
                    assert(chv == None::<Seq<MeshHeader>>);
                }
            },
        }
        i = i + 1;
    }
    Ok(ret)
}

/// Decoded surface lists have one entry per level, with CPU surfaces exactly
/// when there are CPU headers.
proof fn lemma_lod_surfaces_shape(buf: Seq<u8>, off: int, gh: Seq<MeshHeader>, ch: Option<Seq<MeshHeader>>, k: nat)
    requires
        lod_surfaces(buf, off, gh, ch, k) is Done,
    ensures
        ({
            let items = lod_surfaces(buf, off, gh, ch, k)->Done_0;
            &&& items.len() == k
            &&& forall|j: int| 0 <= j < k ==> ((#[trigger] items[j]).1 is Some <==> ch is Some)
            &&& forall|j: int| 0 <= j < k ==> ((#[trigger] items[j]).1 matches Some(cs) ==> cs.len() == items[j].0.len())
        }),
    decreases k,
{
    if k > 0 {
        lemma_lod_surfaces_shape(buf, off, gh, ch, (k - 1) as nat);
        let (items0, o) = (lod_surfaces(buf, off, gh, ch, (k - 1) as nat)->Done_0, lod_surfaces(buf, off, gh, ch, (k - 1) as nat)->Done_1);
        lemma_repeat_parse_len(buf, o, gh[k - 1].num_surfaces as nat, Surface::SIZE as int, surface_parser());
        let o2 = repeat_parse(buf, o, gh[k - 1].num_surfaces as nat, Surface::SIZE as int, surface_parser())->Done_1;
        if let Some(chs) = ch {
            lemma_repeat_parse_len(buf, o2, chs[k - 1].num_surfaces as nat, Surface::SIZE as int, surface_parser());
        }
    }
}

/// The levels that the buffers complete carry the decoded surfaces: GPU
/// surfaces, and CPU surfaces where the level has CPU geometry.
proof fn lemma_lod_buffers_surfaces(
    buf: Seq<u8>,
    off: int,
    gh: Seq<MeshHeader>,
    ch: Option<Seq<MeshHeader>>,
    surfs: Seq<(Seq<Surface>, Option<Seq<Surface>>)>,
    unk: Option<Seq<u8>>,
    k: nat,
)
    requires
        lod_buffers(buf, off, gh, ch, surfs, unk, k) is Done,
        k <= surfs.len(),
        forall|j: int| 0 <= j < k ==> ((#[trigger] surfs[j]).1 is Some <==> ch is Some),
    ensures
        ({
            let lods = lod_buffers(buf, off, gh, ch, surfs, unk, k)->Done_0;
            &&& lods.len() == k
            &&& forall|j: int|
                0 <= j < k ==> {
                    &&& (#[trigger] lods[j]).gpu_geometry.surfaces == surfs[j].0
                    &&& (lods[j].cpu_geometry matches Some(c) ==> surfs[j].1 == Some(c.surfaces))
                }
        }),
    decreases k,
{
    reveal(one_lod_parse);
    if k > 0 {
        lemma_lod_buffers_surfaces(buf, off, gh, ch, surfs, unk, (k - 1) as nat);
        let prev = lod_buffers(buf, off, gh, ch, surfs, unk, (k - 1) as nat);
        let o = prev->Done_1;
        let v = one_lod_parse(buf, o, gh[k - 1], nth_header(ch, k - 1), surfs[k - 1], unk)->Done_0;
        assert(surfs[k - 1].1 is Some <==> ch is Some);
        assert(v.gpu_geometry.surfaces == surfs[k - 1].0);
        assert(v.cpu_geometry matches Some(c) ==> surfs[k - 1].1 == Some(c.surfaces));
        let lods = lod_buffers(buf, off, gh, ch, surfs, unk, k)->Done_0;
        assert(lods == prev->Done_0.push(v));
    }
}

/// A decoded level with CPU geometry has as many CPU surfaces as GPU surfaces.
pub proof fn lemma_lod_data_surface_counts(h: LodMeshHeader, buf: Seq<u8>, off: int, unk_2c: i32)
    ensures
        lod_data_parse(h, buf, off, unk_2c) matches Parsed::Done(items, o) ==> forall|i: int|
            0 <= i < items.len() ==> ((#[trigger] items[i]).cpu_geometry matches Some(c)
                ==> c.surfaces.len() == items[i].gpu_geometry.surfaces.len()),
{
    let n = h.num_lods as nat;
    if let Parsed::Done(unk, o1) = lod_prefix(buf, off, unk_2c) {
        if let Parsed::Done(gh, o2) = repeat_parse(buf, o1, n, MeshHeader::SIZE as int, mesh_header_parser()) {
            if let Parsed::Done(ch, o3) = cpu_headers_parse(buf, o2, n, h.ptr_cpu == -1) {
                if let Parsed::Done(surfs, o4) = lod_surfaces(buf, o3, gh, ch, n) {
                    lemma_lod_surfaces_shape(buf, o3, gh, ch, n);
                    if lod_buffers(buf, o4, gh, ch, surfs, unk, n) is Done {
                        lemma_lod_buffers_surfaces(buf, o4, gh, ch, surfs, unk, n);
                    }
                }
            }
        }
    }
}

/// Once the buffers of a level fail, reading more levels fails the same way.
proof fn lemma_lod_buffers_stops(
    buf: Seq<u8>,
    off: int,
    gh: Seq<MeshHeader>,
    ch: Option<Seq<MeshHeader>>,
    surfs: Seq<(Seq<Surface>, Option<Seq<Surface>>)>,
    unk: Option<Seq<u8>>,
    k: nat,
    n: nat,
)
    requires
        k <= n,
        !(lod_buffers(buf, off, gh, ch, surfs, unk, k) is Done),
    ensures
        lod_buffers(buf, off, gh, ch, surfs, unk, n) == lod_buffers(buf, off, gh, ch, surfs, unk, k),
    decreases n - k,
{
    if k < n {
        lemma_lod_buffers_stops(buf, off, gh, ch, surfs, unk, k, (n - 1) as nat);
    }
}

/// The contents of decoded levels.
pub open spec fn lods_view(v: Seq<LodMeshData>) -> Seq<LodMeshDataView> {
    v.map_values(|d: LodMeshData| d@)
}

/// The view of one decoded surface pair.
pub open spec fn surf_pair_view(p: (Vec<Surface>, Option<Vec<Surface>>)) -> (Seq<Surface>, Option<Seq<Surface>>) {
    (
        p.0@,
        match p.1 {
            Some(c) => Some(c@),
            None => None,
        },
    )
}

/// The view of optional unknown bytes.
pub open spec fn unk_view(u: Option<[u8; 20]>) -> Option<Seq<u8>> {
    match u {
        Some(a) => Some(a@),
        None => None,
    }
}

/// Decodes the buffers of one level and assembles it.
fn read_one_lod(
    buf: &[u8],
    data_offset: &mut usize,
    gh: MeshHeader,
    ch: Option<MeshHeader>,
    pair: (Vec<Surface>, Option<Vec<Surface>>),
    unk_20b: Option<[u8; 20]>,
) -> (r: Result<LodMeshData, VolitionError>)
    requires
        pair.1 is Some <==> ch is Some,
        !(one_lod_parse(buf@, *old(data_offset) as int, gh, ch, surf_pair_view(pair), unk_view(unk_20b)) is Panic),
    ensures
        match one_lod_parse(buf@, *old(data_offset) as int, gh, ch, surf_pair_view(pair), unk_view(unk_20b)) {
            Parsed::Done(v, o) => r matches Ok(d) && d@ == v && *final(data_offset) == o,
            Parsed::Failed(e, o) => r == Err::<LodMeshData, VolitionError>(e) && *final(data_offset) == o,
            Parsed::Panic => false,
        },
{
    reveal(one_lod_parse);
    let (g_surfs, c_surfs) = pair;
    let (index_header, vertex_headers) = read_gpu_buffers(buf, data_offset)?;
    let gpu = Mesh { surface_header: gh, surfaces: g_surfs, index_header, vertex_headers };
    let (cpu, cpu_vdata, cpu_idata) = match ch {
        Some(c) => {
            let (ib, vh, vd, id) = read_cpu_buffers(buf, data_offset)?;
            let surfaces = match c_surfs {
                Some(cs) => cs,
                None => {
                    assert(false);
                    Vec::new()
                },
            };
            let mut vertex_headers: Vec<VertexBuffer> = Vec::new();
            vertex_headers.push(vh);
            assert(vertex_headers@ =~= seq![vh]);
            (Some(Mesh { surface_header: c, surfaces, index_header: ib, vertex_headers }), vd, id)
        },
        None => (None, Vec::new(), Vec::new()),
    };
    let item = LodMeshData { gpu_geometry: gpu, cpu_geometry: cpu, unk_20b, cpu_vdata, cpu_idata };
    assert(item@.cpu_vdata =~= one_lod_parse(buf@, *old(data_offset) as int, gh, ch, surf_pair_view(pair), unk_view(unk_20b))->Done_0.cpu_vdata);
    Ok(item)
}

/// Decodes the buffers of all levels.
fn read_lod_buffers(
    buf: &[u8],
    data_offset: &mut usize,
    gh: &Vec<MeshHeader>,
    ch: &Option<Vec<MeshHeader>>,
    surfs_in: Vec<(Vec<Surface>, Option<Vec<Surface>>)>,
    unk_20b: Option<[u8; 20]>,
    n: usize,
) -> (r: Result<Vec<LodMeshData>, VolitionError>)
    requires
        gh@.len() == n,
        ch matches Some(c) ==> c@.len() == n,
        surfs_in@.len() == n,
        forall|j: int| 0 <= j < n ==> ((#[trigger] surfs_in@[j]).1 is Some <==> ch is Some),
        !(lod_buffers(buf@, *old(data_offset) as int, gh@, opt_headers_view(*ch), surf_pairs_view(surfs_in@), unk_view(unk_20b), n as nat) is Panic),
    ensures
        match lod_buffers(buf@, *old(data_offset) as int, gh@, opt_headers_view(*ch), surf_pairs_view(surfs_in@), unk_view(unk_20b), n as nat) {
            Parsed::Done(items, o) => r matches Ok(v) && lods_view(v@) == items && *final(data_offset) == o,
            Parsed::Failed(e, o) => r == Err::<Vec<LodMeshData>, VolitionError>(e) && *final(data_offset) == o,
            Parsed::Panic => false,
        },
{
    let ghost start = *data_offset as int;
    let ghost chv = opt_headers_view(*ch);
    let ghost sv = surf_pairs_view(surfs_in@);
    let ghost all_surfs = surfs_in@;
    let ghost uv = unk_view(unk_20b);
    let mut surfs = surfs_in;
    let mut meshes: Vec<LodMeshData> = Vec::new();
    let mut i: usize = 0;
    assert(lods_view(meshes@) =~= Seq::<LodMeshDataView>::empty());
    while i < n
        invariant
            i <= n,
            gh@.len() == n,
            ch matches Some(c) ==> c@.len() == n,
            chv == opt_headers_view(*ch),
            uv == unk_view(unk_20b),
            start == *old(data_offset) as int,
            all_surfs.len() == n,
            all_surfs == surfs_in@,
            sv == surf_pairs_view(all_surfs),
            forall|j: int| 0 <= j < n ==> ((#[trigger] all_surfs[j]).1 is Some <==> ch is Some),
            surfs@ == all_surfs.skip(i as int),
            !(lod_buffers(buf@, start, gh@, chv, sv, uv, n as nat) is Panic),
            lod_buffers(buf@, start, gh@, chv, sv, uv, i as nat) == Parsed::Done(lods_view(meshes@), *data_offset as int),
        decreases n - i,
    {
        let ghost old_meshes = meshes@;
        let ghost before = *data_offset as int;
        assert(surfs@[0] == all_surfs[i as int]);
        let pair = surfs.remove(0);
        assert(surfs@ =~= all_surfs.skip(i + 1));
        assert(surf_pair_view(pair) == sv[i as int]);
        let cpu_header = match ch {
            Some(c) => Some(c[i]),
            None => None,
        };
        assert(cpu_header == nth_header(chv, i as int));
        proof {
            if !(one_lod_parse(buf@, before, gh@[i as int], cpu_header, sv[i as int], uv) is Done) {
                lemma_lod_buffers_stops(buf@, start, gh@, chv, sv, uv, (i + 1) as nat, n as nat);
            }
        }
        let item = match read_one_lod(buf, data_offset, gh[i], cpu_header, pair, unk_20b) {
            Ok(d) => d,
            Err(e) => {
                proof {
                    assert(one_lod_parse(buf@, before, gh@[i as int], cpu_header, sv[i as int], uv)
                        == Parsed::<LodMeshDataView>::Failed(e, *data_offset as int));
                    assert(lod_buffers(buf@, start, gh@, chv, sv, uv, (i + 1) as nat)
                        == Parsed::<Seq<LodMeshDataView>>::Failed(e, *data_offset as int));
                    lemma_lod_buffers_stops(buf@, start, gh@, chv, sv, uv, (i + 1) as nat, n as nat);
                }
                return Err(e);
            },
        };
        let ghost iv = item@;
        meshes.push(item);
        proof {
            assert(lods_view(meshes@) =~= lods_view(old_meshes).push(iv));
        }
        i = i + 1;
    }
    Ok(meshes)
}

impl LodMeshHeader {
    /// Decodes the levels of detail that follow the header, starting at
    /// `*data_offset` and moving it past everything that was decoded.
    pub fn read_data(&self, buf: &[u8], data_offset: &mut usize, unk_2c: i32) -> (r: Result<Vec<LodMeshData>, VolitionError>)
        requires
            !(lod_data_parse(*self, buf@, *old(data_offset) as int, unk_2c) is Panic),
        ensures
            match lod_data_parse(*self, buf@, *old(data_offset) as int, unk_2c) {
                Parsed::Done(items, o) => r matches Ok(v) && lods_view(v@) == items && *final(data_offset) == o
                    && forall|i: int|
                    0 <= i < items.len() ==> ((#[trigger] items[i]).cpu_geometry matches Some(c)
                        ==> c.surfaces.len() == items[i].gpu_geometry.surfaces.len()),
                Parsed::Failed(e, o) => r == Err::<Vec<LodMeshData>, VolitionError>(e) && *final(data_offset) == o,
                Parsed::Panic => false,
            },
    {
        proof {
            lemma_lod_data_surface_counts(*self, buf@, *old(data_offset) as int, unk_2c);
        }
        let num_lods = self.num_lods as usize;

        let unk_20b = if unk_2c != 0 {
            let u: [u8; 20] = read_bytes(buf, *data_offset);
            *data_offset = *data_offset + 20;
            Some(u)
        } else {
            None
        };

        align(data_offset, 16);
        assert(lod_prefix(buf@, *old(data_offset) as int, unk_2c) == Parsed::Done(unk_view(unk_20b), *data_offset as int));

        let ghost o1 = *data_offset as int;
        let gpu_headers = read_mesh_headers(buf, data_offset, num_lods)?;
        proof {
            lemma_repeat_parse_len(buf@, o1, num_lods as nat, MeshHeader::SIZE as int, mesh_header_parser());
        }

        let ghost o2 = *data_offset as int;
        let cpu_headers = if self.has_cpu_geometry() {
            let hs = read_mesh_headers(buf, data_offset, num_lods)?;
            proof {
                lemma_repeat_parse_len(buf@, o2, num_lods as nat, MeshHeader::SIZE as int, mesh_header_parser());
            }
            Some(hs)
        } else {
            None
        };
        let ghost chv = opt_headers_view(cpu_headers);
        assert(cpu_headers_parse(buf@, o2, num_lods as nat, self.ptr_cpu == -1) == Parsed::Done(chv, *data_offset as int));

        let ghost o3 = *data_offset as int;
        let surfs = read_lod_surfaces(buf, data_offset, &gpu_headers, &cpu_headers, num_lods)?;
        proof {
            lemma_lod_surfaces_shape(buf@, o3, gpu_headers@, chv, num_lods as nat);
            assert forall|j: int| 0 <= j < num_lods implies ((#[trigger] surfs@[j]).1 is Some <==> cpu_headers is Some) by {
                assert(surf_pairs_view(surfs@)[j] == surf_pair_view(surfs@[j]));
            }
        }
        read_lod_buffers(buf, data_offset, &gpu_headers, &cpu_headers, surfs, unk_20b, num_lods)
    }
}

/// Record `j` of records read one after another is parsed at `off + size * j`.
pub proof fn lemma_repeat_parse_items<T>(buf: Seq<u8>, off: int, n: nat, size: int, parse: spec_fn(Seq<u8>) -> Result<T, VolitionError>)
    ensures
        repeat_parse(buf, off, n, size, parse) matches Parsed::Done(items, o) ==> items.len() == n && forall|j: int|
            0 <= j < n ==> parse(buf.skip(off + size * j)) == Ok::<T, VolitionError>(#[trigger] items[j]),
    decreases n,
{
    if n > 0 {
        lemma_repeat_parse_items(buf, off, (n - 1) as nat, size, parse);
        if let Parsed::Done(items, o) = repeat_parse(buf, off, n, size, parse) {
            let prev = repeat_parse(buf, off, (n - 1) as nat, size, parse)->Done_0;
            let o0 = repeat_parse(buf, off, (n - 1) as nat, size, parse)->Done_1;
            lemma_repeat_parse_end_any(buf, off, (n - 1) as nat, size, parse);
            assert(items == prev.push(items[n - 1]));
            assert forall|j: int| 0 <= j < n implies parse(buf.skip(off + size * j)) == Ok::<T, VolitionError>(
                #[trigger] items[j],
            ) by {
                if j < n - 1 {
                    assert(items[j] == prev[j]);
                } else {
                    assert(o0 == off + size * j);
                }
            }
        }
    }
}

/// Records read one after another end `size` bytes each after `off`, whatever `size` is.
pub proof fn lemma_repeat_parse_end_any<T>(buf: Seq<u8>, off: int, n: nat, size: int, parse: spec_fn(Seq<u8>) -> Result<T, VolitionError>)
    ensures
        repeat_parse(buf, off, n, size, parse) matches Parsed::Done(items, o) ==> o == off + size * n,
    decreases n,
{
    if n > 0 {
        lemma_repeat_parse_end_any(buf, off, (n - 1) as nat, size, parse);
        assert(size * n == size * (n - 1) + size) by (nonlinear_arith);
        if let Parsed::Done(items, o) = repeat_parse(buf, off, n, size, parse) {
            let o0 = repeat_parse(buf, off, (n - 1) as nat, size, parse)->Done_1;
            assert(o0 == off + size * ((n - 1) as nat));
            assert(((n - 1) as nat) as int == n - 1);
        }
    } else {
        assert(size * n == 0) by (nonlinear_arith)
            requires
                n == 0,
        ;
    }
}

/// Records read one after another end `size` bytes each after `off`.
proof fn lemma_repeat_parse_end<T>(buf: Seq<u8>, off: int, n: nat, size: int, parse: spec_fn(Seq<u8>) -> Result<T, VolitionError>)
    requires
        0 <= size,
    ensures
        repeat_parse(buf, off, n, size, parse) matches Parsed::Done(items, o) ==> o == off + size * n && off <= o,
    decreases n,
{
    if n > 0 {
        lemma_repeat_parse_end(buf, off, (n - 1) as nat, size, parse);
        assert(size * n == size * (n - 1) + size) by (nonlinear_arith);
        if let Parsed::Done(items, o) = repeat_parse(buf, off, n, size, parse) {
            let o0 = repeat_parse(buf, off, (n - 1) as nat, size, parse)->Done_1;
            assert(o == o0 + size);
            assert(o0 == off + size * ((n - 1) as nat));
            assert(((n - 1) as nat) as int == n - 1);
        }
    } else {
        assert(size * n == 0) by (nonlinear_arith)
            requires
                n == 0,
        ;
    }
    assert(size * n >= 0) by (nonlinear_arith)
        requires
            size >= 0,
    ;
}

/// Where the GPU buffer headers of a level lie: the index buffer header at the
/// first multiple of 4 at or after `off`, of mesh type 0, then its vertex
/// buffer headers one after another; reading ends after them.
pub proof fn lemma_gpu_buffers_layout(buf: Seq<u8>, off: int)
    requires
        0 <= off,
    ensures
        gpu_buffers_parse(buf, off) matches Parsed::Done((ib, vh), o) ==> {
            let o1 = round_up(off, 4);
            &&& o1 % 4 == 0 && off <= o1 < off + 4
            &&& index_buffer_parse(buf.skip(o1)) == Ok::<IndexBuffer, VolitionError>(ib)
            &&& ib.mesh_type == 0
            &&& vh.len() == ib.num_vertex_buffers
            &&& forall|j: int|
                0 <= j < vh.len() ==> vertex_buffer_parse(buf.skip(o1 + IndexBuffer::SIZE + VertexBuffer::SIZE * j))
                    == Ok::<VertexBuffer, VolitionError>(#[trigger] vh[j])
            &&& o == o1 + IndexBuffer::SIZE + VertexBuffer::SIZE * vh.len()
            &&& off <= o
        },
{
    lemma_round_up(off, 4);
    let o1 = round_up(off, 4);
    if let Parsed::Done((ib, vh), o) = gpu_buffers_parse(buf, off) {
        lemma_repeat_parse_end(buf, o1 + IndexBuffer::SIZE, ib.num_vertex_buffers as nat, VertexBuffer::SIZE as int, vertex_buffer_parser());
        lemma_repeat_parse_len(buf, o1 + IndexBuffer::SIZE, ib.num_vertex_buffers as nat, VertexBuffer::SIZE as int, vertex_buffer_parser());
        lemma_repeat_parse_items(buf, o1 + IndexBuffer::SIZE, ib.num_vertex_buffers as nat, VertexBuffer::SIZE as int, vertex_buffer_parser());
    }
}

/// What every level read by `lod_buffers` holds, and that reading moves on.
proof fn lemma_lod_buffers_cpu(
    buf: Seq<u8>,
    off: int,
    gh: Seq<MeshHeader>,
    ch: Option<Seq<MeshHeader>>,
    surfs: Seq<(Seq<Surface>, Option<Seq<Surface>>)>,
    unk: Option<Seq<u8>>,
    k: nat,
)
    requires
        0 <= off,
    ensures
        lod_buffers(buf, off, gh, ch, surfs, unk, k) matches Parsed::Done(lods, o) ==> {
            &&& off <= o
            &&& lods.len() == k
            &&& forall|j: int| 0 <= j < k ==> #[trigger] level_buffers_ok(lods[j], ch is Some)
        },
    decreases k,
{
    reveal(one_lod_parse);
    if k > 0 {
        lemma_lod_buffers_cpu(buf, off, gh, ch, surfs, unk, (k - 1) as nat);
        if let Parsed::Done(prev, o) = lod_buffers(buf, off, gh, ch, surfs, unk, (k - 1) as nat) {
            lemma_gpu_buffers_layout(buf, o);
            if let Parsed::Done((ib, vh), o2) = gpu_buffers_parse(buf, o) {
                lemma_cpu_buffers_layout(buf, o2);
            }
            if let Parsed::Done(lods, o3) = lod_buffers(buf, off, gh, ch, surfs, unk, k) {
                let v = one_lod_parse(buf, o, gh[k - 1], nth_header(ch, k - 1), surfs[k - 1], unk)->Done_0;
                assert(lods == prev.push(v));
                assert(level_buffers_ok(v, ch is Some));
                assert forall|j: int| 0 <= j < k implies #[trigger] level_buffers_ok(lods[j], ch is Some) by {
                    if j < k - 1 {
                        assert(lods[j] == prev[j]);
                    }
                }
            }
        }
    }
}

/// A decoded level: it has as many GPU vertex buffer headers as its index
/// buffer header counts; it has CPU geometry exactly when the mesh has CPU
/// headers, and then a single CPU vertex buffer, CPU vertex data of
/// `num_vertices * stride` bytes rounded up to a multiple of 16, and two bytes
/// of CPU index data per index; without CPU geometry both are empty.
pub open spec fn level_buffers_ok(l: LodMeshDataView, has_cpu: bool) -> bool {
    &&& l.gpu_geometry.vertex_headers.len() == l.gpu_geometry.index_header.num_vertex_buffers
    &&& (l.cpu_geometry is Some <==> has_cpu)
    &&& match l.cpu_geometry {
        Some(c) => {
            let raw = c.vertex_headers[0].num_vertices * c.vertex_headers[0].stride;
            &&& c.vertex_headers.len() == 1
            &&& l.cpu_vdata.len() % 16 == 0 && raw <= l.cpu_vdata.len() < raw + 16
            &&& l.cpu_idata.len() == 2 * c.index_header.num_indices
        },
        None => l.cpu_vdata.len() == 0 && l.cpu_idata.len() == 0,
    }
}

/// The surfaces of the first `k` levels end after where they start.
proof fn lemma_lod_surfaces_end(buf: Seq<u8>, off: int, gh: Seq<MeshHeader>, ch: Option<Seq<MeshHeader>>, k: nat)
    ensures
        lod_surfaces(buf, off, gh, ch, k) matches Parsed::Done(items, o) ==> off <= o,
    decreases k,
{
    if k > 0 {
        lemma_lod_surfaces_end(buf, off, gh, ch, (k - 1) as nat);
        if let Parsed::Done(items, o) = lod_surfaces(buf, off, gh, ch, (k - 1) as nat) {
            lemma_repeat_parse_end(buf, o, gh[k - 1].num_surfaces as nat, Surface::SIZE as int, surface_parser());
            if let Parsed::Done(gs, o2) = repeat_parse(buf, o, gh[k - 1].num_surfaces as nat, Surface::SIZE as int, surface_parser()) {
                if let Some(chs) = ch {
                    lemma_repeat_parse_end(buf, o2, chs[k - 1].num_surfaces as nat, Surface::SIZE as int, surface_parser());
                }
            }
        }
    }
}

/// Every level that `LodMeshHeader::read_data` decodes satisfies
/// `level_buffers_ok`, with CPU geometry exactly when `ptr_cpu` is -1.
pub proof fn lemma_lod_data_buffers(h: LodMeshHeader, buf: Seq<u8>, off: int, unk_2c: i32)
    requires
        0 <= off,
    ensures
        lod_data_parse(h, buf, off, unk_2c) matches Parsed::Done(items, o) ==> items.len() == h.num_lods && forall|i: int|
            0 <= i < items.len() ==> level_buffers_ok(#[trigger] items[i], h.ptr_cpu == -1),
{
    let n = h.num_lods as nat;
    let o0 = if unk_2c != 0 { off + 20 } else { off };
    lemma_round_up(o0, 16);
    if let Parsed::Done(unk, o1) = lod_prefix(buf, off, unk_2c) {
        lemma_repeat_parse_end(buf, o1, n, MeshHeader::SIZE as int, mesh_header_parser());
        if let Parsed::Done(gh, o2) = repeat_parse(buf, o1, n, MeshHeader::SIZE as int, mesh_header_parser()) {
            lemma_repeat_parse_end(buf, o2, n, MeshHeader::SIZE as int, mesh_header_parser());
            if let Parsed::Done(ch, o3) = cpu_headers_parse(buf, o2, n, h.ptr_cpu == -1) {
                lemma_lod_surfaces_end(buf, o3, gh, ch, n);
                if let Parsed::Done(surfs, o4) = lod_surfaces(buf, o3, gh, ch, n) {
                    lemma_lod_buffers_cpu(buf, o4, gh, ch, surfs, unk, n);
                }
            }
        }
    }
}

/// What precedes the mesh headers of the levels: where `unk_2c` is not zero,
/// the 20 bytes at `off`; the headers then start at the first multiple of 16
/// at or after what precedes them.
pub proof fn lemma_lod_prefix_layout(buf: Seq<u8>, off: int, unk_2c: i32)
    requires
        0 <= off,
    ensures
        lod_prefix(buf, off, unk_2c) matches Parsed::Done(unk, o) ==> {
            let p = if unk_2c != 0 { off + 20 } else { off };
            &&& (unk_2c != 0 ==> unk == Some(buf.subrange(off, off + 20)))
            &&& (unk_2c == 0 ==> unk is None)
            &&& o % 16 == 0 && p <= o < p + 16
        },
{
    let p = if unk_2c != 0 { off + 20 } else { off };
    lemma_round_up(p, 16);
}

} // verus!
