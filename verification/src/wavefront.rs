//! The contents of a Wavefront OBJ dump of a static mesh, line by line.
//!
//! The lines are produced here as values; writing them out as text (with the
//! vertex coordinates as decimal numbers) is left to the caller.
use vstd::prelude::*;

use crate::geometry::{vector_at, Vector};
use crate::material::Material;
use crate::mesh::{spec_attr_len, Mesh, MeshView, Surface, VertexBuffer, V_ATTR_FLAG_BONES, V_ATTR_FLAG_NORMAL, V_ATTR_FLAG_UNK};
use crate::static_mesh::{buffers_view, gpu_buffer_views, gpu_lods_end, StaticMesh, StaticMeshView};
use crate::util::{le_i16, le_u16, read_i16_le, read_u16_le};

verus! {

/// One line of an OBJ dump.
#[derive(Debug, Clone, Copy, PartialEq, Eq)]
pub enum ObjLine {
    /// `# v_modelview StaticMesh dump`
    Title,
    /// Whether the CPU file has geometry of its own.
    CpuGeometry(bool),
    /// Every surface is written as an object of its own.
    SeparateSurfaces,
    /// Only the CPU file was given.
    NoGpuFile,
    /// `o lod{lod}_gpu` or `o lod{lod}_cpu`, with `_surf{i}` for a separate surface.
    Object { lod: usize, cpu: bool, surface: Option<usize> },
    /// `usemtl mat_{hash:08X}`
    UseMaterial(i32),
    /// A vertex: its position as IEEE-754 bit patterns, its first texture
    /// coordinates in units of 1/1024 and its normal in units of 1/128 offset
    /// by one half, where the vertex format has them.
    Vertex { pos: Vector, uv: Option<(i16, i16)>, normal: Option<(u8, u8, u8)> },
    /// A triangle of three one-based vertex numbers.
    Face(usize, usize, usize),
}

/// Offset of the normal within a vertex of format `vh`.
pub open spec fn normal_offset(vh: VertexBuffer) -> int {
    if vh.attributes & V_ATTR_FLAG_BONES != 0 {
        20
    } else {
        12
    }
}

/// Offset of the texture coordinates within a vertex of format `vh`.
pub open spec fn uv_offset(vh: VertexBuffer) -> int {
    12 + spec_attr_len(vh.attributes)
}

/// Vertices of format `vh` carry a normal.
pub open spec fn has_normal(vh: VertexBuffer) -> bool {
    vh.attributes & V_ATTR_FLAG_NORMAL != 0
}

/// Vertex `i` of `vbuf` can be read whole.
pub open spec fn vertex_fits(vh: VertexBuffer, vbuf: Seq<u8>, i: int) -> bool {
    let v_off = i * vh.stride as int;
    &&& v_off + 12 <= vbuf.len()
    &&& v_off + normal_offset(vh) <= usize::MAX
    &&& vh.num_uv_channels > 0 ==> v_off + uv_offset(vh) + 4 <= vbuf.len()
    &&& has_normal(vh) ==> v_off + normal_offset(vh) + 3 <= vbuf.len()
}

/// Every vertex that `vh` describes can be read from `vbuf`.
pub open spec fn vertices_fit(vh: VertexBuffer, vbuf: Seq<u8>) -> bool {
    forall|i: int| 0 <= i < vh.num_vertices ==> #[trigger] vertex_fits(vh, vbuf, i)
}

/// The line of vertex `i` of `vbuf`.
pub open spec fn vertex_line(vh: VertexBuffer, vbuf: Seq<u8>, i: int) -> ObjLine {
    let v_off = i * vh.stride as int;
    let uv_off = v_off + uv_offset(vh);
    let n_off = v_off + normal_offset(vh);
    ObjLine::Vertex {
        pos: vector_at(vbuf, v_off),
        uv: if vh.num_uv_channels > 0 {
            Some((le_i16(vbuf, uv_off), le_i16(vbuf, uv_off + 2)))
        } else {
            None
        },
        normal: if has_normal(vh) {
            Some((vbuf[n_off], vbuf[n_off + 1], vbuf[n_off + 2]))
        } else {
            None
        },
    }
}

/// The lines of all vertices of `vbuf`.
pub open spec fn vertex_lines(vh: VertexBuffer, vbuf: Seq<u8>) -> Seq<ObjLine> {
    Seq::new(vh.num_vertices as nat, |i: int| vertex_line(vh, vbuf, i))
}

/// Index `j` of the 16-bit index buffer `ibuf`.
pub open spec fn index_at(ibuf: Seq<u8>, j: int) -> u16 {
    le_u16(ibuf, 2 * j)
}

/// The triangle strip of `surf` can be read from `ibuf`, and its vertex
/// numbers, counted from `base`, fit in a `usize`.
pub open spec fn faces_fit(base: int, surf: Surface, ibuf: Seq<u8>) -> bool {
    let start = surf.start_index as int;
    let end = start + surf.num_indices as int;
    &&& 2 <= end <= usize::MAX
    &&& end - 2 > start ==> {
        &&& 2 * end <= ibuf.len()
        &&& forall|j: int| start <= j < end ==> base + #[trigger] index_at(ibuf, j) <= usize::MAX
    }
}

/// The triangle that starts at index `i` of the strip of `surf`; every other
/// triangle has its winding turned back.
pub open spec fn face_line(base: int, surf: Surface, ibuf: Seq<u8>, i: int) -> ObjLine {
    let a = (base + index_at(ibuf, i)) as usize;
    let b = (base + index_at(ibuf, i + 1)) as usize;
    let c = (base + index_at(ibuf, i + 2)) as usize;
    if (i - surf.start_index) % 2 == 0 {
        ObjLine::Face(a, b, c)
    } else {
        ObjLine::Face(a, c, b)
    }
}

/// The number of triangles in the strip of `surf`.
pub open spec fn num_faces(surf: Surface) -> int {
    if surf.num_indices > 2 {
        surf.num_indices - 2
    } else {
        0
    }
}

/// The triangles of the strip of `surf`.
pub open spec fn face_lines(base: int, surf: Surface, ibuf: Seq<u8>) -> Seq<ObjLine> {
    Seq::new(num_faces(surf) as nat, |k: int| face_line(base, surf, ibuf, surf.start_index + k))
}

/// Where the geometry of one level comes from: the headers, the vertex
/// buffers (one per header, or a single one that all share) and the index
/// buffer.
pub struct GeomSource {
    pub geom: MeshView,
    pub vbufs: Seq<Seq<u8>>,
    pub shared: bool,
    pub ibuf: Seq<u8>,
    pub lod: int,
    pub cpu: bool,
}

/// The vertex data that `surf` draws from.
pub open spec fn vbuf_of(src: GeomSource, surf: Surface) -> Seq<u8> {
    if src.shared {
        src.vbufs[0]
    } else {
        src.vbufs[surf.vbuf as int]
    }
}

/// The lines of surface `i` of `src` with vertex numbers from `base`, and the
/// next vertex number; `None` where the dump would stop on a bad index.
pub open spec fn surface_lines(mats: Seq<Material>, src: GeomSource, separate: bool, base: int, i: int) -> Option<(Seq<ObjLine>, int)> {
    let surf = src.geom.surfaces[i];
    let obj: Seq<ObjLine> = if separate {
        seq![ObjLine::Object { lod: src.lod as usize, cpu: src.cpu, surface: Some(i as usize) }]
    } else {
        Seq::empty()
    };
    if surf.material >= mats.len() || surf.vbuf >= src.geom.vertex_headers.len() || (!src.shared
        && surf.vbuf >= src.vbufs.len()) {
        None
    } else {
        let vh = src.geom.vertex_headers[surf.vbuf as int];
        let vbuf = vbuf_of(src, surf);
        if !vertices_fit(vh, vbuf) || !faces_fit(base, surf, src.ibuf) || base + vh.num_vertices > usize::MAX {
            None
        } else {
            Some(
                (
                    obj.push(ObjLine::UseMaterial(mats[surf.material as int].material_hash)) + vertex_lines(vh, vbuf)
                        + face_lines(base, surf, src.ibuf),
                    base + vh.num_vertices,
                ),
            )
        }
    }
}

/// The lines of the first `k` surfaces of `src`.
pub open spec fn geom_lines(mats: Seq<Material>, src: GeomSource, separate: bool, base: int, k: nat) -> Option<(Seq<ObjLine>, int)>
    decreases k,
{
    if k == 0 {
        Some((Seq::empty(), base))
    } else {
        match geom_lines(mats, src, separate, base, (k - 1) as nat) {
            None => None,
            Some((ls, b)) => match surface_lines(mats, src, separate, b, k - 1) {
                None => None,
                Some((more, b2)) => Some((ls + more, b2)),
            },
        }
    }
}

/// The `o` line of a whole level, written unless surfaces are separate.
pub open spec fn lod_object(separate: bool, lod: int, cpu: bool) -> Seq<ObjLine> {
    if separate {
        Seq::empty()
    } else {
        seq![ObjLine::Object { lod: lod as usize, cpu, surface: None }]
    }
}

/// The lines of level `lod`: its GPU geometry where the GPU buffers are
/// given, then its CPU geometry where it has one.
pub open spec fn lod_lines(
    sm: StaticMeshView,
    gpu: Option<Seq<(Seq<Seq<u8>>, Seq<u8>)>>,
    separate: bool,
    lod: int,
    base: int,
) -> Option<(Seq<ObjLine>, int)> {
    let mesh = sm.lod_meshes[lod];
    let mats = sm.matlib.materials;
    let g = match gpu {
        None => Some((Seq::empty(), base)),
        Some(bufs) => {
            let src = GeomSource {
                geom: mesh.gpu_geometry,
                vbufs: bufs[lod].0,
                shared: false,
                ibuf: bufs[lod].1,
                lod,
                cpu: false,
            };
            match geom_lines(mats, src, separate, base, mesh.gpu_geometry.surfaces.len()) {
                None => None,
                Some((ls, b)) => Some((lod_object(separate, lod, false) + ls, b)),
            }
        },
    };
    match g {
        None => None,
        Some((gl, b1)) => match mesh.cpu_geometry {
            None => Some((gl, b1)),
            Some(cg) => {
                let src = GeomSource { geom: cg, vbufs: seq![mesh.cpu_vdata], shared: true, ibuf: mesh.cpu_idata, lod, cpu: true };
                match geom_lines(mats, src, separate, b1, cg.surfaces.len()) {
                    None => None,
                    Some((cl, b2)) => Some((gl + lod_object(separate, lod, true) + cl, b2)),
                }
            },
        },
    }
}

/// The lines of the first `k` levels, vertex numbers starting at 1.
pub open spec fn lods_lines(sm: StaticMeshView, gpu: Option<Seq<(Seq<Seq<u8>>, Seq<u8>)>>, separate: bool, k: nat) -> Option<(Seq<ObjLine>, int)>
    decreases k,
{
    if k == 0 {
        Some((Seq::empty(), 1))
    } else {
        match lods_lines(sm, gpu, separate, (k - 1) as nat) {
            None => None,
            Some((ls, b)) => match lod_lines(sm, gpu, separate, k - 1, b) {
                None => None,
                Some((more, b2)) => Some((ls + more, b2)),
            },
        }
    }
}

/// The comment lines at the top of a dump.
pub open spec fn preamble(sm: StaticMeshView, has_gpu: bool, separate: bool) -> Seq<ObjLine> {
    seq![ObjLine::Title, ObjLine::CpuGeometry(sm.mesh_header.ptr_cpu == -1)] + (if separate {
        seq![ObjLine::SeparateSurfaces]
    } else {
        Seq::empty()
    }) + (if has_gpu {
        Seq::empty()
    } else {
        seq![ObjLine::NoGpuFile]
    })
}

/// The OBJ dump of `sm`, with the GPU file `g` where it is given; `None` where
/// the dump would stop on an index or a buffer that is out of range.
pub open spec fn obj_lines(sm: StaticMeshView, g: Option<Seq<u8>>, separate: bool) -> Option<Seq<ObjLine>> {
    let n = sm.lod_meshes.len();
    let gpu = match g {
        Some(b) => Some(gpu_buffer_views(b, sm.lod_meshes)),
        None => None,
    };
    if g matches Some(b) && gpu_lods_end(sm.lod_meshes, n) > b.len() {
        None
    } else {
        match lods_lines(sm, gpu, separate, n) {
            None => None,
            Some((ls, _)) => Some(preamble(sm, g is Some, separate) + ls),
        }
    }
}

/// Appends the lines of the vertices of `vbuf`.
fn write_vertices(out: &mut Vec<ObjLine>, vh: &VertexBuffer, vbuf: &[u8])
    requires
        vertices_fit(*vh, vbuf@),
    ensures
        final(out)@ == old(out)@ + vertex_lines(*vh, vbuf@),
{
    let stride = vh.stride as usize;
    let num_vertices = vh.num_vertices as usize;
    let mut i: usize = 0;
    while i < num_vertices
        invariant
            stride == vh.stride,
            num_vertices == vh.num_vertices,
            i <= num_vertices,
            vertices_fit(*vh, vbuf@),
            out@ == old(out)@ + Seq::new(i as nat, |k: int| vertex_line(*vh, vbuf@, k)),
        decreases num_vertices - i,
    {
        assert(vertex_fits(*vh, vbuf@, i as int));
        let v_off = i * stride;
        let rest = &vbuf[v_off..vbuf.len()];
        let pos = Vector::from_le_unsized(rest).unwrap();
        assert(pos == vector_at(vbuf@, v_off as int)) by {
            assert(rest@ =~= vbuf@.subrange(v_off as int, vbuf@.len() as int));
            assert(rest@[0] == vbuf@[v_off as int]);
            assert(rest@[1] == vbuf@[v_off + 1]);
            assert(rest@[2] == vbuf@[v_off + 2]);
            assert(rest@[3] == vbuf@[v_off + 3]);
            assert(rest@[4] == vbuf@[v_off + 4]);
            assert(rest@[5] == vbuf@[v_off + 5]);
            assert(rest@[6] == vbuf@[v_off + 6]);
            assert(rest@[7] == vbuf@[v_off + 7]);
            assert(rest@[8] == vbuf@[v_off + 8]);
            assert(rest@[9] == vbuf@[v_off + 9]);
            assert(rest@[10] == vbuf@[v_off + 10]);
            assert(rest@[11] == vbuf@[v_off + 11]);
        }
        let uv = if vh.num_uv_channels > 0 {
            let uv_off = v_off + vh.off_uv();
            Some((read_i16_le(vbuf, uv_off), read_i16_le(vbuf, uv_off + 2)))
        } else {
            None
        };
        let normal_off = v_off + vh.off_normal();
        let normal = if vh.has_normals() {
            Some((vbuf[normal_off], vbuf[normal_off + 1], vbuf[normal_off + 2]))
        } else {
            None
        };
        let ghost before = out@;
        out.push(ObjLine::Vertex { pos, uv, normal });
        assert(out@.last() == vertex_line(*vh, vbuf@, i as int));
        i = i + 1;
        assert(out@ =~= old(out)@ + Seq::new(i as nat, |k: int| vertex_line(*vh, vbuf@, k)));
    }
}

/// Appends the triangles of the strip of `surf`, numbering vertices from `base`.
fn write_indices(out: &mut Vec<ObjLine>, base: usize, surf: &Surface, ibuf: &[u8])
    requires
        faces_fit(base as int, *surf, ibuf@),
    ensures
        final(out)@ == old(out)@ + face_lines(base as int, *surf, ibuf@),
{
    let start = surf.start_index as usize;
    let end = start + surf.num_indices as usize;
    let ilen = ibuf.len();
    let mut i = start;
    while i < end - 2
        invariant
            ilen == ibuf@.len(),
            start == surf.start_index,
            end == start + surf.num_indices,
            2 <= end,
            start <= i,
            i <= end - 2 || i == start,
            faces_fit(base as int, *surf, ibuf@),
            out@ == old(out)@ + Seq::new((i - start) as nat, |k: int| face_line(base as int, *surf, ibuf@, start + k)),
        decreases end - i,
    {
        assert(base + index_at(ibuf@, i as int) <= usize::MAX);
        assert(base + index_at(ibuf@, i + 1) <= usize::MAX);
        assert(base + index_at(ibuf@, i + 2) <= usize::MAX);
        let a = base + read_u16_le(ibuf, i * 2) as usize;
        let b = base + read_u16_le(ibuf, i * 2 + 2) as usize;
        let c = base + read_u16_le(ibuf, i * 2 + 4) as usize;
        if (i - start) % 2 == 0 {
            out.push(ObjLine::Face(a, b, c));
        } else {
            out.push(ObjLine::Face(a, c, b));
        }
        assert(out@.last() == face_line(base as int, *surf, ibuf@, i as int));
        i = i + 1;
        assert(out@ =~= old(out)@ + Seq::new((i - start) as nat, |k: int| face_line(base as int, *surf, ibuf@, start + k)));
    }
    assert(face_lines(base as int, *surf, ibuf@) =~= Seq::new((i - start) as nat, |k: int| face_line(base as int, *surf, ibuf@, start + k)));
}

/// Whether every vertex that `vh` describes can be read from `vbuf`.
fn vertices_fit_check(vh: &VertexBuffer, vbuf: &[u8]) -> (r: bool)
    ensures
        r == vertices_fit(*vh, vbuf@),
{
    let stride = vh.stride as usize;
    let num_vertices = vh.num_vertices as usize;
    let len = vbuf.len();
    let mut i: usize = 0;
    while i < num_vertices
        invariant
            stride == vh.stride,
            num_vertices == vh.num_vertices,
            len == vbuf@.len(),
            i <= num_vertices,
            forall|k: int| 0 <= k < i ==> #[trigger] vertex_fits(*vh, vbuf@, k),
        decreases num_vertices - i,
    {
        let v_off = match i.checked_mul(stride) {
            Some(v) => v,
            None => {
                assert(!vertex_fits(*vh, vbuf@, i as int));
                return false;
            },
        };
        let fits = v_off <= len && len - v_off >= 12 && v_off <= usize::MAX - vh.off_normal() && (vh.num_uv_channels
            == 0 || (len - v_off >= vh.off_uv() && len - v_off - vh.off_uv() >= 4)) && (!vh.has_normals() || (len
            - v_off >= vh.off_normal() && len - v_off - vh.off_normal() >= 3));
        if !fits {
            assert(!vertex_fits(*vh, vbuf@, i as int));
            return false;
        }
        i = i + 1;
    }
    true
}

/// Whether the triangle strip of `surf` can be read from `ibuf` with vertex
/// numbers counted from `base`.
fn faces_fit_check(base: usize, surf: &Surface, ibuf: &[u8]) -> (r: bool)
    ensures
        r == faces_fit(base as int, *surf, ibuf@),
{
    let start = surf.start_index as usize;
    let end = match start.checked_add(surf.num_indices as usize) {
        Some(e) => e,
        None => {
            return false;
        },
    };
    if end < 2 {
        return false;
    }
    if end - 2 <= start {
        return true;
    }
    if end > ibuf.len() / 2 {
        return false;
    }
    let len = ibuf.len();
    let mut j = start;
    while j < end
        invariant
            len == ibuf@.len(),
            end - 2 > start,
            start == surf.start_index,
            end == start + surf.num_indices,
            2 * end <= ibuf@.len(),
            start <= j <= end,
            forall|k: int| start <= k < j ==> base + #[trigger] index_at(ibuf@, k) <= usize::MAX,
        decreases end - j,
    {
        let ix = read_u16_le(ibuf, j * 2);
        assert(ix == index_at(ibuf@, j as int));
        if base.checked_add(ix as usize).is_none() {
            assert(!(base + index_at(ibuf@, j as int) <= usize::MAX));
            assert(!faces_fit(base as int, *surf, ibuf@));
            return false;
        }
        j = j + 1;
    }
    true
}

/// Once a dump stops on a surface, it stops for every later count too.
proof fn lemma_geom_lines_stops(mats: Seq<Material>, src: GeomSource, separate: bool, base: int, j: nat, k: nat)
    requires
        j <= k,
        geom_lines(mats, src, separate, base, j) is None,
    ensures
        geom_lines(mats, src, separate, base, k) is None,
    decreases k - j,
{
    if j < k {
        lemma_geom_lines_stops(mats, src, separate, base, j, (k - 1) as nat);
    }
}

/// The views of a list of vertex buffers.
pub open spec fn slices_view(v: Seq<&[u8]>) -> Seq<Seq<u8>> {
    v.map_values(|s: &[u8]| s@)
}

/// Appends the lines of surface `i` of `geom`, numbering vertices from
/// `*base` and moving it past the vertices written; `false` where the dump
/// stops on this surface.
fn write_surface(
    out: &mut Vec<ObjLine>,
    base: &mut usize,
    mats: &Vec<Material>,
    geom: &Mesh,
    vbufs: &Vec<&[u8]>,
    shared: bool,
    ibuf: &[u8],
    lod: usize,
    cpu: bool,
    separate: bool,
    i: usize,
    Ghost(src): Ghost<GeomSource>,
) -> (r: bool)
    requires
        i < geom@.surfaces.len(),
        shared ==> vbufs@.len() == 1,
        src == (GeomSource { geom: geom@, vbufs: slices_view(vbufs@), shared, ibuf: ibuf@, lod: lod as int, cpu }),
    ensures
        match surface_lines(mats@, src, separate, *old(base) as int, i as int) {
            Some((more, b)) => r && final(out)@ == old(out)@ + more && *final(base) == b,
            None => !r,
        },
{
    let ghost before = out@;
    let surf = &geom.surfaces[i];
    if surf.material as usize >= mats.len() || surf.vbuf as usize >= geom.vertex_headers.len() || (!shared
        && surf.vbuf as usize >= vbufs.len()) {
        return false;
    }
    let vhead = &geom.vertex_headers[surf.vbuf as usize];
    let vbuf = if shared {
        vbufs[0]
    } else {
        vbufs[surf.vbuf as usize]
    };
    assert(vbuf@ == vbuf_of(src, *surf));
    if !vertices_fit_check(vhead, vbuf) || !faces_fit_check(*base, surf, ibuf) || *base > usize::MAX
        - vhead.num_vertices as usize {
        return false;
    }
    if separate {
        out.push(ObjLine::Object { lod, cpu, surface: Some(i) });
    }
    let mat_name = mats[surf.material as usize].material_hash;
    out.push(ObjLine::UseMaterial(mat_name));
    write_vertices(out, vhead, vbuf);
    write_indices(out, *base, surf, ibuf);
    *base = *base + vhead.num_vertices as usize;
    assert(out@ =~= before + surface_lines(mats@, src, separate, *old(base) as int, i as int)->Some_0.0);
    true
}

/// Appends the lines of the surfaces of `geom`, numbering vertices from
/// `*base` and moving it past the vertices written; `false` where the dump
/// stops on one of them.
fn write_geometry(
    out: &mut Vec<ObjLine>,
    base: &mut usize,
    mats: &Vec<Material>,
    geom: &Mesh,
    vbufs: &Vec<&[u8]>,
    shared: bool,
    ibuf: &[u8],
    lod: usize,
    cpu: bool,
    separate: bool,
) -> (r: bool)
    requires
        shared ==> vbufs@.len() == 1,
    ensures
        match geom_lines(
            mats@,
            GeomSource { geom: geom@, vbufs: slices_view(vbufs@), shared, ibuf: ibuf@, lod: lod as int, cpu },
            separate,
            *old(base) as int,
            geom@.surfaces.len(),
        ) {
            Some((ls, b)) => r && final(out)@ == old(out)@ + ls && *final(base) == b,
            None => !r,
        },
{
    let ghost src = GeomSource { geom: geom@, vbufs: slices_view(vbufs@), shared, ibuf: ibuf@, lod: lod as int, cpu };
    let ghost start = out@;
    let ghost base0 = *base as int;
    let ghost mut acc: Seq<ObjLine> = Seq::empty();
    let n = geom.surfaces.len();
    let mut i: usize = 0;
    assert(out@ =~= start + acc);
    while i < n
        invariant
            n == geom@.surfaces.len(),
            i <= n,
            src == (GeomSource { geom: geom@, vbufs: slices_view(vbufs@), shared, ibuf: ibuf@, lod: lod as int, cpu }),
            shared ==> vbufs@.len() == 1,
            start == old(out)@,
            base0 == *old(base) as int,
            out@ == start + acc,
            geom_lines(mats@, src, separate, base0, i as nat) == Some((acc, *base as int)),
        decreases n - i,
    {
        let ghost b = *base as int;
        if !write_surface(out, base, mats, geom, vbufs, shared, ibuf, lod, cpu, separate, i, Ghost(src)) {
            proof {
                lemma_geom_lines_stops(mats@, src, separate, base0, (i + 1) as nat, n as nat);
            }
            return false;
        }
        proof {
            let more = surface_lines(mats@, src, separate, b, i as int)->Some_0.0;
            acc = acc + more;
            assert(out@ =~= start + acc);
        }
        i = i + 1;
    }
    true
}

impl StaticMesh {
    /// The lines of a Wavefront OBJ dump of the mesh: comments on what the
    /// dump holds, then for each level of detail its GPU geometry (where the
    /// GPU file `g_smesh` is given) and its CPU geometry (where there is one),
    /// each surface with its material, its vertices and its triangles.
    /// Vertex numbers count on across all surfaces from 1.
    pub fn dump_wavefront(&self, g_smesh: Option<&[u8]>, separate_surfaces: bool) -> (r: Vec<ObjLine>)
        requires
            obj_lines(
                self@,
                match g_smesh {
                    Some(b) => Some(b@),
                    None => None,
                },
                separate_surfaces,
            ) is Some,
        ensures
            Some(r@) == obj_lines(
                self@,
                match g_smesh {
                    Some(b) => Some(b@),
                    None => None,
                },
                separate_surfaces,
            ),
    {
        self.try_dump_wavefront(g_smesh, separate_surfaces).unwrap()
    }

    /// `dump_wavefront`, or `None` where a surface names a material or a
    /// vertex buffer that does not exist, or a buffer is too short for what
    /// its header describes.
    pub fn try_dump_wavefront(&self, g_smesh: Option<&[u8]>, separate_surfaces: bool) -> (r: Option<Vec<ObjLine>>)
        ensures
            match r {
                Some(v) => Some(v@) == obj_lines(
                    self@,
                    match g_smesh {
                        Some(b) => Some(b@),
                        None => None,
                    },
                    separate_surfaces,
                ),
                None => obj_lines(
                    self@,
                    match g_smesh {
                        Some(b) => Some(b@),
                        None => None,
                    },
                    separate_surfaces,
                ) is None,
            },
    {
        let ghost g = match g_smesh {
            Some(b) => Some(b@),
            None => None,
        };
        let ghost sm = self@;
        let mut out: Vec<ObjLine> = Vec::new();
        out.push(ObjLine::Title);
        out.push(ObjLine::CpuGeometry(self.mesh_header.has_cpu_geometry()));
        if separate_surfaces {
            out.push(ObjLine::SeparateSurfaces);
        }
        if g_smesh.is_none() {
            out.push(ObjLine::NoGpuFile);
        }
        assert(out@ =~= preamble(sm, g is Some, separate_surfaces));
        let ghost pre = out@;

        let gpu_buffers = match g_smesh {
            Some(b) => {
                if !self.gpu_buffers_fit(b) {
                    assert(g == Some(b@));
                    return None;
                }
                Some(self.gpu_buffers(b).unwrap())
            },
            None => None,
        };
        let ghost gpu = match g {
            Some(b) => Some(gpu_buffer_views(b, sm.lod_meshes)),
            None => None,
        };
        assert(match gpu_buffers {
            Some(v) => gpu == Some(buffers_view(v@)),
            None => gpu is None,
        });

        let n = self.lod_meshes.len();
        assert(obj_lines(sm, g, separate_surfaces) == (match lods_lines(sm, gpu, separate_surfaces, n as nat) {
            Some((ls, _)) => Some(pre + ls),
            None => None,
        }));
        let mut base: usize = 1;
        let mut lod: usize = 0;
        let ghost mut acc: Seq<ObjLine> = Seq::empty();
        assert(out@ =~= pre + acc);
        while lod < n
            invariant
                n == sm.lod_meshes.len(),
                sm == self@,
                g == (match g_smesh {
                    Some(b) => Some(b@),
                    None => None,
                }),
                lod <= n,
                match gpu_buffers {
                    Some(v) => gpu == Some(buffers_view(v@)),
                    None => gpu is None,
                },
                gpu matches Some(gv) ==> gv.len() == n,
                out@ == pre + acc,
                lods_lines(sm, gpu, separate_surfaces, lod as nat) == Some((acc, base as int)),
                obj_lines(sm, g, separate_surfaces) == (match lods_lines(sm, gpu, separate_surfaces, n as nat) {
                    Some((ls, _)) => Some(pre + ls),
                    None => None,
                }),
            decreases n - lod,
        {
            let ghost b0 = base as int;
            if !write_lod(&mut out, &mut base, self, &gpu_buffers, Ghost(gpu), separate_surfaces, lod) {
                proof {
                    lemma_lods_lines_stops(sm, gpu, separate_surfaces, (lod + 1) as nat, n as nat);
                }
                return None;
            }
            proof {
                let more = lod_lines(sm, gpu, separate_surfaces, lod as int, b0)->Some_0.0;
                acc = acc + more;
                assert(out@ =~= pre + acc);
            }
            lod = lod + 1;
        }
        Some(out)
    }
}

/// Once a dump stops on a level, it stops for every later count too.
proof fn lemma_lods_lines_stops(sm: StaticMeshView, gpu: Option<Seq<(Seq<Seq<u8>>, Seq<u8>)>>, separate: bool, j: nat, k: nat)
    requires
        j <= k,
        lods_lines(sm, gpu, separate, j) is None,
    ensures
        lods_lines(sm, gpu, separate, k) is None,
    decreases k - j,
{
    if j < k {
        lemma_lods_lines_stops(sm, gpu, separate, j, (k - 1) as nat);
    }
}

/// Appends the lines of level `lod`; `false` where the dump stops in it.
fn write_lod(
    out: &mut Vec<ObjLine>,
    base: &mut usize,
    smesh: &StaticMesh,
    gpu_buffers: &Option<Vec<(Vec<&[u8]>, &[u8])>>,
    Ghost(gpu): Ghost<Option<Seq<(Seq<Seq<u8>>, Seq<u8>)>>>,
    separate: bool,
    lod: usize,
) -> (r: bool)
    requires
        lod < smesh@.lod_meshes.len(),
        match *gpu_buffers {
            Some(v) => gpu == Some(buffers_view(v@)),
            None => gpu is None,
        },
        gpu matches Some(gv) ==> gv.len() == smesh@.lod_meshes.len(),
    ensures
        match lod_lines(smesh@, gpu, separate, lod as int, *old(base) as int) {
            Some((ls, b)) => r && final(out)@ == old(out)@ + ls && *final(base) == b,
            None => !r,
        },
{
    let ghost start = out@;
    let ghost b0 = *base as int;
    let mesh = &smesh.lod_meshes[lod];
    let ghost mv = mesh@;
    let ghost mats = smesh@.matlib.materials;
    assert(mv == smesh@.lod_meshes[lod as int]);
    match gpu_buffers {
        Some(bufs) => {
            let ghost bv = buffers_view(bufs@);
            let (vbufs, ibuf) = &bufs[lod];
            assert(bv[lod as int].0 =~= slices_view(vbufs@));
            assert(bv[lod as int].1 == ibuf@);
            let ghost src = GeomSource { geom: mv.gpu_geometry, vbufs: bv[lod as int].0, shared: false, ibuf: bv[lod as int].1, lod: lod as int, cpu: false };
            if !separate {
                out.push(ObjLine::Object { lod, cpu: false, surface: None });
            }
            if !write_geometry(out, base, &smesh.matlib.materials, &mesh.gpu_geometry, vbufs, false, ibuf, lod, false, separate) {
                return false;
            }
            assert(out@ =~= start + (lod_object(separate, lod as int, false) + geom_lines(mats, src, separate, b0, mv.gpu_geometry.surfaces.len())->Some_0.0));
        },
        None => {
            assert(out@ =~= start + Seq::<ObjLine>::empty());
        },
    }
    let ghost after_gpu = out@;
    let ghost b1 = *base as int;
    match &mesh.cpu_geometry {
        Some(geom) => {
            let ghost src = GeomSource { geom: geom@, vbufs: seq![mesh.cpu_vdata@], shared: true, ibuf: mesh.cpu_idata@, lod: lod as int, cpu: true };
            if !separate {
                out.push(ObjLine::Object { lod, cpu: true, surface: None });
            }
            let mut vbufs: Vec<&[u8]> = Vec::new();
            vbufs.push(mesh.cpu_vdata.as_slice());
            assert(slices_view(vbufs@) =~= seq![mesh.cpu_vdata@]);
            if !write_geometry(out, base, &smesh.matlib.materials, geom, &vbufs, true, mesh.cpu_idata.as_slice(), lod, true, separate) {
                return false;
            }
            assert(out@ =~= after_gpu + lod_object(separate, lod as int, true) + geom_lines(mats, src, separate, b1, geom@.surfaces.len())->Some_0.0);
        },
        None => {},
    }
    true
}

/// The face `f` goes from vertex `x` to vertex `y` along one of its edges.
pub open spec fn face_has_edge(f: ObjLine, x: usize, y: usize) -> bool {
    f matches ObjLine::Face(a, b, c) && ((a == x && b == y) || (b == x && c == y) || (c == x && a == y))
}

/// Vertex number `j` of a strip: index `j` of the 16-bit buffer `ibuf`,
/// counted from `base`.
pub open spec fn strip_vertex(base: int, ibuf: Seq<u8>, j: int) -> usize {
    (base + le_u16(ibuf, 2 * j)) as usize
}

/// The faces of a strip surface keep the winding of its first triangle.  The
/// face for strip position `k` (counted from the surface's first index `s`)
/// is `(v[s+k], v[s+k+1], v[s+k+2])` for even `k` and
/// `(v[s+k], v[s+k+2], v[s+k+1])` for odd `k`, and two faces in a row go along
/// the edge they share in opposite directions.  A strip of `n > 2` indices
/// gives `n - 2` faces, a shorter one none.
pub proof fn lemma_strip_faces_keep_winding(base: int, surf: Surface, ibuf: Seq<u8>)
    ensures
        face_lines(base, surf, ibuf).len() == if surf.num_indices > 2 {
            surf.num_indices - 2
        } else {
            0
        },
        forall|k: int|
            0 <= k < face_lines(base, surf, ibuf).len() ==> {
                let s = surf.start_index + k;
                let v0 = strip_vertex(base, ibuf, s);
                let v1 = strip_vertex(base, ibuf, s + 1);
                let v2 = strip_vertex(base, ibuf, s + 2);
                #[trigger] face_lines(base, surf, ibuf)[k] == if k % 2 == 0 {
                    ObjLine::Face(v0, v1, v2)
                } else {
                    ObjLine::Face(v0, v2, v1)
                }
            },
        forall|k: int|
            0 <= k && k + 1 < face_lines(base, surf, ibuf).len() ==> {
                let s = surf.start_index + k;
                let p = strip_vertex(base, ibuf, s + 1);
                let q = strip_vertex(base, ibuf, s + 2);
                let f = #[trigger] face_lines(base, surf, ibuf)[k];
                let g = face_lines(base, surf, ibuf)[k + 1];
                (face_has_edge(f, p, q) && face_has_edge(g, q, p)) || (face_has_edge(f, q, p) && face_has_edge(g, p, q))
            },
{
    let fl = face_lines(base, surf, ibuf);
    assert forall|k: int| 0 <= k < fl.len() implies {
        let s = surf.start_index + k;
        let v0 = strip_vertex(base, ibuf, s);
        let v1 = strip_vertex(base, ibuf, s + 1);
        let v2 = strip_vertex(base, ibuf, s + 2);
        #[trigger] fl[k] == if k % 2 == 0 {
            ObjLine::Face(v0, v1, v2)
        } else {
            ObjLine::Face(v0, v2, v1)
        }
    } by {
        assert((surf.start_index + k - surf.start_index) % 2 == k % 2);
    }
    assert forall|k: int| 0 <= k && k + 1 < fl.len() implies {
        let s = surf.start_index + k;
        let p = strip_vertex(base, ibuf, s + 1);
        let q = strip_vertex(base, ibuf, s + 2);
        let f = #[trigger] fl[k];
        let g = fl[k + 1];
        (face_has_edge(f, p, q) && face_has_edge(g, q, p)) || (face_has_edge(f, q, p) && face_has_edge(g, p, q))
    } by {
        assert((surf.start_index + k - surf.start_index) % 2 == k % 2);
        assert((surf.start_index + (k + 1) - surf.start_index) % 2 == (k + 1) % 2);
        assert(k % 2 == 0 <==> (k + 1) % 2 == 1);
    }
}

/// What the dump writes for surface `i`: an `o` line where surfaces are
/// separate, the `usemtl` line of its material, a line for each vertex of its
/// vertex buffer (the shared one, or the one it names), then its faces; the
/// next surface numbers its vertices on from `base` plus its vertex count.
/// Vertex `j` starts at byte `j * stride`: its position is its first 12 bytes;
/// its bone data (8 bytes), normal (4) and unknown data (8) follow where the
/// format has them, then its first texture coordinates.
pub proof fn lemma_surface_dump(mats: Seq<Material>, src: GeomSource, separate: bool, base: int, i: int)
    ensures
        surface_lines(mats, src, separate, base, i) matches Some((ls, next)) ==> {
            let surf = src.geom.surfaces[i];
            let vh = src.geom.vertex_headers[surf.vbuf as int];
            let vbuf = if src.shared {
                src.vbufs[0]
            } else {
                src.vbufs[surf.vbuf as int]
            };
            let bones = vh.attributes & V_ATTR_FLAG_BONES != 0;
            let normal = vh.attributes & V_ATTR_FLAG_NORMAL != 0;
            let unk = vh.attributes & V_ATTR_FLAG_UNK != 0;
            let n_at = 12 + (if bones { 8int } else { 0int });
            let uv_at = n_at + (if normal { 4int } else { 0int }) + (if unk { 8int } else { 0int });
            let head: Seq<ObjLine> = if separate {
                seq![ObjLine::Object { lod: src.lod as usize, cpu: src.cpu, surface: Some(i as usize) }]
            } else {
                Seq::empty()
            };
            &&& next == base + vh.num_vertices
            &&& ls == head + seq![ObjLine::UseMaterial(mats[surf.material as int].material_hash)] + Seq::new(
                vh.num_vertices as nat,
                |j: int|
                    {
                        let at = j * vh.stride;
                        ObjLine::Vertex {
                            pos: vector_at(vbuf, at),
                            uv: if vh.num_uv_channels > 0 {
                                Some((le_i16(vbuf, at + uv_at), le_i16(vbuf, at + uv_at + 2)))
                            } else {
                                None
                            },
                            normal: if normal {
                                Some((vbuf[at + n_at], vbuf[at + n_at + 1], vbuf[at + n_at + 2]))
                            } else {
                                None
                            },
                        }
                    },
            ) + face_lines(base, surf, src.ibuf)
        },
{
    if let Some((ls, next)) = surface_lines(mats, src, separate, base, i) {
        let surf = src.geom.surfaces[i];
        let vh = src.geom.vertex_headers[surf.vbuf as int];
        let vbuf = vbuf_of(src, surf);
        let bones = vh.attributes & V_ATTR_FLAG_BONES != 0;
        let normal = vh.attributes & V_ATTR_FLAG_NORMAL != 0;
        let unk = vh.attributes & V_ATTR_FLAG_UNK != 0;
        let n_at = 12 + (if bones { 8int } else { 0int });
        let uv_at = n_at + (if normal { 4int } else { 0int }) + (if unk { 8int } else { 0int });
        assert(normal_offset(vh) == n_at);
        assert(uv_offset(vh) == uv_at);
        let explicit = Seq::new(
            vh.num_vertices as nat,
            |j: int|
                {
                    let at = j * vh.stride;
                    ObjLine::Vertex {
                        pos: vector_at(vbuf, at),
                        uv: if vh.num_uv_channels > 0 {
                            Some((le_i16(vbuf, at + uv_at), le_i16(vbuf, at + uv_at + 2)))
                        } else {
                            None
                        },
                        normal: if normal {
                            Some((vbuf[at + n_at], vbuf[at + n_at + 1], vbuf[at + n_at + 2]))
                        } else {
                            None
                        },
                    }
                },
        );
        assert(vertex_lines(vh, vbuf) =~= explicit);
    }
}

/// Vertex numbers start at 1 and count on across surfaces: the dump of the
/// first `k + 1` surfaces of a level is that of the first `k`, followed by the
/// lines of surface `k` numbered from where they stopped; it stops where either
/// stops.
pub proof fn lemma_vertex_numbering(
    sm: StaticMeshView,
    gpu: Option<Seq<(Seq<Seq<u8>>, Seq<u8>)>>,
    mats: Seq<Material>,
    src: GeomSource,
    separate: bool,
    base: int,
    k: nat,
)
    ensures
        lods_lines(sm, gpu, separate, 0) == Some((Seq::<ObjLine>::empty(), 1int)),
        geom_lines(mats, src, separate, base, 0) == Some((Seq::<ObjLine>::empty(), base)),
        geom_lines(mats, src, separate, base, k + 1) == match geom_lines(mats, src, separate, base, k) {
            None => None,
            Some((ls, b)) => match surface_lines(mats, src, separate, b, k as int) {
                None => None,
                Some((more, b2)) => Some((ls + more, b2)),
            },
        },
{
}

} // verus!
