//! The rules for replacing the geometry of a static mesh with the meshes of a
//! glTF scene: which nodes stand for which level of detail, what the target
//! mesh must look like, and how the new GPU file is laid out.
//!
//! Reading the glTF document itself, and everything that computes with the
//! floating point vertex data, is left to the caller.
use std::collections::HashMap;
use vstd::prelude::*;

use crate::mesh::{IndexBuffer, LodMeshData, Mesh, MeshView, Surface, VertexBuffer};
use crate::static_mesh::StaticMesh;
use crate::util::{push_u16_le, round_up, u16_bytes};
use vstd::string::StringSliceAdditionalSpecFns;

verus! {

broadcast use vstd::std_specs::hash::group_hash_axioms;

/// The byte `_`.
pub const UNDERSCORE: u8 = 0x5f;

/// `n` is the position of the first `_` in `b`.
pub open spec fn is_first_sep(b: Seq<u8>, n: int) -> bool {
    &&& 0 <= n < b.len()
    &&& b[n] == UNDERSCORE
    &&& forall|i: int| 0 <= i < n ==> b[i] != UNDERSCORE
}

/// `b` split at its first `_`: the part before it and, where there is one,
/// the part after it.
pub open spec fn split_first(b: Seq<u8>) -> (Seq<u8>, Option<Seq<u8>>) {
    if exists|n: int| is_first_sep(b, n) {
        let n = choose|n: int| is_first_sep(b, n);
        (b.take(n), Some(b.skip(n + 1)))
    } else {
        (b, None)
    }
}

/// Every byte of `d` is an ASCII digit.
pub open spec fn all_digits(d: Seq<u8>) -> bool {
    forall|i: int| 0 <= i < d.len() ==> 0x30 <= #[trigger] d[i] <= 0x39
}

/// The number that the decimal digits `d` write.
pub open spec fn decimal_value(d: Seq<u8>) -> nat
    decreases d.len(),
{
    if d.len() == 0 {
        0
    } else {
        decimal_value(d.drop_last()) * 10 + (d.last() - 0x30) as nat
    }
}

/// The `usize` that the text `b` writes in decimal, with an optional leading
/// `+`; `None` for an empty text, a character that is not a digit, or a
/// number past `usize::MAX`.
pub open spec fn parse_usize_spec(b: Seq<u8>) -> Option<usize> {
    let d = if b.len() > 0 && b[0] == 0x2b {
        b.skip(1)
    } else {
        b
    };
    if d.len() > 0 && all_digits(d) && decimal_value(d) <= usize::MAX {
        Some(decimal_value(d) as usize)
    } else {
        None
    }
}

/// The bytes of `lod`.
pub open spec fn lod_word() -> Seq<u8> {
    seq![0x6cu8, 0x6fu8, 0x64u8]
}

/// The bytes of `shadow`.
pub open spec fn shadow_word() -> Seq<u8> {
    seq![0x73u8, 0x68u8, 0x61u8, 0x64u8, 0x6fu8, 0x77u8]
}

/// What the name of a node says about it.
#[derive(Debug, Clone, Copy, PartialEq, Eq)]
pub enum NodeKind {
    /// The node has no name; it is skipped.
    Unnamed,
    /// The name does not start with `lod`; the node is skipped.
    Unrecognized,
    /// `lod_{level}`
    Lod(usize),
    /// `lod_{level}_shadow`
    ShadowLod(usize),
    /// `lod` without a level that can be read.
    BadLevel,
    /// `lod_{level}` followed by something other than `_shadow`.
    BadType,
}

/// The kind of a node named `name` (as UTF-8 bytes).
pub open spec fn node_kind(name: Option<Seq<u8>>) -> NodeKind {
    match name {
        None => NodeKind::Unnamed,
        Some(b) => {
            let (p1, r1) = split_first(b);
            if p1 != lod_word() {
                NodeKind::Unrecognized
            } else {
                match r1 {
                    None => NodeKind::BadLevel,
                    Some(r) => {
                        let (p2, r2) = split_first(r);
                        match parse_usize_spec(p2) {
                            None => NodeKind::BadLevel,
                            Some(level) => match r2 {
                                None => NodeKind::Lod(level),
                                Some(rest) => {
                                    let (p3, r3) = split_first(rest);
                                    if p3 == shadow_word() && r3 is None {
                                        NodeKind::ShadowLod(level)
                                    } else {
                                        NodeKind::BadType
                                    }
                                },
                            },
                        }
                    },
                }
            }
        },
    }
}

/// Why the geometry cannot be replaced.
#[derive(Debug, Clone, Copy, PartialEq, Eq)]
pub enum ImportError {
    /// Node `node` is named `lod` without a level that can be read.
    BadLodLevel { node: usize },
    /// Node `node` names a level that an earlier node already named.
    RepeatLod { node: usize },
    /// Node `node` is named `lod_{level}` followed by something unknown.
    BadNodeType { node: usize },
    /// There are shadow levels, but not as many as levels.
    ShadowLodCount,
    /// No node names level `0`.
    MissingLod(usize),
    /// No node names shadow level `0`.
    MissingShadowLod(usize),
    /// The scene and the target have different numbers of levels.
    LodCount { gltf: usize, target: usize },
    /// The target has CPU geometry but the scene has no shadow levels.
    TargetHasShadowLods,
    /// The scene has shadow levels but the target has no CPU geometry.
    SourceHasShadowLods,
    /// The target mesh has this many surfaces, not one.
    TargetSurfaces(usize),
    /// The target mesh has this many vertex buffers, not one.
    TargetVertexBuffers(usize),
    /// The node of a level has no mesh.
    NoSourceMesh,
    /// The mesh of a level has this many primitives, not one.
    SourcePrimitives(usize),
}

/// The levels and shadow levels named by the first `k` nodes, each mapped to
/// its node, and the nodes skipped so far; or the first error.
pub open spec fn scan_nodes(kinds: Seq<NodeKind>, k: nat) -> (Seq<usize>, Result<(Map<usize, usize>, Map<usize, usize>), ImportError>)
    decreases k,
{
    if k == 0 {
        (Seq::empty(), Ok((Map::empty(), Map::empty())))
    } else {
        let (skipped, state) = scan_nodes(kinds, (k - 1) as nat);
        let node = (k - 1) as usize;
        match state {
            Err(e) => (skipped, Err(e)),
            Ok((lods, shadows)) => match kinds[k - 1] {
                NodeKind::Unnamed => (skipped.push(node), Ok((lods, shadows))),
                NodeKind::Unrecognized => (skipped.push(node), Ok((lods, shadows))),
                NodeKind::BadLevel => (skipped, Err(ImportError::BadLodLevel { node })),
                NodeKind::BadType => (skipped, Err(ImportError::BadNodeType { node })),
                NodeKind::Lod(level) => if lods.contains_key(level) {
                    (skipped, Err(ImportError::RepeatLod { node }))
                } else {
                    (skipped, Ok((lods.insert(level, node), shadows)))
                },
                NodeKind::ShadowLod(level) => if shadows.contains_key(level) {
                    (skipped, Err(ImportError::RepeatLod { node }))
                } else {
                    (skipped, Ok((lods, shadows.insert(level, node))))
                },
            },
        }
    }
}

/// The first level from `i` below `n` that `m` lacks.
pub open spec fn first_missing(m: Map<usize, usize>, i: nat, n: nat) -> Option<usize>
    decreases n - i,
{
    if i >= n {
        None
    } else if !m.contains_key(i as usize) {
        Some(i as usize)
    } else {
        first_missing(m, i + 1, n)
    }
}

/// The nodes of the levels `0..m.len()` in order.
pub open spec fn in_level_order(m: Map<usize, usize>) -> Seq<usize> {
    Seq::new(m.len(), |i: int| m[i as usize])
}

/// The nodes of the levels and of the shadow levels in level order, where
/// the names of `kinds` are in order.
pub open spec fn lod_nodes(kinds: Seq<NodeKind>) -> Result<(Seq<usize>, Seq<usize>), ImportError> {
    match scan_nodes(kinds, kinds.len()).1 {
        Err(e) => Err(e),
        Ok((lods, shadows)) => if shadows.len() > 0 && shadows.len() != lods.len() {
            Err(ImportError::ShadowLodCount)
        } else {
            match first_missing(lods, 0, lods.len()) {
                Some(i) => Err(ImportError::MissingLod(i)),
                None => match first_missing(shadows, 0, shadows.len()) {
                    Some(i) => Err(ImportError::MissingShadowLod(i)),
                    None => Ok((in_level_order(lods), in_level_order(shadows))),
                },
            }
        },
    }
}

/// The nodes that stand for each level of detail, by level.
pub struct LodNodes {
    pub lods: Vec<usize>,
    pub shadow_lods: Vec<usize>,
}

/// The outcome of going through the nodes: the nodes skipped (in order, up to
/// the first error) and the nodes of the levels.
pub struct NodeScan {
    pub skipped: Vec<usize>,
    pub nodes: Result<LodNodes, ImportError>,
}

/// The position of the first `_` in `b`, if any.
fn find_sep(b: &[u8]) -> (r: Option<usize>)
    ensures
        match r {
            Some(n) => is_first_sep(b@, n as int),
            None => forall|n: int| !is_first_sep(b@, n),
        },
{
    let mut i: usize = 0;
    while i < b.len()
        invariant
            i <= b@.len(),
            forall|k: int| 0 <= k < i ==> b@[k] != UNDERSCORE,
        decreases b@.len() - i,
    {
        if b[i] == UNDERSCORE {
            return Some(i);
        }
        i = i + 1;
    }
    None
}

/// `b` split at its first `_`.
fn split_at_sep(b: &[u8]) -> (r: (&[u8], Option<&[u8]>))
    ensures
        split_first(b@) == (r.0@, match r.1 {
            Some(s) => Some(s@),
            None => None,
        }),
{
    match find_sep(b) {
        Some(n) => {
            assert(n < b.len());
            assert forall|m: int| is_first_sep(b@, m) implies m == n by {
                if m < n {
                    assert(b@[m] != UNDERSCORE);
                } else if m > n {
                    assert(b@[n as int] == UNDERSCORE);
                }
            }
            let head = &b[0..n];
            let tail = &b[n + 1..b.len()];
            assert(head@ =~= b@.take(n as int));
            assert(tail@ =~= b@.skip(n + 1));
            (head, Some(tail))
        },
        None => (b, None),
    }
}

proof fn lemma_decimal_grows(d: Seq<u8>, k: int)
    requires
        0 <= k <= d.len(),
        all_digits(d),
    ensures
        decimal_value(d.take(k)) <= decimal_value(d),
    decreases d.len() - k,
{
    if k < d.len() {
        lemma_decimal_grows(d, k + 1);
        assert(d.take(k + 1).drop_last() =~= d.take(k));
    } else {
        assert(d.take(k) =~= d);
    }
}

/// The number written in decimal by `b` (see `parse_usize_spec`).
pub fn parse_usize(b: &[u8]) -> (r: Option<usize>)
    ensures
        r == parse_usize_spec(b@),
{
    let start: usize = if b.len() > 0 && b[0] == 0x2b {
        1
    } else {
        0
    };
    let ghost d = b@.skip(start as int);
    assert(d =~= (if b@.len() > 0 && b@[0] == 0x2b {
        b@.skip(1)
    } else {
        b@
    }));
    if start == b.len() {
        return None;
    }
    let mut value: usize = 0;
    let mut i: usize = start;
    while i < b.len()
        invariant
            start <= i <= b@.len(),
            start < b@.len(),
            d == b@.skip(start as int),
            d == (if b@.len() > 0 && b@[0] == 0x2b {
                b@.skip(1)
            } else {
                b@
            }),
            all_digits(b@.subrange(start as int, i as int)),
            value == decimal_value(b@.subrange(start as int, i as int)),
        decreases b@.len() - i,
    {
        let c = b[i];
        if c < 0x30 || c > 0x39 {
            assert(!all_digits(d)) by {
                assert(d[i - start] == c);
            }
            return None;
        }
        let ghost prefix = b@.subrange(start as int, i + 1);
        assert(prefix.drop_last() =~= b@.subrange(start as int, i as int));
        let digit = (c - 0x30) as usize;
        assert(prefix.last() == c);
        assert(decimal_value(prefix) == value * 10 + digit);
        match value.checked_mul(10) {
            Some(v10) => match v10.checked_add(digit) {
                Some(v) => {
                    value = v;
                },
                None => {
                    proof {
                        if all_digits(d) {
                            assert(prefix =~= d.take(i + 1 - start));
                            lemma_decimal_grows(d, i + 1 - start);
                        }
                    }
                    return None;
                },
            },
            None => {
                proof {
                    if all_digits(d) {
                        assert(prefix =~= d.take(i + 1 - start));
                        lemma_decimal_grows(d, i + 1 - start);
                    }
                }
                return None;
            },
        }
        i = i + 1;
    }
    assert(b@.subrange(start as int, b@.len() as int) =~= d);
    Some(value)
}

/// `b` is the word `lod`.
fn is_lod_word(b: &[u8]) -> (r: bool)
    ensures
        r == (b@ == lod_word()),
{
    let r = b.len() == 3 && b[0] == 0x6c && b[1] == 0x6f && b[2] == 0x64;
    proof {
        if r {
            assert(b@ =~= lod_word());
        }
    }
    r
}

/// `b` is the word `shadow`.
fn is_shadow_word(b: &[u8]) -> (r: bool)
    ensures
        r == (b@ == shadow_word()),
{
    let r = b.len() == 6 && b[0] == 0x73 && b[1] == 0x68 && b[2] == 0x61 && b[3] == 0x64 && b[4] == 0x6f && b[5] == 0x77;
    proof {
        if r {
            assert(b@ =~= shadow_word());
        }
    }
    r
}

/// What the name of a node says about it: `lod_{level}` names a level of
/// detail, `lod_{level}_shadow` a shadow level; other names starting with
/// `lod` are errors, and nodes with other names or none are skipped.
pub fn classify_node_name(name: Option<&str>) -> (r: NodeKind)
    ensures
        r == node_kind(
            match name {
                Some(s) => Some(s.spec_bytes()),
                None => None,
            },
        ),
{
    let bytes = match name {
        None => {
            return NodeKind::Unnamed;
        },
        Some(s) => s.as_bytes(),
    };
    let (p1, r1) = split_at_sep(bytes);
    if !is_lod_word(p1) {
        return NodeKind::Unrecognized;
    }
    let rest = match r1 {
        None => {
            return NodeKind::BadLevel;
        },
        Some(r) => r,
    };
    let (p2, r2) = split_at_sep(rest);
    let level = match parse_usize(p2) {
        None => {
            return NodeKind::BadLevel;
        },
        Some(l) => l,
    };
    match r2 {
        None => NodeKind::Lod(level),
        Some(rest) => {
            let (p3, r3) = split_at_sep(rest);
            if is_shadow_word(p3) && r3.is_none() {
                NodeKind::ShadowLod(level)
            } else {
                NodeKind::BadType
            }
        },
    }
}

/// A scan that stopped on an error stays stopped.
proof fn lemma_scan_stops(kinds: Seq<NodeKind>, k: nat, n: nat)
    requires
        k <= n <= kinds.len(),
        scan_nodes(kinds, k).1 is Err,
    ensures
        scan_nodes(kinds, n) == scan_nodes(kinds, k),
    decreases n - k,
{
    if k < n {
        lemma_scan_stops(kinds, k, (n - 1) as nat);
    }
}

/// The maps of a scan are finite.
proof fn lemma_scan_finite(kinds: Seq<NodeKind>, k: nat)
    requires
        k <= kinds.len(),
    ensures
        scan_nodes(kinds, k).1 matches Ok((l, s)) ==> l.dom().finite() && s.dom().finite(),
    decreases k,
{
    if k > 0 {
        lemma_scan_finite(kinds, (k - 1) as nat);
    }
}

/// The nodes of `m`'s levels `0..n` in order, or the first missing level.
fn nodes_in_order(m: &HashMap<usize, usize>, n: usize) -> (r: Result<Vec<usize>, usize>)
    ensures
        match first_missing(m@, 0, n as nat) {
            Some(i) => r == Err::<Vec<usize>, usize>(i),
            None => r matches Ok(v) && v@ == Seq::new(n as nat, |i: int| m@[i as usize]),
        },
{
    let mut out: Vec<usize> = Vec::new();
    let mut i: usize = 0;
    while i < n
        invariant
            i <= n,
            first_missing(m@, i as nat, n as nat) == first_missing(m@, 0, n as nat),
            out@ == Seq::new(i as nat, |k: int| m@[k as usize]),
        decreases n - i,
    {
        match m.get(&i) {
            Some(node) => {
                out.push(*node);
            },
            None => {
                return Err(i);
            },
        }
        i = i + 1;
        assert(out@ =~= Seq::new(i as nat, |k: int| m@[k as usize]));
    }
    Ok(out)
}

/// Goes through the nodes, whose kinds are `kinds` in order, and finds the
/// node of each level and of each shadow level.
pub fn scan_lod_nodes(kinds: &[NodeKind]) -> (r: NodeScan)
    ensures
        r.skipped@ == scan_nodes(kinds@, kinds@.len()).0,
        match lod_nodes(kinds@) {
            Ok((lods, shadows)) => r.nodes matches Ok(n) && n.lods@ == lods && n.shadow_lods@ == shadows,
            Err(e) => r.nodes matches Err(e2) && e2 == e,
        },
{
    let ghost ks = kinds@;
    let mut skipped: Vec<usize> = Vec::new();
    let mut lods: HashMap<usize, usize> = HashMap::new();
    let mut shadows: HashMap<usize, usize> = HashMap::new();
    let mut i: usize = 0;
    while i < kinds.len()
        invariant
            ks == kinds@,
            i <= ks.len(),
            scan_nodes(ks, i as nat) == (skipped@, Ok::<(Map<usize, usize>, Map<usize, usize>), ImportError>((lods@, shadows@))),
        decreases ks.len() - i,
    {
        match kinds[i] {
            NodeKind::Unnamed => {
                skipped.push(i);
            },
            NodeKind::Unrecognized => {
                skipped.push(i);
            },
            NodeKind::BadLevel => {
                proof {
                    lemma_scan_stops(ks, (i + 1) as nat, ks.len());
                }
                return NodeScan { skipped, nodes: Err(ImportError::BadLodLevel { node: i }) };
            },
            NodeKind::BadType => {
                proof {
                    lemma_scan_stops(ks, (i + 1) as nat, ks.len());
                }
                return NodeScan { skipped, nodes: Err(ImportError::BadNodeType { node: i }) };
            },
            NodeKind::Lod(level) => {
                if lods.insert(level, i).is_some() {
                    proof {
                        lemma_scan_stops(ks, (i + 1) as nat, ks.len());
                    }
                    return NodeScan { skipped, nodes: Err(ImportError::RepeatLod { node: i }) };
                }
            },
            NodeKind::ShadowLod(level) => {
                if shadows.insert(level, i).is_some() {
                    proof {
                        lemma_scan_stops(ks, (i + 1) as nat, ks.len());
                    }
                    return NodeScan { skipped, nodes: Err(ImportError::RepeatLod { node: i }) };
                }
            },
        }
        i = i + 1;
    }
    proof {
        lemma_scan_finite(ks, ks.len());
    }
    let has_shadow_lods = !shadows.is_empty();
    if has_shadow_lods && shadows.len() != lods.len() {
        return NodeScan { skipped, nodes: Err(ImportError::ShadowLodCount) };
    }
    let lod_list = match nodes_in_order(&lods, lods.len()) {
        Ok(v) => v,
        Err(level) => {
            return NodeScan { skipped, nodes: Err(ImportError::MissingLod(level)) };
        },
    };
    let shadow_list = match nodes_in_order(&shadows, shadows.len()) {
        Ok(v) => v,
        Err(level) => {
            return NodeScan { skipped, nodes: Err(ImportError::MissingShadowLod(level)) };
        },
    };
    NodeScan { skipped, nodes: Ok(LodNodes { lods: lod_list, shadow_lods: shadow_list }) }
}

/// Whether the scene's levels fit the target: as many levels, and shadow
/// levels exactly where the target has CPU geometry.
pub fn check_lod_counts(nodes: &LodNodes, smesh: &StaticMesh) -> (r: Result<(), ImportError>)
    ensures
        r == if nodes.lods@.len() != smesh.lod_meshes@.len() {
            Err(ImportError::LodCount { gltf: nodes.lods@.len() as usize, target: smesh.lod_meshes@.len() as usize })
        } else if nodes.shadow_lods@.len() == 0 && smesh.mesh_header.ptr_cpu == -1 {
            Err(ImportError::TargetHasShadowLods)
        } else if nodes.shadow_lods@.len() > 0 && smesh.mesh_header.ptr_cpu != -1 {
            Err(ImportError::SourceHasShadowLods)
        } else {
            Ok(())
        },
{
    if nodes.lods.len() != smesh.lod_meshes.len() {
        return Err(ImportError::LodCount { gltf: nodes.lods.len(), target: smesh.lod_meshes.len() });
    }
    let has_shadow_lods = nodes.shadow_lods.len() > 0;
    if !has_shadow_lods && smesh.mesh_header.has_cpu_geometry() {
        Err(ImportError::TargetHasShadowLods)
    } else if has_shadow_lods && !smesh.mesh_header.has_cpu_geometry() {
        Err(ImportError::SourceHasShadowLods)
    } else {
        Ok(())
    }
}

/// Whether a target mesh can take new geometry: it must have exactly one
/// surface and one vertex buffer.
pub fn check_target_mesh(mesh: &Mesh) -> (r: Result<(), ImportError>)
    ensures
        r == if mesh.surfaces@.len() != 1 {
            Err(ImportError::TargetSurfaces(mesh.surfaces@.len() as usize))
        } else if mesh.vertex_headers@.len() != 1 {
            Err(ImportError::TargetVertexBuffers(mesh.vertex_headers@.len() as usize))
        } else {
            Ok(())
        },
{
    if mesh.surfaces.len() != 1 {
        Err(ImportError::TargetSurfaces(mesh.surfaces.len()))
    } else if mesh.vertex_headers.len() != 1 {
        Err(ImportError::TargetVertexBuffers(mesh.vertex_headers.len()))
    } else {
        Ok(())
    }
}

/// Whether the mesh of a level's node can be taken: it must exist and have
/// exactly one primitive.  `primitives` is the number of primitives of the
/// node's mesh, `None` where the node has none.
pub fn check_source_mesh(primitives: Option<usize>) -> (r: Result<(), ImportError>)
    ensures
        r == match primitives {
            None => Err(ImportError::NoSourceMesh),
            Some(p) => if p != 1 {
                Err(ImportError::SourcePrimitives(p))
            } else {
                Ok(())
            },
        },
{
    match primitives {
        None => Err(ImportError::NoSourceMesh),
        Some(p) => if p != 1 {
            Err(ImportError::SourcePrimitives(p))
        } else {
            Ok(())
        },
    }
}

/// Gives the single surface and vertex buffer of `mesh` the sizes of the new
/// geometry: `num_positions` vertices and `num_indices` indices, each count
/// cut to the width of its field.
pub fn set_geometry_counts(mesh: &mut Mesh, num_positions: usize, num_indices: usize)
    requires
        old(mesh).surfaces@.len() == 1,
        old(mesh).vertex_headers@.len() == 1,
    ensures
        final(mesh).surface_header == old(mesh).surface_header,
        final(mesh).surfaces@ == seq![Surface { num_indices: num_indices as u16, ..old(mesh).surfaces@[0] }],
        final(mesh).index_header == (IndexBuffer { num_indices: num_indices as u32, ..old(mesh).index_header }),
        final(mesh).vertex_headers@ == seq![VertexBuffer { num_vertices: num_positions as u32, ..old(mesh).vertex_headers@[0] }],
{
    let mut vh = mesh.vertex_headers[0];
    vh.num_vertices = num_positions as u32;
    mesh.vertex_headers.set(0, vh);
    mesh.index_header.num_indices = num_indices as u32;
    let mut surf = mesh.surfaces[0];
    surf.num_indices = num_indices as u16;
    mesh.surfaces.set(0, surf);
    assert(mesh.surfaces@ =~= seq![Surface { num_indices: num_indices as u16, ..old(mesh).surfaces@[0] }]);
    assert(mesh.vertex_headers@ =~= seq![VertexBuffer { num_vertices: num_positions as u32, ..old(mesh).vertex_headers@[0] }]);
}

/// The index buffer of `indices`: each index cut to 16 bits, little-endian.
pub open spec fn index_buffer_bytes(indices: Seq<u32>) -> Seq<u8>
    decreases indices.len(),
{
    if indices.len() == 0 {
        Seq::empty()
    } else {
        index_buffer_bytes(indices.drop_last()) + u16_bytes(indices.last() as u16)
    }
}

/// The 16-bit index buffer of `indices`.
pub fn index_bytes(indices: &[u32]) -> (r: Vec<u8>)
    ensures
        r@ == index_buffer_bytes(indices@),
{
    let mut out: Vec<u8> = Vec::new();
    let mut i: usize = 0;
    while i < indices.len()
        invariant
            i <= indices@.len(),
            out@ == index_buffer_bytes(indices@.take(i as int)),
        decreases indices@.len() - i,
    {
        push_u16_le(&mut out, indices[i] as u16);
        assert(indices@.take(i + 1).drop_last() =~= indices@.take(i as int));
        assert(out@ =~= index_buffer_bytes(indices@.take(i + 1)));
        i = i + 1;
    }
    assert(indices@.take(indices@.len() as int) =~= indices@);
    out
}

/// `g` followed by `data` and then zeros up to the next multiple of 16.
pub open spec fn padded_append(g: Seq<u8>, data: Seq<u8>) -> Seq<u8> {
    let grown = g + data;
    grown + Seq::new((round_up(grown.len() as int, 16) - grown.len()) as nat, |i: int| 0u8)
}

/// Appends `data` to the GPU file being built and pads it to 16 bytes.
pub fn append_padded(g: &mut Vec<u8>, data: &[u8])
    requires
        old(g)@.len() + data@.len() + 16 <= usize::MAX,
    ensures
        final(g)@ == padded_append(old(g)@, data@),
{
    g.extend_from_slice(data);
    let ghost grown = g@;
    proof {
        crate::util::lemma_round_up(grown.len() as int, 16);
    }
    while g.len() % 16 != 0
        invariant
            grown.len() <= g@.len() <= round_up(grown.len() as int, 16),
            grown.len() + 16 <= usize::MAX,
            round_up(grown.len() as int, 16) % 16 == 0,
            forall|x: int| grown.len() <= x < round_up(grown.len() as int, 16) ==> #[trigger] (x % 16) != 0,
            g@ == grown + Seq::new((g@.len() - grown.len()) as nat, |i: int| 0u8),
        decreases round_up(grown.len() as int, 16) - g@.len(),
    {
        g.push(0);
        assert(g@ =~= grown + Seq::new((g@.len() - grown.len()) as nat, |i: int| 0u8));
    }
}

/// The geometry of one scene node, read for one target mesh: how many
/// primitives the node's mesh has (`None` where the node has no mesh) and,
/// where that is one, its vertex count, its triangle-strip indices and its
/// vertex buffer in the target's vertex format.
pub struct SourceGeometry {
    pub primitives: Option<usize>,
    pub num_positions: usize,
    pub indices: Vec<u32>,
    pub vertex_bytes: Vec<u8>,
}

/// What replaces one level of detail: the node for its GPU geometry and,
/// where the scene has shadow levels, the node for its CPU geometry.
pub struct LevelSource {
    pub gpu: SourceGeometry,
    pub shadow: Option<SourceGeometry>,
}

/// What `check_target_mesh` refuses in `m`, if anything.
pub open spec fn target_error(m: Mesh) -> Option<ImportError> {
    if m.surfaces@.len() != 1 {
        Some(ImportError::TargetSurfaces(m.surfaces@.len() as usize))
    } else if m.vertex_headers@.len() != 1 {
        Some(ImportError::TargetVertexBuffers(m.vertex_headers@.len() as usize))
    } else {
        None
    }
}

/// What `check_source_mesh` refuses in a node with `primitives`, if anything.
pub open spec fn source_error(primitives: Option<usize>) -> Option<ImportError> {
    match primitives {
        None => Some(ImportError::NoSourceMesh),
        Some(p) => if p != 1 {
            Some(ImportError::SourcePrimitives(p))
        } else {
            None
        },
    }
}

/// The first problem with putting `src` in place of `target`: the target is
/// checked before the source.
pub open spec fn geometry_error(target: Mesh, src: SourceGeometry) -> Option<ImportError> {
    match target_error(target) {
        Some(e) => Some(e),
        None => source_error(src.primitives),
    }
}

/// The first problem with replacing `lod` by `src`: its GPU geometry first,
/// then its CPU geometry where there is a shadow level.
pub open spec fn level_error(lod: LodMeshData, src: LevelSource) -> Option<ImportError> {
    match geometry_error(lod.gpu_geometry, src.gpu) {
        Some(e) => Some(e),
        None => match (src.shadow, lod.cpu_geometry) {
            (Some(s), Some(c)) => geometry_error(c, s),
            _ => None,
        },
    }
}

/// The first problem among the first `k` levels, in order.
pub open spec fn first_level_error(lods: Seq<LodMeshData>, levels: Seq<LevelSource>, k: nat) -> Option<ImportError>
    decreases k,
{
    if k == 0 {
        None
    } else {
        match first_level_error(lods, levels, (k - 1) as nat) {
            Some(e) => Some(e),
            None => level_error(lods[k - 1], levels[k - 1]),
        }
    }
}

/// Once a problem is found among the first `k` levels, it stays the first.
proof fn lemma_first_level_error_stays(lods: Seq<LodMeshData>, levels: Seq<LevelSource>, k: nat, n: nat)
    requires
        k <= n,
        first_level_error(lods, levels, k) is Some,
    ensures
        first_level_error(lods, levels, n) == first_level_error(lods, levels, k),
    decreases n - k,
{
    if k < n {
        lemma_first_level_error_stays(lods, levels, k, (n - 1) as nat);
    }
}

/// Where no level among the first `n` has a problem, none of them has one.
proof fn lemma_no_level_error(lods: Seq<LodMeshData>, levels: Seq<LevelSource>, n: nat, i: int)
    requires
        0 <= i < n,
        first_level_error(lods, levels, n) is None,
    ensures
        level_error(lods[i], levels[i]) is None,
    decreases n,
{
    if i < n - 1 {
        lemma_no_level_error(lods, levels, (n - 1) as nat, i);
    }
}

/// Checks `target` and then the node that would replace it.
fn check_geometry(target: &Mesh, src: &SourceGeometry) -> (r: Result<(), ImportError>)
    ensures
        r == match geometry_error(*target, *src) {
            Some(e) => Err(e),
            None => Ok::<(), ImportError>(()),
        },
{
    match check_target_mesh(target) {
        Err(e) => Err(e),
        Ok(()) => check_source_mesh(src.primitives),
    }
}

/// `new` is `old` with the sizes of `src` set by `set_geometry_counts`.
pub open spec fn counts_set(old: Mesh, new: Mesh, src: SourceGeometry) -> bool {
    &&& new.surface_header == old.surface_header
    &&& new.surfaces@ == seq![Surface { num_indices: src.indices@.len() as u16, ..old.surfaces@[0] }]
    &&& new.index_header == (IndexBuffer { num_indices: src.indices@.len() as u32, ..old.index_header })
    &&& new.vertex_headers@ == seq![VertexBuffer { num_vertices: src.num_positions as u32, ..old.vertex_headers@[0] }]
}

/// `new` is `old` with its geometry replaced by that of `src`: the GPU mesh
/// takes the sizes of the GPU node and, where there is a shadow node, the CPU
/// mesh takes its sizes and the CPU buffers become its vertex and index bytes.
pub open spec fn level_replaced(old: LodMeshData, new: LodMeshData, src: LevelSource) -> bool {
    &&& counts_set(old.gpu_geometry, new.gpu_geometry, src.gpu)
    &&& new.unk_20b == old.unk_20b
    &&& match src.shadow {
        None => {
            &&& new.cpu_geometry == old.cpu_geometry
            &&& new.cpu_vdata@ == old.cpu_vdata@
            &&& new.cpu_idata@ == old.cpu_idata@
        },
        Some(s) => {
            &&& new.cpu_geometry matches Some(nc)
            &&& old.cpu_geometry matches Some(oc)
            &&& counts_set(oc, nc, s)
            &&& new.cpu_vdata@ == s.vertex_bytes@
            &&& new.cpu_idata@ == index_buffer_bytes(s.indices@)
        },
    }
}

/// The GPU file of the imported levels: for each level in order, its vertex
/// buffer and then its index buffer, each padded to 16 bytes.
pub open spec fn gpu_file(levels: Seq<LevelSource>) -> Seq<u8>
    decreases levels.len(),
{
    if levels.len() == 0 {
        Seq::empty()
    } else {
        let l = levels.last();
        padded_append(padded_append(gpu_file(levels.drop_last()), l.gpu.vertex_bytes@), index_buffer_bytes(l.gpu.indices@))
    }
}

/// A bound on the size of the GPU file of `levels`: their buffers and the
/// most padding each can take.
pub open spec fn import_bytes(levels: Seq<LevelSource>) -> int
    decreases levels.len(),
{
    if levels.len() == 0 {
        0
    } else {
        let l = levels.last();
        import_bytes(levels.drop_last()) + l.gpu.vertex_bytes@.len() + 2 * l.gpu.indices@.len() + 32
    }
}

/// Each index takes two bytes.
proof fn lemma_index_buffer_len(indices: Seq<u32>)
    ensures
        index_buffer_bytes(indices).len() == 2 * indices.len(),
    decreases indices.len(),
{
    if indices.len() > 0 {
        lemma_index_buffer_len(indices.drop_last());
    }
}

/// The bound of a prefix is at most that of the whole.
proof fn lemma_import_bytes_prefix(levels: Seq<LevelSource>, k: int)
    requires
        0 <= k <= levels.len(),
    ensures
        0 <= import_bytes(levels.take(k)) <= import_bytes(levels),
    decreases levels.len() - k,
{
    if k == levels.len() {
        assert(levels.take(k) =~= levels);
        lemma_import_bytes_nonneg(levels);
    } else {
        lemma_import_bytes_prefix(levels, k + 1);
        assert(levels.take(k + 1).drop_last() =~= levels.take(k));
        lemma_import_bytes_nonneg(levels.take(k));
    }
}

/// The bound is never negative.
proof fn lemma_import_bytes_nonneg(levels: Seq<LevelSource>)
    ensures
        0 <= import_bytes(levels),
    decreases levels.len(),
{
    if levels.len() > 0 {
        lemma_import_bytes_nonneg(levels.drop_last());
    }
}

/// Replaces the geometry of every level of detail of `smesh` by that of
/// `levels`, and gives the new GPU file.  Every level is checked before
/// anything changes: the first problem, level by level in order, is returned
/// and leaves `smesh` as it was.  Only the levels of detail change.
pub fn apply_import(smesh: &mut StaticMesh, levels: &[LevelSource]) -> (r: Result<Vec<u8>, ImportError>)
    requires
        levels@.len() == old(smesh).lod_meshes@.len(),
        forall|i: int|
            0 <= i < levels@.len() && (#[trigger] levels@[i]).shadow is Some ==> old(smesh).lod_meshes@[i].cpu_geometry is Some,
        import_bytes(levels@) <= usize::MAX,
    ensures
        match r {
            Err(e) => first_level_error(old(smesh).lod_meshes@, levels@, levels@.len()) == Some(e),
            Ok(_) => first_level_error(old(smesh).lod_meshes@, levels@, levels@.len()) is None,
        },
        r is Err ==> *final(smesh) == *old(smesh),
        r matches Ok(g) ==> {
            &&& g@ == gpu_file(levels@)
            &&& *final(smesh) == (StaticMesh { lod_meshes: final(smesh).lod_meshes, ..*old(smesh) })
            &&& final(smesh).lod_meshes@.len() == old(smesh).lod_meshes@.len()
            &&& forall|i: int|
                0 <= i < levels@.len() ==> level_replaced(
                    old(smesh).lod_meshes@[i],
                    #[trigger] final(smesh).lod_meshes@[i],
                    levels@[i],
                )
        },
{
    let n = levels.len();
    let mut i: usize = 0;
    while i < n
        invariant
            i <= n,
            n == levels@.len(),
            levels@.len() == smesh.lod_meshes@.len(),
            first_level_error(smesh.lod_meshes@, levels@, i as nat) is None,
        decreases n - i,
    {
        let lod = &smesh.lod_meshes[i];
        let lv = &levels[i];
        if let Err(e) = check_geometry(&lod.gpu_geometry, &lv.gpu) {
            proof {
                lemma_first_level_error_stays(smesh.lod_meshes@, levels@, (i + 1) as nat, n as nat);
            }
            return Err(e);
        }
        if let Some(s) = &lv.shadow {
            if let Some(c) = &lod.cpu_geometry {
                if let Err(e) = check_geometry(c, s) {
                    proof {
                        lemma_first_level_error_stays(smesh.lod_meshes@, levels@, (i + 1) as nat, n as nat);
                    }
                    return Err(e);
                }
            }
        }
        i = i + 1;
    }
    let ghost old_lods = smesh.lod_meshes@;
    let mut lods: Vec<LodMeshData> = Vec::new();
    core::mem::swap(&mut lods, &mut smesh.lod_meshes);
    let mut out: Vec<LodMeshData> = Vec::new();
    let mut g: Vec<u8> = Vec::new();
    let mut j: usize = 0;
    while j < n
        invariant
            j <= n,
            n == levels@.len(),
            old_lods.len() == n,
            lods@ == old_lods.skip(j as int),
            out@.len() == j,
            g@ == gpu_file(levels@.take(j as int)),
            g@.len() <= import_bytes(levels@.take(j as int)),
            import_bytes(levels@) <= usize::MAX,
            first_level_error(old_lods, levels@, n as nat) is None,
            forall|k: int|
                0 <= k < n && (#[trigger] levels@[k]).shadow is Some ==> old_lods[k].cpu_geometry is Some,
            forall|k: int| 0 <= k < j ==> level_replaced(old_lods[k], #[trigger] out@[k], levels@[k]),
        decreases n - j,
    {
        proof {
            lemma_no_level_error(old_lods, levels@, n as nat, j as int);
            lemma_import_bytes_prefix(levels@, j + 1);
            assert(levels@.take(j + 1).drop_last() =~= levels@.take(j as int));
            assert(levels@.take(j + 1).last() == levels@[j as int]);
            lemma_index_buffer_len(levels@[j as int].gpu.indices@);
            crate::util::lemma_round_up((g@.len() + levels@[j as int].gpu.vertex_bytes@.len()) as int, 16);
        }
        let mut lod = lods.remove(0);
        assert(lod == old_lods[j as int]);
        let lv = &levels[j];
        set_geometry_counts(&mut lod.gpu_geometry, lv.gpu.num_positions, lv.gpu.indices.len());
        append_padded(&mut g, lv.gpu.vertex_bytes.as_slice());
        let ib = index_bytes(lv.gpu.indices.as_slice());
        proof {
            crate::util::lemma_round_up((g@.len() + ib@.len()) as int, 16);
        }
        append_padded(&mut g, ib.as_slice());
        if let Some(s) = &lv.shadow {
            let mut c = lod.cpu_geometry.take().unwrap();
            set_geometry_counts(&mut c, s.num_positions, s.indices.len());
            lod.cpu_geometry = Some(c);
            let mut vdata: Vec<u8> = Vec::new();
            vdata.extend_from_slice(s.vertex_bytes.as_slice());
            assert(vdata@ =~= s.vertex_bytes@);
            lod.cpu_vdata = vdata;
            lod.cpu_idata = index_bytes(s.indices.as_slice());
        }
        out.push(lod);
        proof {
            assert(lods@ =~= old_lods.skip(j + 1));
        }
        j = j + 1;
    }
    assert(levels@.take(n as int) =~= levels@);
    smesh.lod_meshes = out;
    Ok(g)
}

} // verus!
