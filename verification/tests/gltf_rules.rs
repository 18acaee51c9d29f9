use v_utils::geometry::{Vector, AABB};
use v_utils::gltf_import::{
    append_padded, apply_import, check_source_mesh, check_target_mesh, classify_node_name, index_bytes,
    parse_usize, scan_lod_nodes, set_geometry_counts, ImportError, LevelSource, NodeKind, SourceGeometry,
};
use v_utils::material::Matlib;
use v_utils::mesh::{IndexBuffer, LodMeshData, LodMeshHeader, Mesh, MeshHeader, Surface, VertexBuffer};
use v_utils::static_mesh::{StaticMesh, StaticMeshHeader};
use v_utils::strip::try_triangle_stripper;

#[test]
fn node_names() {
    assert_eq!(classify_node_name(None), NodeKind::Unnamed);
    assert_eq!(classify_node_name(Some("Camera")), NodeKind::Unrecognized);
    assert_eq!(classify_node_name(Some("lodx_1")), NodeKind::Unrecognized);
    assert_eq!(classify_node_name(Some("lod_0")), NodeKind::Lod(0));
    assert_eq!(classify_node_name(Some("lod_12")), NodeKind::Lod(12));
    assert_eq!(classify_node_name(Some("lod_+3")), NodeKind::Lod(3));
    assert_eq!(classify_node_name(Some("lod_2_shadow")), NodeKind::ShadowLod(2));
    assert_eq!(classify_node_name(Some("lod")), NodeKind::BadLevel);
    assert_eq!(classify_node_name(Some("lod_")), NodeKind::BadLevel);
    assert_eq!(classify_node_name(Some("lod_a")), NodeKind::BadLevel);
    assert_eq!(classify_node_name(Some("lod_-1")), NodeKind::BadLevel);
    assert_eq!(classify_node_name(Some("lod_1_shade")), NodeKind::BadType);
    assert_eq!(classify_node_name(Some("lod_1_shadow_x")), NodeKind::BadType);
    assert_eq!(classify_node_name(Some("lod_1_")), NodeKind::BadType);
}

#[test]
fn decimal_numbers() {
    assert_eq!(parse_usize(b"0"), Some(0));
    assert_eq!(parse_usize(b"0042"), Some(42));
    assert_eq!(parse_usize(b"+7"), Some(7));
    assert_eq!(parse_usize(b""), None);
    assert_eq!(parse_usize(b"+"), None);
    assert_eq!(parse_usize(b"1a"), None);
    assert_eq!(parse_usize(b"18446744073709551615"), "18446744073709551615".parse::<usize>().ok());
    assert_eq!(parse_usize(b"99999999999999999999999"), None);
    for text in ["5", "123", "+0", "-1", "", "1 ", "4294967296"] {
        assert_eq!(parse_usize(text.as_bytes()), text.parse::<usize>().ok());
    }
}

#[test]
fn level_nodes_in_order() {
    let kinds = [
        NodeKind::Unnamed,
        NodeKind::Lod(1),
        NodeKind::Unrecognized,
        NodeKind::Lod(0),
        NodeKind::ShadowLod(0),
        NodeKind::ShadowLod(1),
    ];
    let scan = scan_lod_nodes(&kinds);
    assert_eq!(scan.skipped, vec![0, 2]);
    let nodes = scan.nodes.unwrap();
    assert_eq!(nodes.lods, vec![3, 1]);
    assert_eq!(nodes.shadow_lods, vec![4, 5]);
}

#[test]
fn level_node_errors() {
    let scan = scan_lod_nodes(&[NodeKind::Unnamed, NodeKind::Lod(0), NodeKind::Lod(0), NodeKind::Unnamed]);
    assert_eq!(scan.skipped, vec![0]);
    assert_eq!(scan.nodes.err(), Some(ImportError::RepeatLod { node: 2 }));

    let scan = scan_lod_nodes(&[NodeKind::BadLevel, NodeKind::Unnamed]);
    assert!(scan.skipped.is_empty());
    assert_eq!(scan.nodes.err(), Some(ImportError::BadLodLevel { node: 0 }));

    let scan = scan_lod_nodes(&[NodeKind::Lod(0), NodeKind::BadType]);
    assert_eq!(scan.nodes.err(), Some(ImportError::BadNodeType { node: 1 }));

    let scan = scan_lod_nodes(&[NodeKind::Lod(0), NodeKind::Lod(2)]);
    assert_eq!(scan.nodes.err(), Some(ImportError::MissingLod(1)));

    let scan = scan_lod_nodes(&[NodeKind::Lod(0), NodeKind::Lod(1), NodeKind::ShadowLod(0)]);
    assert_eq!(scan.nodes.err(), Some(ImportError::ShadowLodCount));

    let scan = scan_lod_nodes(&[NodeKind::Lod(0), NodeKind::ShadowLod(3)]);
    assert_eq!(scan.nodes.err(), Some(ImportError::MissingShadowLod(0)));

    let scan = scan_lod_nodes(&[]);
    let nodes = scan.nodes.unwrap();
    assert!(nodes.lods.is_empty() && nodes.shadow_lods.is_empty());
}

fn target_mesh(surfaces: usize, vbufs: usize) -> Mesh {
    let surf = Surface { vbuf: 0, start_index: 0, start_vertex: 0, num_indices: 3, material: 0 };
    let vh = VertexBuffer { attributes: 0, num_uv_channels: 0, stride: 12, num_vertices: 3, ptr_render_data: -1, unk_0c: 0 };
    Mesh {
        surface_header: MeshHeader { unk_00: 0, num_surfaces: surfaces as u16, ptr_04: -1, ptr_08: -1, unk_0c: 0 },
        surfaces: vec![surf; surfaces],
        index_header: IndexBuffer {
            mesh_type: 0,
            num_vertex_buffers: vbufs as u16,
            num_indices: 3,
            runtime_08: -1,
            runtime_0c: -1,
            runtime_10: 0,
        },
        vertex_headers: vec![vh; vbufs],
    }
}

#[test]
fn target_and_source_checks() {
    assert_eq!(check_target_mesh(&target_mesh(1, 1)), Ok(()));
    assert_eq!(check_target_mesh(&target_mesh(2, 1)), Err(ImportError::TargetSurfaces(2)));
    assert_eq!(check_target_mesh(&target_mesh(1, 0)), Err(ImportError::TargetVertexBuffers(0)));
    assert_eq!(check_source_mesh(None), Err(ImportError::NoSourceMesh));
    assert_eq!(check_source_mesh(Some(2)), Err(ImportError::SourcePrimitives(2)));
    assert_eq!(check_source_mesh(Some(0)), Err(ImportError::SourcePrimitives(0)));
    assert_eq!(check_source_mesh(Some(1)), Ok(()));
}

#[test]
fn new_geometry_sizes() {
    let mut m = target_mesh(1, 1);
    set_geometry_counts(&mut m, 70_000, 65_537);
    assert_eq!(m.vertex_headers[0].num_vertices, 70_000);
    assert_eq!(m.index_header.num_indices, 65_537);
    assert_eq!(m.surfaces[0].num_indices, 1);
}

#[test]
fn index_buffers_and_padding() {
    assert_eq!(index_bytes(&[1, 0x1_0002, 0xabcd]), vec![1, 0, 2, 0, 0xcd, 0xab]);
    let mut g = vec![7u8; 3];
    append_padded(&mut g, &[1, 2]);
    assert_eq!(g.len(), 16);
    assert_eq!(&g[..5], &[7, 7, 7, 1, 2]);
    assert!(g[5..].iter().all(|&b| b == 0));
    append_padded(&mut g, &[]);
    assert_eq!(g.len(), 16);
    append_padded(&mut g, &[9; 16]);
    assert_eq!(g.len(), 32);
}

#[test]
fn strip_with_a_flat_neighbour_fails() {
    assert_eq!(try_triangle_stripper(&[0, 1, 2, 2, 1, 2]), None);
    assert_eq!(try_triangle_stripper(&[0, 1, 2, 2, 1, 3]), Some(vec![0, 1, 2, 3]));
}

fn zero_vector() -> Vector {
    Vector { x: 0, y: 0, z: 0 }
}

fn two_level_mesh(second_surfaces: usize) -> StaticMesh {
    let lod = |surfaces: usize| LodMeshData {
        gpu_geometry: target_mesh(surfaces, 1),
        cpu_geometry: None,
        unk_20b: None,
        cpu_vdata: vec![],
        cpu_idata: vec![],
    };
    StaticMesh {
        header: StaticMeshHeader {
            magic: 0,
            version: 0,
            mesh_flags: 0,
            unk_08: 0,
            num_textures: 0,
            num_navpoints: 0,
            unk_10: 0,
            bounding_center: zero_vector(),
            bounding_radius: 0,
            num_bones: 0,
            unk_28: 0,
            unk_2c: 0,
        },
        texture_flags: vec![],
        texture_names: vec![],
        navpoints: vec![],
        bone_indices: vec![],
        matlib: Matlib {
            materials: vec![],
            mat_unk1s: vec![],
            mat_consts: vec![],
            mat_textures: vec![],
            mat_unknown3s: vec![],
            mat_unknown4s: vec![],
        },
        mesh_header: LodMeshHeader {
            bbox: AABB { min: zero_vector(), max: zero_vector() },
            flags: 0,
            num_lods: 2,
            ptr_gpu: 0,
            ptr_cpu: 0,
        },
        lod_meshes: vec![lod(1), lod(second_surfaces)],
    }
}

fn source(primitives: Option<usize>, num_positions: usize, indices: Vec<u32>, vertex_bytes: Vec<u8>) -> LevelSource {
    LevelSource { gpu: SourceGeometry { primitives, num_positions, indices, vertex_bytes }, shadow: None }
}

#[test]
fn import_replaces_every_level() {
    let mut smesh = two_level_mesh(1);
    let levels = vec![
        source(Some(1), 4, vec![0, 1, 2, 3], vec![7; 20]),
        source(Some(1), 3, vec![2, 1, 0], vec![9; 12]),
    ];
    let g = apply_import(&mut smesh, &levels).unwrap();
    let mut expected = vec![7; 20];
    expected.extend_from_slice(&[0; 12]);
    expected.extend_from_slice(&[0, 0, 1, 0, 2, 0, 3, 0]);
    expected.extend_from_slice(&[0; 8]);
    expected.extend_from_slice(&[9; 12]);
    expected.extend_from_slice(&[0; 4]);
    expected.extend_from_slice(&[2, 0, 1, 0, 0, 0]);
    expected.extend_from_slice(&[0; 10]);
    assert_eq!(g, expected);
    assert_eq!(smesh.lod_meshes[0].gpu_geometry.vertex_headers[0].num_vertices, 4);
    assert_eq!(smesh.lod_meshes[0].gpu_geometry.index_header.num_indices, 4);
    assert_eq!(smesh.lod_meshes[0].gpu_geometry.surfaces[0].num_indices, 4);
    assert_eq!(smesh.lod_meshes[1].gpu_geometry.vertex_headers[0].num_vertices, 3);
    assert_eq!(smesh.lod_meshes[1].gpu_geometry.index_header.num_indices, 3);
}

#[test]
fn refused_import_changes_nothing() {
    let mut smesh = two_level_mesh(2);
    let levels = vec![source(Some(1), 4, vec![0, 1, 2, 3], vec![7; 20]), source(Some(1), 3, vec![2, 1, 0], vec![])];
    assert_eq!(apply_import(&mut smesh, &levels), Err(ImportError::TargetSurfaces(2)));
    assert_eq!(smesh.lod_meshes[0].gpu_geometry.vertex_headers[0].num_vertices, 3);
    assert_eq!(smesh.lod_meshes[0].gpu_geometry.index_header.num_indices, 3);

    let mut smesh = two_level_mesh(1);
    let levels = vec![source(Some(1), 4, vec![0, 1, 2, 3], vec![7; 20]), source(Some(2), 0, vec![], vec![])];
    assert_eq!(apply_import(&mut smesh, &levels), Err(ImportError::SourcePrimitives(2)));
    assert_eq!(smesh.lod_meshes[0].gpu_geometry.vertex_headers[0].num_vertices, 3);

    let levels = vec![source(None, 0, vec![], vec![]), source(Some(2), 0, vec![], vec![])];
    assert_eq!(apply_import(&mut smesh, &levels), Err(ImportError::NoSourceMesh));
}

#[test]
fn import_replaces_the_cpu_geometry_of_shadow_levels() {
    let mut smesh = two_level_mesh(1);
    for lod in smesh.lod_meshes.iter_mut() {
        lod.cpu_geometry = Some(target_mesh(1, 1));
        lod.cpu_vdata = vec![1; 36];
        lod.cpu_idata = vec![2; 6];
    }
    smesh.mesh_header.ptr_cpu = -1;
    let shadow = |n: u32| SourceGeometry {
        primitives: Some(1),
        num_positions: 5,
        indices: (0..n).collect(),
        vertex_bytes: vec![3; 60],
    };
    let levels = vec![
        LevelSource { shadow: Some(shadow(4)), ..source(Some(1), 4, vec![0, 1, 2, 3], vec![7; 20]) },
        LevelSource { shadow: Some(shadow(3)), ..source(Some(1), 3, vec![2, 1, 0], vec![9; 12]) },
    ];
    let g = apply_import(&mut smesh, &levels).unwrap();
    assert_eq!(g.len(), 80);
    let cpu = smesh.lod_meshes[1].cpu_geometry.as_ref().unwrap();
    assert_eq!(cpu.vertex_headers[0].num_vertices, 5);
    assert_eq!(cpu.index_header.num_indices, 3);
    assert_eq!(smesh.lod_meshes[1].cpu_vdata, vec![3; 60]);
    assert_eq!(smesh.lod_meshes[1].cpu_idata, vec![0, 0, 1, 0, 2, 0]);

    let mut smesh = two_level_mesh(1);
    smesh.lod_meshes[0].cpu_geometry = Some(target_mesh(2, 1));
    smesh.lod_meshes[1].cpu_geometry = Some(target_mesh(1, 1));
    let levels = vec![
        LevelSource { shadow: Some(shadow(4)), ..source(Some(1), 4, vec![0, 1, 2, 3], vec![7; 20]) },
        LevelSource { shadow: Some(shadow(3)), ..source(None, 0, vec![], vec![]) },
    ];
    assert_eq!(apply_import(&mut smesh, &levels), Err(ImportError::TargetSurfaces(2)));
    assert_eq!(smesh.lod_meshes[0].gpu_geometry.vertex_headers[0].num_vertices, 3);
}
