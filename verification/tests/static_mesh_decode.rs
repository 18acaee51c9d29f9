use v_utils::error::VolitionError;
use v_utils::geometry::Vector;
use v_utils::mesh::LodMeshHeader;
use v_utils::static_mesh::{StaticMesh, StaticMeshHeader, StaticMeshNavpoint};
use v_utils::wavefront::ObjLine;

fn push_i32(b: &mut Vec<u8>, x: i32) {
    b.extend_from_slice(&x.to_le_bytes());
}

fn push_u32(b: &mut Vec<u8>, x: u32) {
    b.extend_from_slice(&x.to_le_bytes());
}

fn push_u16(b: &mut Vec<u8>, x: u16) {
    b.extend_from_slice(&x.to_le_bytes());
}

fn push_i16(b: &mut Vec<u8>, x: i16) {
    b.extend_from_slice(&x.to_le_bytes());
}

fn pad_to(b: &mut Vec<u8>, align: usize) {
    while b.len() % align != 0 {
        b.push(0);
    }
}

fn header(num_textures: u16, num_navpoints: u16, num_bones: u32) -> Vec<u8> {
    let mut b = vec![];
    push_i32(&mut b, StaticMeshHeader::SIGNATURE);
    push_i16(&mut b, StaticMeshHeader::VERSION);
    push_i16(&mut b, 0); // mesh_flags
    push_i32(&mut b, 0); // unk_08
    push_u16(&mut b, num_textures);
    push_u16(&mut b, num_navpoints);
    push_i32(&mut b, 0); // unk_10
    for f in [1.0_f32, 2.0, 3.0, 4.0] {
        b.extend_from_slice(&f.to_le_bytes()); // bounding center and radius
    }
    push_u32(&mut b, num_bones);
    push_i32(&mut b, 0); // unk_28
    push_i32(&mut b, 0); // unk_2c
    b
}

/// Everything of a static mesh up to (not including) the LOD mesh header:
/// one texture named "tex", one navpoint, two bones, an empty material library.
fn sections() -> Vec<u8> {
    let mut b = header(1, 1, 2);
    pad_to(&mut b, 0x40);
    push_i32(&mut b, 7); // texture flags
    pad_to(&mut b, 16);
    b.push(0); // extra NUL before the names
    b.extend_from_slice(b"tex\0");
    pad_to(&mut b, 16);
    let mut name = [0u8; 64];
    name[..4].copy_from_slice(b"nav1");
    b.extend_from_slice(&name);
    push_i32(&mut b, 5); // vid
    for f in [0.0_f32, 1.0, 2.0, 0.0, 0.0, 0.0, 1.0] {
        b.extend_from_slice(&f.to_le_bytes()); // pos and orient
    }
    pad_to(&mut b, 16);
    push_i32(&mut b, 11); // bones
    push_i32(&mut b, 12);
    pad_to(&mut b, 4);
    for _ in 0..9 {
        push_i32(&mut b, 0); // material block with nothing in it
    }
    pad_to(&mut b, 16);
    b
}

fn lod_mesh_header(num_lods: u32) -> Vec<u8> {
    let mut b = vec![];
    for f in [0.0_f32, 0.0, 0.0, 1.0, 1.0, 1.0] {
        b.extend_from_slice(&f.to_le_bytes());
    }
    push_i32(&mut b, 0); // flags
    push_u32(&mut b, num_lods);
    push_i32(&mut b, -1); // ptr_gpu
    push_i32(&mut b, 0); // ptr_cpu: no CPU geometry
    b
}

/// One level of detail: one surface over one vertex buffer of 3 vertices.
fn one_lod() -> Vec<u8> {
    let mut b = vec![];
    // mesh header
    push_i16(&mut b, 0);
    push_u16(&mut b, 1);
    push_i32(&mut b, -1);
    push_i32(&mut b, -1);
    push_i32(&mut b, 0);
    // surface
    push_u32(&mut b, 0);
    push_u32(&mut b, 0);
    push_u32(&mut b, 0);
    push_u16(&mut b, 3);
    push_u16(&mut b, 0);
    // index buffer header
    push_i16(&mut b, 0);
    push_u16(&mut b, 1);
    push_u32(&mut b, 3);
    push_i32(&mut b, -1);
    push_i32(&mut b, -1);
    push_u32(&mut b, 0);
    // vertex buffer header
    b.push(0);
    b.push(0);
    push_u16(&mut b, 12);
    push_u32(&mut b, 3);
    push_i32(&mut b, -1);
    push_i32(&mut b, 0);
    b
}

#[test]
fn static_mesh_decodes_every_section() {
    let mut buf = sections();
    let lod_header_at = buf.len();
    buf.extend_from_slice(&lod_mesh_header(1));
    pad_to(&mut buf, 16);
    buf.extend_from_slice(&one_lod());
    let mut offset = 0;
    let smesh = StaticMesh::from_data(&buf, &mut offset).unwrap();
    assert_eq!(offset, buf.len());
    assert_eq!(smesh.texture_flags, vec![7]);
    assert_eq!(smesh.texture_names, vec!["tex".to_string()]);
    assert_eq!(smesh.navpoints.len(), 1);
    assert_eq!(smesh.navpoints[0].name().unwrap(), "nav1");
    assert_eq!(smesh.navpoints[0].vid, 5);
    assert_eq!(smesh.bone_indices, vec![11, 12]);
    assert_eq!(smesh.matlib.materials.len(), 0);
    assert_eq!(smesh.mesh_header.num_lods, 1);
    assert_eq!(smesh.lod_meshes.len(), 1);
    let geom = &smesh.lod_meshes[0].gpu_geometry;
    assert_eq!(geom.surfaces.len(), 1);
    assert_eq!(geom.surfaces[0].num_indices, 3);
    assert_eq!(geom.index_header.num_indices, 3);
    assert_eq!(geom.vertex_headers[0].num_vertices, 3);
    assert!(smesh.lod_meshes[0].cpu_geometry.is_none());
    assert!(lod_header_at < buf.len());
}

#[test]
fn static_mesh_stops_at_zero_lods() {
    let mut buf = sections();
    let lod_header_at = buf.len();
    buf.extend_from_slice(&lod_mesh_header(0));
    let mut offset = 0;
    match StaticMesh::from_data(&buf, &mut offset) {
        Err(VolitionError::UnexpectedValue { got, .. }) => assert_eq!(got, 0),
        other => panic!("unexpected {other:?}"),
    }
    assert_eq!(offset, lod_header_at);
}

#[test]
fn static_mesh_header_errors() {
    let mut b = header(1, 0, 0);
    b[0] = 0;
    match StaticMeshHeader::from_data(&b) {
        Err(VolitionError::ExpectedExactValue { expected, .. }) => assert_eq!(expected, StaticMeshHeader::SIGNATURE),
        other => panic!("unexpected {other:?}"),
    }

    let mut b = header(1, 0, 0);
    b[4] = 34;
    assert!(matches!(StaticMeshHeader::from_data(&b), Err(VolitionError::UnknownStaticMeshVersion(34))));

    let b = header(101, 0, 0);
    assert!(matches!(
        StaticMeshHeader::from_data(&b),
        Err(VolitionError::ValueTooHigh { max: 100, got: 101, .. })
    ));

    let b = header(0, 0, 501);
    assert!(matches!(
        StaticMeshHeader::from_data(&b),
        Err(VolitionError::ValueTooHigh { max: 500, got: 501, .. })
    ));

    assert!(matches!(
        StaticMeshHeader::from_data(&b[..0x2f]),
        Err(VolitionError::BufferTooSmall { need: 0x30, avail: 0x2f, .. })
    ));
}

#[test]
fn texture_name_without_nul_is_invalid() {
    let mut b = header(1, 0, 0);
    pad_to(&mut b, 0x40);
    push_i32(&mut b, 0);
    pad_to(&mut b, 16);
    b.push(0);
    let name_at = b.len();
    b.extend_from_slice(b"abc");
    let mut offset = 0;
    match StaticMesh::from_data(&b, &mut offset) {
        Err(VolitionError::InvalidString { offset: o }) => assert_eq!(o, name_at),
        other => panic!("unexpected {other:?}"),
    }
    assert_eq!(offset, name_at);
}

#[test]
fn navpoint_too_short() {
    let b = vec![0u8; 95];
    assert!(matches!(
        StaticMeshNavpoint::from_data(&b),
        Err(VolitionError::BufferTooSmall { need: 96, avail: 95, .. })
    ));
}

#[test]
fn gpu_buffers_are_cut_in_order() {
    let mut buf = sections();
    buf.extend_from_slice(&lod_mesh_header(1));
    pad_to(&mut buf, 16);
    buf.extend_from_slice(&one_lod());
    let mut offset = 0;
    let smesh = StaticMesh::from_data(&buf, &mut offset).unwrap();

    let gpu: Vec<u8> = (0..54u8).collect();
    let bufs = smesh.gpu_buffers(&gpu).unwrap();
    assert_eq!(bufs.len(), 1);
    assert_eq!(bufs[0].0.len(), 1);
    assert_eq!(bufs[0].0[0], &gpu[0..36]);
    assert_eq!(bufs[0].1, &gpu[48..54]);
}

/// A static mesh without textures, navpoints or bones whose library holds one
/// material, and one level of detail.
fn mesh_with_material(hash: i32) -> Vec<u8> {
    let mut b = header(0, 0, 0);
    pad_to(&mut b, 0x40);
    pad_to(&mut b, 16);
    b.push(0);
    pad_to(&mut b, 4);
    push_u32(&mut b, 1); // one material
    for _ in 0..8 {
        push_i32(&mut b, 0);
    }
    push_i32(&mut b, 0); // shader hash
    push_i32(&mut b, hash);
    push_i32(&mut b, 0); // flags
    for _ in 0..4 {
        push_i16(&mut b, 0);
    }
    push_i32(&mut b, 0);
    pad_to(&mut b, 4);
    b.extend_from_slice(&[0u8; 16]);
    pad_to(&mut b, 16);
    for _ in 0..16 {
        push_i16(&mut b, -1);
        push_i16(&mut b, -1);
    }
    b.extend_from_slice(&lod_mesh_header(1));
    pad_to(&mut b, 16);
    b.extend_from_slice(&one_lod());
    b
}

#[test]
fn wavefront_dump_without_gpu_file() {
    let buf = mesh_with_material(0x1234);
    let mut offset = 0;
    let smesh = StaticMesh::from_data(&buf, &mut offset).unwrap();
    assert_eq!(offset, buf.len());
    assert_eq!(smesh.dump_wavefront(None, false), vec![ObjLine::Title, ObjLine::CpuGeometry(false), ObjLine::NoGpuFile]);
    assert_eq!(
        smesh.dump_wavefront(None, true),
        vec![ObjLine::Title, ObjLine::CpuGeometry(false), ObjLine::SeparateSurfaces, ObjLine::NoGpuFile]
    );
}

#[test]
fn wavefront_dump_of_gpu_geometry() {
    let buf = mesh_with_material(0x1234);
    let mut offset = 0;
    let smesh = StaticMesh::from_data(&buf, &mut offset).unwrap();
    let gpu: Vec<u8> = (0..54u8).collect();
    let vertex = |k: u32| ObjLine::Vertex {
        pos: Vector {
            x: u32::from_le_bytes([12 * k as u8, 12 * k as u8 + 1, 12 * k as u8 + 2, 12 * k as u8 + 3]),
            y: u32::from_le_bytes([12 * k as u8 + 4, 12 * k as u8 + 5, 12 * k as u8 + 6, 12 * k as u8 + 7]),
            z: u32::from_le_bytes([12 * k as u8 + 8, 12 * k as u8 + 9, 12 * k as u8 + 10, 12 * k as u8 + 11]),
        },
        uv: None,
        normal: None,
    };
    let expected = vec![
        ObjLine::Title,
        ObjLine::CpuGeometry(false),
        ObjLine::Object { lod: 0, cpu: false, surface: None },
        ObjLine::UseMaterial(0x1234),
        vertex(0),
        vertex(1),
        vertex(2),
        ObjLine::Face(1 + 0x3130, 1 + 0x3332, 1 + 0x3534),
    ];
    assert_eq!(smesh.dump_wavefront(Some(&gpu), false), expected);

    let separate = smesh.dump_wavefront(Some(&gpu), true);
    assert_eq!(separate[2], ObjLine::SeparateSurfaces);
    assert_eq!(separate[3], ObjLine::Object { lod: 0, cpu: false, surface: Some(0) });
    assert_eq!(separate.len(), 9);
}

#[test]
fn wavefront_dump_stops_on_bad_indices_and_short_buffers() {
    let mut buf = sections();
    buf.extend_from_slice(&lod_mesh_header(1));
    pad_to(&mut buf, 16);
    buf.extend_from_slice(&one_lod());
    let mut offset = 0;
    let smesh = StaticMesh::from_data(&buf, &mut offset).unwrap();
    let gpu: Vec<u8> = (0..54u8).collect();
    // the library of this mesh has no materials
    assert!(smesh.try_dump_wavefront(Some(&gpu), false).is_none());
    assert!(smesh.try_dump_wavefront(None, false).is_some());

    let good = mesh_with_material(5);
    let mut offset = 0;
    let smesh = StaticMesh::from_data(&good, &mut offset).unwrap();
    assert!(smesh.gpu_buffers_fit(&gpu));
    assert!(!smesh.gpu_buffers_fit(&gpu[..53]));
    assert!(smesh.try_dump_wavefront(Some(&gpu[..53]), false).is_none());
}


fn mesh_header(num_surfaces: u16) -> Vec<u8> {
    let mut b = vec![];
    push_i16(&mut b, 0);
    push_u16(&mut b, num_surfaces);
    push_i32(&mut b, -1);
    push_i32(&mut b, -1);
    push_i32(&mut b, 0);
    b
}

#[test]
fn cpu_surface_count_must_match_gpu() {
    let mut b = lod_mesh_header(1);
    b[0x24..0x28].copy_from_slice(&(-1_i32).to_le_bytes()); // with CPU geometry
    let header = LodMeshHeader::from_le_bytes(&b).unwrap();
    let mut buf = mesh_header(0);
    buf.extend_from_slice(&mesh_header(1));
    buf.extend_from_slice(&[0u8; 64]);
    let mut offset = 0;
    match header.read_data(&buf, &mut offset, 0) {
        Err(VolitionError::ExpectedExactValue { expected, got, .. }) => assert_eq!((expected, got), (0, 1)),
        other => panic!("unexpected {other:?}"),
    }
    assert_eq!(offset, 32);
}
