use v_utils::geometry::{Quaternion, Vector, AABB};
use v_utils::material::{Material, MaterialBlock, MaterialUnknown3};
use v_utils::mesh::{IndexBuffer, LodMeshHeader, MeshHeader, Surface, VertexBuffer};
use v_utils::packfile::{Packfile, PackfileEntry};

#[test]
fn test_aabb_size() {
    assert_eq!(size_of::<AABB>(), 0x18);
}

#[test]
fn aabb_test_aabb_cycle_bytes() {
    let mut buf = vec![];
    buf.extend_from_slice(&3.0_f32.to_le_bytes());
    buf.extend_from_slice(&4.0_f32.to_le_bytes());
    buf.extend_from_slice(&5.0_f32.to_le_bytes());
    buf.extend_from_slice(&7.0_f32.to_le_bytes());
    buf.extend_from_slice(&8.0_f32.to_le_bytes());
    buf.extend_from_slice(&9.0_f32.to_le_bytes());
    let bbox = AABB::from_le_unsized(&buf).unwrap();
    assert_eq!(buf, bbox.to_le_bytes());
}

#[test]
fn test_material_block_size() {
    assert_eq!(size_of::<MaterialBlock>(), 0x24);
}

#[test]
fn test_material_size() {
    assert_eq!(size_of::<Material>(), 0x18);
}

#[test]
fn test_material_unk3() {
    assert_eq!(size_of::<MaterialUnknown3>(), 0x10);
}

#[test]
fn test_lod_mesh_header_cycle_bytes() {
    let mut buf = vec![];

    buf.extend_from_slice(&3.0_f32.to_le_bytes()); // aabb
    buf.extend_from_slice(&4.0_f32.to_le_bytes());
    buf.extend_from_slice(&5.0_f32.to_le_bytes());
    buf.extend_from_slice(&7.0_f32.to_le_bytes());
    buf.extend_from_slice(&8.0_f32.to_le_bytes());
    buf.extend_from_slice(&9.0_f32.to_le_bytes());

    buf.extend_from_slice(&0_i32.to_le_bytes()); // flags
    buf.extend_from_slice(&4_i32.to_le_bytes()); // num_lods
    buf.extend_from_slice(&(-1_i32).to_le_bytes()); // ptr_gpu
    buf.extend_from_slice(&(-1_i32).to_le_bytes()); // ptr_cpu

    let hed = LodMeshHeader::from_le_bytes(&buf).unwrap();
    assert_eq!(buf, hed.to_le_bytes());
}

#[test]
fn test_mesh_header_cycle_bytes() {
    let mut buf = vec![];

    buf.extend_from_slice(&9_i16.to_le_bytes()); // unk_00
    buf.extend_from_slice(&9_u16.to_le_bytes()); // num_surfaces
    buf.extend_from_slice(&(-1_i32).to_le_bytes()); // ptr_04
    buf.extend_from_slice(&(-1_i32).to_le_bytes()); // ptr_08
    buf.extend_from_slice(&0_i32.to_le_bytes()); // unk_0c

    let hed = MeshHeader::from_le_bytes(&buf).unwrap();
    assert_eq!(buf, hed.to_le_bytes());
}

#[test]
fn test_surface_cycle_bytes() {
    let mut buf = vec![];

    buf.extend_from_slice(&3_u32.to_le_bytes()); // vbuf
    buf.extend_from_slice(&4_u32.to_le_bytes()); // start_index
    buf.extend_from_slice(&100_i32.to_le_bytes()); // start_vertex
    buf.extend_from_slice(&52_u16.to_le_bytes()); // num_indices
    buf.extend_from_slice(&7_i16.to_le_bytes()); // material

    let hed = Surface::from_le_bytes(&buf).unwrap();
    assert_eq!(buf, hed.to_le_bytes());
}

#[test]
fn test_index_buffer_cycle_bytes() {
    let mut buf = vec![];

    buf.extend_from_slice(&4_i16.to_le_bytes()); // mesh_type
    buf.extend_from_slice(&100_u16.to_le_bytes()); // num_vertex_buffers
    buf.extend_from_slice(&52_u32.to_le_bytes()); // num_indices
    buf.extend_from_slice(&(-1_i32).to_le_bytes()); // runtime_08
    buf.extend_from_slice(&(-1_i32).to_le_bytes()); // runtime_0c
    buf.extend_from_slice(&0_i32.to_le_bytes()); // runtime_10

    let hed = IndexBuffer::from_le_bytes(&buf).unwrap();
    assert_eq!(buf, hed.to_le_bytes());
}

#[test]
fn test_vertex_buffer_cycle_bytes() {
    let mut buf = vec![];

    buf.push(0); // attributes
    buf.push(3); // num_uv_channels
    buf.extend_from_slice(&24_u16.to_le_bytes()); // stride
    buf.extend_from_slice(&57_u32.to_le_bytes()); // num_vertices
    buf.extend_from_slice(&(-1_i32).to_le_bytes()); // ptr_render_data
    buf.extend_from_slice(&0_i32.to_le_bytes()); // unk_0c

    let hed = VertexBuffer::from_le_bytes(&buf).unwrap();
    assert_eq!(buf, hed.to_le_bytes());
}

#[test]
fn test_packfile_size() {
    assert_eq!(size_of::<Packfile>(), 0x180)
}

#[test]
fn test_packfile_serialize_size() {
    assert_eq!(Packfile::default().to_bytes().len(), size_of::<Packfile>())
}

#[test]
fn test_packfile_entry_size() {
    assert_eq!(size_of::<PackfileEntry>(), 28)
}

#[test]
fn test_packfile_entry_serialize_size() {
    assert_eq!(PackfileEntry::default().to_bytes().len(), size_of::<PackfileEntry>())
}

#[test]
fn test_quat_size() {
    assert_eq!(size_of::<Quaternion>(), 0x10);
}

#[test]
fn test_quat_cycle_bytes() {
    let mut buf = vec![];
    buf.extend_from_slice(&3.0_f32.to_le_bytes());
    buf.extend_from_slice(&4.0_f32.to_le_bytes());
    buf.extend_from_slice(&5.0_f32.to_le_bytes());
    buf.extend_from_slice(&7.0_f32.to_le_bytes());
    let quat = Quaternion::from_le_unsized(&buf).unwrap();
    assert_eq!(buf, quat.to_le_bytes());
}

#[test]
fn test_vector_size() {
    assert_eq!(size_of::<Vector>(), 0x0c);
}

#[test]
fn vector_test_aabb_cycle_bytes() {
    let mut buf = vec![];
    buf.extend_from_slice(&3.0_f32.to_le_bytes());
    buf.extend_from_slice(&4.0_f32.to_le_bytes());
    buf.extend_from_slice(&5.0_f32.to_le_bytes());
    let vec = Vector::from_le_unsized(&buf).unwrap();
    assert_eq!(buf, vec.to_le_bytes());
}
