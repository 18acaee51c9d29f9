use v_utils::error::VolitionError;
use v_utils::geometry::Vector;
use v_utils::material::{MaterialBlock, MaterialTextureEntry};
use v_utils::mesh::{vertex_attr_len, VertexBuffer};
use v_utils::util::{align, align_pad, aligned, read_bytes, read_cstr, read_i16_le, read_i32_le, read_u16_le, read_u32_le, validate_f32};

#[test]
fn little_endian_reads() {
    let buf = [0x01, 0x02, 0x03, 0x84, 0xff, 0xff];
    assert_eq!(read_u32_le(&buf, 0), 0x8403_0201);
    assert_eq!(read_i32_le(&buf, 0), 0x8403_0201_u32 as i32);
    assert_eq!(read_u16_le(&buf, 2), 0x8403);
    assert_eq!(read_i16_le(&buf, 4), -1);
    let b: [u8; 3] = read_bytes(&buf, 1);
    assert_eq!(b, [0x02, 0x03, 0x84]);
}

#[test]
fn cstr_reads_up_to_the_nul() {
    let buf = b"abc\0de\0\xff\0";
    assert_eq!(read_cstr(buf, 0).unwrap(), "abc");
    assert_eq!(read_cstr(buf, 1).unwrap(), "bc");
    assert_eq!(read_cstr(buf, 4).unwrap(), "de");
    assert_eq!(read_cstr(buf, 3).unwrap(), "");
    assert!(matches!(read_cstr(buf, 7), Err(VolitionError::InvalidString { offset: 7 })));
    assert!(matches!(read_cstr(b"abc", 0), Err(VolitionError::InvalidString { offset: 0 })));
    assert!(matches!(read_cstr(buf, 9), Err(VolitionError::InvalidString { offset: 9 })));
    assert!(matches!(read_cstr(buf, 10), Err(VolitionError::CStringRanOutOfBytes(9))));
}

#[test]
fn alignment() {
    assert_eq!(aligned(0, 16), 0);
    assert_eq!(aligned(5, 16), 16);
    assert_eq!(aligned(32, 16), 32);
    assert_eq!(aligned(33, 4), 36);
    let mut off = 17;
    align(&mut off, 16);
    assert_eq!(off, 32);

    let mut w = vec![1u8];
    let mut off = 1;
    align_pad(&mut w, &mut off, 4);
    assert_eq!(off, 4);
    assert_eq!(w, vec![1, 0, 0, 0]);
    align_pad(&mut w, &mut off, 4);
    assert_eq!(w.len(), 4);
}

#[test]
fn vertex_layout_offsets() {
    let mut vb = VertexBuffer { attributes: 0, num_uv_channels: 0, stride: 12, num_vertices: 0, ptr_render_data: -1, unk_0c: 0 };
    assert_eq!((vb.off_normal(), vb.off_uv(), vb.attr_len()), (12, 12, 0));
    vb.attributes = 1;
    assert!(vb.has_bones() && !vb.has_normals() && !vb.has_unk_attr());
    assert_eq!((vb.off_normal(), vb.off_uv(), vb.attr_len()), (20, 20, 8));
    vb.attributes = 3;
    assert_eq!((vb.off_normal(), vb.off_uv(), vb.attr_len()), (20, 24, 12));
    vb.attributes = 7;
    assert!(vb.has_unk_attr());
    assert_eq!((vb.off_normal(), vb.off_uv(), vb.attr_len()), (20, 32, 20));
    assert_eq!(vertex_attr_len(6), 12);
}

#[test]
fn vertex_buffer_stride_must_match_format() {
    let mut buf = vec![2u8, 1];
    buf.extend_from_slice(&20_u16.to_le_bytes());
    buf.extend_from_slice(&3_u32.to_le_bytes());
    buf.extend_from_slice(&(-1_i32).to_le_bytes());
    buf.extend_from_slice(&0_i32.to_le_bytes());
    let vb = VertexBuffer::from_le_bytes(&buf).unwrap();
    assert_eq!(vb.stride, 20);
    buf[2] = 21;
    assert!(matches!(
        VertexBuffer::from_le_bytes(&buf),
        Err(VolitionError::ExpectedExactValue { expected: 20, got: -1, .. })
    ));
    buf[0] = 6 + 2;
    assert!(matches!(VertexBuffer::from_le_bytes(&buf), Err(VolitionError::UnexpectedValue { got: 8, .. })));
}

#[test]
fn texture_entries() {
    let p = MaterialTextureEntry::placeholder();
    assert!(p.is_placeholder());
    assert!(!p.is_valid());
    let e = MaterialTextureEntry::from_data(&[3, 0, 1, 0]).unwrap();
    assert_eq!((e.index, e.flags), (3, 1));
    assert!(e.is_valid());
    assert!(!e.is_placeholder());
}

#[test]
fn material_block_checks() {
    let mut buf = vec![0u8; 0x24];
    let mb = MaterialBlock::from_data(&buf).unwrap();
    assert_eq!(mb.num_materials, 0);
    buf[0..4].copy_from_slice(&201_u32.to_le_bytes());
    assert!(matches!(MaterialBlock::from_data(&buf), Err(VolitionError::ValueTooHigh { max: 200, got: 201, .. })));
    buf[0..4].copy_from_slice(&0_u32.to_le_bytes());
    buf[4] = 1;
    assert!(matches!(MaterialBlock::from_data(&buf), Err(VolitionError::ExpectedExactValue { expected: 0, got: 1, .. })));
}

#[test]
fn nonsensical_floats_are_refused() {
    let nan = f32::NAN.to_bits();
    assert!(matches!(validate_f32(nan, "x"), Err(VolitionError::NonsensicalFloat { field: "x", got }) if got == nan));
    assert!(validate_f32(f32::INFINITY.to_bits(), "x").is_err());
    assert!(validate_f32(f32::from_bits(1).to_bits(), "x").is_err());
    assert!(validate_f32(1.5_f32.to_bits(), "x").is_ok());
    assert!(validate_f32(0.0_f32.to_bits(), "x").is_ok());

    let mut buf = vec![];
    buf.extend_from_slice(&1.0_f32.to_le_bytes());
    buf.extend_from_slice(&f32::NAN.to_le_bytes());
    buf.extend_from_slice(&2.0_f32.to_le_bytes());
    assert!(Vector::from_le_unsized(&buf).unwrap().is_nan());
}
