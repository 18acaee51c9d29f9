use vstd::prelude::*;

use crate::error::VolitionError;
use crate::util::{
    check_fits_buf, le_u32, lemma_u32_bytes_read, lemma_u32_read_bytes, push_u32_le, read_u32_le, u32_bytes,
    vec_to_array,
};

verus! {

/// `bits` is the IEEE-754 single precision pattern of a NaN.
pub open spec fn is_nan_bits(bits: u32) -> bool {
    (bits & 0x7f80_0000) == 0x7f80_0000 && (bits & 0x007f_ffff) != 0
}

/// 3D float vector, 12 bytes on disk.  Each component is kept as the IEEE-754
/// bit pattern it has on disk.
#[derive(Debug, Clone, Copy, PartialEq, Eq)]
pub struct Vector {
    pub x: u32,
    pub y: u32,
    pub z: u32,
}

/// Rotation quaternion, 16 bytes on disk, components as IEEE-754 bit patterns.
#[derive(Debug, Clone, Copy, PartialEq, Eq)]
pub struct Quaternion {
    pub x: u32,
    pub y: u32,
    pub z: u32,
    pub w: u32,
}

/// Axis-aligned bounding box, 24 bytes on disk.
#[derive(Debug, Clone, Copy, PartialEq, Eq)]
pub struct AABB {
    pub min: Vector,
    pub max: Vector,
}

/// The vector stored at `off` in `b`.
pub open spec fn vector_at(b: Seq<u8>, off: int) -> Vector {
    Vector { x: le_u32(b, off), y: le_u32(b, off + 4), z: le_u32(b, off + 8) }
}

/// The quaternion stored at `off` in `b`.
pub open spec fn quaternion_at(b: Seq<u8>, off: int) -> Quaternion {
    Quaternion { x: le_u32(b, off), y: le_u32(b, off + 4), z: le_u32(b, off + 8), w: le_u32(b, off + 12) }
}

/// The box stored at `off` in `b`.
pub open spec fn aabb_at(b: Seq<u8>, off: int) -> AABB {
    AABB { min: vector_at(b, off), max: vector_at(b, off + 12) }
}

/// The bytes of a vector.
pub open spec fn vector_bytes(v: Vector) -> Seq<u8> {
    u32_bytes(v.x) + u32_bytes(v.y) + u32_bytes(v.z)
}

/// The bytes of a quaternion.
pub open spec fn quaternion_bytes(q: Quaternion) -> Seq<u8> {
    u32_bytes(q.x) + u32_bytes(q.y) + u32_bytes(q.z) + u32_bytes(q.w)
}

/// The bytes of a box.
pub open spec fn aabb_bytes(a: AABB) -> Seq<u8> {
    vector_bytes(a.min) + vector_bytes(a.max)
}

/// Reads back a vector from its bytes, and its bytes from a read vector.
pub proof fn lemma_vector_roundtrip(b: Seq<u8>, off: int, v: Vector)
    requires
        0 <= off,
        off + 12 <= b.len(),
    ensures
        vector_bytes(vector_at(b, off)) == b.subrange(off, off + 12),
        b.subrange(off, off + 12) == vector_bytes(v) ==> vector_at(b, off) == v,
{
    lemma_u32_bytes_read(b, off);
    lemma_u32_bytes_read(b, off + 4);
    lemma_u32_bytes_read(b, off + 8);
    assert(vector_bytes(vector_at(b, off)) =~= b.subrange(off, off + 12));
    if b.subrange(off, off + 12) == vector_bytes(v) {
        let w = b.subrange(off, off + 12);
        assert(w.subrange(0, 4) =~= u32_bytes(v.x));
        assert(w.subrange(4, 8) =~= u32_bytes(v.y));
        assert(w.subrange(8, 12) =~= u32_bytes(v.z));
        assert(b.subrange(off, off + 4) =~= w.subrange(0, 4));
        assert(b.subrange(off + 4, off + 8) =~= w.subrange(4, 8));
        assert(b.subrange(off + 8, off + 12) =~= w.subrange(8, 12));
        lemma_u32_read_bytes(b, off, v.x);
        lemma_u32_read_bytes(b, off + 4, v.y);
        lemma_u32_read_bytes(b, off + 8, v.z);
    }
}

/// Writing back a vector that was read gives the bytes it was read from.
pub proof fn lemma_vector_write_after_read(b: Seq<u8>)
    requires
        b.len() >= Vector::SIZE,
    ensures
        vector_bytes(vector_at(b, 0)) == b.take(Vector::SIZE as int),
{
    lemma_vector_roundtrip(b, 0, vector_at(b, 0));
    assert(b.take(12) =~= b.subrange(0, 12));
}

/// A vector reads back from its bytes as itself.
pub proof fn lemma_vector_read_after_write(v: Vector)
    ensures
        vector_at(vector_bytes(v), 0) == v,
{
    let b = vector_bytes(v);
    assert(b.subrange(0, 12) =~= b);
    lemma_vector_roundtrip(b, 0, v);
}

/// Writing back a quaternion that was read gives the bytes it was read from.
pub proof fn lemma_quaternion_write_after_read(b: Seq<u8>)
    requires
        b.len() >= Quaternion::SIZE,
    ensures
        quaternion_bytes(quaternion_at(b, 0)) == b.take(Quaternion::SIZE as int),
{
    lemma_u32_bytes_read(b, 0);
    lemma_u32_bytes_read(b, 4);
    lemma_u32_bytes_read(b, 8);
    lemma_u32_bytes_read(b, 12);
    assert(quaternion_bytes(quaternion_at(b, 0)) =~= b.take(16));
}

/// A quaternion reads back from its bytes as itself.
pub proof fn lemma_quaternion_read_after_write(q: Quaternion)
    ensures
        quaternion_at(quaternion_bytes(q), 0) == q,
{
    let b = quaternion_bytes(q);
    assert(b.subrange(0, 4) =~= u32_bytes(q.x));
    assert(b.subrange(4, 8) =~= u32_bytes(q.y));
    assert(b.subrange(8, 12) =~= u32_bytes(q.z));
    assert(b.subrange(12, 16) =~= u32_bytes(q.w));
    lemma_u32_read_bytes(b, 0, q.x);
    lemma_u32_read_bytes(b, 4, q.y);
    lemma_u32_read_bytes(b, 8, q.z);
    lemma_u32_read_bytes(b, 12, q.w);
}

/// Writing back a box that was read gives the bytes it was read from.
pub proof fn lemma_aabb_write_after_read(b: Seq<u8>)
    requires
        b.len() >= AABB::SIZE,
    ensures
        aabb_bytes(aabb_at(b, 0)) == b.take(AABB::SIZE as int),
{
    lemma_vector_roundtrip(b, 0, vector_at(b, 0));
    lemma_vector_roundtrip(b, 12, vector_at(b, 12));
    assert(aabb_bytes(aabb_at(b, 0)) =~= b.take(24));
}

/// A box reads back from its bytes as itself.
pub proof fn lemma_aabb_read_after_write(a: AABB)
    ensures
        aabb_at(aabb_bytes(a), 0) == a,
{
    let b = aabb_bytes(a);
    assert(b.subrange(0, 12) =~= vector_bytes(a.min));
    assert(b.subrange(12, 24) =~= vector_bytes(a.max));
    lemma_vector_roundtrip(b, 0, a.min);
    lemma_vector_roundtrip(b, 12, a.max);
}

impl Vector {
    /// Size on disk.
    pub const SIZE: usize = 12;

    /// Decodes the vector at the start of `buf`.
    pub fn from_le_unsized(buf: &[u8]) -> (r: Result<Self, VolitionError>)
        ensures
            buf@.len() < Self::SIZE ==> r == Err::<Vector, VolitionError>(
                VolitionError::BufferTooSmall { for_what: "Vector", need: Self::SIZE, avail: buf@.len() as usize },
            ),
            buf@.len() >= Self::SIZE ==> r == Ok::<Vector, VolitionError>(vector_at(buf@, 0)),
    {
        check_fits_buf(buf, Self::SIZE, "Vector")?;
        Ok(Self { x: read_u32_le(buf, 0x0), y: read_u32_le(buf, 0x4), z: read_u32_le(buf, 0x8) })
    }

    /// Decodes a vector from exactly 12 bytes.
    pub fn from_le_bytes(buf: &[u8; 12]) -> (r: Result<Self, VolitionError>)
        ensures
            r == Ok::<Vector, VolitionError>(vector_at(buf@, 0)),
    {
        let s = buf.as_slice();
        Ok(Self { x: read_u32_le(s, 0x0), y: read_u32_le(s, 0x4), z: read_u32_le(s, 0x8) })
    }

    /// Encodes the vector.
    pub fn to_le_bytes(&self) -> (r: [u8; 12])
        ensures
            r@ == vector_bytes(*self),
    {
        let mut v = Vec::new();
        push_u32_le(&mut v, self.x);
        push_u32_le(&mut v, self.y);
        push_u32_le(&mut v, self.z);
        vec_to_array(&v)
    }

    /// Returns `true` if any component is NaN.
    pub fn is_nan(&self) -> (r: bool)
        ensures
            r == (is_nan_bits(self.x) || is_nan_bits(self.y) || is_nan_bits(self.z)),
    {
        float_bits_is_nan(self.x) || float_bits_is_nan(self.y) || float_bits_is_nan(self.z)
    }
}

/// Whether an IEEE-754 single precision pattern is a NaN.
pub fn float_bits_is_nan(bits: u32) -> (r: bool)
    ensures
        r == is_nan_bits(bits),
{
    (bits & 0x7f80_0000) == 0x7f80_0000 && (bits & 0x007f_ffff) != 0
}

impl Quaternion {
    /// Size on disk.
    pub const SIZE: usize = 16;

    /// Decodes the quaternion at the start of `buf`.
    pub fn from_le_unsized(buf: &[u8]) -> (r: Result<Self, VolitionError>)
        ensures
            buf@.len() < Self::SIZE ==> r == Err::<Quaternion, VolitionError>(
                VolitionError::BufferTooSmall { for_what: "Quaternion", need: Self::SIZE, avail: buf@.len() as usize },
            ),
            buf@.len() >= Self::SIZE ==> r == Ok::<Quaternion, VolitionError>(quaternion_at(buf@, 0)),
    {
        check_fits_buf(buf, Self::SIZE, "Quaternion")?;
        Ok(Self { x: read_u32_le(buf, 0x0), y: read_u32_le(buf, 0x4), z: read_u32_le(buf, 0x8), w: read_u32_le(buf, 0xc) })
    }

    /// Decodes a quaternion from exactly 16 bytes.
    pub fn from_le_bytes(buf: &[u8; 16]) -> (r: Result<Self, VolitionError>)
        ensures
            r == Ok::<Quaternion, VolitionError>(quaternion_at(buf@, 0)),
    {
        let s = buf.as_slice();
        Ok(Self { x: read_u32_le(s, 0x0), y: read_u32_le(s, 0x4), z: read_u32_le(s, 0x8), w: read_u32_le(s, 0xc) })
    }

    /// Encodes the quaternion.
    pub fn to_le_bytes(&self) -> (r: [u8; 16])
        ensures
            r@ == quaternion_bytes(*self),
    {
        let mut v = Vec::new();
        push_u32_le(&mut v, self.x);
        push_u32_le(&mut v, self.y);
        push_u32_le(&mut v, self.z);
        push_u32_le(&mut v, self.w);
        vec_to_array(&v)
    }

    /// Returns `true` if any component is NaN.
    pub fn is_nan(&self) -> (r: bool)
        ensures
            r == (is_nan_bits(self.x) || is_nan_bits(self.y) || is_nan_bits(self.z) || is_nan_bits(self.w)),
    {
        float_bits_is_nan(self.x) || float_bits_is_nan(self.y) || float_bits_is_nan(self.z) || float_bits_is_nan(self.w)
    }
}

impl AABB {
    /// Size on disk.
    pub const SIZE: usize = 24;

    /// Decodes the box at the start of `buf`.
    pub fn from_le_unsized(buf: &[u8]) -> (r: Result<Self, VolitionError>)
        ensures
            buf@.len() < Self::SIZE ==> r == Err::<AABB, VolitionError>(
                VolitionError::BufferTooSmall { for_what: "AABB", need: Self::SIZE, avail: buf@.len() as usize },
            ),
            buf@.len() >= Self::SIZE ==> r == Ok::<AABB, VolitionError>(aabb_at(buf@, 0)),
    {
        check_fits_buf(buf, Self::SIZE, "AABB")?;
        Self::read_at(buf, 0)
    }

    /// Decodes a box from exactly 24 bytes.
    pub fn from_le_bytes(buf: &[u8; 24]) -> (r: Result<Self, VolitionError>)
        ensures
            r == Ok::<AABB, VolitionError>(aabb_at(buf@, 0)),
    {
        Self::read_at(buf.as_slice(), 0)
    }

    /// The box stored at `off`.
    pub fn read_at(buf: &[u8], off: usize) -> (r: Result<Self, VolitionError>)
        requires
            off + Self::SIZE <= buf@.len(),
        ensures
            r == Ok::<AABB, VolitionError>(aabb_at(buf@, off as int)),
    {
        let min = Vector::from_le_unsized(&buf[off..buf.len()])?;
        let max = Vector::from_le_unsized(&buf[off + 12..buf.len()])?;
        Ok(Self { min, max })
    }

    /// Encodes the box.
    pub fn to_le_bytes(&self) -> (r: [u8; 24])
        ensures
            r@ == aabb_bytes(*self),
    {
        let mut v = Vec::new();
        push_u32_le(&mut v, self.min.x);
        push_u32_le(&mut v, self.min.y);
        push_u32_le(&mut v, self.min.z);
        push_u32_le(&mut v, self.max.x);
        push_u32_le(&mut v, self.max.y);
        push_u32_le(&mut v, self.max.z);
        assert(v@ =~= aabb_bytes(*self));
        vec_to_array(&v)
    }

    /// Returns `true` if any component is NaN.
    pub fn is_nan(&self) -> (r: bool)
        ensures
            r == (is_nan_bits(self.min.x) || is_nan_bits(self.min.y) || is_nan_bits(self.min.z) || is_nan_bits(
                self.max.x,
            ) || is_nan_bits(self.max.y) || is_nan_bits(self.max.z)),
    {
        self.min.is_nan() || self.max.is_nan()
    }
}

} // verus!
