use vstd::prelude::*;

use crate::error::VolitionError;
use vstd::utf8::valid_utf8;
use vstd::string::StringSliceAdditionalSpecFns;
use vstd::array::ArrayAdditionalExecFns;

verus! {


/// Little-endian `u16` stored at `off` in `b`.
pub open spec fn le_u16(b: Seq<u8>, off: int) -> u16 {
    (b[off] + 256 * b[off + 1]) as u16
}

/// Little-endian `u32` stored at `off` in `b`.
pub open spec fn le_u32(b: Seq<u8>, off: int) -> u32 {
    (b[off] + 256 * b[off + 1] + 65536 * b[off + 2] + 16777216 * b[off + 3]) as u32
}

/// The two's complement reading of a 16-bit pattern.
pub open spec fn i16_of_bits(v: u16) -> i16 {
    if v < 0x8000 { v as i16 } else { (v - 0x10000) as i16 }
}

/// The two's complement reading of a 32-bit pattern.
pub open spec fn i32_of_bits(v: u32) -> i32 {
    if v < 0x8000_0000 { v as i32 } else { (v - 0x1_0000_0000) as i32 }
}

/// The 16-bit two's complement pattern of `x`.
pub open spec fn bits_of_i16(x: i16) -> u16 {
    if x >= 0 { x as u16 } else { (x + 0x10000) as u16 }
}

/// The 32-bit two's complement pattern of `x`.
pub open spec fn bits_of_i32(x: i32) -> u32 {
    if x >= 0 { x as u32 } else { (x + 0x1_0000_0000) as u32 }
}

/// Little-endian `i16` stored at `off` in `b`.
pub open spec fn le_i16(b: Seq<u8>, off: int) -> i16 {
    i16_of_bits(le_u16(b, off))
}

/// Little-endian `i32` stored at `off` in `b`.
pub open spec fn le_i32(b: Seq<u8>, off: int) -> i32 {
    i32_of_bits(le_u32(b, off))
}

/// Little-endian encoding of a `u16`.
pub open spec fn u16_bytes(x: u16) -> Seq<u8> {
    seq![(x % 256) as u8, (x / 256) as u8]
}

/// Little-endian encoding of a `u32`.
pub open spec fn u32_bytes(x: u32) -> Seq<u8> {
    seq![(x % 256) as u8, ((x / 256) % 256) as u8, ((x / 65536) % 256) as u8, (x / 16777216) as u8]
}

/// Little-endian encoding of an `i16`.
pub open spec fn i16_bytes(x: i16) -> Seq<u8> {
    u16_bytes(bits_of_i16(x))
}

/// Little-endian encoding of an `i32`.
pub open spec fn i32_bytes(x: i32) -> Seq<u8> {
    u32_bytes(bits_of_i32(x))
}

/// A `u16` encoding is read back as the value it encodes.
pub proof fn lemma_u16_read_bytes(b: Seq<u8>, off: int, x: u16)
    requires
        0 <= off,
        off + 2 <= b.len(),
        b.subrange(off, off + 2) == u16_bytes(x),
    ensures
        le_u16(b, off) == x,
{
    assert(b[off] == u16_bytes(x)[0]);
    assert(b[off + 1] == u16_bytes(x)[1]);
}

/// A `u32` encoding is read back as the value it encodes.
pub proof fn lemma_u32_read_bytes(b: Seq<u8>, off: int, x: u32)
    requires
        0 <= off,
        off + 4 <= b.len(),
        b.subrange(off, off + 4) == u32_bytes(x),
    ensures
        le_u32(b, off) == x,
{
    assert(b[off] == u32_bytes(x)[0]);
    assert(b[off + 1] == u32_bytes(x)[1]);
    assert(b[off + 2] == u32_bytes(x)[2]);
    assert(b[off + 3] == u32_bytes(x)[3]);
}

/// Encoding the `u16` read at `off` gives back the two bytes there.
pub proof fn lemma_u16_bytes_read(b: Seq<u8>, off: int)
    requires
        0 <= off,
        off + 2 <= b.len(),
    ensures
        u16_bytes(le_u16(b, off)) == b.subrange(off, off + 2),
{
    assert(u16_bytes(le_u16(b, off)) =~= b.subrange(off, off + 2));
}

/// The four digits of a base-256 number are its little-endian bytes.
proof fn lemma_base256_digits(b0: int, b1: int, b2: int, b3: int)
    requires
        0 <= b0 < 256,
        0 <= b1 < 256,
        0 <= b2 < 256,
        0 <= b3 < 256,
    ensures
        ({
            let v = b0 + 256 * b1 + 65536 * b2 + 16777216 * b3;
            &&& v % 256 == b0
            &&& (v / 256) % 256 == b1
            &&& (v / 65536) % 256 == b2
            &&& v / 16777216 == b3
        }),
{
    let v = b0 + 256 * b1 + 65536 * b2 + 16777216 * b3;
    assert(v / 256 == b1 + 256 * b2 + 65536 * b3);
    assert(v / 65536 == b2 + 256 * b3);
    assert(v / 16777216 == b3);
}

/// Encoding the `u32` read at `off` gives back the four bytes there.
pub proof fn lemma_u32_bytes_read(b: Seq<u8>, off: int)
    requires
        0 <= off,
        off + 4 <= b.len(),
    ensures
        u32_bytes(le_u32(b, off)) == b.subrange(off, off + 4),
{
    lemma_base256_digits(b[off] as int, b[off + 1] as int, b[off + 2] as int, b[off + 3] as int);
    assert(u32_bytes(le_u32(b, off)) =~= b.subrange(off, off + 4));
}

/// An `i16` encoding is read back as the value it encodes.
pub proof fn lemma_i16_read_bytes(b: Seq<u8>, off: int, x: i16)
    requires
        0 <= off,
        off + 2 <= b.len(),
        b.subrange(off, off + 2) == i16_bytes(x),
    ensures
        le_i16(b, off) == x,
{
    lemma_u16_read_bytes(b, off, bits_of_i16(x));
}

/// An `i32` encoding is read back as the value it encodes.
pub proof fn lemma_i32_read_bytes(b: Seq<u8>, off: int, x: i32)
    requires
        0 <= off,
        off + 4 <= b.len(),
        b.subrange(off, off + 4) == i32_bytes(x),
    ensures
        le_i32(b, off) == x,
{
    lemma_u32_read_bytes(b, off, bits_of_i32(x));
}

/// Encoding the `i16` read at `off` gives back the two bytes there.
pub proof fn lemma_i16_bytes_read(b: Seq<u8>, off: int)
    requires
        0 <= off,
        off + 2 <= b.len(),
    ensures
        i16_bytes(le_i16(b, off)) == b.subrange(off, off + 2),
{
    lemma_u16_bytes_read(b, off);
}

/// Encoding the `i32` read at `off` gives back the four bytes there.
pub proof fn lemma_i32_bytes_read(b: Seq<u8>, off: int)
    requires
        0 <= off,
        off + 4 <= b.len(),
    ensures
        i32_bytes(le_i32(b, off)) == b.subrange(off, off + 4),
{
    lemma_u32_bytes_read(b, off);
}

/// `o` rounded up to the next multiple of `a`.
pub open spec fn round_up(o: int, a: int) -> int
    recommends
        a > 0,
{
    if o % a == 0 {
        o
    } else {
        o - o % a + a
    }
}

/// The text of a NUL-terminated string that starts at `offset`, as raw bytes.
///
/// Fails with `CStringRanOutOfBytes` when `offset` lies past the end, and with
/// `InvalidString` when no NUL follows or the bytes before it are not UTF-8.
pub open spec fn spec_cstr(buf: Seq<u8>, offset: int) -> Result<Seq<u8>, VolitionError> {
    if offset > buf.len() {
        Err(VolitionError::CStringRanOutOfBytes(buf.len() as usize))
    } else {
        let tail = buf.skip(offset);
        if exists|n: int| is_first_nul(tail, n) {
            let n = choose|n: int| is_first_nul(tail, n);
            if valid_utf8(tail.take(n)) {
                Ok(tail.take(n))
            } else {
                Err(VolitionError::InvalidString { offset: offset as usize })
            }
        } else {
            Err(VolitionError::InvalidString { offset: offset as usize })
        }
    }
}

/// `n` is the position of the first zero byte in `s`.
pub open spec fn is_first_nul(s: Seq<u8>, n: int) -> bool {
    &&& 0 <= n < s.len()
    &&& s[n] == 0
    &&& forall|i: int| 0 <= i < n ==> s[i] != 0
}

/// The middle part of a concatenation is the matching subrange.
pub proof fn lemma_subrange_of_concat(a: Seq<u8>, x: Seq<u8>, c: Seq<u8>)
    ensures
        (a + x + c).subrange(a.len() as int, (a.len() + x.len()) as int) == x,
{
    assert((a + x + c).subrange(a.len() as int, (a.len() + x.len()) as int) =~= x);
}

/// A little-endian `i32` at `offset`.
pub fn read_i32_le(buf: &[u8], offset: usize) -> (r: i32)
    requires
        offset + 4 <= buf@.len(),
    ensures
        r == le_i32(buf@, offset as int),
{
    i32_from_bits(read_u32_le(buf, offset))
}

/// The two's complement reading of `v`.
pub fn i32_from_bits(v: u32) -> (r: i32)
    ensures
        r == i32_of_bits(v),
{
    if v < 0x8000_0000 {
        v as i32
    } else {
        ((v - 0x8000_0000) as i32) + i32::MIN
    }
}

/// `x` reduced to 32 bits and read as two's complement, as `x as i32` does.
pub open spec fn wrap_i32(x: int) -> i32 {
    i32_of_bits((x % 0x1_0000_0000) as u32)
}

/// `x as i32`.
pub fn usize_as_i32(x: usize) -> (r: i32)
    ensures
        r == wrap_i32(x as int),
{
    let low = ((x as u64) % 0x1_0000_0000) as u32;
    i32_from_bits(low)
}

/// A little-endian `u32` at `offset`.
pub fn read_u32_le(buf: &[u8], offset: usize) -> (r: u32)
    requires
        offset + 4 <= buf@.len(),
    ensures
        r == le_u32(buf@, offset as int),
{
    let b0 = buf[offset] as u32;
    let b1 = buf[offset + 1] as u32;
    let b2 = buf[offset + 2] as u32;
    let b3 = buf[offset + 3] as u32;
    b0 + 256 * b1 + 65536 * b2 + 16777216 * b3
}

/// A little-endian `i16` at `offset`.
pub fn read_i16_le(buf: &[u8], offset: usize) -> (r: i16)
    requires
        offset + 2 <= buf@.len(),
    ensures
        r == le_i16(buf@, offset as int),
{
    let v = read_u16_le(buf, offset);
    if v < 0x8000 {
        v as i16
    } else {
        ((v - 0x8000) as i16) + i16::MIN
    }
}

/// A little-endian `u16` at `offset`.
pub fn read_u16_le(buf: &[u8], offset: usize) -> (r: u16)
    requires
        offset + 2 <= buf@.len(),
    ensures
        r == le_u16(buf@, offset as int),
{
    let b0 = buf[offset] as u16;
    let b1 = buf[offset + 1] as u16;
    b0 + 256 * b1
}

/// Appends the little-endian encoding of `x`.
pub fn push_u16_le(v: &mut Vec<u8>, x: u16)
    ensures
        final(v)@ == old(v)@ + u16_bytes(x),
{
    v.push((x % 256) as u8);
    v.push((x / 256) as u8);
    assert(final(v)@ =~= old(v)@ + u16_bytes(x));
}

/// Appends the little-endian encoding of `x`.
pub fn push_u32_le(v: &mut Vec<u8>, x: u32)
    ensures
        final(v)@ == old(v)@ + u32_bytes(x),
{
    v.push((x % 256) as u8);
    v.push(((x / 256) % 256) as u8);
    v.push(((x / 65536) % 256) as u8);
    v.push((x / 16777216) as u8);
    assert(final(v)@ =~= old(v)@ + u32_bytes(x));
}

/// Appends the little-endian encoding of `x`.
pub fn push_i16_le(v: &mut Vec<u8>, x: i16)
    ensures
        final(v)@ == old(v)@ + i16_bytes(x),
{
    let bits: u16 = if x >= 0 { x as u16 } else { ((x - i16::MIN) as u16) + 0x8000 };
    push_u16_le(v, bits);
}

/// Appends the little-endian encoding of `x`.
pub fn push_i32_le(v: &mut Vec<u8>, x: i32)
    ensures
        final(v)@ == old(v)@ + i32_bytes(x),
{
    let bits: u32 = if x >= 0 { x as u32 } else { ((x - i32::MIN) as u32) + 0x8000_0000 };
    push_u32_le(v, bits);
}

/// Copies a byte vector of exactly `N` bytes into an array.
pub fn vec_to_array<const N: usize>(v: &Vec<u8>) -> (r: [u8; N])
    requires
        v@.len() == N,
    ensures
        r@ == v@,
{
    let mut a = [0u8; N];
    let mut i: usize = 0;
    while i < N
        invariant
            v@.len() == N,
            a@.len() == N,
            i <= N,
            forall|j: int| 0 <= j < i ==> a@[j] == v@[j],
        decreases N - i,
    {
        a[i] = v[i];
        i = i + 1;
    }
    assert(a@ =~= v@);
    a
}

/// The `N` bytes starting at `offset`.
pub fn read_bytes<const N: usize>(buf: &[u8], offset: usize) -> (r: [u8; N])
    requires
        offset + N <= buf@.len(),
    ensures
        r@ == buf@.subrange(offset as int, offset + N),
{
    let len = buf.len();
    let mut a = [0u8; N];
    let mut i: usize = 0;
    while i < N
        invariant
            offset + N <= len,
            len == buf@.len(),
            a@.len() == N,
            i <= N,
            forall|j: int| 0 <= j < i ==> a@[j] == buf@[offset + j],
        decreases N - i,
    {
        a[i] = buf[offset + i];
        i = i + 1;
    }
    assert(a@ =~= buf@.subrange(offset as int, offset + N));
    a
}

/// Fails with `BufferTooSmall` unless `buf` holds at least `need` bytes.
pub fn check_fits_buf(buf: &[u8], need: usize, for_what: &'static str) -> (r: Result<(), VolitionError>)
    ensures
        buf@.len() >= need ==> r is Ok,
        buf@.len() < need ==> r == Err::<(), VolitionError>(
            VolitionError::BufferTooSmall { for_what, need, avail: buf@.len() as usize },
        ),
{
    if buf.len() < need {
        Err(VolitionError::BufferTooSmall { for_what, need, avail: buf.len() })
    } else {
        Ok(())
    }
}

/// Checks the UTF-8 encoding of `bytes` with `std::str::from_utf8`.
///
/// Trusted: the standard library documents that `from_utf8` succeeds exactly on
/// valid UTF-8 and then returns a string slice over the same bytes.
#[verifier::external_body]
fn str_from_utf8(bytes: &[u8]) -> (r: Option<&str>)
    ensures
        r is Some <==> valid_utf8(bytes@),
        r matches Some(s) ==> s.spec_bytes() == bytes@,
{
    std::str::from_utf8(bytes).ok()
}

/// Reads the NUL-terminated UTF-8 string that starts at `offset`.
pub fn read_cstr(buf: &[u8], offset: usize) -> (r: Result<&str, VolitionError>)
    ensures
        match spec_cstr(buf@, offset as int) {
            Ok(text) => r matches Ok(s) && s.spec_bytes() == text,
            Err(e) => r == Err::<&str, VolitionError>(e),
        },
{
    if offset > buf.len() {
        return Err(VolitionError::CStringRanOutOfBytes(buf.len()));
    }
    let ghost tail = buf@.skip(offset as int);
    let mut n: usize = offset;
    while n < buf.len()
        invariant
            offset <= n <= buf@.len(),
            tail == buf@.skip(offset as int),
            forall|i: int| offset <= i < n ==> buf@[i] != 0,
        ensures
            offset <= n <= buf@.len(),
            forall|i: int| offset <= i < n ==> buf@[i] != 0,
            n < buf@.len() ==> buf@[n as int] == 0,
        decreases buf@.len() - n,
    {
        if buf[n] == 0 {
            break;
        }
        n = n + 1;
    }
    if n == buf.len() {
        assert forall|k: int| !is_first_nul(tail, k) by {
            if is_first_nul(tail, k) {
                assert(buf@[offset + k] == 0);
            }
        }
        return Err(VolitionError::InvalidString { offset });
    }
    let ghost k = n - offset;
    assert(tail[k] == buf@[n as int]);
    assert forall|i: int| 0 <= i < k implies tail[i] != 0 by {
        assert(tail[i] == buf@[offset + i]);
    }
    assert(is_first_nul(tail, k));
    assert forall|m: int| is_first_nul(tail, m) implies m == k by {
        if m < k {
            assert(tail[m] == buf@[offset + m]);
        } else if m > k {
            assert(tail[k] == 0);
        }
    }
    let text = &buf[offset..n];
    assert(text@ =~= tail.take(k));
    match str_from_utf8(text) {
        Some(s) => Ok(s),
        None => Err(VolitionError::InvalidString { offset }),
    }
}

/// Moves `offset` forward to the next multiple of `align`.
pub fn align(offset: &mut usize, align: usize)
    requires
        align > 0,
        round_up(*old(offset) as int, align as int) <= usize::MAX,
    ensures
        *final(offset) == round_up(*old(offset) as int, align as int),
{
    *offset = aligned(*offset, align);
}

/// `offset` rounded up to the next multiple of `align`.
pub fn aligned(offset: usize, align: usize) -> (r: usize)
    requires
        align > 0,
        round_up(offset as int, align as int) <= usize::MAX,
    ensures
        r == round_up(offset as int, align as int),
{
    let rem = offset % align;
    proof {
        vstd::arithmetic::div_mod::lemma_mod_decreases(offset as nat, align as nat);
    }
    if rem == 0 {
        offset
    } else {
        offset - rem + align
    }
}

/// Facts about `round_up`: it is the least multiple of `a` that is at least `o`.
pub proof fn lemma_round_up(o: int, a: int)
    requires
        a > 0,
        0 <= o,
    ensures
        round_up(o, a) % a == 0,
        o <= round_up(o, a) < o + a,
        forall|x: int| o <= x < round_up(o, a) ==> #[trigger] (x % a) != 0,
{
    vstd::arithmetic::div_mod::lemma_fundamental_div_mod(o, a);
    let q = o / a;
    vstd::arithmetic::mul::lemma_mul_is_commutative(a, q);
    if o % a != 0 {
        assert((q + 1) * a == q * a + a) by (nonlinear_arith);
        vstd::arithmetic::div_mod::lemma_fundamental_div_mod_converse(round_up(o, a), a, q + 1, 0);
        assert forall|x: int| o <= x < round_up(o, a) implies #[trigger] (x % a) != 0 by {
            vstd::arithmetic::div_mod::lemma_fundamental_div_mod_converse(x, a, q, x - q * a);
        }
    }
}

/// Writes zero bytes to `w` until `data_offset` is a multiple of `align`.
pub fn align_pad(w: &mut Vec<u8>, data_offset: &mut usize, align: usize)
    requires
        align > 0,
        round_up(*old(data_offset) as int, align as int) <= usize::MAX,
    ensures
        *final(data_offset) == round_up(*old(data_offset) as int, align as int),
        final(w)@ == old(w)@ + Seq::new((*final(data_offset) - *old(data_offset)) as nat, |i: int| 0u8),
{
    let ghost start = *data_offset;
    let ghost target = round_up(start as int, align as int);
    proof {
        lemma_round_up(start as int, align as int);
    }
    while *data_offset % align != 0
        invariant
            align > 0,
            start <= *data_offset <= target,
            target <= usize::MAX,
            target % (align as int) == 0,
            forall|x: int| start <= x < target ==> #[trigger] (x % (align as int)) != 0,
            w@ == old(w)@ + Seq::new((*data_offset - start) as nat, |i: int| 0u8),
        decreases target - *data_offset,
    {
        let ghost before = w@;
        w.push(0);
        *data_offset = *data_offset + 1;
        assert(w@ =~= old(w)@ + Seq::new((*data_offset - start) as nat, |i: int| 0u8));
    }
}

/// The outcome of decoding from a running offset: a value and the offset after
/// it, an error and the offset where it was found, or a panic of the decoder
/// (an out-of-range slice or an overflowing offset).
pub enum Parsed<T> {
    Done(T, int),
    Failed(VolitionError, int),
    Panic,
}

/// `n` records of `size` bytes decoded one after another from `off` with `parse`,
/// stopping at the first error.
pub open spec fn repeat_parse<T>(
    buf: Seq<u8>,
    off: int,
    n: nat,
    size: int,
    parse: spec_fn(Seq<u8>) -> Result<T, VolitionError>,
) -> Parsed<Seq<T>>
    decreases n,
{
    if n == 0 {
        Parsed::Done(Seq::empty(), off)
    } else {
        match repeat_parse(buf, off, (n - 1) as nat, size, parse) {
            Parsed::Done(items, o) => if o > buf.len() {
                Parsed::Panic
            } else {
                match parse(buf.skip(o)) {
                    Ok(item) => Parsed::Done(items.push(item), o + size),
                    Err(e) => Parsed::Failed(e, o),
                }
            },
            Parsed::Failed(e, o) => Parsed::Failed(e, o),
            Parsed::Panic => Parsed::Panic,
        }
    }
}

/// A failed or panicking decode stays so when more records are asked for.
pub proof fn lemma_repeat_parse_stops<T>(
    buf: Seq<u8>,
    off: int,
    k: nat,
    n: nat,
    size: int,
    parse: spec_fn(Seq<u8>) -> Result<T, VolitionError>,
)
    requires
        k <= n,
        !(repeat_parse(buf, off, k, size, parse) is Done),
    ensures
        repeat_parse(buf, off, n, size, parse) == repeat_parse(buf, off, k, size, parse),
    decreases n - k,
{
    if k < n {
        lemma_repeat_parse_stops(buf, off, k, (n - 1) as nat, size, parse);
    }
}

/// `bits` is the IEEE-754 single precision pattern of an infinity, a NaN or a
/// subnormal number.
pub open spec fn is_nonsensical_float(bits: u32) -> bool {
    let exp = (bits / 0x80_0000) % 0x100;
    let mantissa = bits % 0x80_0000;
    exp == 0xff || (exp == 0 && mantissa != 0)
}

/// Errors if the float with bit pattern `value` is infinite, NaN, or subnormal.
pub fn validate_f32(value: u32, field: &'static str) -> (r: Result<(), VolitionError>)
    ensures
        is_nonsensical_float(value) ==> r == Err::<(), VolitionError>(VolitionError::NonsensicalFloat { field, got: value }),
        !is_nonsensical_float(value) ==> r is Ok,
{
    let exp = (value / 0x80_0000) % 0x100;
    let mantissa = value % 0x80_0000;
    if exp == 0xff || (exp == 0 && mantissa != 0) {
        return Err(VolitionError::NonsensicalFloat { field, got: value });
    }
    Ok(())
}

/// Repeated decoding that succeeds gives one item per record.
pub proof fn lemma_repeat_parse_len<T>(buf: Seq<u8>, off: int, n: nat, size: int, parse: spec_fn(Seq<u8>) -> Result<T, VolitionError>)
    requires
        repeat_parse(buf, off, n, size, parse) is Done,
    ensures
        repeat_parse(buf, off, n, size, parse)->Done_0.len() == n,
    decreases n,
{
    if n > 0 {
        lemma_repeat_parse_len(buf, off, (n - 1) as nat, size, parse);
    }
}

} // verus!
