use vstd::prelude::*;

use crate::pack::{
    data_layout, exts_of, lemma_data_layout_len, lemma_entry_block_len, lemma_data_layout_prefix, lemma_name_table_entry,
    name_table, pack_fits, pack_header_bytes, pack_off_data_block, packed_bytes, packed_entry, packed_entry_block,
    sector_pad, stems_of, zeros, PackInput,
};
use crate::packfile::{
    entry_bytes, entry_data_range, entry_parse, lemma_entry_read_after_write, packfile_error, packfile_read_from, spec_filename,
    spec_read_entries, spec_read_filenames, usize_of_i32, name_offsets_fit,
    Packfile, PackfileEntry,
};
use crate::util::{
    i32_bytes, is_first_nul, le_i32, lemma_i32_read_bytes, lemma_round_up, round_up, spec_cstr, wrap_i32,
};
use vstd::utf8::{decode_utf8, encode_utf8, encode_utf8_decode_utf8, encode_utf8_valid_utf8};

verus! {

/// A length that fits in an `i32` survives the trip through `as i32` and back.
pub proof fn lemma_wrap_small(x: int)
    requires
        0 <= x <= i32::MAX,
    ensures
        wrap_i32(x) == x,
        usize_of_i32(wrap_i32(x)) == x,
{
    assert(x % 0x1_0000_0000 == x);
}

/// Reading an `i32` only looks at the four bytes it covers.
pub proof fn lemma_le_i32_prefix(b: Seq<u8>, h: Seq<u8>, off: int)
    requires
        0 <= off,
        off + 4 <= h.len(),
        h.len() <= b.len(),
        b.take(h.len() as int) == h,
    ensures
        le_i32(b, off) == le_i32(h, off),
{
    assert(b[off] == h[off]);
    assert(b[off + 1] == h[off + 1]);
    assert(b[off + 2] == h[off + 2]);
    assert(b[off + 3] == h[off + 3]);
}

/// The header block of a packed archive is one sector.
pub proof fn lemma_header_len(files: Seq<PackInput>, condense: bool)
    ensures
        pack_header_bytes(files, condense).len() == Packfile::SIZE,
        sector_pad(pack_header_bytes(files, condense)).len() == Packfile::SECTOR_SIZE,
{
    lemma_round_up(Packfile::SIZE as int, Packfile::SECTOR_SIZE as int);
    assert((Packfile::SIZE as int) % (Packfile::SECTOR_SIZE as int) == Packfile::SIZE as int);
}

/// Padding a block brings it to its rounded-up length.
pub proof fn lemma_sector_pad_len(x: Seq<u8>)
    ensures
        sector_pad(x).len() == round_up(x.len() as int, Packfile::SECTOR_SIZE as int),
        sector_pad(x).take(x.len() as int) == x,
{
    lemma_round_up(x.len() as int, Packfile::SECTOR_SIZE as int);
    assert(sector_pad(x).take(x.len() as int) =~= x);
}

/// The archive is small enough that every offset and length in it fits an `i32`.
pub open spec fn pack_in_i32(files: Seq<PackInput>, condense: bool) -> bool {
    packed_bytes(files, condense).len() <= i32::MAX
}

/// Each part of a five-part concatenation is the matching subrange.
pub proof fn lemma_concat5(p1: Seq<u8>, p2: Seq<u8>, p3: Seq<u8>, p4: Seq<u8>, p5: Seq<u8>)
    ensures
        ({
            let b = p1 + p2 + p3 + p4 + p5;
            let o2 = p1.len() as int;
            let o3 = o2 + p2.len();
            let o4 = o3 + p3.len();
            let o5 = o4 + p4.len();
            &&& b.len() == o5 + p5.len()
            &&& b.take(o2) == p1
            &&& b.subrange(o2, o3) == p2
            &&& b.subrange(o3, o4) == p3
            &&& b.subrange(o4, o5) == p4
            &&& b.subrange(o5, o5 + p5.len()) == p5
        }),
{
    let b = p1 + p2 + p3 + p4 + p5;
    let o2 = p1.len() as int;
    let o3 = o2 + p2.len();
    let o4 = o3 + p3.len();
    let o5 = o4 + p4.len();
    assert(b.take(o2) =~= p1);
    assert(b.subrange(o2, o3) =~= p2);
    assert(b.subrange(o3, o4) =~= p3);
    assert(b.subrange(o4, o5) =~= p4);
    assert(b.subrange(o5, o5 + p5.len()) =~= p5);
}

/// A block is the start of its padded form.
pub proof fn lemma_pad_prefix(b: Seq<u8>, start: int, x: Seq<u8>)
    requires
        0 <= start,
        start + sector_pad(x).len() <= b.len(),
        b.subrange(start, start + sector_pad(x).len()) == sector_pad(x),
    ensures
        x.len() <= sector_pad(x).len(),
        b.subrange(start, start + x.len()) == x,
{
    lemma_sector_pad_len(x);
    lemma_round_up(x.len() as int, Packfile::SECTOR_SIZE as int);
    assert(b.subrange(start, start + x.len()) =~= sector_pad(x).take(x.len() as int));
}

/// The five blocks of a packed archive and their lengths.
#[verifier::spinoff_prover]
#[verifier::rlimit(30)]
pub proof fn lemma_packed_layout(files: Seq<PackInput>, condense: bool)
    ensures
        ({
            let b = packed_bytes(files, condense);
            let e = packed_entry_block(files, condense, files.len() as int);
            let s = name_table(stems_of(files)).0;
            let x = name_table(exts_of(files)).0;
            let d = data_layout(files, condense).0;
            let ee = Packfile::SECTOR_SIZE + sector_pad(e).len();
            let se = ee + sector_pad(s).len();
            let xe = se + sector_pad(x).len();
            &&& e.len() == PackfileEntry::SIZE * files.len()
            &&& e.len() <= sector_pad(e).len()
            &&& s.len() <= sector_pad(s).len()
            &&& x.len() <= sector_pad(x).len()
            &&& d.len() <= sector_pad(d).len()
            &&& sector_pad(e).len() == round_up(e.len() as int, Packfile::SECTOR_SIZE as int)
            &&& sector_pad(s).len() == round_up(s.len() as int, Packfile::SECTOR_SIZE as int)
            &&& sector_pad(x).len() == round_up(x.len() as int, Packfile::SECTOR_SIZE as int)
            &&& b.len() == xe + sector_pad(d).len()
            &&& b.take(Packfile::SIZE as int) == pack_header_bytes(files, condense)
            &&& b.subrange(Packfile::SECTOR_SIZE as int, Packfile::SECTOR_SIZE + e.len()) == e
            &&& b.subrange(ee, ee + s.len()) == s
            &&& b.subrange(se, se + x.len()) == x
            &&& b.subrange(xe, xe + d.len()) == d
        }),
{
    reveal(packed_bytes);
    let b = packed_bytes(files, condense);
    let h = pack_header_bytes(files, condense);
    let e = packed_entry_block(files, condense, files.len() as int);
    let s = name_table(stems_of(files)).0;
    let x = name_table(exts_of(files)).0;
    let d = data_layout(files, condense).0;
    lemma_header_len(files, condense);
    lemma_sector_pad_len(e);
    lemma_sector_pad_len(s);
    lemma_sector_pad_len(x);
    lemma_entry_block_len(files, condense, files.len() as int);
    lemma_concat5(sector_pad(h), sector_pad(e), sector_pad(s), sector_pad(x), sector_pad(d));
    let ee = Packfile::SECTOR_SIZE + sector_pad(e).len();
    let se = ee + sector_pad(s).len();
    let xe = se + sector_pad(x).len();
    lemma_pad_prefix(b, 0, h);
    lemma_pad_prefix(b, Packfile::SECTOR_SIZE as int, e);
    lemma_pad_prefix(b, ee, s);
    lemma_pad_prefix(b, se, x);
    lemma_pad_prefix(b, xe, d);
}

/// The fields of the header that `pack` writes.
#[verifier::spinoff_prover]
#[verifier::rlimit(30)]
pub proof fn lemma_header_fields(files: Seq<PackInput>, condense: bool)
    ensures
        ({
            let h = pack_header_bytes(files, condense);
            let n = files.len() as int;
            &&& le_i32(h, 0) == Packfile::SIGNATURE
            &&& le_i32(h, 4) == Packfile::VERSION
            &&& le_i32(h, 0x14c) == if condense { Packfile::FLAG_CONDENSED } else { 0i32 }
            &&& le_i32(h, 0x154) == wrap_i32(n)
            &&& le_i32(h, 0x15c) == wrap_i32(PackfileEntry::SIZE * n)
            &&& le_i32(h, 0x160) == wrap_i32(name_table(stems_of(files)).0.len() as int)
            &&& le_i32(h, 0x164) == wrap_i32(name_table(exts_of(files)).0.len() as int)
            &&& le_i32(h, 0x168) == wrap_i32(data_layout(files, condense).0.len() as int)
            &&& le_i32(h, 0x16c) == -1
            &&& le_i32(h, 0x17c) == 0
        }),
{
    let h = pack_header_bytes(files, condense);
    let n = files.len() as int;
    let s = name_table(stems_of(files)).0.len() as int;
    let x = name_table(exts_of(files)).0.len() as int;
    let d = data_layout(files, condense).0.len() as int;
    let flags = if condense { Packfile::FLAG_CONDENSED } else { 0i32 };
    assert(h.subrange(0, 4) =~= i32_bytes(Packfile::SIGNATURE));
    assert(h.subrange(4, 8) =~= i32_bytes(Packfile::VERSION));
    assert(h.subrange(0x14c, 0x150) =~= i32_bytes(flags));
    assert(h.subrange(0x154, 0x158) =~= i32_bytes(wrap_i32(n)));
    assert(h.subrange(0x15c, 0x160) =~= i32_bytes(wrap_i32(PackfileEntry::SIZE * n)));
    assert(h.subrange(0x160, 0x164) =~= i32_bytes(wrap_i32(s)));
    assert(h.subrange(0x164, 0x168) =~= i32_bytes(wrap_i32(x)));
    assert(h.subrange(0x168, 0x16c) =~= i32_bytes(wrap_i32(d)));
    assert(h.subrange(0x16c, 0x170) =~= i32_bytes(-1i32));
    assert(h.subrange(0x17c, 0x180) =~= i32_bytes(0i32));
    lemma_i32_read_bytes(h, 0, Packfile::SIGNATURE);
    lemma_i32_read_bytes(h, 4, Packfile::VERSION);
    lemma_i32_read_bytes(h, 0x14c, flags);
    lemma_i32_read_bytes(h, 0x154, wrap_i32(n));
    lemma_i32_read_bytes(h, 0x15c, wrap_i32(PackfileEntry::SIZE * n));
    lemma_i32_read_bytes(h, 0x160, wrap_i32(s));
    lemma_i32_read_bytes(h, 0x164, wrap_i32(x));
    lemma_i32_read_bytes(h, 0x168, wrap_i32(d));
    lemma_i32_read_bytes(h, 0x16c, -1i32);
    lemma_i32_read_bytes(h, 0x17c, 0i32);
}

/// The header of a packed archive passes every check and holds the counts and
/// lengths of the blocks.
#[verifier::spinoff_prover]
#[verifier::rlimit(30)]
pub proof fn lemma_packed_header(files: Seq<PackInput>, condense: bool)
    requires
        pack_in_i32(files, condense),
    ensures
        packfile_error(packed_bytes(files, condense)) is None,
        ({
            let b = packed_bytes(files, condense);
            &&& le_i32(b, 0x14c) == if condense { Packfile::FLAG_CONDENSED } else { 0i32 }
            &&& le_i32(b, 0x154) == files.len()
            &&& le_i32(b, 0x15c) == PackfileEntry::SIZE * files.len()
            &&& le_i32(b, 0x160) == name_table(stems_of(files)).0.len()
            &&& le_i32(b, 0x164) == name_table(exts_of(files)).0.len()
            &&& le_i32(b, 0x168) == data_layout(files, condense).0.len()
        }),
{
    let b = packed_bytes(files, condense);
    let h = pack_header_bytes(files, condense);
    let n = files.len() as int;
    lemma_packed_layout(files, condense);
    lemma_header_len(files, condense);
    lemma_header_fields(files, condense);
    lemma_wrap_small(n);
    lemma_wrap_small(PackfileEntry::SIZE * n);
    lemma_wrap_small(name_table(stems_of(files)).0.len() as int);
    lemma_wrap_small(name_table(exts_of(files)).0.len() as int);
    lemma_wrap_small(data_layout(files, condense).0.len() as int);
    lemma_le_i32_prefix(b, h, 0);
    lemma_le_i32_prefix(b, h, 4);
    lemma_le_i32_prefix(b, h, 0x14c);
    lemma_le_i32_prefix(b, h, 0x154);
    lemma_le_i32_prefix(b, h, 0x15c);
    lemma_le_i32_prefix(b, h, 0x160);
    lemma_le_i32_prefix(b, h, 0x164);
    lemma_le_i32_prefix(b, h, 0x168);
    lemma_le_i32_prefix(b, h, 0x16c);
    lemma_le_i32_prefix(b, h, 0x17c);
}

/// Entry `i` of the entry block is the encoding of the `i`-th packed entry.
pub proof fn lemma_entry_block_item(files: Seq<PackInput>, condense: bool, k: int, i: int)
    requires
        0 <= i < k,
    ensures
        packed_entry_block(files, condense, k).subrange(PackfileEntry::SIZE * i, PackfileEntry::SIZE * i + PackfileEntry::SIZE)
            == entry_bytes(packed_entry(files, condense, i)),
    decreases k,
{
    lemma_entry_block_len(files, condense, k - 1);
    let prev = packed_entry_block(files, condense, k - 1);
    let last = entry_bytes(packed_entry(files, condense, k - 1));
    assert(last.len() == PackfileEntry::SIZE);
    if i == k - 1 {
        assert((prev + last).subrange(PackfileEntry::SIZE * i, PackfileEntry::SIZE * i + PackfileEntry::SIZE) =~= last);
    } else {
        lemma_entry_block_item(files, condense, k - 1, i);
        assert((prev + last).subrange(PackfileEntry::SIZE * i, PackfileEntry::SIZE * i + PackfileEntry::SIZE)
            =~= prev.subrange(PackfileEntry::SIZE * i, PackfileEntry::SIZE * i + PackfileEntry::SIZE));
    }
}

/// Decoding an entry only looks at its first 28 bytes.
pub proof fn lemma_entry_parse_prefix(s: Seq<u8>, t: Seq<u8>)
    requires
        s.len() >= PackfileEntry::SIZE,
        t.len() == PackfileEntry::SIZE,
        s.take(PackfileEntry::SIZE as int) == t,
    ensures
        entry_parse(s) == entry_parse(t),
{
    let offs = seq![0int, 4, 8, 0xc, 0x10, 0x14, 0x18];
    assert forall|j: int| 0 <= j < 7 implies #[trigger] le_i32(s, offs[j]) == le_i32(t, offs[j]) by {
        lemma_le_i32_prefix(s, t, offs[j]);
    }
    assert(le_i32(s, offs[0]) == le_i32(t, offs[0]));
    assert(le_i32(s, offs[1]) == le_i32(t, offs[1]));
    assert(le_i32(s, offs[2]) == le_i32(t, offs[2]));
    assert(le_i32(s, offs[3]) == le_i32(t, offs[3]));
    assert(le_i32(s, offs[4]) == le_i32(t, offs[4]));
    assert(le_i32(s, offs[5]) == le_i32(t, offs[5]));
    assert(le_i32(s, offs[6]) == le_i32(t, offs[6]));
}

/// The entry block of a packed archive starts at the second sector.
#[verifier::spinoff_prover]
pub proof fn lemma_packed_entry_region(files: Seq<PackInput>, condense: bool)
    ensures
        ({
            let b = packed_bytes(files, condense);
            let e = packed_entry_block(files, condense, files.len() as int);
            &&& e.len() == PackfileEntry::SIZE * files.len()
            &&& Packfile::SECTOR_SIZE + e.len() <= b.len()
            &&& b.subrange(Packfile::SECTOR_SIZE as int, Packfile::SECTOR_SIZE + e.len()) == e
        }),
{
    lemma_packed_layout(files, condense);
}

/// The runtime fields of every packed entry hold their fixed values.
pub proof fn lemma_packed_entry_runtime(files: Seq<PackInput>, condense: bool, i: int)
    ensures
        packed_entry(files, condense, i).runtime_14 == -1,
        packed_entry(files, condense, i).runtime_18 == 0,
{
    reveal(packed_entry);
}

/// Entry `i` of a packed archive decodes to the `i`-th packed entry.
#[verifier::spinoff_prover]
pub proof fn lemma_packed_entry_at(files: Seq<PackInput>, condense: bool, i: int)
    requires
        0 <= i < files.len(),
    ensures
        entry_parse(packed_bytes(files, condense).skip(Packfile::SECTOR_SIZE + PackfileEntry::SIZE * i))
            == Ok::<PackfileEntry, crate::error::VolitionError>(packed_entry(files, condense, i)),
{
    let b = packed_bytes(files, condense);
    lemma_packed_entry_region(files, condense);
    let e = packed_entry_block(files, condense, files.len() as int);
    lemma_entry_block_item(files, condense, files.len() as int, i);
    let off = Packfile::SECTOR_SIZE + PackfileEntry::SIZE * i;
    let ent = packed_entry(files, condense, i);
    let t = entry_bytes(ent);
    assert(b.skip(off).take(PackfileEntry::SIZE as int) =~= e.subrange(PackfileEntry::SIZE * i, PackfileEntry::SIZE * i + PackfileEntry::SIZE));
    lemma_entry_parse_prefix(b.skip(off), t);
    lemma_packed_entry_runtime(files, condense, i);
    lemma_entry_read_after_write(ent);
}

/// The entries of a packed archive decode to the packed entries.
pub proof fn lemma_packed_entries(files: Seq<PackInput>, condense: bool, k: int)
    requires
        0 <= k <= files.len(),
    ensures
        spec_read_entries(packed_bytes(files, condense), k as nat)
            == Ok::<Seq<PackfileEntry>, crate::error::VolitionError>(Seq::new(k as nat, |i: int| packed_entry(files, condense, i))),
    decreases k,
{
    if k > 0 {
        lemma_packed_entries(files, condense, k - 1);
        lemma_packed_entry_at(files, condense, k - 1);
        assert(Seq::new((k - 1) as nat, |j: int| packed_entry(files, condense, j)).push(packed_entry(files, condense, k - 1))
            =~= Seq::new(k as nat, |j: int| packed_entry(files, condense, j)));
    } else {
        assert(Seq::new(0, |j: int| packed_entry(files, condense, j)) =~= Seq::<PackfileEntry>::empty());
    }
}

/// The UTF-8 encoding of `name` holds no zero byte.
pub open spec fn nul_free(name: Seq<char>) -> bool {
    forall|j: int| 0 <= j < encode_utf8(name).len() ==> #[trigger] encode_utf8(name)[j] != 0
}

/// A NUL-terminated name without inner NULs reads back as itself.
pub proof fn lemma_cstr_at(b: Seq<u8>, pos: int, name: Seq<char>)
    requires
        nul_free(name),
        0 <= pos,
        pos + encode_utf8(name).len() < b.len(),
        b.subrange(pos, pos + encode_utf8(name).len()) == encode_utf8(name),
        b[pos + encode_utf8(name).len()] == 0,
    ensures
        spec_cstr(b, pos) == Ok::<Seq<u8>, crate::error::VolitionError>(encode_utf8(name)),
{
    let tail = b.skip(pos);
    let l = encode_utf8(name).len() as int;
    assert forall|j: int| 0 <= j < l implies tail[j] != 0 by {
        assert(tail[j] == b.subrange(pos, pos + l)[j]);
    }
    assert(tail[l] == 0);
    assert(is_first_nul(tail, l));
    assert forall|m: int| is_first_nul(tail, m) implies m == l by {
        if m < l {
            assert(tail[m] != 0);
        } else if m > l {
            assert(tail[l] == 0);
        }
    }
    assert(tail.take(l) =~= encode_utf8(name));
    encode_utf8_valid_utf8(name);
}

/// Every stem and extension of `files` is free of NUL characters.
pub open spec fn names_nul_free(files: Seq<PackInput>) -> bool {
    forall|i: int| 0 <= i < files.len() ==> nul_free(#[trigger] files[i].stem@) && nul_free(files[i].ext@)
}

/// The `stem.ext` name of a file.
pub open spec fn file_name(f: PackInput) -> Seq<char> {
    f.stem@ + seq!['.'] + f.ext@
}

/// A name stored NUL-terminated at `off` in a block that sits at `start` reads back as itself.
pub proof fn lemma_cstr_in_block(b: Seq<u8>, start: int, block: Seq<u8>, off: int, name: Seq<char>)
    requires
        nul_free(name),
        0 <= start,
        0 <= off,
        start + block.len() <= b.len(),
        b.subrange(start, start + block.len()) == block,
        off + encode_utf8(name).len() < block.len(),
        block.subrange(off, off + encode_utf8(name).len()) == encode_utf8(name),
        block[off + encode_utf8(name).len()] == 0,
    ensures
        spec_cstr(b, start + off) == Ok::<Seq<u8>, crate::error::VolitionError>(encode_utf8(name)),
{
    let l = encode_utf8(name).len() as int;
    assert(b.subrange(start + off, start + off + l) =~= block.subrange(off, off + l));
    assert(b[start + off + l] == block[off + l]);
    lemma_cstr_at(b, start + off, name);
}

/// Where the header of a packed archive says the name blocks are.
#[verifier::spinoff_prover]
#[verifier::rlimit(30)]
pub proof fn lemma_packed_block_offsets(files: Seq<PackInput>, condense: bool, p: Packfile)
    requires
        pack_in_i32(files, condense),
        packfile_read_from(p, packed_bytes(files, condense)),
    ensures
        ({
            let eb = packed_entry_block(files, condense, files.len() as int);
            let s = name_table(stems_of(files)).0;
            let x = name_table(exts_of(files)).0;
            let ee = Packfile::SECTOR_SIZE + sector_pad(eb).len();
            let se = ee + sector_pad(s).len();
            let xe = se + sector_pad(x).len();
            &&& p.data_block_fits()
            &&& p.spec_off_stem_block() == ee
            &&& p.spec_off_ext_block() == se
            &&& p.spec_off_data_block() == xe
            &&& xe == pack_off_data_block(files)
        }),
{
    lemma_packed_layout(files, condense);
    lemma_packed_header(files, condense);
    let s = name_table(stems_of(files)).0;
    let x = name_table(exts_of(files)).0;
    lemma_wrap_small(PackfileEntry::SIZE * files.len());
    lemma_wrap_small(s.len() as int);
    lemma_wrap_small(x.len() as int);
    lemma_round_up(PackfileEntry::SIZE * files.len(), Packfile::SECTOR_SIZE as int);
    lemma_round_up(s.len() as int, Packfile::SECTOR_SIZE as int);
    lemma_round_up(x.len() as int, Packfile::SECTOR_SIZE as int);
}

/// The name of entry `i` of a packed archive reads back as the file's name.
#[verifier::spinoff_prover]
#[verifier::rlimit(30)]
pub proof fn lemma_packed_name_at(files: Seq<PackInput>, condense: bool, p: Packfile, i: int)
    requires
        pack_in_i32(files, condense),
        names_nul_free(files),
        packfile_read_from(p, packed_bytes(files, condense)),
        0 <= i < files.len(),
    ensures
        ({
            let e = packed_entry(files, condense, i);
            &&& p.ext_block_fits()
            &&& p.spec_off_stem_block() + usize_of_i32(e.off_stem) <= i32::MAX
            &&& p.spec_off_ext_block() + usize_of_i32(e.off_ext) <= i32::MAX
            &&& spec_filename(
                packed_bytes(files, condense),
                p.spec_off_stem_block() + usize_of_i32(e.off_stem),
                p.spec_off_ext_block() + usize_of_i32(e.off_ext),
            ) == Ok::<Seq<char>, crate::error::VolitionError>(file_name(files[i]))
        }),
{
    let b = packed_bytes(files, condense);
    reveal(packed_entry);
    lemma_packed_layout(files, condense);
    lemma_packed_block_offsets(files, condense, p);
    let stems = stems_of(files);
    let exts = exts_of(files);
    let s = name_table(stems).0;
    let x = name_table(exts).0;
    let eb = packed_entry_block(files, condense, files.len() as int);
    let ee = Packfile::SECTOR_SIZE + sector_pad(eb).len();
    let se = ee + sector_pad(s).len();
    lemma_name_table_entry(stems, i);
    lemma_name_table_entry(exts, i);
    assert(stems[i] == files[i].stem@);
    assert(exts[i] == files[i].ext@);
    let stem = files[i].stem@;
    let ext = files[i].ext@;
    let so = name_table(stems).1[stem];
    let xo = name_table(exts).1[ext];
    lemma_wrap_small(so);
    lemma_wrap_small(xo);
    assert(nul_free(stem) && nul_free(ext));
    lemma_cstr_in_block(b, ee, s, so, stem);
    lemma_cstr_in_block(b, se, x, xo, ext);
    encode_utf8_decode_utf8(stem);
    encode_utf8_decode_utf8(ext);
}

/// The names of the first `k` entries of a packed archive read back as the files' names.
pub proof fn lemma_packed_names(files: Seq<PackInput>, condense: bool, p: Packfile, k: int)
    requires
        pack_in_i32(files, condense),
        names_nul_free(files),
        packfile_read_from(p, packed_bytes(files, condense)),
        0 <= k <= files.len(),
    ensures
        spec_read_filenames(p, packed_bytes(files, condense), Seq::new(k as nat, |i: int| packed_entry(files, condense, i)))
            == Ok::<Seq<Seq<char>>, crate::error::VolitionError>(Seq::new(k as nat, |i: int| file_name(files[i]))),
    decreases k,
{
    let es = Seq::new(k as nat, |i: int| packed_entry(files, condense, i));
    if k > 0 {
        lemma_packed_names(files, condense, p, k - 1);
        lemma_packed_name_at(files, condense, p, k - 1);
        assert(es.drop_last() =~= Seq::new((k - 1) as nat, |i: int| packed_entry(files, condense, i)));
        assert(Seq::new((k - 1) as nat, |i: int| file_name(files[i])).push(file_name(files[k - 1]))
            =~= Seq::new(k as nat, |i: int| file_name(files[i])));
    } else {
        assert(Seq::new(0, |i: int| file_name(files[i])) =~= Seq::<Seq<char>>::empty());
    }
}

/// File `i` sits at its recorded offset in the data block.
pub proof fn lemma_data_layout_item(files: Seq<PackInput>, condense: bool, i: int)
    requires
        0 <= i < files.len(),
    ensures
        ({
            let (d, offs) = data_layout(files, condense);
            let off = offs[i];
            &&& 0 <= off
            &&& off + files[i].data@.len() <= d.len()
            &&& d.subrange(off, off + files[i].data@.len()) == files[i].data@
        }),
{
    lemma_data_layout_prefix(files, condense, i + 1);
    lemma_data_layout_prefix(files, condense, i);
    lemma_data_layout_len(files, condense);
    let pre = files.take(i + 1);
    assert(pre.drop_last() =~= files.take(i));
    assert(pre.last() == files[i]);
    let (d0, o0) = data_layout(files.take(i), condense);
    let (d1, o1) = data_layout(pre, condense);
    let data = files[i].data@;
    let grown = d0 + data;
    if !condense {
        lemma_sector_pad_len(grown);
    }
    assert(d1.take(grown.len() as int) == grown);
    assert(o1[i] == d0.len());
    assert(data_layout(files, condense).1.take(i + 1)[i] == o1[i]);
    let d = data_layout(files, condense).0;
    assert(d.take(d1.len() as int) == d1);
    assert(d.subrange(d0.len() as int, (d0.len() + data.len()) as int) =~= grown.subrange(d0.len() as int, (d0.len() + data.len()) as int));
    assert(grown.subrange(d0.len() as int, (d0.len() + data.len()) as int) =~= data);
}

/// The data block of a packed archive sits where the header says.
#[verifier::spinoff_prover]
pub proof fn lemma_packed_data_region(files: Seq<PackInput>, condense: bool)
    requires
        pack_in_i32(files, condense),
    ensures
        ({
            let d = data_layout(files, condense).0;
            let b = packed_bytes(files, condense);
            let start = pack_off_data_block(files);
            &&& 0 <= start
            &&& start + d.len() <= b.len()
            &&& b.subrange(start, start + d.len()) == d
        }),
{
    lemma_packed_layout(files, condense);
    let s = name_table(stems_of(files)).0;
    let x = name_table(exts_of(files)).0;
    lemma_wrap_small(PackfileEntry::SIZE * files.len());
    lemma_wrap_small(s.len() as int);
    lemma_wrap_small(x.len() as int);
}

/// The data fields of the `i`-th packed entry.
pub proof fn lemma_packed_entry_data_fields(files: Seq<PackInput>, condense: bool, i: int)
    ensures
        packed_entry(files, condense, i).off_data == wrap_i32(data_layout(files, condense).1[i]),
        packed_entry(files, condense, i).len_data == wrap_i32(files[i].data@.len() as int),
{
    reveal(packed_entry);
}

/// The contents of entry `i` of a packed archive are the file's data.
#[verifier::spinoff_prover]
pub proof fn lemma_packed_data_at(files: Seq<PackInput>, condense: bool, p: Packfile, i: int)
    requires
        pack_in_i32(files, condense),
        packfile_read_from(p, packed_bytes(files, condense)),
        0 <= i < files.len(),
    ensures
        ({
            let (start, end) = entry_data_range(p, packed_entry(files, condense, i));
            &&& p.data_block_fits()
            &&& 0 <= start <= end <= packed_bytes(files, condense).len()
            &&& end <= i32::MAX
            &&& packed_bytes(files, condense).subrange(start, end) == files[i].data@
        }),
{
    let b = packed_bytes(files, condense);
    lemma_packed_block_offsets(files, condense, p);
    lemma_packed_data_region(files, condense);
    lemma_data_layout_item(files, condense, i);
    lemma_packed_entry_data_fields(files, condense, i);
    let (d, offs) = data_layout(files, condense);
    let start = pack_off_data_block(files);
    let off = offs[i];
    let len = files[i].data@.len() as int;
    lemma_wrap_small(off);
    lemma_wrap_small(len);
    assert(b.subrange(start + off, start + off + len) =~= d.subrange(off, off + len));
}

/// Unpacking an archive that `pack` wrote gives back the files: the header is
/// accepted and uncompressed, there is one entry per file, entry `i` is named
/// `stem.ext` of file `i`, and its contents are the data of file `i`.  This holds
/// for archives under 2 GiB whose names contain no NUL character.
pub proof fn lemma_unpack_after_pack(files: Seq<PackInput>, condense: bool)
    requires
        pack_in_i32(files, condense),
        names_nul_free(files),
    ensures
        packfile_error(packed_bytes(files, condense)) is None,
        forall|p: Packfile|
            #[trigger] packfile_read_from(p, packed_bytes(files, condense)) ==> {
                let b = packed_bytes(files, condense);
                &&& p.num_files == files.len()
                &&& !p.is_compressed_spec()
                &&& b.len() >= Packfile::SECTOR_SIZE
                &&& spec_read_entries(b, files.len()) matches Ok(es) && {
                    &&& es.len() == files.len()
                    &&& name_offsets_fit(p, es)
                    &&& spec_read_filenames(p, b, es) matches Ok(names) && names.len() == files.len()
                        && forall|i: int| 0 <= i < files.len() ==> #[trigger] names[i] == file_name(files[i])
                    &&& forall|i: int|
                        0 <= i < files.len() ==> {
                            let (start, end) = #[trigger] entry_data_range(p, es[i]);
                            &&& p.data_block_fits()
                            &&& 0 <= start <= end <= b.len()
                            &&& end <= usize::MAX
                            &&& b.subrange(start, end) == files[i].data@
                        }
                }
            },
{
    let b = packed_bytes(files, condense);
    let n = files.len() as int;
    lemma_packed_header(files, condense);
    lemma_packed_layout(files, condense);
    lemma_packed_entries(files, condense, n);
    let es = Seq::new(n as nat, |i: int| packed_entry(files, condense, i));
    assert forall|p: Packfile| #[trigger] packfile_read_from(p, b) implies {
        &&& p.num_files == files.len()
        &&& !p.is_compressed_spec()
        &&& b.len() >= Packfile::SECTOR_SIZE
        &&& spec_read_entries(b, files.len()) matches Ok(es) && {
            &&& es.len() == files.len()
            &&& name_offsets_fit(p, es)
            &&& spec_read_filenames(p, b, es) matches Ok(names) && names.len() == files.len()
                && forall|i: int| 0 <= i < files.len() ==> #[trigger] names[i] == file_name(files[i])
            &&& forall|i: int|
                0 <= i < files.len() ==> {
                    let (start, end) = #[trigger] entry_data_range(p, es[i]);
                    &&& p.data_block_fits()
                    &&& 0 <= start <= end <= b.len()
                    &&& end <= usize::MAX
                    &&& b.subrange(start, end) == files[i].data@
                }
        }
    } by {
        assert(Packfile::FLAG_CONDENSED & Packfile::FLAG_COMPRESSED == 0) by (bit_vector);
        assert(0i32 & Packfile::FLAG_COMPRESSED == 0) by (bit_vector);
        lemma_packed_block_offsets(files, condense, p);
        lemma_packed_names(files, condense, p, n);
        assert forall|i: int| 0 <= i < es.len() implies {
            &&& p.spec_off_stem_block() + usize_of_i32(#[trigger] es[i].off_stem) <= usize::MAX
            &&& p.spec_off_ext_block() + usize_of_i32(es[i].off_ext) <= usize::MAX
        } by {
            lemma_packed_name_at(files, condense, p, i);
        }
        assert forall|i: int| 0 <= i < files.len() implies {
            let (start, end) = #[trigger] entry_data_range(p, es[i]);
            &&& p.data_block_fits()
            &&& 0 <= start <= end <= b.len()
            &&& end <= usize::MAX
            &&& b.subrange(start, end) == files[i].data@
        } by {
            lemma_packed_data_at(files, condense, p, i);
        }
    }
}

/// An archive under 2 GiB can be built: `pack` accepts its files.
pub proof fn lemma_pack_fits_small(files: Seq<PackInput>, condense: bool)
    requires
        pack_in_i32(files, condense),
    ensures
        pack_fits(files, condense),
{
    reveal(pack_fits);
    lemma_packed_layout(files, condense);
    lemma_packed_data_region(files, condense);
    let s = name_table(stems_of(files)).0;
    let x = name_table(exts_of(files)).0;
    lemma_wrap_small(PackfileEntry::SIZE * files.len());
    lemma_wrap_small(s.len() as int);
    lemma_wrap_small(x.len() as int);
    lemma_sector_pad_len(data_layout(files, condense).0);
}

/// The bytes that the stems of `files` take when each is stored with its NUL.
pub open spec fn stems_cost(files: Seq<PackInput>) -> int
    decreases files.len(),
{
    if files.len() == 0 {
        0
    } else {
        stems_cost(files.drop_last()) + encode_utf8(files.last().stem@).len() + 1
    }
}

/// The bytes that the extensions of `files` take when each is stored with its NUL.
pub open spec fn exts_cost(files: Seq<PackInput>) -> int
    decreases files.len(),
{
    if files.len() == 0 {
        0
    } else {
        exts_cost(files.drop_last()) + encode_utf8(files.last().ext@).len() + 1
    }
}

/// The bytes that the contents of `files` take with a sector of padding each.
pub open spec fn data_cost(files: Seq<PackInput>) -> int
    decreases files.len(),
{
    if files.len() == 0 {
        0
    } else {
        data_cost(files.drop_last()) + files.last().data@.len() + Packfile::SECTOR_SIZE
    }
}

/// A bound on the size of the archive of `files`.
pub open spec fn archive_bound(files: Seq<PackInput>) -> int {
    stems_cost(files) + exts_cost(files) + data_cost(files) + PackfileEntry::SIZE * files.len() + 5 * Packfile::SECTOR_SIZE
}

proof fn lemma_name_table_cost(files: Seq<PackInput>, stems: bool)
    ensures
        stems ==> name_table(stems_of(files)).0.len() <= stems_cost(files),
        !stems ==> name_table(exts_of(files)).0.len() <= exts_cost(files),
    decreases files.len(),
{
    if files.len() > 0 {
        lemma_name_table_cost(files.drop_last(), stems);
        assert(stems_of(files).drop_last() =~= stems_of(files.drop_last()));
        assert(exts_of(files).drop_last() =~= exts_of(files.drop_last()));
    }
}

proof fn lemma_data_layout_cost(files: Seq<PackInput>, condense: bool)
    ensures
        data_layout(files, condense).0.len() <= data_cost(files),
    decreases files.len(),
{
    if files.len() > 0 {
        lemma_data_layout_cost(files.drop_last(), condense);
        let grown = data_layout(files.drop_last(), condense).0 + files.last().data@;
        lemma_round_up(grown.len() as int, Packfile::SECTOR_SIZE as int);
    }
}

/// An archive within the bound is at most the bound long.
pub proof fn lemma_archive_bound(files: Seq<PackInput>, condense: bool)
    ensures
        packed_bytes(files, condense).len() <= archive_bound(files),
{
    lemma_packed_layout(files, condense);
    lemma_name_table_cost(files, true);
    lemma_name_table_cost(files, false);
    lemma_data_layout_cost(files, condense);
    let d = data_layout(files, condense).0;
    lemma_sector_pad_len(d);
    lemma_round_up(d.len() as int, Packfile::SECTOR_SIZE as int);
    let e = packed_entry_block(files, condense, files.len() as int);
    lemma_round_up(e.len() as int, Packfile::SECTOR_SIZE as int);
    lemma_round_up(name_table(stems_of(files)).0.len() as int, Packfile::SECTOR_SIZE as int);
    lemma_round_up(name_table(exts_of(files)).0.len() as int, Packfile::SECTOR_SIZE as int);
}

/// The costs of a prefix of `files` are at most those of all of them, and
/// none is negative.
proof fn lemma_costs_prefix(files: Seq<PackInput>, i: int)
    requires
        0 <= i <= files.len(),
    ensures
        0 <= stems_cost(files.take(i)) <= stems_cost(files),
        0 <= exts_cost(files.take(i)) <= exts_cost(files),
        0 <= data_cost(files.take(i)) <= data_cost(files),
    decreases files.len() - i,
{
    if i < files.len() {
        lemma_costs_prefix(files, i + 1);
        lemma_costs_nonneg(files.take(i));
        assert(files.take(i + 1).drop_last() =~= files.take(i));
    } else {
        assert(files.take(i) =~= files);
        lemma_costs_nonneg(files);
    }
}

proof fn lemma_costs_nonneg(files: Seq<PackInput>)
    ensures
        stems_cost(files) >= 0,
        exts_cost(files) >= 0,
        data_cost(files) >= 0,
    decreases files.len(),
{
    if files.len() > 0 {
        lemma_costs_nonneg(files.drop_last());
    }
}

/// Whether the archive of `files` stays within `archive_bound` of at most
/// `i32::MAX` bytes, so that every offset and length in it fits an `i32`;
/// `pack` can then be called.
pub fn archive_fits_i32(files: &[PackInput], condense: bool) -> (r: bool)
    ensures
        r == (archive_bound(files@) <= i32::MAX),
        r ==> pack_in_i32(files@, condense) && pack_fits(files@, condense),
{
    let limit: usize = 0x7fff_ffff;
    let mut stems: usize = 0;
    let mut exts: usize = 0;
    let mut data: usize = 0;
    let mut i: usize = 0;
    while i < files.len()
        invariant
            i <= files@.len(),
            limit == 0x7fff_ffff,
            stems == stems_cost(files@.take(i as int)),
            exts == exts_cost(files@.take(i as int)),
            data == data_cost(files@.take(i as int)),
            stems <= limit,
            exts <= limit,
            data <= limit,
        decreases files@.len() - i,
    {
        let f = &files[i];
        assert(files@.take(i + 1).drop_last() =~= files@.take(i as int));
        assert(files@.take(i + 1).last() == files@[i as int]);
        let stem_str = f.stem.as_str();
        let ext_str = f.ext.as_str();
        let stem_len = stem_str.as_bytes().len();
        let ext_len = ext_str.as_bytes().len();
        assert(stem_len == encode_utf8(files@[i as int].stem@).len());
        assert(ext_len == encode_utf8(files@[i as int].ext@).len());
        let data_len = f.data.len();
        proof {
            lemma_costs_prefix(files@, i + 1);
            lemma_costs_nonneg(files@);
        }
        if stem_len > limit - stems || limit - stems - stem_len < 1 {
            assert(stems_cost(files@.take(i + 1)) == stems + stem_len + 1);
            return false;
        }
        if ext_len > limit - exts || limit - exts - ext_len < 1 {
            assert(exts_cost(files@.take(i + 1)) == exts + ext_len + 1);
            return false;
        }
        if data_len > limit - data || limit - data - data_len < Packfile::SECTOR_SIZE {
            assert(data_cost(files@.take(i + 1)) == data + data_len + Packfile::SECTOR_SIZE);
            return false;
        }
        stems = stems + stem_len + 1;
        exts = exts + ext_len + 1;
        data = data + data_len + Packfile::SECTOR_SIZE;
        i = i + 1;
    }
    assert(files@.take(files@.len() as int) =~= files@);
    if files.len() > limit / PackfileEntry::SIZE {
        return false;
    }
    let entries = files.len() * PackfileEntry::SIZE;
    let total = stems as u64 + exts as u64 + data as u64 + entries as u64 + 5 * Packfile::SECTOR_SIZE as u64;
    if total > limit as u64 {
        return false;
    }
    proof {
        lemma_archive_bound(files@, condense);
        lemma_pack_fits_small(files@, condense);
    }
    true
}

/// Names and entries within `i32::MAX` bytes and an archive bound within
/// `usize` are all that `pack` needs.
proof fn lemma_pack_fits_large(files: Seq<PackInput>, condense: bool)
    requires
        stems_cost(files) <= i32::MAX,
        exts_cost(files) <= i32::MAX,
        PackfileEntry::SIZE * files.len() <= i32::MAX,
        archive_bound(files) <= usize::MAX,
    ensures
        pack_fits(files, condense),
{
    reveal(pack_fits);
    lemma_costs_nonneg(files);
    lemma_name_table_cost(files, true);
    lemma_name_table_cost(files, false);
    lemma_data_layout_cost(files, condense);
    let s = name_table(stems_of(files)).0.len() as int;
    let x = name_table(exts_of(files)).0.len() as int;
    let d = data_layout(files, condense).0.len() as int;
    let e = PackfileEntry::SIZE * files.len();
    lemma_wrap_small(e);
    lemma_wrap_small(s);
    lemma_wrap_small(x);
    lemma_round_up(e, Packfile::SECTOR_SIZE as int);
    lemma_round_up(s, Packfile::SECTOR_SIZE as int);
    lemma_round_up(x, Packfile::SECTOR_SIZE as int);
    lemma_round_up(d, Packfile::SECTOR_SIZE as int);
}

/// Whether `pack` can build the archive of `files`: the stems, the extensions
/// and the entry block each take at most `i32::MAX` bytes, so that their
/// offsets fit the header, and `archive_bound` fits a `usize`.  Larger contents
/// are accepted: the header then holds their sizes cut to 32 bits.
pub fn pack_sizes_fit(files: &[PackInput], condense: bool) -> (r: bool)
    ensures
        r == (stems_cost(files@) <= i32::MAX && exts_cost(files@) <= i32::MAX && PackfileEntry::SIZE * files@.len()
            <= i32::MAX && archive_bound(files@) <= usize::MAX),
        r ==> pack_fits(files@, condense),
{
    let name_limit: usize = 0x7fff_ffff;
    let mut stems: usize = 0;
    let mut exts: usize = 0;
    let mut data: usize = 0;
    let mut i: usize = 0;
    proof {
        lemma_costs_nonneg(files@);
    }
    while i < files.len()
        invariant
            i <= files@.len(),
            name_limit == 0x7fff_ffff,
            stems == stems_cost(files@.take(i as int)),
            exts == exts_cost(files@.take(i as int)),
            data == data_cost(files@.take(i as int)),
            stems <= name_limit,
            exts <= name_limit,
        decreases files@.len() - i,
    {
        let f = &files[i];
        assert(files@.take(i + 1).drop_last() =~= files@.take(i as int));
        assert(files@.take(i + 1).last() == files@[i as int]);
        let stem_len = f.stem.as_str().as_bytes().len();
        let ext_len = f.ext.as_str().as_bytes().len();
        assert(stem_len == encode_utf8(files@[i as int].stem@).len());
        assert(ext_len == encode_utf8(files@[i as int].ext@).len());
        let data_len = f.data.len();
        proof {
            lemma_costs_prefix(files@, i + 1);
            lemma_costs_nonneg(files@);
        }
        if stem_len > name_limit - stems || name_limit - stems - stem_len < 1 {
            assert(stems_cost(files@.take(i + 1)) == stems + stem_len + 1);
            return false;
        }
        if ext_len > name_limit - exts || name_limit - exts - ext_len < 1 {
            assert(exts_cost(files@.take(i + 1)) == exts + ext_len + 1);
            return false;
        }
        if data_len > usize::MAX - data || usize::MAX - data - data_len < Packfile::SECTOR_SIZE {
            assert(data_cost(files@.take(i + 1)) == data + data_len + Packfile::SECTOR_SIZE);
            assert(archive_bound(files@) >= data_cost(files@));
            return false;
        }
        stems = stems + stem_len + 1;
        exts = exts + ext_len + 1;
        data = data + data_len + Packfile::SECTOR_SIZE;
        i = i + 1;
    }
    assert(files@.take(files@.len() as int) =~= files@);
    if files.len() > name_limit / PackfileEntry::SIZE {
        return false;
    }
    let entries = files.len() * PackfileEntry::SIZE;
    let fixed = stems as u64 + exts as u64 + entries as u64 + 5 * Packfile::SECTOR_SIZE as u64;
    if fixed > usize::MAX as u64 || data as u64 > usize::MAX as u64 - fixed {
        return false;
    }
    proof {
        lemma_pack_fits_large(files@, condense);
    }
    true
}

/// The offset of file `i` in the data block is the length of the data block
/// of the files before it.
proof fn lemma_layout_offset(files: Seq<PackInput>, condense: bool, i: int)
    requires
        0 <= i < files.len(),
    ensures
        data_layout(files, condense).1[i] == data_layout(files.take(i), condense).0.len(),
{
    lemma_data_layout_prefix(files, condense, i + 1);
    lemma_data_layout_len(files, condense);
    let pre = files.take(i + 1);
    assert(pre.drop_last() =~= files.take(i));
    lemma_data_layout_len(files.take(i), condense);
    assert(data_layout(files, condense).1.take(i + 1)[i] == data_layout(files, condense).1[i]);
}

/// The data block of `k` condensed files is their contents back to back; that
/// of uncondensed files is a whole number of sectors.
proof fn lemma_layout_prefix_len(files: Seq<PackInput>, condense: bool, k: int)
    requires
        0 <= k < files.len(),
    ensures
        condense ==> data_layout(files.take(k + 1), condense).0.len() == data_layout(files.take(k), condense).0.len()
            + files[k].data@.len(),
        !condense ==> (data_layout(files.take(k), condense).0.len() as int) % (Packfile::SECTOR_SIZE as int) == 0,
{
    let pre = files.take(k + 1);
    assert(pre.drop_last() =~= files.take(k));
    assert(pre.last() == files[k]);
    if !condense && k > 0 {
        let prev = files.take(k);
        assert(prev.drop_last() =~= files.take(k - 1));
        let grown = data_layout(files.take(k - 1), condense).0 + prev.last().data@;
        lemma_sector_pad_len(grown);
        lemma_round_up(grown.len() as int, Packfile::SECTOR_SIZE as int);
    }
}

/// Five whole numbers of sectors add up to a whole number of sectors.
proof fn lemma_sectors_sum(a: int, b: int, c: int, d: int, e: int)
    requires
        a % 0x800 == 0,
        b % 0x800 == 0,
        c % 0x800 == 0,
        d % 0x800 == 0,
        e % 0x800 == 0,
    ensures
        (a + b + c + d + e) % 0x800 == 0,
{
    vstd::arithmetic::div_mod::lemma_add_mod_noop(a, b, 0x800);
    vstd::arithmetic::div_mod::lemma_add_mod_noop(a + b, c, 0x800);
    vstd::arithmetic::div_mod::lemma_add_mod_noop(a + b + c, d, 0x800);
    vstd::arithmetic::div_mod::lemma_add_mod_noop(a + b + c + d, e, 0x800);
}

/// A packed archive is a whole number of sectors.
#[verifier::spinoff_prover]
proof fn lemma_packed_len_sectors(files: Seq<PackInput>, condense: bool)
    ensures
        (packed_bytes(files, condense).len() as int) % (Packfile::SECTOR_SIZE as int) == 0,
{
    lemma_packed_layout(files, condense);
    let e = packed_entry_block(files, condense, files.len() as int);
    let st = name_table(stems_of(files)).0;
    let x = name_table(exts_of(files)).0;
    let d = data_layout(files, condense).0;
    lemma_sector_pad_len(d);
    lemma_round_up(e.len() as int, Packfile::SECTOR_SIZE as int);
    lemma_round_up(st.len() as int, Packfile::SECTOR_SIZE as int);
    lemma_round_up(x.len() as int, Packfile::SECTOR_SIZE as int);
    lemma_round_up(d.len() as int, Packfile::SECTOR_SIZE as int);
    lemma_sectors_sum(
        Packfile::SECTOR_SIZE as int,
        sector_pad(e).len() as int,
        sector_pad(st).len() as int,
        sector_pad(x).len() as int,
        sector_pad(d).len() as int,
    );
}

/// The entries of a packed archive carry each file's length, back to back when
/// condensed and each on a sector boundary otherwise.
#[verifier::spinoff_prover]
proof fn lemma_packed_entry_layout(files: Seq<PackInput>, condense: bool)
    requires
        pack_in_i32(files, condense),
    ensures
        spec_read_entries(packed_bytes(files, condense), files.len()) matches Ok(es) && es.len() == files.len()
            && forall|i: int|
            0 <= i < files.len() ==> {
                &&& (#[trigger] es[i]).len_data == files[i].data@.len()
                &&& (condense && i + 1 < files.len() ==> es[i + 1].off_data == es[i].off_data + es[i].len_data)
                &&& (!condense ==> (es[i].off_data as int) % (Packfile::SECTOR_SIZE as int) == 0)
            },
{
    let n = files.len() as int;
    lemma_packed_entries(files, condense, n);
    lemma_packed_data_region(files, condense);
    lemma_data_layout_len(files, condense);
    let es = Seq::new(n as nat, |i: int| packed_entry(files, condense, i));
    assert forall|i: int| 0 <= i < n implies {
        &&& (#[trigger] es[i]).len_data == files[i].data@.len()
        &&& (condense && i + 1 < n ==> es[i + 1].off_data == es[i].off_data + es[i].len_data)
        &&& (!condense ==> (es[i].off_data as int) % (Packfile::SECTOR_SIZE as int) == 0)
    } by {
        lemma_data_layout_item(files, condense, i);
        lemma_packed_entry_data_fields(files, condense, i);
        let offs = data_layout(files, condense).1;
        lemma_wrap_small(offs[i]);
        lemma_wrap_small(files[i].data@.len() as int);
        lemma_layout_offset(files, condense, i);
        lemma_layout_prefix_len(files, condense, i);
        if i + 1 < n {
            lemma_data_layout_item(files, condense, i + 1);
            lemma_packed_entry_data_fields(files, condense, i + 1);
            lemma_wrap_small(offs[i + 1]);
            lemma_layout_offset(files, condense, i + 1);
        }
    }
}

/// How `pack` lays an archive out: a whole number of sectors, the condensed
/// flag set exactly when asked, every entry with its file's length, and the
/// contents back to back when condensed, each on a sector boundary otherwise.
/// This holds for archives under 2 GiB.
pub proof fn lemma_pack_layout(files: Seq<PackInput>, condense: bool)
    requires
        pack_in_i32(files, condense),
    ensures
        (packed_bytes(files, condense).len() as int) % (Packfile::SECTOR_SIZE as int) == 0,
        forall|p: Packfile|
            #[trigger] packfile_read_from(p, packed_bytes(files, condense)) ==> ((p.flags & Packfile::FLAG_CONDENSED != 0)
                == condense),
        spec_read_entries(packed_bytes(files, condense), files.len()) matches Ok(es) && es.len() == files.len()
            && forall|i: int|
            0 <= i < files.len() ==> {
                &&& (#[trigger] es[i]).len_data == files[i].data@.len()
                &&& (condense && i + 1 < files.len() ==> es[i + 1].off_data == es[i].off_data + es[i].len_data)
                &&& (!condense ==> (es[i].off_data as int) % (Packfile::SECTOR_SIZE as int) == 0)
            },
{
    lemma_packed_len_sectors(files, condense);
    lemma_packed_header(files, condense);
    assert(0i32 & Packfile::FLAG_CONDENSED == 0) by (bit_vector);
    assert(Packfile::FLAG_CONDENSED & Packfile::FLAG_CONDENSED != 0) by (bit_vector);
    lemma_packed_entry_layout(files, condense);
}

} // verus!
