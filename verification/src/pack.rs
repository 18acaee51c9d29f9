use vstd::prelude::*;

use crate::packfile::{entry_bytes, packfile_bytes, usize_of_i32, Packfile, PackfileEntry};
use crate::util::{aligned, i32_bytes, round_up, usize_as_i32, wrap_i32};
use vstd::hash_map::StringHashMap;
use vstd::string::StringSliceAdditionalSpecFns;
use vstd::utf8::encode_utf8;

verus! {

/// One file to be stored in an archive: its name, split at the last dot, and
/// its contents.
#[derive(Debug, Clone)]
pub struct PackInput {
    pub stem: String,
    pub ext: String,
    pub data: Vec<u8>,
}

/// `n` zero bytes.
pub open spec fn zeros(n: int) -> Seq<u8> {
    Seq::new(n as nat, |i: int| 0u8)
}

/// `x` followed by the zeros that fill its last sector.
pub open spec fn sector_pad(x: Seq<u8>) -> Seq<u8> {
    x + zeros(round_up(x.len() as int, Packfile::SECTOR_SIZE as int) - x.len())
}

/// The block of NUL-terminated names, each distinct name once in order of first
/// appearance, and the offset in that block of every distinct name.
pub open spec fn name_table(names: Seq<Seq<char>>) -> (Seq<u8>, Map<Seq<char>, int>)
    decreases names.len(),
{
    if names.len() == 0 {
        (Seq::empty(), Map::empty())
    } else {
        let (block, offs) = name_table(names.drop_last());
        let name = names.last();
        if offs.contains_key(name) {
            (block, offs)
        } else {
            (block + encode_utf8(name) + seq![0u8], offs.insert(name, block.len() as int))
        }
    }
}

/// The stems of `files`.
pub open spec fn stems_of(files: Seq<PackInput>) -> Seq<Seq<char>> {
    files.map_values(|f: PackInput| f.stem@)
}

/// The extensions of `files`.
pub open spec fn exts_of(files: Seq<PackInput>) -> Seq<Seq<char>> {
    files.map_values(|f: PackInput| f.ext@)
}

/// What `generate_filename_blocks` makes of `entries`: the name offsets filled in.
pub open spec fn named_entries(files: Seq<PackInput>, entries: Seq<PackfileEntry>) -> Seq<PackfileEntry> {
    Seq::new(
        entries.len(),
        |i: int|
            PackfileEntry {
                off_stem: wrap_i32(name_table(stems_of(files)).1[files[i].stem@]),
                off_ext: wrap_i32(name_table(exts_of(files)).1[files[i].ext@]),
                ..entries[i]
            },
    )
}

/// The data block and the offset of every file in it.  Unless `condense` is
/// set, every file starts on a sector boundary.
pub open spec fn data_layout(files: Seq<PackInput>, condense: bool) -> (Seq<u8>, Seq<int>)
    decreases files.len(),
{
    if files.len() == 0 {
        (Seq::empty(), Seq::empty())
    } else {
        let (block, offs) = data_layout(files.drop_last(), condense);
        let grown = block + files.last().data@;
        (if condense { grown } else { sector_pad(grown) }, offs.push(block.len() as int))
    }
}

/// Appends `data` and pads it to a whole number of sectors.
pub fn write_sector_aligned(w: &mut Vec<u8>, data: &[u8], packfile: &Packfile)
    requires
        round_up(data@.len() as int, Packfile::SECTOR_SIZE as int) <= usize::MAX,
    ensures
        final(w)@ == old(w)@ + sector_pad(data@),
{
    w.extend_from_slice(data);
    let padding = packfile.align_sector(data.len()) - data.len();
    push_zeros(w, padding);
    assert(final(w)@ =~= old(w)@ + sector_pad(data@));
}

/// Appends `n` zero bytes.
fn push_zeros(w: &mut Vec<u8>, n: usize)
    ensures
        final(w)@ == old(w)@ + zeros(n as int),
{
    let mut i: usize = 0;
    while i < n
        invariant
            i <= n,
            w@ == old(w)@ + zeros(i as int),
        decreases n - i,
    {
        w.push(0);
        i = i + 1;
        assert(w@ =~= old(w)@ + zeros(i as int));
    }
}

/// Adds `name` to the block unless it is already there; gives its offset.
fn intern_name(block: &mut Vec<u8>, seen: &mut StringHashMap<usize>, name: &String, Ghost(names): Ghost<Seq<Seq<char>>>) -> (off: usize)
    requires
        seen_matches(old(seen)@, name_table(names).1),
        old(block)@ == name_table(names).0,
        name_table(names.push(name@)).0.len() <= usize::MAX,
    ensures
        seen_matches(final(seen)@, name_table(names.push(name@)).1),
        final(block)@ == name_table(names.push(name@)).0,
        off == name_table(names.push(name@)).1[name@],
{
    assert(names.push(name@).drop_last() =~= names);
    if let Some(off) = seen.get(name.as_str()) {
        assert(name_table(names).1.contains_key(name@));
        return *off;
    }
    assert(!name_table(names).1.contains_key(name@));
    let off = block.len();
    block.extend_from_slice(name.as_str().as_bytes());
    block.push(0);
    seen.insert(name.clone(), off);
    assert(block@ =~= name_table(names.push(name@)).0);
    let ghost m = name_table(names.push(name@)).1;
    assert(m == name_table(names).1.insert(name@, off as int));
    assert(seen@.dom() =~= m.dom());
    off
}

/// `seen` holds exactly the names of `m`, each with its offset.
pub open spec fn seen_matches(seen: Map<Seq<char>, usize>, m: Map<Seq<char>, int>) -> bool {
    &&& seen.dom() == m.dom()
    &&& forall|k: Seq<char>| #[trigger] seen.contains_key(k) ==> seen[k] == m[k]
}

/// The name table of a prefix is contained in that of the whole list: its block
/// is a prefix and its offsets stay.
pub proof fn lemma_name_table_prefix(names: Seq<Seq<char>>, k: int)
    requires
        0 <= k <= names.len(),
    ensures
        name_table(names.take(k)).0.len() <= name_table(names).0.len(),
        name_table(names).0.take(name_table(names.take(k)).0.len() as int) == name_table(names.take(k)).0,
        forall|x: Seq<char>|
            #[trigger] name_table(names.take(k)).1.contains_key(x) ==> name_table(names).1.contains_key(x)
                && name_table(names).1[x] == name_table(names.take(k)).1[x],
    decreases names.len() - k,
{
    if k == names.len() {
        assert(names.take(k) =~= names);
    } else {
        lemma_name_table_prefix(names, k + 1);
        assert(names.take(k + 1).drop_last() =~= names.take(k));
        let (b0, m0) = name_table(names.take(k));
        let (b1, m1) = name_table(names.take(k + 1));
        assert(b1.take(b0.len() as int) =~= b0);
        assert forall|x: Seq<char>| #[trigger] m0.contains_key(x) implies m1.contains_key(x) && m1[x] == m0[x] by {
            if m0.contains_key(names.take(k + 1).last()) {
            } else {
                assert(m1 == m0.insert(names.take(k + 1).last(), b0.len() as int));
            }
        }
        assert(name_table(names).0.take(b0.len() as int) =~= b0) by {
            assert(name_table(names).0.take(b1.len() as int) == b1);
        }
    }
}

/// Where the `i`-th name lies in the name block.
pub proof fn lemma_name_table_entry(names: Seq<Seq<char>>, i: int)
    requires
        0 <= i < names.len(),
    ensures
        name_table(names).1.contains_key(names[i]),
        ({
            let x = names[i];
            let off = name_table(names).1[x];
            &&& 0 <= off
            &&& off + encode_utf8(x).len() < name_table(names).0.len()
            &&& name_table(names).0.subrange(off, off + encode_utf8(x).len()) == encode_utf8(x)
            &&& name_table(names).0[off + encode_utf8(x).len()] == 0
        }),
{
    lemma_name_table_in_block(names);
}

/// The table's offset of every name lies in the block.
pub proof fn lemma_name_table_in_block(names: Seq<Seq<char>>)
    ensures
        forall|x: Seq<char>|
            #[trigger] name_table(names).1.contains_key(x) ==> {
                let off = name_table(names).1[x];
                &&& 0 <= off
                &&& off + encode_utf8(x).len() < name_table(names).0.len()
                &&& name_table(names).0.subrange(off, off + encode_utf8(x).len()) == encode_utf8(x)
                &&& name_table(names).0[off + encode_utf8(x).len()] == 0
            },
        forall|i: int| 0 <= i < names.len() ==> name_table(names).1.contains_key(#[trigger] names[i]),
    decreases names.len(),
{
    if names.len() > 0 {
        let prior = names.drop_last();
        lemma_name_table_in_block(prior);
        let (b0, m0) = name_table(prior);
        let (b1, m1) = name_table(names);
        let last = names.last();
        if !m0.contains_key(last) {
            assert forall|x: Seq<char>| #[trigger] m1.contains_key(x) implies {
                let off = m1[x];
                &&& 0 <= off
                &&& off + encode_utf8(x).len() < b1.len()
                &&& b1.subrange(off, off + encode_utf8(x).len()) == encode_utf8(x)
                &&& b1[off + encode_utf8(x).len()] == 0
            } by {
                if x == last {
                    assert(b1.subrange(b0.len() as int, (b0.len() + encode_utf8(x).len()) as int) =~= encode_utf8(x));
                } else {
                    let off = m0[x];
                    assert(b1.subrange(off, off + encode_utf8(x).len()) =~= b0.subrange(off, off + encode_utf8(x).len()));
                }
            }
        }
        assert forall|i: int| 0 <= i < names.len() implies m1.contains_key(#[trigger] names[i]) by {
            if i < prior.len() {
                assert(prior[i] == names[i]);
            }
        }
    }
}

/// Fills in the stem and extension offsets of `entries` and gives the stem and
/// extension blocks.  Each distinct stem (extension) is stored once.
pub fn generate_filename_blocks(files: &[PackInput], entries: &mut Vec<PackfileEntry>) -> (r: (Vec<u8>, Vec<u8>))
    requires
        old(entries)@.len() == files@.len(),
        name_table(stems_of(files@)).0.len() <= usize::MAX,
        name_table(exts_of(files@)).0.len() <= usize::MAX,
    ensures
        r.0@ == name_table(stems_of(files@)).0,
        r.1@ == name_table(exts_of(files@)).0,
        final(entries)@ == named_entries(files@, old(entries)@),
{
    let ghost stems = stems_of(files@);
    let ghost exts = exts_of(files@);
    let mut stem_block: Vec<u8> = Vec::new();
    let mut ext_block: Vec<u8> = Vec::new();
    let mut stem_offs: StringHashMap<usize> = StringHashMap::new();
    let mut ext_offs: StringHashMap<usize> = StringHashMap::new();
    let mut i: usize = 0;
    assert(stems.take(0) =~= Seq::<Seq<char>>::empty());
    assert(exts.take(0) =~= Seq::<Seq<char>>::empty());
    assert(stem_offs@.dom() =~= name_table(stems.take(0)).1.dom());
    assert(ext_offs@.dom() =~= name_table(exts.take(0)).1.dom());
    while i < files.len()
        invariant
            i <= files@.len(),
            entries@.len() == files@.len(),
            old(entries)@.len() == files@.len(),
            stems == stems_of(files@),
            exts == exts_of(files@),
            name_table(stems).0.len() <= usize::MAX,
            name_table(exts).0.len() <= usize::MAX,
            stem_block@ == name_table(stems.take(i as int)).0,
            ext_block@ == name_table(exts.take(i as int)).0,
            seen_matches(stem_offs@, name_table(stems.take(i as int)).1),
            seen_matches(ext_offs@, name_table(exts.take(i as int)).1),
            forall|k: int| 0 <= k < i ==> #[trigger] entries@[k] == named_entries(files@, old(entries)@)[k],
            forall|k: int| i <= k < files@.len() ==> #[trigger] entries@[k] == old(entries)@[k],
        decreases files@.len() - i,
    {
        let file = &files[i];
        assert(stems.take(i as int).push(file.stem@) =~= stems.take(i + 1));
        assert(exts.take(i as int).push(file.ext@) =~= exts.take(i + 1));
        proof {
            lemma_name_table_prefix(stems, i + 1);
            lemma_name_table_prefix(exts, i + 1);
        }
        let off_stem = intern_name(&mut stem_block, &mut stem_offs, &file.stem, Ghost(stems.take(i as int)));
        let off_ext = intern_name(&mut ext_block, &mut ext_offs, &file.ext, Ghost(exts.take(i as int)));
        let mut e = entries[i];
        e.off_stem = usize_as_i32(off_stem);
        e.off_ext = usize_as_i32(off_ext);
        proof {
            lemma_name_table_in_block(stems.take(i + 1));
            lemma_name_table_in_block(exts.take(i + 1));
            assert(stems.take(i + 1)[i as int] == file.stem@);
            assert(exts.take(i + 1)[i as int] == file.ext@);
            assert(name_table(stems.take(i + 1)).1.contains_key(file.stem@));
            assert(name_table(exts.take(i + 1)).1.contains_key(file.ext@));
            assert(files@[i as int] == *file);
            assert(off_stem == name_table(stems.take(i + 1)).1[file.stem@]);
            assert(name_table(stems.take(i + 1)).1[file.stem@] == name_table(stems).1[file.stem@]);
            assert(off_ext == name_table(exts).1[file.ext@]);
            assert(e.off_stem == wrap_i32(name_table(stems_of(files@)).1[files@[i as int].stem@]));
            assert(e.off_ext == wrap_i32(name_table(exts_of(files@)).1[files@[i as int].ext@]));
            assert(e.unknown_08 == old(entries)@[i as int].unknown_08);
            assert(e == named_entries(files@, old(entries)@)[i as int]);
        }
        entries.set(i, e);
        i = i + 1;
    }
    assert(stems.take(files@.len() as int) =~= stems);
    assert(exts.take(files@.len() as int) =~= exts);
    assert(entries@ =~= named_entries(files@, old(entries)@));
    (stem_block, ext_block)
}

/// There is one offset per file.
pub proof fn lemma_data_layout_len(files: Seq<PackInput>, condense: bool)
    ensures
        data_layout(files, condense).1.len() == files.len(),
    decreases files.len(),
{
    if files.len() > 0 {
        lemma_data_layout_len(files.drop_last(), condense);
    }
}

/// The data layout of a prefix of the whole layout, with the same offsets.
pub proof fn lemma_data_layout_prefix(files: Seq<PackInput>, condense: bool, k: int)
    requires
        0 <= k <= files.len(),
    ensures
        data_layout(files.take(k), condense).0.len() <= data_layout(files, condense).0.len(),
        data_layout(files, condense).0.take(data_layout(files.take(k), condense).0.len() as int)
            == data_layout(files.take(k), condense).0,
        data_layout(files.take(k), condense).1.len() == k,
        data_layout(files, condense).1.take(k) == data_layout(files.take(k), condense).1,
    decreases files.len() - k,
{
    lemma_data_layout_len(files.take(k), condense);
    if k == files.len() {
        assert(files.take(k) =~= files);
    } else {
        lemma_data_layout_prefix(files, condense, k + 1);
        lemma_data_layout_len(files.take(k + 1), condense);
        assert(files.take(k + 1).drop_last() =~= files.take(k));
        let (b0, o0) = data_layout(files.take(k), condense);
        let (b1, o1) = data_layout(files.take(k + 1), condense);
        assert(b1.take(b0.len() as int) =~= b0);
        assert(o1.take(k) =~= o0);
        assert(data_layout(files, condense).0.take(b0.len() as int) =~= b0) by {
            assert(data_layout(files, condense).0.take(b1.len() as int) == b1);
        }
        assert(data_layout(files, condense).1.take(k) =~= o0) by {
            lemma_data_layout_len(files, condense);
            assert(data_layout(files, condense).1.take(k + 1) == o1);
            assert(data_layout(files, condense).1.take(k + 1).take(k) =~= data_layout(files, condense).1.take(k));
        }
    }
}

/// The entry that `pack` writes for file `i`.
#[verifier::opaque]
pub open spec fn packed_entry(files: Seq<PackInput>, condense: bool, i: int) -> PackfileEntry {
    PackfileEntry {
        off_stem: wrap_i32(name_table(stems_of(files)).1[files[i].stem@]),
        off_ext: wrap_i32(name_table(exts_of(files)).1[files[i].ext@]),
        unknown_08: 0,
        off_data: wrap_i32(data_layout(files, condense).1[i]),
        len_data: wrap_i32(files[i].data@.len() as int),
        runtime_14: -1i32,
        runtime_18: 0,
    }
}

/// The entry block that `pack` writes for the first `k` files.
pub open spec fn packed_entry_block(files: Seq<PackInput>, condense: bool, k: int) -> Seq<u8>
    decreases k,
{
    if k <= 0 {
        Seq::empty()
    } else {
        packed_entry_block(files, condense, k - 1) + entry_bytes(packed_entry(files, condense, k - 1))
    }
}

/// Sector-aligned offset of the data block in the archive that `pack` writes.
pub open spec fn pack_off_data_block(files: Seq<PackInput>) -> int {
    Packfile::SECTOR_SIZE + round_up(usize_of_i32(wrap_i32(PackfileEntry::SIZE * files.len())), Packfile::SECTOR_SIZE as int)
        + round_up(usize_of_i32(wrap_i32(name_table(stems_of(files)).0.len() as int)), Packfile::SECTOR_SIZE as int)
        + round_up(usize_of_i32(wrap_i32(name_table(exts_of(files)).0.len() as int)), Packfile::SECTOR_SIZE as int)
}

/// The header that `pack` writes, as bytes.
pub open spec fn pack_header_bytes(files: Seq<PackInput>, condense: bool) -> Seq<u8> {
    let data = data_layout(files, condense).0;
    i32_bytes(Packfile::SIGNATURE) + i32_bytes(Packfile::VERSION) + zeros(324) + i32_bytes(
        if condense { Packfile::FLAG_CONDENSED } else { 0 },
    ) + i32_bytes(0) + i32_bytes(wrap_i32(files.len() as int)) + i32_bytes(
        wrap_i32(pack_off_data_block(files) + data.len()),
    ) + i32_bytes(wrap_i32(PackfileEntry::SIZE * files.len())) + i32_bytes(
        wrap_i32(name_table(stems_of(files)).0.len() as int),
    ) + i32_bytes(wrap_i32(name_table(exts_of(files)).0.len() as int)) + i32_bytes(
        wrap_i32(data.len() as int),
    ) + i32_bytes(-1i32) + i32_bytes(-1i32) + i32_bytes(-1i32) + i32_bytes(-1i32) + i32_bytes(0)
}

/// The archive that `pack` writes: header, entries, stems, extensions and data,
/// each padded to whole sectors.
#[verifier::opaque]
pub open spec fn packed_bytes(files: Seq<PackInput>, condense: bool) -> Seq<u8> {
    sector_pad(pack_header_bytes(files, condense)) + sector_pad(
        packed_entry_block(files, condense, files.len() as int),
    ) + sector_pad(name_table(stems_of(files)).0) + sector_pad(name_table(exts_of(files)).0)
        + sector_pad(data_layout(files, condense).0)
}

/// The sizes that `pack` computes with stay within `usize`.
#[verifier::opaque]
pub open spec fn pack_fits(files: Seq<PackInput>, condense: bool) -> bool {
    let stems = name_table(stems_of(files)).0.len() as int;
    let exts = name_table(exts_of(files)).0.len() as int;
    let data = data_layout(files, condense).0.len() as int;
    let sector = Packfile::SECTOR_SIZE as int;
    &&& PackfileEntry::SIZE * files.len() <= usize::MAX
    &&& round_up(PackfileEntry::SIZE * files.len(), sector) <= usize::MAX
    &&& round_up(stems, sector) <= usize::MAX
    &&& round_up(exts, sector) <= usize::MAX
    &&& round_up(data, sector) <= usize::MAX
    &&& round_up(usize_of_i32(wrap_i32(PackfileEntry::SIZE * files.len())), sector) <= usize::MAX
    &&& Packfile::SECTOR_SIZE + round_up(usize_of_i32(wrap_i32(PackfileEntry::SIZE * files.len())), sector) <= usize::MAX
    &&& round_up(usize_of_i32(wrap_i32(stems)), sector) <= usize::MAX
    &&& Packfile::SECTOR_SIZE + round_up(usize_of_i32(wrap_i32(PackfileEntry::SIZE * files.len())), sector)
        + round_up(usize_of_i32(wrap_i32(stems)), sector) <= usize::MAX
    &&& round_up(usize_of_i32(wrap_i32(exts)), sector) <= usize::MAX
    &&& pack_off_data_block(files) + data <= usize::MAX
}

/// `n` default entries.
fn default_entries(n: usize) -> (r: Vec<PackfileEntry>)
    ensures
        r@ == Seq::new(n as nat, |j: int| PackfileEntry::default_spec()),
{
    let mut entries: Vec<PackfileEntry> = Vec::new();
    let mut k: usize = 0;
    while k < n
        invariant
            k <= n,
            entries@.len() == k,
            forall|j: int| 0 <= j < k ==> #[trigger] entries@[j] == PackfileEntry::default_spec(),
        decreases n - k,
    {
        entries.push(PackfileEntry::default());
        k = k + 1;
    }
    assert(entries@ =~= Seq::new(n as nat, |j: int| PackfileEntry::default_spec()));
    entries
}

/// Lays out the data block and records each file's place in its entry.
fn build_data_block(files: &[PackInput], condense: bool, entries: &mut Vec<PackfileEntry>) -> (data: Vec<u8>)
    requires
        old(entries)@ == named_entries(files@, Seq::new(files@.len(), |j: int| PackfileEntry::default_spec())),
        round_up(data_layout(files@, condense).0.len() as int, Packfile::SECTOR_SIZE as int) <= usize::MAX,
    ensures
        data@ == data_layout(files@, condense).0,
        final(entries)@.len() == files@.len(),
        forall|j: int| 0 <= j < files@.len() ==> #[trigger] final(entries)@[j] == packed_entry(files@, condense, j),
{
    let ghost named = entries@;
    let num_files = files.len();
    let mut data_block: Vec<u8> = Vec::new();
    let mut i: usize = 0;
    proof {
        lemma_round_up_ge(data_layout(files@, condense).0.len() as int);
        assert(files@.take(0) =~= Seq::<PackInput>::empty());
    }
    while i < num_files
        invariant
            i <= num_files,
            num_files == files@.len(),
            entries@.len() == num_files,
            named.len() == num_files,
            round_up(data_layout(files@, condense).0.len() as int, Packfile::SECTOR_SIZE as int) <= usize::MAX,
            data_layout(files@, condense).0.len() <= usize::MAX,
            data_block@ == data_layout(files@.take(i as int), condense).0,
            forall|j: int| 0 <= j < i ==> #[trigger] entries@[j] == packed_entry(files@, condense, j),
            forall|j: int| i <= j < num_files ==> #[trigger] entries@[j] == named[j],
            named == named_entries(files@, Seq::new(num_files as nat, |j: int| PackfileEntry::default_spec())),
        decreases num_files - i,
    {
        proof {
            lemma_data_layout_prefix(files@, condense, i + 1);
            assert(files@.take(i + 1).drop_last() =~= files@.take(i as int));
            assert(files@.take(i + 1).last() == files@[i as int]);
        }
        let off_data = data_block.len();
        data_block.extend_from_slice(files[i].data.as_slice());
        let len_data = data_block.len() - off_data;
        if !condense {
            proof {
                crate::util::lemma_round_up(data_block@.len() as int, Packfile::SECTOR_SIZE as int);
                assert(sector_pad(data_block@).len() <= data_layout(files@, condense).0.len());
            }
            let align = aligned(data_block.len(), Packfile::SECTOR_SIZE) - data_block.len();
            push_zeros(&mut data_block, align);
        }
        let mut e = entries[i];
        e.off_data = usize_as_i32(off_data);
        e.len_data = usize_as_i32(len_data);
        proof {
            lemma_data_layout_len(files@, condense);
            assert(data_layout(files@, condense).1.take(i + 1)[i as int] == off_data);
            assert(data_layout(files@, condense).1[i as int] == off_data);
            assert(len_data == files@[i as int].data@.len());
            reveal(packed_entry);
            assert(e == packed_entry(files@, condense, i as int));
        }
        entries.set(i, e);
        i = i + 1;
    }
    assert(files@.take(num_files as int) =~= files@);
    data_block
}

/// The entries encoded one after another.
fn build_entry_block(entries: &Vec<PackfileEntry>, Ghost(files): Ghost<Seq<PackInput>>, condense: bool) -> (r: Vec<u8>)
    requires
        entries@.len() == files.len(),
        forall|x: int| 0 <= x < files.len() ==> #[trigger] entries@[x] == packed_entry(files, condense, x),
    ensures
        r@ == packed_entry_block(files, condense, files.len() as int),
{
    let mut entry_block: Vec<u8> = Vec::new();
    let mut j: usize = 0;
    while j < entries.len()
        invariant
            j <= entries@.len(),
            entries@.len() == files.len(),
            forall|x: int| 0 <= x < files.len() ==> #[trigger] entries@[x] == packed_entry(files, condense, x),
            entry_block@ == packed_entry_block(files, condense, j as int),
        decreases entries@.len() - j,
    {
        let bytes = entries[j].to_bytes();
        entry_block.extend_from_slice(bytes.as_slice());
        j = j + 1;
    }
    entry_block
}

/// The header of the archive that `pack` writes.
fn build_header(num_files: usize, len_stems: usize, len_exts: usize, len_data: usize, condense: bool, Ghost(files): Ghost<Seq<PackInput>>) -> (p: Packfile)
    requires
        pack_fits(files, condense),
        num_files == files.len(),
        len_stems == name_table(stems_of(files)).0.len(),
        len_exts == name_table(exts_of(files)).0.len(),
        len_data == data_layout(files, condense).0.len(),
    ensures
        packfile_bytes(p) == pack_header_bytes(files, condense),
{
    reveal(pack_fits);
    let mut packfile = Packfile::default();
    if condense {
        packfile.flags = packfile.flags | Packfile::FLAG_CONDENSED;
        assert(0i32 | 2i32 == 2i32) by (bit_vector);
    }
    packfile.num_files = usize_as_i32(num_files);
    packfile.len_entries = usize_as_i32(num_files * PackfileEntry::SIZE);
    packfile.len_stems = usize_as_i32(len_stems);
    packfile.len_exts = usize_as_i32(len_exts);
    packfile.len_data = usize_as_i32(len_data);
    packfile.len_packfile = usize_as_i32(packfile.off_data_block() + len_data);
    assert(packfile_bytes(packfile) =~= pack_header_bytes(files, condense));
    packfile
}

/// Builds a complete uncompressed archive of `files`, in the order given.
#[verifier::rlimit(40)]
pub fn pack(files: &[PackInput], condense: bool) -> (r: Vec<u8>)
    requires
        pack_fits(files@, condense),
    ensures
        r@ == packed_bytes(files@, condense),
{
    proof {
        lemma_pack_fits_parts(files@, condense);
    }
    let num_files = files.len();
    let mut entries = default_entries(num_files);
    let (stem_block, ext_block) = generate_filename_blocks(files, &mut entries);
    let data_block = build_data_block(files, condense, &mut entries);
    let packfile = build_header(num_files, stem_block.len(), ext_block.len(), data_block.len(), condense, Ghost(files@));
    let entry_block = build_entry_block(&entries, Ghost(files@), condense);

    let mut out: Vec<u8> = Vec::new();
    let header = packfile.to_bytes();
    write_sector_aligned(&mut out, header.as_slice(), &packfile);
    write_sector_aligned(&mut out, entry_block.as_slice(), &packfile);
    write_sector_aligned(&mut out, stem_block.as_slice(), &packfile);
    write_sector_aligned(&mut out, ext_block.as_slice(), &packfile);
    write_sector_aligned(&mut out, data_block.as_slice(), &packfile);
    reveal(packed_bytes);
    assert(out@ =~= packed_bytes(files@, condense));
    out
}

/// The bounds that the steps of `pack` need, taken from `pack_fits`.
proof fn lemma_pack_fits_parts(files: Seq<PackInput>, condense: bool)
    requires
        pack_fits(files, condense),
    ensures
        PackfileEntry::SIZE * files.len() <= usize::MAX,
        round_up(packed_entry_block(files, condense, files.len() as int).len() as int, Packfile::SECTOR_SIZE as int) <= usize::MAX,
        name_table(stems_of(files)).0.len() <= usize::MAX,
        name_table(exts_of(files)).0.len() <= usize::MAX,
        round_up(name_table(stems_of(files)).0.len() as int, Packfile::SECTOR_SIZE as int) <= usize::MAX,
        round_up(name_table(exts_of(files)).0.len() as int, Packfile::SECTOR_SIZE as int) <= usize::MAX,
        round_up(data_layout(files, condense).0.len() as int, Packfile::SECTOR_SIZE as int) <= usize::MAX,
        round_up(Packfile::SIZE as int, Packfile::SECTOR_SIZE as int) <= usize::MAX,
{
    reveal(pack_fits);
    lemma_round_up_ge(name_table(stems_of(files)).0.len() as int);
    lemma_round_up_ge(name_table(exts_of(files)).0.len() as int);
    lemma_entry_block_len(files, condense, files.len() as int);
    crate::util::lemma_round_up(Packfile::SIZE as int, Packfile::SECTOR_SIZE as int);
}

/// The entry block for `k` files is `k` entries long.
pub proof fn lemma_entry_block_len(files: Seq<PackInput>, condense: bool, k: int)
    requires
        0 <= k,
    ensures
        packed_entry_block(files, condense, k).len() == PackfileEntry::SIZE * k,
    decreases k,
{
    if k > 0 {
        lemma_entry_block_len(files, condense, k - 1);
    }
}

/// Rounding up never lowers a length.
proof fn lemma_round_up_ge(x: int)
    requires
        0 <= x,
    ensures
        x <= round_up(x, Packfile::SECTOR_SIZE as int),
{
    crate::util::lemma_round_up(x, Packfile::SECTOR_SIZE as int);
}

} // verus!
