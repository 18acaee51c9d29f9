use v_utils::error::VolitionError;
use v_utils::pack::{generate_filename_blocks, pack, write_sector_aligned, PackInput};
use v_utils::packfile::{Packfile, PackfileEntry};
use v_utils::unpack::{archive_fits_i32, pack_sizes_fit};

fn input(stem: &str, ext: &str, data: &[u8]) -> PackInput {
    PackInput { stem: stem.to_string(), ext: ext.to_string(), data: data.to_vec() }
}

fn sample_files() -> Vec<PackInput> {
    vec![input("alpha", "txt", b"hello"), input("beta", "bin", &[1, 2, 3]), input("alpha", "bin", &[])]
}

fn unpack_all(archive: &[u8]) -> Vec<(String, Vec<u8>)> {
    let header = Packfile::from_data(archive).unwrap();
    let entries = header.read_entries(archive).unwrap();
    let names = header.read_filenames(archive, &entries).unwrap();
    names
        .into_iter()
        .zip(entries.iter())
        .map(|(name, e)| (name, header.entry_data(archive, e).unwrap().to_vec()))
        .collect()
}

#[test]
fn pack_then_unpack_gives_the_files_back() {
    for condense in [false, true] {
        let files = sample_files();
        let archive = pack(&files, condense);
        let unpacked = unpack_all(&archive);
        assert_eq!(unpacked.len(), 3);
        assert_eq!(unpacked[0], ("alpha.txt".to_string(), b"hello".to_vec()));
        assert_eq!(unpacked[1], ("beta.bin".to_string(), vec![1, 2, 3]));
        assert_eq!(unpacked[2], ("alpha.bin".to_string(), vec![]));
    }
}

#[test]
fn packed_archive_layout() {
    let files = sample_files();
    let archive = pack(&files, false);
    // header, entries, stems, extensions, then one sector per non-empty file
    assert_eq!(archive.len(), 0x800 * 6);
    let header = Packfile::from_data(&archive).unwrap();
    assert_eq!(header.num_files, 3);
    assert_eq!(header.len_entries, 3 * 28);
    assert_eq!(header.len_stems, "alpha\0beta\0".len() as i32);
    assert_eq!(header.len_exts, "txt\0bin\0".len() as i32);
    assert_eq!(header.len_packfile as usize, archive.len());
    assert!(!header.is_compressed());
    assert!(!header.is_condensed());
    assert_eq!(header.off_entry_block(), 0x800);
    assert_eq!(header.off_stem_block(), 0x1000);
    assert_eq!(header.off_ext_block(), 0x1800);
    assert_eq!(header.off_data_block(), 0x2000);

    let condensed = pack(&files, true);
    let header = Packfile::from_data(&condensed).unwrap();
    assert!(header.is_condensed());
    assert_eq!(header.len_data, 8);
}

#[test]
fn packed_data_offsets_follow_the_condense_flag() {
    let files = sample_files();
    let spread = pack(&files, false);
    assert_eq!(spread.len() % 0x800, 0);
    let header = Packfile::from_data(&spread).unwrap();
    let entries = header.read_entries(&spread).unwrap();
    let offsets: Vec<i32> = entries.iter().map(|e| e.off_data).collect();
    let lengths: Vec<i32> = entries.iter().map(|e| e.len_data).collect();
    assert_eq!(offsets, vec![0, 0x800, 0x1000]);
    assert_eq!(lengths, vec![5, 3, 0]);

    let packed = pack(&files, true);
    assert_eq!(packed.len() % 0x800, 0);
    let header = Packfile::from_data(&packed).unwrap();
    let entries = header.read_entries(&packed).unwrap();
    let offsets: Vec<i32> = entries.iter().map(|e| e.off_data).collect();
    assert_eq!(offsets, vec![0, 5, 8]);
}

#[test]
fn filename_blocks_share_repeated_names() {
    let files = sample_files();
    let mut entries = vec![PackfileEntry::default(); 3];
    let (stems, exts) = generate_filename_blocks(&files, &mut entries);
    assert_eq!(stems, b"alpha\0beta\0".to_vec());
    assert_eq!(exts, b"txt\0bin\0".to_vec());
    assert_eq!((entries[0].off_stem, entries[0].off_ext), (0, 0));
    assert_eq!((entries[1].off_stem, entries[1].off_ext), (6, 4));
    assert_eq!((entries[2].off_stem, entries[2].off_ext), (0, 4));
}

#[test]
fn sector_aligned_writes_pad_with_zeros() {
    let header = Packfile::default();
    let mut out = vec![];
    write_sector_aligned(&mut out, &[9, 9, 9], &header);
    assert_eq!(out.len(), 0x800);
    assert_eq!(&out[..3], &[9, 9, 9]);
    assert!(out[3..].iter().all(|&b| b == 0));
    write_sector_aligned(&mut out, &[], &header);
    assert_eq!(out.len(), 0x800);
}

#[test]
fn packfile_header_errors() {
    let archive = pack(&sample_files(), false);

    assert!(matches!(
        Packfile::from_data(&archive[..0x17f]),
        Err(VolitionError::BufferTooSmall { need: 0x180, avail: 0x17f, .. })
    ));

    let mut bad = archive.clone();
    bad[0] = 0;
    assert!(matches!(Packfile::from_data(&bad), Err(VolitionError::InvalidPackfileSignature(_))));

    let mut bad = archive.clone();
    bad[4] = 5;
    assert!(matches!(Packfile::from_data(&bad), Err(VolitionError::UnknownPackfileVersion(5))));

    let mut bad = archive.clone();
    bad[0x16c..0x170].copy_from_slice(&0_i32.to_le_bytes());
    assert!(matches!(
        Packfile::from_data(&bad),
        Err(VolitionError::ExpectedExactValue { expected: -1, got: 0, .. })
    ));
}

#[test]
fn header_round_trips_through_bytes() {
    let archive = pack(&sample_files(), true);
    let header = Packfile::from_data(&archive).unwrap();
    assert_eq!(header.to_bytes(), archive[..0x180].to_vec());
    let entries = header.read_entries(&archive).unwrap();
    let e = PackfileEntry::from_data(&archive[0x800..]).unwrap();
    assert_eq!(e.to_bytes(), archive[0x800..0x800 + 28].to_vec());
    assert_eq!(entries[0].len_data, 5);
}

#[test]
fn compressed_archives_are_refused() {
    let archive = pack(&sample_files(), false);
    let mut header = Packfile::from_data(&archive).unwrap();
    let entries = header.read_entries(&archive).unwrap();
    header.flags |= Packfile::FLAG_COMPRESSED;
    assert!(header.is_compressed());
    assert!(matches!(header.entry_data(&archive, &entries[0]), Err(VolitionError::PackfileCompression)));
}

#[test]
fn entry_past_the_end_is_refused() {
    let archive = pack(&sample_files(), false);
    let header = Packfile::from_data(&archive).unwrap();
    let entries = header.read_entries(&archive).unwrap();
    let short = &archive[..0x2000 + 2];
    match header.entry_data(short, &entries[0]) {
        Err(VolitionError::BufferTooSmall { need, avail, .. }) => {
            assert_eq!(need, 0x2000 + 5);
            assert_eq!(avail, 0x2000 + 2);
        },
        other => panic!("unexpected {other:?}"),
    }
}

#[test]
fn align_sector_rounds_up() {
    let header = Packfile::default();
    assert_eq!(header.align_sector(0), 0);
    assert_eq!(header.align_sector(1), 0x800);
    assert_eq!(header.align_sector(0x800), 0x800);
    assert_eq!(header.align_sector(0x801), 0x1000);
}

#[test]
fn small_archives_fit() {
    assert!(archive_fits_i32(&sample_files(), false));
    assert!(archive_fits_i32(&[], true));
}

#[test]
fn pack_accepts_ordinary_inputs() {
    assert!(pack_sizes_fit(&sample_files(), false));
    assert!(pack_sizes_fit(&sample_files(), true));
    assert!(pack_sizes_fit(&[], false));
}
