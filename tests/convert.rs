use libdmg::blkx::{BlkxChunkEntry, DmgBlxx};
use libdmg::convert::compress_runs;
use libdmg::image::{convert_image, inspect_image};
use libdmg::koly::KolyBlock;
use libdmg::xml::XMLError;

fn pseudo_random(n: usize) -> Vec<u8> {
    let mut state: u64 = 0x2545_F491_4F6C_DD1D;
    (0..n)
        .map(|_| {
            state = state.wrapping_mul(6_364_136_223_846_793_005).wrapping_add(1_442_695_040_888_963_407);
            (state >> 33) as u8
        })
        .collect()
}

fn trailer(image: &[u8]) -> KolyBlock {
    KolyBlock::new(image[image.len() - 512..].to_vec()).unwrap()
}

fn check_table(entries: &[BlkxChunkEntry], fork_len: usize, sectors: u64) {
    let last = entries.last().unwrap();
    assert_eq!(last.entry_type, DmgBlxx::LastEntry);
    assert_eq!(last.sector_number, sectors);
    assert_eq!(last.sector_count, 0);
    assert_eq!(last.compressed_length, 0);
    assert_eq!(last.compressed_offset, fork_len as u64);
    let mut next_sector = 0u64;
    let mut next_offset = 0u64;
    for e in &entries[..entries.len() - 1] {
        assert_eq!(e.entry_type, DmgBlxx::ZLibCompression);
        assert_eq!(e.sector_number, next_sector);
        assert_eq!(e.compressed_offset, next_offset);
        next_sector += e.sector_count;
        next_offset += e.compressed_length;
    }
    assert_eq!(next_sector, sectors);
    assert_eq!(next_offset, fork_len as u64);
}

#[test]
fn empty_image() {
    let image = convert_image(&[]).unwrap();
    let k = trailer(&image);
    assert_eq!(k.sector_count, 0);
    assert_eq!(k.data_fork_length, 0);
    assert_eq!(image.len() as u64, k.xml_length + 512);
    let (k2, plist) = inspect_image(&image).unwrap();
    assert_eq!(k2, k);
    assert_eq!(plist.partitions.len(), 1);
    let mish = &plist.partitions[0].data;
    assert_eq!(mish.sector_count, 0);
    assert_eq!(mish.block_entries.len(), 1);
    assert_eq!(mish.block_entries[0].entry_type, DmgBlxx::LastEntry);
}

#[test]
fn single_full_run() {
    let src = vec![0xAAu8; 512 * 512];
    let image = convert_image(&src).unwrap();
    let k = trailer(&image);
    assert_eq!(k.sector_count, 512);
    let (_, plist) = inspect_image(&image).unwrap();
    let entries = &plist.partitions[0].data.block_entries;
    assert_eq!(entries.len(), 2);
    assert_eq!(entries[0].entry_type, DmgBlxx::ZLibCompression);
    assert_eq!(entries[0].sector_number, 0);
    assert_eq!(entries[0].sector_count, 512);
    assert_eq!(entries[1].entry_type, DmgBlxx::LastEntry);
    assert_eq!(entries[1].sector_number, 512);
    check_table(entries, k.data_fork_length as usize, 512);
}

#[test]
fn multi_run() {
    let src = pseudo_random(1025 * 512);
    let image = convert_image(&src).unwrap();
    let k = trailer(&image);
    assert_eq!(k.sector_count, 1025);
    let (_, plist) = inspect_image(&image).unwrap();
    let entries = &plist.partitions[0].data.block_entries;
    let numbers: Vec<u64> = entries.iter().map(|e| e.sector_number).collect();
    assert_eq!(numbers, vec![0, 512, 1024, 1025]);
    let counts: Vec<u64> = entries.iter().map(|e| e.sector_count).collect();
    assert_eq!(counts, vec![512, 512, 1, 0]);
    check_table(entries, k.data_fork_length as usize, 1025);
    assert_eq!(plist.partitions[0].data.sector_count, 1025);
}

#[test]
fn compressed_runs_decompress_to_the_source() {
    let src = pseudo_random(1030 * 512);
    let (fork, entries) = compress_runs(&src).unwrap();
    assert_eq!(entries.len(), 4);
    assert_ne!(fork, src);
    check_table(&entries, fork.len(), 1030);
    let mut out = Vec::new();
    for e in &entries[..entries.len() - 1] {
        let start = e.compressed_offset as usize;
        let end = start + e.compressed_length as usize;
        assert_eq!(&fork[start..start + 2], &[0x78, 0x9C]);
        let mut decoder = libflate::zlib::Decoder::new(&fork[start..end]).unwrap();
        std::io::Read::read_to_end(&mut decoder, &mut out).unwrap();
    }
    assert_eq!(out, src);
}

#[test]
fn zero_runs_compress_well() {
    let src = vec![0u8; 600 * 512];
    let (fork, entries) = compress_runs(&src).unwrap();
    assert_eq!(entries.len(), 3);
    assert!(fork.len() < 10_000);
    check_table(&entries, fork.len(), 600);
}

#[test]
fn unaligned_input_is_refused() {
    assert_eq!(convert_image(&[1u8; 513]), Err(XMLError::UnalignedInput));
    assert_eq!(convert_image(&[1u8; 100]), Err(XMLError::UnalignedInput));
}

#[test]
fn trailer_cross_references() {
    let src = pseudo_random(20 * 512);
    let image = convert_image(&src).unwrap();
    let k = trailer(&image);
    assert_eq!(k.xml_offset, k.data_fork_length);
    assert_eq!(k.xml_offset + k.xml_length, image.len() as u64 - 512);
    let xml = &image[k.xml_offset as usize..(k.xml_offset + k.xml_length) as usize];
    assert!(xml.starts_with(b"<?xml"));
}

#[test]
fn inspect_twice_gives_the_same_result() {
    let src = pseudo_random(700 * 512);
    let image = convert_image(&src).unwrap();
    let copy = image.clone();
    let a = inspect_image(&image).unwrap();
    let b = inspect_image(&image).unwrap();
    assert_eq!(a, b);
    assert_eq!(image, copy);
}

#[test]
fn convert_is_deterministic() {
    let src = pseudo_random(530 * 512);
    assert_eq!(convert_image(&src).unwrap(), convert_image(&src).unwrap());
}
