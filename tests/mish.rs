use libdmg::blkx::{BlkxChunkEntry, DmgBlxx};
use libdmg::convert::{build_mish, final_blkx};
use libdmg::mish::{strip_whitespace, MishBlock};
use libdmg::warnings::Warning;
use libdmg::xml::{Signature, XMLError};

fn entries() -> Vec<BlkxChunkEntry> {
    vec![
        BlkxChunkEntry {
            entry_type: DmgBlxx::ZLibCompression,
            comment: 0,
            sector_number: 0,
            sector_count: 512,
            compressed_offset: 0,
            compressed_length: 300,
        },
        BlkxChunkEntry {
            entry_type: DmgBlxx::ZeroFill,
            comment: 0,
            sector_number: 512,
            sector_count: 4,
            compressed_offset: 300,
            compressed_length: 0,
        },
        final_blkx(516, 300),
    ]
}

#[test]
fn mish_round_trip() {
    let bytes = build_mish(516, entries()).to_be_bytes();
    assert_eq!(bytes.len(), 204 + 3 * 40);
    assert_eq!(&bytes[0..4], b"mish");
    assert_eq!(MishBlock::from_be_bytes(bytes), Ok(build_mish(516, entries())));
}

#[test]
fn build_mish_fields() {
    let m = build_mish(516, entries());
    assert_eq!(m.signature, 0x6D69_7368);
    assert_eq!(m.version, 1);
    assert_eq!(m.sector_number, 0);
    assert_eq!(m.sector_count, 516);
    assert_eq!(m.buffers_needed, 520);
    assert_eq!(m.block_descriptors, 0xFFFF_FFFE);
    assert_eq!(m.number_block_chunks, 3);
    assert_eq!(m.block_entries, entries());
}

#[test]
fn mish_header_layout() {
    let bytes = build_mish(516, entries()).to_be_bytes();
    assert_eq!(&bytes[4..8], &[0, 0, 0, 1]);
    assert_eq!(&bytes[16..24], &516u64.to_be_bytes());
    assert_eq!(&bytes[32..36], &520u32.to_be_bytes());
    assert!(bytes[40..64].iter().all(|b| *b == 0));
    assert_eq!(&bytes[64..72], &[0, 0, 0, 2, 0, 0, 0, 32]);
    assert_eq!(&bytes[200..204], &3u32.to_be_bytes());
    assert_eq!(&bytes[204..244], &entries()[0].to_be_bytes()[..]);
}

#[test]
fn mish_base64_round_trip() {
    let text = build_mish(516, entries()).to_base64();
    assert_ne!(text.as_bytes(), &build_mish(516, entries()).to_be_bytes()[..]);
    assert!(text.bytes().all(|b| b.is_ascii_alphanumeric() || b == b'+' || b == b'/' || b == b'='));
    assert_eq!(MishBlock::from_base64(text), Ok(build_mish(516, entries())));
}

#[test]
fn mish_base64_whitespace_tolerance() {
    let text = build_mish(516, entries()).to_base64();
    let mut noisy = String::from("  \n\t");
    for (i, c) in text.chars().enumerate() {
        noisy.push(c);
        if i % 7 == 0 {
            noisy.push('\t');
        }
        if i % 13 == 0 {
            noisy.push_str("\n ");
        }
    }
    noisy.push_str(" \r\n  ");
    assert_eq!(MishBlock::from_base64(noisy), MishBlock::from_base64(text));
}

#[test]
fn mish_bad_base64() {
    assert_eq!(MishBlock::from_base64(String::from("@@@@")), Err(XMLError::BadBase64));
}

#[test]
fn mish_bad_magic() {
    let mut bytes = build_mish(516, entries()).to_be_bytes();
    bytes[0] = b'M';
    assert_eq!(MishBlock::from_be_bytes(bytes), Err(XMLError::BadMagic(Signature::Mish)));
}

#[test]
fn mish_short_buffer() {
    assert_eq!(MishBlock::from_be_bytes(vec![0u8; 100]), Err(XMLError::ShortBuffer(204, 100)));
}

#[test]
fn mish_chunk_table_truncated() {
    let mut bytes = build_mish(516, entries()).to_be_bytes();
    bytes.pop();
    assert_eq!(MishBlock::from_be_bytes(bytes), Err(XMLError::ChunkTableTruncated));
    let mut bytes = build_mish(516, entries()).to_be_bytes();
    bytes.extend_from_slice(&[0u8; 40]);
    assert_eq!(MishBlock::from_be_bytes(bytes), Err(XMLError::ChunkTableTruncated));
}

#[test]
fn mish_unknown_chunk_type() {
    let mut bytes = build_mish(516, entries()).to_be_bytes();
    bytes[204..208].copy_from_slice(&3u32.to_be_bytes());
    assert_eq!(MishBlock::from_be_bytes(bytes), Err(XMLError::UnknownChunkType(3)));
}

#[test]
fn mish_reserved_words_read_as_zero() {
    let mut bytes = build_mish(516, entries()).to_be_bytes();
    bytes[45] = 0x11;
    let m = MishBlock::from_be_bytes(bytes).unwrap();
    assert_eq!(m.reserved_2, 0);
}

#[test]
fn build_block_entries_reads_whole_windows() {
    let mut bytes = Vec::new();
    for e in entries() {
        bytes.extend_from_slice(&e.to_be_bytes());
    }
    bytes.extend_from_slice(&[1, 2, 3]);
    assert_eq!(MishBlock::build_block_entries(&bytes), Ok(entries()));
}

#[test]
fn strip_whitespace_removes_ascii_whitespace_only() {
    assert_eq!(strip_whitespace(b" a\tb\nc\r d\x0Ce "), b"abcde".to_vec());
    assert_eq!(strip_whitespace(b""), Vec::<u8>::new());
}

#[test]
fn mish_bad_chunk_layout() {
    let bytes = build_mish(517, entries()).to_be_bytes();
    assert_eq!(MishBlock::from_be_bytes(bytes), Err(XMLError::BadChunkLayout));
    let mut gap = entries();
    gap[1].sector_number = 513;
    let bytes = build_mish(516, gap).to_be_bytes();
    assert_eq!(MishBlock::from_be_bytes(bytes), Err(XMLError::BadChunkLayout));
    let mut overlap = entries();
    overlap[1].compressed_offset = 100;
    overlap[1].compressed_length = 1;
    let bytes = build_mish(516, overlap).to_be_bytes();
    assert_eq!(MishBlock::from_be_bytes(bytes), Err(XMLError::BadChunkLayout));
}

#[test]
fn chunk_layout_check() {
    assert!(libdmg::mish::chunk_layout_valid(&entries(), 516));
    assert!(!libdmg::mish::chunk_layout_valid(&entries(), 515));
    assert!(libdmg::mish::chunk_layout_valid(&Vec::new(), 0));
}

#[test]
fn mish_warnings() {
    assert!(build_mish(516, entries()).warnings().is_empty());
    let mut odd = entries();
    odd.pop();
    odd.push(BlkxChunkEntry {
        entry_type: DmgBlxx::Comment,
        comment: 0x2B62_6567,
        sector_number: 516,
        sector_count: 2,
        compressed_offset: 300,
        compressed_length: 0,
    });
    let mut m = build_mish(516, odd);
    m.version = 2;
    assert_eq!(
        m.warnings(),
        vec![Warning::MishVersion(2), Warning::MissingLastEntry, Warning::MarkerSectorCount(2)]
    );
}

#[test]
fn mish_marker_inside_the_covered_range() {
    let table = vec![
        BlkxChunkEntry {
            entry_type: DmgBlxx::ZLibCompression,
            comment: 0,
            sector_number: 0,
            sector_count: 1,
            compressed_offset: 0,
            compressed_length: 10,
        },
        BlkxChunkEntry {
            entry_type: DmgBlxx::Comment,
            comment: 0x2B65_6E64,
            sector_number: 0,
            sector_count: 0,
            compressed_offset: 0,
            compressed_length: 0,
        },
        final_blkx(1, 10),
    ];
    let bytes = build_mish(1, table.clone()).to_be_bytes();
    assert_eq!(MishBlock::from_be_bytes(bytes), Ok(build_mish(1, table.clone())));
    let text = build_mish(1, table.clone()).to_base64();
    assert_eq!(MishBlock::from_base64(text), Ok(build_mish(1, table.clone())));
    let mut backwards = table.clone();
    backwards[0].sector_number = 0;
    backwards[1].sector_number = 2;
    let bytes = build_mish(1, backwards).to_be_bytes();
    assert_eq!(MishBlock::from_be_bytes(bytes), Err(XMLError::BadChunkLayout));
}
