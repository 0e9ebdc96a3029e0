use libdmg::blkx::{BlkxChunkEntry, DmgBlxx};
use libdmg::util::{
    push_be_u128, push_be_u32, push_be_u64, push_zeros, read_be_u128, read_be_u32, read_be_u64,
    read_bytes, UDIFChecksum,
};
use libdmg::xml::XMLError;

#[test]
fn read_be_integers_advance_the_cursor() {
    let bytes: Vec<u8> = (1u8..=28).collect();
    let mut cursor: &[u8] = &bytes;
    assert_eq!(read_be_u32(&mut cursor), Ok(0x0102_0304));
    assert_eq!(read_be_u64(&mut cursor), Ok(0x0506_0708_090A_0B0C));
    assert_eq!(read_be_u128(&mut cursor), Ok(0x0D0E_0F10_1112_1314_1516_1718_191A_1B1C));
    assert!(cursor.is_empty());
}

#[test]
fn read_be_integers_report_short_buffers() {
    let bytes = vec![1u8, 2, 3];
    let mut cursor: &[u8] = &bytes;
    assert_eq!(read_be_u32(&mut cursor), Err(XMLError::ShortBuffer(4, 3)));
    assert_eq!(read_be_u64(&mut cursor), Err(XMLError::ShortBuffer(8, 3)));
    assert_eq!(read_be_u128(&mut cursor), Err(XMLError::ShortBuffer(16, 3)));
    assert_eq!(cursor.len(), 3);
}

#[test]
fn push_be_integers_are_big_endian() {
    let mut buf = Vec::new();
    push_be_u32(&mut buf, 0x6B6F_6C79);
    assert_eq!(buf, b"koly".to_vec());
    let mut buf = Vec::new();
    push_be_u64(&mut buf, 0x0102_0304_0506_0708);
    assert_eq!(buf, vec![1, 2, 3, 4, 5, 6, 7, 8]);
    let mut buf = Vec::new();
    push_be_u128(&mut buf, 1);
    assert_eq!(buf.len(), 16);
    assert_eq!(buf[15], 1);
    assert!(buf[..15].iter().all(|b| *b == 0));
}

#[test]
fn read_bytes_copies_a_prefix() {
    let bytes = vec![9u8, 8, 7, 6];
    let mut cursor: &[u8] = &bytes;
    assert_eq!(read_bytes(&mut cursor, 3), vec![9, 8, 7]);
    assert_eq!(cursor, &[6u8][..]);
    let mut buf = vec![1u8];
    push_zeros(&mut buf, 3);
    assert_eq!(buf, vec![1, 0, 0, 0]);
}

#[test]
fn checksum_is_padded_to_136_bytes() {
    let c = UDIFChecksum { fork_type: 2, size: 32, data: vec![0xAB, 0xCD] };
    let bytes = c.to_be_bytes();
    assert_eq!(bytes.len(), 136);
    assert_eq!(&bytes[0..8], &[0, 0, 0, 2, 0, 0, 0, 32]);
    assert_eq!(&bytes[8..10], &[0xAB, 0xCD]);
    assert!(bytes[10..].iter().all(|b| *b == 0));
}

#[test]
fn checksum_payload_longer_than_128_is_cut() {
    let c = UDIFChecksum { fork_type: 1, size: 4, data: vec![7u8; 200] };
    let bytes = c.to_be_bytes();
    assert_eq!(bytes.len(), 136);
    assert!(bytes[8..].iter().all(|b| *b == 7));
}

#[test]
fn checksum_round_trip() {
    let c = UDIFChecksum { fork_type: 2, size: 32, data: (0u8..128).collect() };
    let bytes = UDIFChecksum { fork_type: 2, size: 32, data: (0u8..128).collect() }.to_be_bytes();
    let mut cursor: &[u8] = &bytes;
    assert_eq!(UDIFChecksum::read_from(&mut cursor), c);
    assert!(cursor.is_empty());
}

#[test]
fn placeholder_checksum() {
    let c = UDIFChecksum::placeholder();
    assert_eq!(c.fork_type, 2);
    assert_eq!(c.size, 32);
    assert_eq!(c.data, vec![0u8; 128]);
}

fn all_types() -> Vec<DmgBlxx> {
    vec![
        DmgBlxx::ZeroFill,
        DmgBlxx::RawOrNullCompression,
        DmgBlxx::IgnoredOrUnknown,
        DmgBlxx::AppleCompression,
        DmgBlxx::ZLibCompression,
        DmgBlxx::Bz2Compression,
        DmgBlxx::Comment,
        DmgBlxx::LastEntry,
    ]
}

#[test]
fn chunk_type_codes() {
    let codes: Vec<u32> = all_types().iter().map(|t| t.code()).collect();
    assert_eq!(
        codes,
        vec![0, 1, 2, 0x8000_0004, 0x8000_0005, 0x8000_0006, 0x7FFF_FFFE, 0xFFFF_FFFF]
    );
    assert_eq!(DmgBlxx::LastEntry.to_be_bytes(), vec![0xFF, 0xFF, 0xFF, 0xFF]);
    assert_eq!(DmgBlxx::ZLibCompression.to_be_bytes(), vec![0x80, 0, 0, 5]);
    for code in [3u32, 0x8000_0003, 0x7FFF_FFFF, 0x1234_5678] {
        assert_eq!(DmgBlxx::from_code(code), None);
    }
}

#[test]
fn chunk_type_from_u32_reads_the_cursor() {
    let bytes = vec![0x7F, 0xFF, 0xFF, 0xFE, 0xAA];
    let mut cursor: &[u8] = &bytes;
    assert_eq!(DmgBlxx::from_u32(&mut cursor), Ok(DmgBlxx::Comment));
    assert_eq!(cursor, &[0xAAu8][..]);
    assert_eq!(DmgBlxx::from_u32(&mut cursor), Err(XMLError::ShortBuffer(4, 1)));
    let unknown = vec![0u8, 0, 0, 3];
    let mut cursor: &[u8] = &unknown;
    assert_eq!(DmgBlxx::from_u32(&mut cursor), Err(XMLError::UnknownChunkType(3)));
}

#[test]
fn chunk_entry_round_trip_every_type() {
    for (i, t) in all_types().into_iter().enumerate() {
        let e = BlkxChunkEntry {
            entry_type: t,
            comment: i as u32,
            sector_number: 0x0102_0304_0506_0708 + i as u64,
            sector_count: 512,
            compressed_offset: u64::MAX - i as u64,
            compressed_length: 17,
        };
        let bytes = e.to_be_bytes();
        assert_eq!(bytes.len(), 40);
        assert_eq!(BlkxChunkEntry::new(&bytes), Ok(e));
    }
}

#[test]
fn chunk_entry_exact_bytes() {
    let e = BlkxChunkEntry {
        entry_type: DmgBlxx::ZLibCompression,
        comment: 0,
        sector_number: 512,
        sector_count: 1,
        compressed_offset: 0x100,
        compressed_length: 0x20,
    };
    let mut expected = vec![0x80, 0, 0, 5, 0, 0, 0, 0];
    expected.extend_from_slice(&512u64.to_be_bytes());
    expected.extend_from_slice(&1u64.to_be_bytes());
    expected.extend_from_slice(&0x100u64.to_be_bytes());
    expected.extend_from_slice(&0x20u64.to_be_bytes());
    assert_eq!(e.to_be_bytes(), expected);
}

#[test]
fn chunk_entry_short_buffer() {
    assert_eq!(BlkxChunkEntry::new(&[0u8; 39]), Err(XMLError::ShortBuffer(40, 39)));
}

#[test]
fn chunk_entry_unknown_type() {
    let mut bytes = vec![0u8; 40];
    bytes[3] = 3;
    assert_eq!(BlkxChunkEntry::new(&bytes), Err(XMLError::UnknownChunkType(3)));
}
