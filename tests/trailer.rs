use libdmg::convert::build_koly;
use libdmg::image::{inspect_image, layout_image};
use libdmg::koly::KolyBlock;
use libdmg::util::UDIFChecksum;
use libdmg::warnings::Warning;
use libdmg::xml::{Signature, XMLError};

fn sample_koly() -> KolyBlock {
    KolyBlock {
        magic: 0x6B6F_6C79,
        version: 4,
        header_size: 512,
        flags: 1,
        running_data_fork_offset: 3,
        data_fork_offset: 5,
        data_fork_length: 0x1234_5678_9ABC,
        source_fork_offset: 7,
        source_fork_length: 11,
        segment_number: 1,
        segment_count: 1,
        segment_id: 0x0011_2233_4455_6677_8899_AABB_CCDD_EEFF,
        data_fork_checksum: UDIFChecksum { fork_type: 2, size: 32, data: (0u8..128).collect() },
        xml_offset: 0x1234_5678_9ABC,
        xml_length: 999,
        reserved_one: vec![0u8; 120],
        master_checksum: UDIFChecksum { fork_type: 2, size: 32, data: vec![0x5A; 128] },
        image_variant: 2,
        sector_count: 1025,
        reserved_two: 0,
        reserved_three: 0,
        reserved_four: 0,
    }
}

#[test]
fn koly_round_trip() {
    let bytes = sample_koly().to_be_bytes();
    assert_eq!(bytes.len(), 512);
    assert_eq!(&bytes[0..4], b"koly");
    assert_eq!(KolyBlock::new(bytes), Ok(sample_koly()));
}

#[test]
fn koly_field_offsets() {
    let bytes = sample_koly().to_be_bytes();
    assert_eq!(&bytes[32..40], &0x1234_5678_9ABCu64.to_be_bytes());
    assert_eq!(&bytes[216..224], &0x1234_5678_9ABCu64.to_be_bytes());
    assert_eq!(&bytes[224..232], &999u64.to_be_bytes());
    assert!(bytes[232..352].iter().all(|b| *b == 0));
    assert_eq!(&bytes[488..492], &2u32.to_be_bytes());
    assert_eq!(&bytes[492..500], &1025u64.to_be_bytes());
    assert!(bytes[500..512].iter().all(|b| *b == 0));
}

#[test]
fn koly_reserved_regions_are_written_and_read_as_zeros() {
    let mut k = sample_koly();
    k.reserved_one = vec![0xEE; 120];
    k.reserved_two = 9;
    let bytes = k.to_be_bytes();
    assert!(bytes[232..352].iter().all(|b| *b == 0));
    assert!(bytes[500..504].iter().all(|b| *b == 0));
    let mut raw = bytes.clone();
    raw[240] = 0x77;
    raw[505] = 0x66;
    let decoded = KolyBlock::new(raw).unwrap();
    assert_eq!(decoded.reserved_one, vec![0u8; 120]);
    assert_eq!(decoded.reserved_three, 0);
}

#[test]
fn koly_bad_magic() {
    let mut bytes = sample_koly().to_be_bytes();
    bytes[0..4].copy_from_slice(b"kolz");
    assert_eq!(KolyBlock::new(bytes), Err(XMLError::BadMagic(Signature::Koly)));
}

#[test]
fn koly_short_buffer() {
    assert_eq!(KolyBlock::new(vec![0u8; 100]), Err(XMLError::ShortBuffer(512, 100)));
}

#[test]
fn build_koly_fields() {
    let k = build_koly(300, 4096, 8);
    assert_eq!(k.magic, 0x6B6F_6C79);
    assert_eq!(k.version, 4);
    assert_eq!(k.header_size, 512);
    assert_eq!(k.flags, 1);
    assert_eq!(k.data_fork_length, 4096);
    assert_eq!(k.xml_offset, 4096);
    assert_eq!(k.xml_length, 300);
    assert_eq!(k.image_variant, 2);
    assert_eq!(k.sector_count, 8);
    assert_eq!(k.segment_number, 0);
    assert_eq!(k.segment_count, 0);
    assert_eq!(k.master_checksum, UDIFChecksum::placeholder());
    assert_eq!(k.data_fork_checksum, UDIFChecksum::placeholder());
}

#[test]
fn layout_cross_references() {
    let fork = vec![1u8; 1000];
    let xml = b"<plist/>".to_vec();
    let image = layout_image(fork, xml.clone(), 3);
    assert_eq!(image.len(), 1000 + xml.len() + 512);
    let k = KolyBlock::new(image[image.len() - 512..].to_vec()).unwrap();
    assert_eq!(k.xml_offset, k.data_fork_length);
    assert_eq!(k.data_fork_length, 1000);
    assert_eq!(k.xml_offset + k.xml_length, image.len() as u64 - 512);
    assert_eq!(&image[1000..1000 + xml.len()], &xml[..]);
}

#[test]
fn inspect_rejects_short_and_out_of_range() {
    assert_eq!(inspect_image(&[0u8; 10]), Err(XMLError::ShortBuffer(512, 10)));
    let mut k = build_koly(600, 0, 0);
    k.xml_offset = 10;
    let bytes = k.to_be_bytes();
    assert_eq!(inspect_image(&bytes), Err(XMLError::ShortBuffer(600, 502)));
}

#[test]
fn koly_warnings() {
    assert!(sample_koly().warnings().is_empty());
    let mut k = sample_koly();
    k.version = 5;
    k.header_size = 500;
    assert_eq!(k.warnings(), vec![Warning::KolyVersion(5), Warning::KolyHeaderSize(500)]);
}
