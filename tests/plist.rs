use libdmg::partition::parse_id;
use libdmg::xml::{text_is, ElementType, PList, PlistKey, XMLError};

const MISH_TEXT: &str = "bWlzaAAAAAEAAAAAAAAAAAAAAAAAAAAAAAAAAAAAAAAAAAAAAAAAAAAAAAAAAAAAAAAAAAAAAAAAAAAAAAAAAAAAAAAAAAAAAAAAAAAAAAAAAAAAAAAAAAAAAAAAAAAAAAAAAAAAAAAAAAAAAAAAAAAAAAAAAAAAAAAAAAAAAAAAAAAAAAAAAAAAAAAAAAAAAAAAAAAAAAAAAAAAAAAAAAAAAAAAAAAAAAAAAAAAAAAAAAAAAAAAAAAAAAAAAAAAAAAAAAAAAAAAAAAA";

fn partition_dict(order: &[(&str, &str, &str)]) -> String {
    let mut s = String::from("<dict>");
    for (key, tag, value) in order {
        s.push_str(&format!("<key>{}</key><{}>{}</{}>", key, tag, value, tag));
    }
    s.push_str("</dict>");
    s
}

fn document(partitions: &[String]) -> Vec<u8> {
    let mut s = String::from(
        "<?xml version=\"1.0\" encoding=\"UTF-8\"?>\n<plist version=\"1.0\">\n<dict>\n<key>resource-fork</key>\n<dict>\n<key>blkx</key>\n<array>\n",
    );
    for p in partitions {
        s.push_str(p);
        s.push('\n');
    }
    s.push_str("</array>\n<key>plst</key><array></array>\n</dict>\n</dict>\n</plist>\n");
    s.into_bytes()
}

fn canonical() -> Vec<(&'static str, &'static str, &'static str)> {
    vec![
        ("Attributes", "string", "0x0050"),
        ("CFName", "string", "disk image"),
        ("Data", "data", MISH_TEXT),
        ("ID", "string", "-1"),
        ("Name", "string", "disk image (Apple_HFS : 4)"),
    ]
}

#[test]
fn mish_text_is_a_valid_block() {
    assert!(libdmg::mish::MishBlock::from_base64(String::from(MISH_TEXT)).is_ok());
}

#[test]
fn plist_decodes_partition() {
    let doc = document(&[partition_dict(&canonical())]);
    let p = PList::from_bytes(doc).unwrap();
    assert_eq!(p.partitions.len(), 1);
    let part = &p.partitions[0];
    assert_eq!(part.attributes, "0x0050");
    assert_eq!(part.cf_name, "disk image");
    assert_eq!(part.id, -1);
    assert_eq!(part.name, "disk image (Apple_HFS : 4)");
    assert_eq!(part.data.signature, 0x6D69_7368);
    assert_eq!(part.data.number_block_chunks, 0);
}

#[test]
fn plist_keys_in_any_order() {
    let mut order = canonical();
    order.reverse();
    let a = PList::from_bytes(document(&[partition_dict(&order)])).unwrap();
    let b = PList::from_bytes(document(&[partition_dict(&canonical())])).unwrap();
    assert_eq!(a, b);
}

#[test]
fn plist_data_with_whitespace() {
    let mut order = canonical();
    let spaced = format!("\n\t\t{}\n\t", MISH_TEXT.chars().map(|c| format!("{}\n", c)).collect::<String>());
    let spaced: &'static str = Box::leak(spaced.into_boxed_str());
    order[2] = ("Data", "data", spaced);
    let a = PList::from_bytes(document(&[partition_dict(&order)])).unwrap();
    let b = PList::from_bytes(document(&[partition_dict(&canonical())])).unwrap();
    assert_eq!(a, b);
}

#[test]
fn plist_several_partitions() {
    let mut second = canonical();
    second[3] = ("ID", "string", "7");
    let p = PList::from_bytes(document(&[partition_dict(&canonical()), partition_dict(&second)]))
        .unwrap();
    assert_eq!(p.partitions.len(), 2);
    assert_eq!(p.partitions[1].id, 7);
}

#[test]
fn plist_missing_key() {
    let mut order = canonical();
    order.remove(1);
    assert_eq!(
        PList::from_bytes(document(&[partition_dict(&order)])),
        Err(XMLError::MissingKey(PlistKey::CFName))
    );
    let doc = b"<plist><dict><key>other</key><dict/></dict></plist>".to_vec();
    assert_eq!(PList::from_bytes(doc), Err(XMLError::MissingKey(PlistKey::ResourceFork)));
}

#[test]
fn plist_bad_id() {
    let mut order = canonical();
    order[3] = ("ID", "string", "one");
    assert_eq!(PList::from_bytes(document(&[partition_dict(&order)])), Err(XMLError::ParseInt));
}

#[test]
fn plist_bad_data() {
    let mut order = canonical();
    order[2] = ("Data", "data", "not base64!");
    assert_eq!(PList::from_bytes(document(&[partition_dict(&order)])), Err(XMLError::BadBase64));
}

#[test]
fn plist_wrong_value_tag() {
    let mut order = canonical();
    order[0] = ("Attributes", "data", "0x0050");
    assert_eq!(PList::from_bytes(document(&[partition_dict(&order)])), Err(XMLError::XmlMalformed));
}

#[test]
fn plist_malformed_xml() {
    assert_eq!(PList::from_bytes(b"<plist><dict>".to_vec()), Err(XMLError::XmlMalformed));
    assert_eq!(PList::from_bytes(b"<other/>".to_vec()), Err(XMLError::XmlMalformed));
}

#[test]
fn plist_build_then_decode() {
    let xml = PList::build(String::from(MISH_TEXT)).unwrap();
    let text = String::from_utf8(xml.clone()).unwrap();
    assert!(text.starts_with("<?xml version=\"1.0\" encoding=\"UTF-8\"?>\n<!DOCTYPE plist PUBLIC"));
    assert!(text.contains("<plist version=\"1.0\">"));
    assert!(text.contains(MISH_TEXT));
    let p = PList::from_bytes(xml).unwrap();
    assert_eq!(p.partitions.len(), 1);
    assert_eq!(p.partitions[0].id, 0);
    assert_eq!(p.partitions[0].attributes, "0x0050");
    assert_eq!(p.partitions[0].name, "whole disk (unknown partition : 0)");
    assert_eq!(p.partitions[0].cf_name, "whole disk (unknown partition : 0)");
}

#[test]
fn element_type_names() {
    assert_eq!(ElementType::ArrayElm.to_str(), "array");
    assert_eq!(ElementType::DictElm.to_str(), "dict");
    assert_eq!(ElementType::DataElm.to_str(), "data");
    assert_eq!(ElementType::KeyElm.to_str(), "key");
    assert_eq!(ElementType::StringElm.to_str(), "string");
}

#[test]
fn parse_id_values() {
    assert_eq!(parse_id("0"), Some(0));
    assert_eq!(parse_id("-1"), Some(-1));
    assert_eq!(parse_id("+42"), Some(42));
    assert_eq!(parse_id("2147483647"), Some(i32::MAX));
    assert_eq!(parse_id("-2147483648"), Some(i32::MIN));
    assert_eq!(parse_id("2147483648"), None);
    assert_eq!(parse_id("99999999999999999999"), None);
    assert_eq!(parse_id(""), None);
    assert_eq!(parse_id("-"), None);
    assert_eq!(parse_id("1a"), None);
    assert_eq!(parse_id(" 1"), None);
}

#[test]
fn text_is_compares_characters() {
    assert!(text_is("dict", "dict"));
    assert!(!text_is("dict", "Dict"));
    assert!(!text_is("dict", "dic"));
}

#[test]
fn plist_key_without_value_is_missing() {
    let mut doc = partition_dict(&canonical());
    doc = doc.replace("<key>Name</key>", "<key>Name</key><key>Other</key>");
    assert_eq!(PList::from_bytes(document(&[doc])), Err(XMLError::MissingKey(PlistKey::Name)));
    let mut order = canonical();
    order.pop();
    let last = partition_dict(&order).replace("</dict>", "<key>Name</key></dict>");
    assert_eq!(PList::from_bytes(document(&[last])), Err(XMLError::MissingKey(PlistKey::Name)));
}

#[test]
fn plist_key_with_value_after_valueless_duplicate() {
    let mut order = canonical();
    order.pop();
    let doubled = partition_dict(&order).replace(
        "</dict>",
        "<key>Name</key><key>Name</key><string>second</string></dict>",
    );
    let p = PList::from_bytes(document(&[doubled])).unwrap();
    assert_eq!(p.partitions[0].name, "second");
}
