use vstd::prelude::*;

use crate::mish::decode_mish_text;
use crate::partition::{
    decimal_i32, decode_partition, dict_value, is_key_item, lemma_first_pair, PartitionEntry,
    PartitionModel,
};
use crate::util;

verus! {

/// Which fixed-layout block a signature check was made for.
#[derive(Debug, Clone, Copy, PartialEq, Eq)]
pub enum Signature {
    Koly,
    Mish,
}

/// The keys that a property list must hold.
#[derive(Debug, Clone, Copy, PartialEq, Eq)]
pub enum PlistKey {
    ResourceFork,
    Blkx,
    Attributes,
    CFName,
    Data,
    ID,
    Name,
}

/// Ways that decoding or building an image might fail
#[derive(Debug, PartialEq, Eq)]
pub enum XMLError {
    /// A decoder wanted more bytes than remained: (wanted, remaining)
    ShortBuffer(u64, u64),
    /// A trailer or mish signature did not match
    BadMagic(Signature),
    /// A chunk entry carried a code outside the known set
    UnknownChunkType(u32),
    /// The chunk table's length disagrees with its declared entry count
    ChunkTableTruncated,
    /// The chunk table does not cover the partition's sectors in order, or its data regions
    /// overlap
    BadChunkLayout,
    /// A `Data` payload is not valid base64
    BadBase64,
    /// The property list is not well-formed XML or does not have the expected shape
    XmlMalformed,
    /// A required key is absent from the property list
    MissingKey(PlistKey),
    /// An `ID` value is not a signed decimal integer
    ParseInt,
    /// The source length is not a whole number of sectors
    UnalignedInput,
    /// The compressor refused its input
    CodecFailure,
}

/// One child of an XML element: an element, character data (text or CDATA), or anything
/// else (a comment or a processing instruction).
pub enum XmlItem {
    Element(XmlTree),
    Text(Seq<char>),
    Other,
}

/// What an XML element holds: its local name, its attributes, its children in document
/// order, and whether it is plain. A plain element is one where neither it nor any element
/// below it carries a namespace prefix, a namespace, a namespace list, more than one
/// attribute, or a child that is a comment, a processing instruction or CDATA; for such an
/// element the model keeps everything that is written out.
pub struct XmlTree {
    pub name: Seq<char>,
    pub attributes: Map<Seq<char>, Seq<char>>,
    pub children: Seq<XmlItem>,
    pub plain: bool,
}

/// Relies on `xmltree::Element` as an opaque value: verified code carries elements and reads
/// them only through the wrappers below, which speak of `xml_tree`.
#[verifier::external_type_specification]
#[verifier::external_body]
pub struct ExElement(xmltree::Element);

/// The contents of an `xmltree` element.
pub uninterp spec fn xml_tree(e: xmltree::Element) -> XmlTree;

/// The root element that `xmltree` parses from `data`, or `None` where `data` is not a
/// well-formed XML document.
pub uninterp spec fn xml_parsed(data: Seq<u8>) -> Option<XmlTree>;

/// The bytes that `xmltree` writes for a plain element, without a document declaration.
pub uninterp spec fn xml_written(t: XmlTree) -> Seq<u8>;

/// The concatenated character data among `items`.
pub open spec fn item_text(items: Seq<XmlItem>) -> Seq<char>
    decreases items.len(),
{
    if items.len() == 0 {
        Seq::empty()
    } else {
        item_text(items.drop_last()) + match items.last() {
            XmlItem::Text(s) => s,
            _ => Seq::empty(),
        }
    }
}

/// The text of an element: its character data, or `None` where it has none.
pub open spec fn text_of(t: XmlTree) -> Option<Seq<char>> {
    if exists|i: int| 0 <= i < t.children.len() && #[trigger] t.children[i] is Text {
        Some(item_text(t.children))
    } else {
        None
    }
}

/// Relies on `xmltree::Element::new`: a new element with the given name and nothing else.
pub assume_specification[ xmltree::Element::new ](name: &str) -> (r: xmltree::Element)
    ensures
        xml_tree(r) == (XmlTree {
            name: name@,
            attributes: Map::empty(),
            children: Seq::empty(),
            plain: true,
        }),
;

/// Relies on `xmltree::Element::parse`, which builds the tree from the events of `xml-rs`
/// (CDATA kept as text, whitespace-only text dropped) and fails on malformed input.
#[verifier::external_body]
fn parse_xml(data: &[u8]) -> (r: Option<xmltree::Element>)
    ensures
        match r {
            Some(e) => xml_parsed(data@) == Some(xml_tree(e)),
            None => xml_parsed(data@) is None,
        },
{
    xmltree::Element::parse(data).ok()
}

/// Relies on `xmltree::Element::write_with_config` with the document declaration turned
/// off: for a plain element the model keeps all that is written and attribute order cannot
/// vary, so the bytes depend on the tree alone. The `xml-rs` emitter fails only on an I/O
/// error, which a `Vec` never gives, or on a closing tag that does not match, which
/// `xmltree` never writes.
#[verifier::external_body]
fn write_xml(e: &xmltree::Element) -> (r: Option<Vec<u8>>)
    requires
        xml_tree(*e).plain,
    ensures
        r is Some,
        r matches Some(b) ==> b@ == xml_written(xml_tree(*e)),
{
    let mut out: Vec<u8> = Vec::new();
    let config = xmltree::EmitterConfig::new().write_document_declaration(false);
    match e.write_with_config(&mut out, config) {
        Ok(()) => Some(out),
        Err(_) => None,
    }
}

/// Relies on the public `children` field of `xmltree::Element`.
#[verifier::external_body]
pub(crate) fn child_count(e: &xmltree::Element) -> (r: usize)
    ensures
        r == xml_tree(*e).children.len(),
{
    e.children.len()
}

/// Relies on `xmltree::XMLNode::as_element` on child `i`.
#[verifier::external_body]
pub(crate) fn child_element(e: &xmltree::Element, i: usize) -> (r: Option<&xmltree::Element>)
    requires
        i < xml_tree(*e).children.len(),
    ensures
        match xml_tree(*e).children[i as int] {
            XmlItem::Element(t) => r matches Some(c) && xml_tree(*c) == t,
            _ => r is None,
        },
{
    e.children[i].as_element()
}

/// Relies on the public `name` field of `xmltree::Element`.
#[verifier::external_body]
pub(crate) fn element_name(e: &xmltree::Element) -> (r: &str)
    ensures
        r@ == xml_tree(*e).name,
{
    e.name.as_str()
}

/// Relies on `xmltree::Element::get_text`: the text and CDATA children concatenated, or
/// `None` where there are none.
#[verifier::external_body]
pub(crate) fn element_text(e: &xmltree::Element) -> (r: Option<String>)
    ensures
        match r {
            Some(s) => text_of(xml_tree(*e)) == Some(s@),
            None => text_of(xml_tree(*e)) is None,
        },
{
    e.get_text().map(std::borrow::Cow::into_owned)
}

/// Relies on pushing an `xmltree::XMLNode::Element` onto the public `children` field.
#[verifier::external_body]
fn push_element(parent: &mut xmltree::Element, child: xmltree::Element)
    ensures
        xml_tree(*final(parent)) == (XmlTree {
            children: xml_tree(*old(parent)).children.push(XmlItem::Element(xml_tree(child))),
            plain: xml_tree(*old(parent)).plain && xml_tree(child).plain,
            ..xml_tree(*old(parent))
        }),
{
    parent.children.push(xmltree::XMLNode::Element(child));
}

/// Relies on pushing an `xmltree::XMLNode::Text` onto the public `children` field.
#[verifier::external_body]
fn push_text(parent: &mut xmltree::Element, text: String)
    ensures
        xml_tree(*final(parent)) == (XmlTree {
            children: xml_tree(*old(parent)).children.push(XmlItem::Text(text@)),
            ..xml_tree(*old(parent))
        }),
{
    parent.children.push(xmltree::XMLNode::Text(text));
}

/// Relies on `HashMap::insert` on the public `attributes` field.
#[verifier::external_body]
fn set_attribute(e: &mut xmltree::Element, key: String, value: String)
    ensures
        xml_tree(*final(e)) == (XmlTree {
            attributes: xml_tree(*old(e)).attributes.insert(key@, value@),
            plain: xml_tree(*old(e)).plain && xml_tree(*old(e)).attributes.dom().subset_of(
                set![key@],
            ),
            ..xml_tree(*old(e))
        }),
{
    e.attributes.insert(key, value);
}

/// Whether two strings hold the same characters.
pub fn text_is(a: &str, b: &str) -> (r: bool)
    ensures
        r == (a@ == b@),
{
    let x = a.as_bytes();
    let y = b.as_bytes();
    if x.len() != y.len() {
        proof {
            if a@ == b@ {
                assert(x@ == y@);
            }
        }
        return false;
    }
    let mut i: usize = 0;
    while i < x.len()
        invariant
            x@ == vstd::utf8::encode_utf8(a@),
            y@ == vstd::utf8::encode_utf8(b@),
            x@.len() == y@.len(),
            i <= x@.len(),
            forall|j: int| 0 <= j < i ==> x@[j] == y@[j],
        decreases x@.len() - i,
    {
        if x[i] != y[i] {
            proof {
                if a@ == b@ {
                    assert(x@ == y@);
                }
            }
            return false;
        }
        i = i + 1;
    }
    proof {
        assert(x@ =~= y@);
        vstd::utf8::encode_utf8_decode_utf8(a@);
        vstd::utf8::encode_utf8_decode_utf8(b@);
    }
    true
}

/// The index of the first element named `name` among `items[from..]`.
pub open spec fn first_element_named(items: Seq<XmlItem>, name: Seq<char>, from: int) -> Option<
    int,
>
    decreases items.len() - from,
{
    if from < 0 || from >= items.len() {
        None
    } else if items[from] is Element && items[from]->Element_0.name == name {
        Some(from)
    } else {
        first_element_named(items, name, from + 1)
    }
}

/// What decoding the partition dicts among `items` gives: one partition per element, in
/// order, or the error of the first element that does not decode.
pub open spec fn decode_partitions(items: Seq<XmlItem>) -> Result<Seq<PartitionModel>, XMLError>
    decreases items.len(),
{
    if items.len() == 0 {
        Ok(Seq::empty())
    } else {
        match decode_partitions(items.drop_last()) {
            Err(e) => Err(e),
            Ok(ps) => match items.last() {
                XmlItem::Element(d) => match decode_partition(d) {
                    Err(e) => Err(e),
                    Ok(p) => Ok(ps.push(p)),
                },
                _ => Ok(ps),
            },
        }
    }
}

/// What decoding a property-list root gives: the partitions listed under
/// `plist > dict > resource-fork > blkx`.
pub open spec fn decode_plist(t: XmlTree) -> Result<Seq<PartitionModel>, XMLError> {
    if t.name != "plist"@ {
        Err(XMLError::XmlMalformed)
    } else {
        match first_element_named(t.children, "dict"@, 0) {
            None => Err(XMLError::XmlMalformed),
            Some(i) => match dict_value(
                t.children[i]->Element_0,
                "resource-fork"@,
                PlistKey::ResourceFork,
            ) {
                Err(e) => Err(e),
                Ok(rf) => if rf.name != "dict"@ {
                    Err(XMLError::XmlMalformed)
                } else {
                    match dict_value(rf, "blkx"@, PlistKey::Blkx) {
                        Err(e) => Err(e),
                        Ok(arr) => if arr.name != "array"@ {
                            Err(XMLError::XmlMalformed)
                        } else {
                            decode_partitions(arr.children)
                        },
                    }
                },
            },
        }
    }
}

/// What decoding the bytes of a property list gives.
pub open spec fn decode_plist_bytes(data: Seq<u8>) -> Result<Seq<PartitionModel>, XMLError> {
    match xml_parsed(data) {
        None => Err(XMLError::XmlMalformed),
        Some(t) => decode_plist(t),
    }
}

/// Once an element fails to decode, the partitions after it do not change the error.
pub proof fn lemma_decode_partitions_err_persists(items: Seq<XmlItem>, k: int)
    requires
        0 <= k <= items.len(),
        decode_partitions(items.take(k)) is Err,
    ensures
        decode_partitions(items) == decode_partitions(items.take(k)),
    decreases items.len() - k,
{
    if k < items.len() {
        assert(items.take(k + 1).drop_last() =~= items.take(k));
        lemma_decode_partitions_err_persists(items, k + 1);
    } else {
        assert(items.take(k) =~= items);
    }
}

#[derive(Debug, PartialEq, Eq)]
pub struct PList {
    /// Vector of GPT partitions
    pub partitions: Vec<PartitionEntry>,
}

impl View for PList {
    type V = Seq<PartitionModel>;

    open spec fn view(&self) -> Seq<PartitionModel> {
        self.partitions@.map_values(|p: PartitionEntry| p@)
    }
}

/// The XML element kinds that a property list is made of.
#[derive(Debug, Clone, Copy, PartialEq, Eq)]
pub enum ElementType {
    ArrayElm,
    DictElm,
    DataElm,
    KeyElm,
    StringElm,
}

/// The tag name of each element kind.
pub open spec fn element_type_name(t: ElementType) -> Seq<char> {
    match t {
        ElementType::ArrayElm => "array"@,
        ElementType::DataElm => "data"@,
        ElementType::DictElm => "dict"@,
        ElementType::KeyElm => "key"@,
        ElementType::StringElm => "string"@,
    }
}

impl ElementType {
    /// The tag name of this element kind.
    pub fn to_str(self) -> (r: &'static str)
        ensures
            r@ == element_type_name(self),
    {
        match self {
            ElementType::ArrayElm => "array",
            ElementType::DataElm => "data",
            ElementType::DictElm => "dict",
            ElementType::KeyElm => "key",
            ElementType::StringElm => "string",
        }
    }
}

/// An element with the given name that holds only the text `text`.
pub open spec fn leaf(name: Seq<char>, text: Seq<char>) -> XmlTree {
    XmlTree {
        name,
        attributes: Map::empty(),
        children: seq![XmlItem::Text(text)],
        plain: true,
    }
}

/// An element with the given name whose children are the elements `children`.
pub open spec fn branch(name: Seq<char>, children: Seq<XmlTree>) -> XmlTree {
    XmlTree {
        name,
        attributes: Map::empty(),
        children: children.map_values(|c: XmlTree| XmlItem::Element(c)),
        plain: true,
    }
}

/// The name written for the single partition of a new image.
pub open spec fn whole_disk_name() -> Seq<char> {
    "whole disk (unknown partition : 0)"@
}

/// The partition dict of a new image, whose `Data` is `mish` (base64 text).
pub open spec fn partition_tree(mish: Seq<char>) -> XmlTree {
    branch(
        "dict"@,
        seq![
            leaf("key"@, "Attributes"@),
            leaf("string"@, "0x0050"@),
            leaf("key"@, "CFName"@),
            leaf("string"@, whole_disk_name()),
            leaf("key"@, "Data"@),
            leaf("data"@, mish),
            leaf("key"@, "ID"@),
            leaf("string"@, "0"@),
            leaf("key"@, "Name"@),
            leaf("string"@, whole_disk_name()),
        ],
    )
}

/// The property list of a new image with one partition whose `Data` is `mish`.
pub open spec fn plist_tree(mish: Seq<char>) -> XmlTree {
    XmlTree {
        attributes: Map::empty().insert("version"@, "1.0"@),
        ..branch(
            "plist"@,
            seq![
                branch(
                    "dict"@,
                    seq![
                        leaf("key"@, "resource-fork"@),
                        branch(
                            "dict"@,
                            seq![
                                leaf("key"@, "blkx"@),
                                branch("array"@, seq![partition_tree(mish)]),
                                leaf("key"@, "plst"@),
                                branch("array"@, Seq::empty()),
                            ],
                        ),
                    ],
                ),
            ],
        )
    }
}

/// The XML declaration and the Apple property-list document type, each on its own line.
pub open spec fn plist_prologue() -> Seq<u8> {
    vstd::utf8::encode_utf8(
        "<?xml version=\"1.0\" encoding=\"UTF-8\"?>\n<!DOCTYPE plist PUBLIC \"-//Apple//DTD PLIST 1.0//EN\" \"http://www.apple.com/DTDs/PropertyList-1.0.dtd\">\n"@,
    )
}

/// The bytes of the property list of a new image with one partition whose `Data` is `mish`.
pub open spec fn plist_bytes(mish: Seq<char>) -> Seq<u8> {
    plist_prologue() + xml_written(plist_tree(mish))
}

/// The text of an element that holds only `text` is `text`.
pub proof fn lemma_leaf_text(name: Seq<char>, text: Seq<char>)
    ensures
        text_of(leaf(name, text)) == Some(text),
{
    let t = leaf(name, text);
    assert(t.children[0] is Text);
    assert(t.children.drop_last() =~= Seq::<XmlItem>::empty());
    assert(item_text(t.children.drop_last()) == Seq::<char>::empty());
    assert(Seq::<char>::empty() + text =~= text);
}

/// The partition that the property list of a new image holds, given that its `Data` text
/// decodes to the mish block `m`.
pub open spec fn built_partition(m: crate::mish::MishModel) -> PartitionModel {
    PartitionModel {
        attributes: "0x0050"@,
        cf_name: whole_disk_name(),
        data: m,
        id: 0,
        name: whole_disk_name(),
    }
}

/// The partition dict of a new image decodes to its partition.
pub proof fn lemma_partition_tree_decodes(mish: Seq<char>)
    requires
        decode_mish_text(mish) is Ok,
    ensures
        decode_partition(partition_tree(mish)) == Ok::<PartitionModel, XMLError>(
            built_partition(decode_mish_text(mish)->Ok_0),
        ),
{
    reveal_strlit("key");
    reveal_strlit("string");
    reveal_strlit("data");
    reveal_strlit("Attributes");
    reveal_strlit("CFName");
    reveal_strlit("Data");
    reveal_strlit("ID");
    reveal_strlit("Name");
    let d = partition_tree(mish);
    let items = d.children;
    lemma_leaf_text("key"@, "Attributes"@);
    lemma_leaf_text("key"@, "CFName"@);
    lemma_leaf_text("key"@, "Data"@);
    lemma_leaf_text("key"@, "ID"@);
    lemma_leaf_text("key"@, "Name"@);
    lemma_leaf_text("string"@, "0x0050"@);
    lemma_leaf_text("string"@, whole_disk_name());
    lemma_leaf_text("data"@, mish);
    lemma_leaf_text("string"@, "0"@);
    assert(items[0] is Element && items[0]->Element_0.name == "key"@);
    assert(items[1] is Element && items[1]->Element_0.name == "string"@);
    assert(items[2] is Element && items[2]->Element_0.name == "key"@);
    assert(items[3] is Element && items[3]->Element_0.name == "string"@);
    assert(items[4] is Element && items[4]->Element_0.name == "key"@);
    assert(items[5] is Element && items[5]->Element_0.name == "data"@);
    assert(items[6] is Element && items[6]->Element_0.name == "key"@);
    assert(items[7] is Element && items[7]->Element_0.name == "string"@);
    assert(items[8] is Element && items[8]->Element_0.name == "key"@);
    assert(items[9] is Element && items[9]->Element_0.name == "string"@);
    assert(is_key_item(items[0], "Attributes"@));
    assert(!is_key_item(items[0], "CFName"@));
    assert(!is_key_item(items[0], "Data"@));
    assert(!is_key_item(items[0], "ID"@));
    assert(!is_key_item(items[0], "Name"@));
    assert(!is_key_item(items[1], "CFName"@));
    assert(!is_key_item(items[1], "Data"@));
    assert(!is_key_item(items[1], "ID"@));
    assert(!is_key_item(items[1], "Name"@));
    assert(is_key_item(items[2], "CFName"@));
    assert(!is_key_item(items[2], "Data"@));
    assert(!is_key_item(items[2], "ID"@));
    assert(!is_key_item(items[2], "Name"@));
    assert(!is_key_item(items[3], "Data"@));
    assert(!is_key_item(items[3], "ID"@));
    assert(!is_key_item(items[3], "Name"@));
    assert(is_key_item(items[4], "Data"@));
    assert(!is_key_item(items[4], "ID"@));
    assert("Data"@[0] != "Name"@[0]);
    assert(!is_key_item(items[4], "Name"@));
    assert(!is_key_item(items[5], "ID"@));
    assert(!is_key_item(items[5], "Name"@));
    assert(is_key_item(items[6], "ID"@));
    assert(!is_key_item(items[6], "Name"@));
    assert(!is_key_item(items[7], "Name"@));
    assert(is_key_item(items[8], "Name"@));
    assert("string"@ != "key"@ && "data"@ != "key"@);
    lemma_first_pair(items, "Attributes"@, 0, 0);
    lemma_first_pair(items, "CFName"@, 0, 2);
    lemma_first_pair(items, "Data"@, 0, 4);
    lemma_first_pair(items, "ID"@, 0, 6);
    lemma_first_pair(items, "Name"@, 0, 8);
    lemma_zero_id();
}

/// The text "0" is the ID 0.
pub proof fn lemma_zero_id()
    ensures
        decimal_i32(vstd::utf8::encode_utf8("0"@)) == Some(0i32),
{
    reveal_strlit("0");
    reveal_with_fuel(crate::partition::digits_value, 2);
    let zero = vstd::utf8::encode_utf8("0"@);
    assert(vstd::utf8::is_ascii_chars("0"@));
    vstd::utf8::is_ascii_chars_encode_utf8("0"@);
    assert(zero.len() == 1 && zero[0] == 0x30);
    assert(zero.drop_last() =~= Seq::<u8>::empty());
    assert(crate::partition::all_digits(zero));
}

/// The decoder accepts the property list that `PList::build` writes: where the `Data` text
/// decodes to a mish block, the tree decodes to that one partition, with ID 0, attributes
/// "0x0050" and the whole-disk name.
pub proof fn lemma_built_plist_decodes(mish: Seq<char>)
    requires
        decode_mish_text(mish) is Ok,
    ensures
        decode_plist(plist_tree(mish)) == Ok::<Seq<PartitionModel>, XMLError>(
            seq![built_partition(decode_mish_text(mish)->Ok_0)],
        ),
{
    reveal_strlit("dict");
    reveal_strlit("key");
    reveal_strlit("array");
    reveal_with_fuel(first_element_named, 2);
    reveal_with_fuel(decode_partitions, 2);
    lemma_leaf_text("key"@, "resource-fork"@);
    lemma_leaf_text("key"@, "blkx"@);
    let t = plist_tree(mish);
    assert(first_element_named(t.children, "dict"@, 0) == Some(0int));
    let outer = t.children[0]->Element_0;
    assert(outer.children[1] is Element && outer.children[1]->Element_0.name == "dict"@);
    assert("dict"@ != "key"@);
    assert(is_key_item(outer.children[0], "resource-fork"@));
    lemma_first_pair(outer.children, "resource-fork"@, 0, 0);
    let rf = outer.children[1]->Element_0;
    assert(rf.children[1] is Element && rf.children[1]->Element_0.name == "array"@);
    assert("array"@ != "key"@);
    assert(is_key_item(rf.children[0], "blkx"@));
    lemma_first_pair(rf.children, "blkx"@, 0, 0);
    let arr = rf.children[1]->Element_0;
    lemma_partition_tree_decodes(mish);
    assert(arr.children.drop_last() =~= Seq::<XmlItem>::empty());
    assert(seq![built_partition(decode_mish_text(mish)->Ok_0)] =~= Seq::<PartitionModel>::empty().push(
        built_partition(decode_mish_text(mish)->Ok_0),
    ));
}

impl PList {
    /// Decodes a property list from its bytes.
    pub fn from_bytes(data: Vec<u8>) -> (r: Result<PList, XMLError>)
        ensures
            r is Ok <==> decode_plist_bytes(data@) is Ok,
            r matches Ok(p) ==> decode_plist_bytes(data@) == Ok::<Seq<PartitionModel>, XMLError>(
                p@,
            ),
            r matches Err(e) ==> decode_plist_bytes(data@) == Err::<
                Seq<PartitionModel>,
                XMLError,
            >(e),
    {
        match parse_xml(data.as_slice()) {
            None => Err(XMLError::XmlMalformed),
            Some(root) => PList::from_element(&root),
        }
    }

    /// Decodes the partitions listed under `plist > dict > resource-fork > blkx`.
    pub fn from_element(root: &xmltree::Element) -> (r: Result<PList, XMLError>)
        ensures
            r is Ok <==> decode_plist(xml_tree(*root)) is Ok,
            r matches Ok(p) ==> decode_plist(xml_tree(*root)) == Ok::<
                Seq<PartitionModel>,
                XMLError,
            >(p@),
            r matches Err(e) ==> decode_plist(xml_tree(*root)) == Err::<
                Seq<PartitionModel>,
                XMLError,
            >(e),
    {
        if !text_is(element_name(root), "plist") {
            return Err(XMLError::XmlMalformed);
        }
        let outer = match PList::first_child_named(root, "dict") {
            Some(d) => d,
            None => return Err(XMLError::XmlMalformed),
        };
        let resource_fork = match PartitionEntry::find_index_for(
            "resource-fork",
            PlistKey::ResourceFork,
            outer,
        ) {
            Ok(v) => v,
            Err(e) => return Err(e),
        };
        if !text_is(element_name(resource_fork), "dict") {
            return Err(XMLError::XmlMalformed);
        }
        let blk_array = match PartitionEntry::find_index_for("blkx", PlistKey::Blkx, resource_fork) {
            Ok(v) => v,
            Err(e) => return Err(e),
        };
        if !text_is(element_name(blk_array), "array") {
            return Err(XMLError::XmlMalformed);
        }
        let ghost items = xml_tree(*blk_array).children;
        let n = child_count(blk_array);
        let mut partitions: Vec<PartitionEntry> = Vec::new();
        let mut i: usize = 0;
        assert(decode_plist(xml_tree(*root)) == decode_partitions(items));
        assert(items.take(0) =~= Seq::<XmlItem>::empty());
        assert(partitions@.map_values(|p: PartitionEntry| p@) =~= Seq::<PartitionModel>::empty());
        while i < n
            invariant
                decode_plist(xml_tree(*root)) == decode_partitions(items),
                n == items.len(),
                items == xml_tree(*blk_array).children,
                i <= n,
                decode_partitions(items.take(i as int)) == Ok::<Seq<PartitionModel>, XMLError>(
                    partitions@.map_values(|p: PartitionEntry| p@),
                ),
            decreases n - i,
        {
            assert(items.take(i + 1).drop_last() =~= items.take(i as int));
            match child_element(blk_array, i) {
                Some(d) => {
                    match PartitionEntry::new(d) {
                        Ok(p) => {
                            partitions.push(p);
                        },
                        Err(e) => {
                            proof {
                                lemma_decode_partitions_err_persists(items, i + 1);
                            }
                            return Err(e);
                        },
                    }
                },
                None => {},
            }
            assert(partitions@.map_values(|p: PartitionEntry| p@) =~= decode_partitions(
                items.take(i + 1),
            )->Ok_0);
            i = i + 1;
        }
        assert(items.take(n as int) =~= items);
        Ok(PList { partitions })
    }

    /// The property list of a new image: one partition whose `Data` is `mish` (base64 text),
    /// preceded by the XML declaration and the property-list document type.
    pub fn build(mish: String) -> (r: Result<Vec<u8>, XMLError>)
        ensures
            r matches Ok(b) && b@ == plist_bytes(mish@),
    {
        let ghost text = mish@;
        let mut root = xmltree::Element::new("plist");
        set_attribute(&mut root, "version".to_owned(), "1.0".to_owned());
        assert(Map::<Seq<char>, Seq<char>>::empty().dom().subset_of(set!["version"@]));
        let mut outer = xmltree::Element::new("dict");
        push_element(&mut outer, PList::component(ElementType::KeyElm, "resource-fork".to_owned()));
        let mut resource_fork = xmltree::Element::new("dict");
        push_element(&mut resource_fork, PList::component(ElementType::KeyElm, "blkx".to_owned()));
        let mut blk_array = xmltree::Element::new("array");
        push_element(&mut blk_array, PList::partition(mish));
        assert(xml_tree(blk_array) == branch("array"@, seq![partition_tree(text)])) by {
            assert(xml_tree(blk_array).children =~= seq![partition_tree(text)].map_values(
                |c: XmlTree| XmlItem::Element(c),
            ));
        }
        push_element(&mut resource_fork, blk_array);
        push_element(&mut resource_fork, PList::component(ElementType::KeyElm, "plst".to_owned()));
        let empty_array = xmltree::Element::new("array");
        assert(xml_tree(empty_array) == branch("array"@, Seq::empty())) by {
            assert(xml_tree(empty_array).children =~= Seq::<XmlTree>::empty().map_values(
                |c: XmlTree| XmlItem::Element(c),
            ));
        }
        push_element(&mut resource_fork, empty_array);
        let ghost rf_children = seq![
            leaf("key"@, "blkx"@),
            branch("array"@, seq![partition_tree(text)]),
            leaf("key"@, "plst"@),
            branch("array"@, Seq::empty()),
        ];
        assert(xml_tree(resource_fork) == branch("dict"@, rf_children)) by {
            assert(xml_tree(resource_fork).children =~= rf_children.map_values(
                |c: XmlTree| XmlItem::Element(c),
            ));
        }
        push_element(&mut outer, resource_fork);
        let ghost outer_children = seq![
            leaf("key"@, "resource-fork"@),
            branch("dict"@, rf_children),
        ];
        assert(xml_tree(outer) == branch("dict"@, outer_children)) by {
            assert(xml_tree(outer).children =~= outer_children.map_values(
                |c: XmlTree| XmlItem::Element(c),
            ));
        }
        push_element(&mut root, outer);
        assert(xml_tree(root) == plist_tree(text)) by {
            assert(xml_tree(root).children =~= seq![branch("dict"@, outer_children)].map_values(
                |c: XmlTree| XmlItem::Element(c),
            ));
        }
        match write_xml(&root) {
            None => Err(XMLError::XmlMalformed),
            Some(body) => {
                let mut out: Vec<u8> = Vec::new();
                util::push_bytes(
                    &mut out,
                    "<?xml version=\"1.0\" encoding=\"UTF-8\"?>\n<!DOCTYPE plist PUBLIC \"-//Apple//DTD PLIST 1.0//EN\" \"http://www.apple.com/DTDs/PropertyList-1.0.dtd\">\n".as_bytes(),
                );
                util::push_bytes(&mut out, body.as_slice());
                Ok(out)
            },
        }
    }

    /// The partition dict of a new image, with the five keys in their usual order.
    fn partition(mish: String) -> (r: xmltree::Element)
        ensures
            xml_tree(r) == partition_tree(mish@),
    {
        let ghost text = mish@;
        let mut part = xmltree::Element::new("dict");
        push_element(&mut part, PList::component(ElementType::KeyElm, "Attributes".to_owned()));
        push_element(&mut part, PList::component(ElementType::StringElm, "0x0050".to_owned()));
        push_element(&mut part, PList::component(ElementType::KeyElm, "CFName".to_owned()));
        push_element(
            &mut part,
            PList::component(ElementType::StringElm, "whole disk (unknown partition : 0)".to_owned()),
        );
        push_element(&mut part, PList::component(ElementType::KeyElm, "Data".to_owned()));
        push_element(&mut part, PList::component(ElementType::DataElm, mish));
        push_element(&mut part, PList::component(ElementType::KeyElm, "ID".to_owned()));
        push_element(&mut part, PList::component(ElementType::StringElm, "0".to_owned()));
        push_element(&mut part, PList::component(ElementType::KeyElm, "Name".to_owned()));
        push_element(
            &mut part,
            PList::component(ElementType::StringElm, "whole disk (unknown partition : 0)".to_owned()),
        );
        assert(xml_tree(part).children =~= seq![
            leaf("key"@, "Attributes"@),
            leaf("string"@, "0x0050"@),
            leaf("key"@, "CFName"@),
            leaf("string"@, whole_disk_name()),
            leaf("key"@, "Data"@),
            leaf("data"@, text),
            leaf("key"@, "ID"@),
            leaf("string"@, "0"@),
            leaf("key"@, "Name"@),
            leaf("string"@, whole_disk_name()),
        ].map_values(|c: XmlTree| XmlItem::Element(c)));
        part
    }

    /// An element of the given kind holding only `text`.
    fn component(element_type: ElementType, text: String) -> (r: xmltree::Element)
        ensures
            xml_tree(r) == leaf(element_type_name(element_type), text@),
    {
        let mut c = xmltree::Element::new(element_type.to_str());
        push_text(&mut c, text);
        assert(xml_tree(c).children =~= seq![XmlItem::Text(text@)]);
        c
    }

    /// The first child element of `e` named `name`.
    fn first_child_named<'a>(e: &'a xmltree::Element, name: &str) -> (r: Option<
        &'a xmltree::Element,
    >)
        ensures
            match first_element_named(xml_tree(*e).children, name@, 0) {
                Some(i) => r matches Some(c) && xml_tree(*c) == xml_tree(*e).children[i]->Element_0,
                None => r is None,
            },
    {
        let ghost items = xml_tree(*e).children;
        let n = child_count(e);
        let mut i: usize = 0;
        while i < n
            invariant
                n == items.len(),
                items == xml_tree(*e).children,
                i <= n,
                first_element_named(items, name@, 0) == first_element_named(items, name@, i as int),
            decreases n - i,
        {
            match child_element(e, i) {
                Some(c) => {
                    if text_is(element_name(c), name) {
                        return Some(c);
                    }
                },
                None => {},
            }
            i = i + 1;
        }
        None
    }
}

} // verus!
