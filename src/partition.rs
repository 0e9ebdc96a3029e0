use vstd::prelude::*;

use crate::mish::{decode_mish_text, MishBlock, MishModel};
use crate::xml::{
    child_count, child_element, element_name, element_text, text_is, text_of, xml_tree, PlistKey,
    XMLError, XmlItem, XmlTree,
};

verus! {

/// Describes a GPT partition
#[derive(Debug, PartialEq, Eq)]
pub struct PartitionEntry {
    /// Some attributes as a hex string. Generally 0x0050 ?
    pub attributes: String,
    /// Core Foundation name of the partition
    pub cf_name: String,
    /// Base64 encoded string, decoded into a mish block
    pub data: MishBlock,
    /// Id in the range -1...number of partition entries
    pub id: i32,
    /// Always seems to be the same as cf_name
    pub name: String,
}

/// The value a partition entry holds.
pub struct PartitionModel {
    pub attributes: Seq<char>,
    pub cf_name: Seq<char>,
    pub data: MishModel,
    pub id: i32,
    pub name: Seq<char>,
}

impl View for PartitionEntry {
    type V = PartitionModel;

    open spec fn view(&self) -> PartitionModel {
        PartitionModel {
            attributes: self.attributes@,
            cf_name: self.cf_name@,
            data: self.data@,
            id: self.id,
            name: self.name@,
        }
    }
}

/// Whether `item` is a `<key>` element whose text is `key`.
pub open spec fn is_key_item(item: XmlItem, key: Seq<char>) -> bool {
    match item {
        XmlItem::Element(t) => t.name == "key"@ && text_of(t) == Some(key),
        _ => false,
    }
}

/// The index of the first element among `items[from..]`.
pub open spec fn next_element_at(items: Seq<XmlItem>, from: int) -> Option<int>
    decreases items.len() - from,
{
    if from < 0 || from >= items.len() {
        None
    } else if items[from] is Element {
        Some(from)
    } else {
        next_element_at(items, from + 1)
    }
}

/// The index of the value that pairs with the `<key>` element at `i`: the first element after
/// it, where that element is not itself a `<key>`.
pub open spec fn value_after(items: Seq<XmlItem>, i: int) -> Option<int> {
    match next_element_at(items, i + 1) {
        Some(j) => if items[j]->Element_0.name != "key"@ {
            Some(j)
        } else {
            None
        },
        None => None,
    }
}

/// The index of the first `<key>` element among `items[from..]` whose text is `key` and
/// which has a value.
pub open spec fn first_pair_at(items: Seq<XmlItem>, key: Seq<char>, from: int) -> Option<int>
    decreases items.len() - from,
{
    if from < 0 || from >= items.len() {
        None
    } else if is_key_item(items[from], key) && value_after(items, from) is Some {
        Some(from)
    } else {
        first_pair_at(items, key, from + 1)
    }
}

/// The value paired with `key` in the dict `d`: the value of the first `<key>` element whose
/// text is `key` and which has one.
pub open spec fn dict_value(d: XmlTree, key: Seq<char>, which: PlistKey) -> Result<
    XmlTree,
    XMLError,
> {
    match first_pair_at(d.children, key, 0) {
        None => Err(XMLError::MissingKey(which)),
        Some(i) => Ok(d.children[value_after(d.children, i)->Some_0]->Element_0),
    }
}

/// Where the `<key>` element at `i` is the first one for `key` from `from` on and the element
/// right after it is a value, lookup from `from` finds that pair.
pub proof fn lemma_first_pair(items: Seq<XmlItem>, key: Seq<char>, from: int, i: int)
    requires
        0 <= from <= i,
        i + 1 < items.len(),
        forall|j: int| from <= j < i ==> !is_key_item(#[trigger] items[j], key),
        is_key_item(items[i], key),
        items[i + 1] is Element,
        items[i + 1]->Element_0.name != "key"@,
    ensures
        first_pair_at(items, key, from) == Some(i),
        value_after(items, i) == Some(i + 1),
    decreases i - from,
{
    if from < i {
        lemma_first_pair(items, key, from + 1, i);
    }
}

/// The text of an element, empty where it has none.
pub open spec fn text_or_empty(t: XmlTree) -> Seq<char> {
    match text_of(t) {
        Some(s) => s,
        None => Seq::empty(),
    }
}

/// The text of the value paired with `key`, which must be a `<tag>` element.
pub open spec fn typed_text(d: XmlTree, key: Seq<char>, which: PlistKey, tag: Seq<char>) -> Result<
    Seq<char>,
    XMLError,
> {
    match dict_value(d, key, which) {
        Err(e) => Err(e),
        Ok(v) => if v.name == tag {
            Ok(text_or_empty(v))
        } else {
            Err(XMLError::XmlMalformed)
        },
    }
}

/// Whether `b` is the byte of an ASCII digit.
pub open spec fn is_digit_byte(b: u8) -> bool {
    0x30 <= b <= 0x39
}

/// The value of a string of decimal digits.
pub open spec fn digits_value(s: Seq<u8>) -> int
    decreases s.len(),
{
    if s.len() == 0 {
        0
    } else {
        digits_value(s.drop_last()) * 10 + (s.last() - 0x30)
    }
}

/// Whether `s` is a non-empty string of decimal digits.
pub open spec fn all_digits(s: Seq<u8>) -> bool {
    s.len() > 0 && forall|i: int| 0 <= i < s.len() ==> is_digit_byte(#[trigger] s[i])
}

/// The signed decimal integer that `s` spells (an optional sign, then digits), where it
/// fits in an `i32`.
pub open spec fn decimal_i32(s: Seq<u8>) -> Option<i32> {
    let neg = s.len() > 0 && s[0] == 0x2D;
    let body = if s.len() > 0 && (s[0] == 0x2D || s[0] == 0x2B) {
        s.drop_first()
    } else {
        s
    };
    let v = if neg {
        -digits_value(body)
    } else {
        digits_value(body)
    };
    if all_digits(body) && i32::MIN <= v <= i32::MAX {
        Some(v as i32)
    } else {
        None
    }
}

/// What decoding a partition dict gives.
pub open spec fn decode_partition(d: XmlTree) -> Result<PartitionModel, XMLError> {
    if d.name != "dict"@ {
        Err(XMLError::XmlMalformed)
    } else {
        match typed_text(d, "Attributes"@, PlistKey::Attributes, "string"@) {
            Err(e) => Err(e),
            Ok(attributes) => match typed_text(d, "CFName"@, PlistKey::CFName, "string"@) {
                Err(e) => Err(e),
                Ok(cf_name) => match typed_text(d, "Data"@, PlistKey::Data, "data"@) {
                    Err(e) => Err(e),
                    Ok(data) => match typed_text(d, "ID"@, PlistKey::ID, "string"@) {
                        Err(e) => Err(e),
                        Ok(id) => match typed_text(d, "Name"@, PlistKey::Name, "string"@) {
                            Err(e) => Err(e),
                            Ok(name) => match decimal_i32(vstd::utf8::encode_utf8(id)) {
                                None => Err(XMLError::ParseInt),
                                Some(id) => match decode_mish_text(data) {
                                    Err(e) => Err(e),
                                    Ok(m) => Ok(
                                        PartitionModel { attributes, cf_name, data: m, id, name },
                                    ),
                                },
                            },
                        },
                    },
                },
            },
        }
    }
}

/// A longer run of digits is worth at least as much as its prefix.
pub proof fn lemma_digits_value_prefix(s: Seq<u8>, i: int)
    requires
        0 <= i <= s.len(),
        forall|j: int| 0 <= j < s.len() ==> is_digit_byte(#[trigger] s[j]),
    ensures
        digits_value(s.take(i)) <= digits_value(s),
        digits_value(s) >= 0,
    decreases s.len(),
{
    if s.len() > 0 {
        if i == s.len() {
            assert(s.take(i) =~= s);
            lemma_digits_value_prefix(s.drop_last(), 0);
        } else {
            lemma_digits_value_prefix(s.drop_last(), i);
            assert(s.take(i) =~= s.drop_last().take(i));
        }
    } else {
        assert(s.take(i) =~= s);
    }
}

/// Parses a signed decimal `i32`: an optional `+` or `-`, then one or more ASCII digits.
pub fn parse_id(text: &str) -> (r: Option<i32>)
    ensures
        r == decimal_i32(vstd::utf8::encode_utf8(text@)),
{
    let b = text.as_bytes();
    let ghost s = b@;
    let len = b.len();
    let neg = len > 0 && b[0] == 0x2D;
    let start: usize = if len > 0 && (b[0] == 0x2D || b[0] == 0x2B) {
        1
    } else {
        0
    };
    let ghost body = if s.len() > 0 && (s[0] == 0x2D || s[0] == 0x2B) {
        s.drop_first()
    } else {
        s
    };
    assert(body =~= s.subrange(start as int, s.len() as int));
    if start == len {
        return None;
    }
    let mut v: i64 = 0;
    let mut i: usize = start;
    while i < len
        invariant
            len == s.len(),
            b@ == s,
            s == vstd::utf8::encode_utf8(text@),
            neg == (s.len() > 0 && s[0] == 0x2D),
            body == (if s.len() > 0 && (s[0] == 0x2D || s[0] == 0x2B) {
                s.drop_first()
            } else {
                s
            }),
            start <= i <= len,
            body == s.subrange(start as int, s.len() as int),
            forall|j: int| start <= j < i ==> is_digit_byte(#[trigger] s[j]),
            v == digits_value(body.take(i - start)),
            0 <= v <= 0x8000_0000,
        decreases len - i,
    {
        let c = b[i];
        assert(body[i - start] == c);
        if c < 0x30 || c > 0x39 {
            assert(!is_digit_byte(body[i - start]));
            assert(!all_digits(body));
            return None;
        }
        let ghost k = i - start;
        assert(body.take(k + 1).drop_last() =~= body.take(k));
        assert(body.take(k + 1).last() == c);
        let next: i64 = v * 10 + (c - 0x30) as i64;
        assert(next == digits_value(body.take(k + 1)));
        if next > 0x8000_0000 {
            proof {
                if all_digits(body) {
                    lemma_digits_value_prefix(body, k + 1);
                    assert(digits_value(body) > 0x8000_0000);
                }
                assert(decimal_i32(s) is None);
            }
            return None;
        }
        v = next;
        i = i + 1;
    }
    assert(body.take(i - start) =~= body);
    if neg {
        Some((-v) as i32)
    } else if v > 0x7FFF_FFFF {
        None
    } else {
        Some(v as i32)
    }
}

impl PartitionEntry {
    /// Decodes a partition dict: the five keys are looked up by name, wherever they stand.
    pub fn new(element: &xmltree::Element) -> (r: Result<PartitionEntry, XMLError>)
        ensures
            r is Ok <==> decode_partition(xml_tree(*element)) is Ok,
            r matches Ok(p) ==> decode_partition(xml_tree(*element)) == Ok::<
                PartitionModel,
                XMLError,
            >(p@),
            r matches Err(e) ==> decode_partition(xml_tree(*element)) == Err::<
                PartitionModel,
                XMLError,
            >(e),
    {
        if !text_is(element_name(element), "dict") {
            return Err(XMLError::XmlMalformed);
        }
        let attributes = match PartitionEntry::typed_text(
            element,
            "Attributes",
            PlistKey::Attributes,
            "string",
        ) {
            Ok(t) => t,
            Err(e) => return Err(e),
        };
        let cf_name = match PartitionEntry::typed_text(element, "CFName", PlistKey::CFName, "string") {
            Ok(t) => t,
            Err(e) => return Err(e),
        };
        let data = match PartitionEntry::typed_text(element, "Data", PlistKey::Data, "data") {
            Ok(t) => t,
            Err(e) => return Err(e),
        };
        let id = match PartitionEntry::typed_text(element, "ID", PlistKey::ID, "string") {
            Ok(t) => t,
            Err(e) => return Err(e),
        };
        let name = match PartitionEntry::typed_text(element, "Name", PlistKey::Name, "string") {
            Ok(t) => t,
            Err(e) => return Err(e),
        };
        let id = match parse_id(id.as_str()) {
            Some(id) => id,
            None => return Err(XMLError::ParseInt),
        };
        let data = match MishBlock::from_base64(data) {
            Ok(m) => m,
            Err(e) => return Err(e),
        };
        Ok(PartitionEntry { attributes, cf_name, data, id, name })
    }

    /// The text of the value paired with `key` in `dict`, which must be a `<tag>` element.
    fn typed_text(dict: &xmltree::Element, key: &str, which: PlistKey, tag: &str) -> (r: Result<
        String,
        XMLError,
    >)
        ensures
            r is Ok <==> typed_text(xml_tree(*dict), key@, which, tag@) is Ok,
            r matches Ok(t) ==> typed_text(xml_tree(*dict), key@, which, tag@) == Ok::<
                Seq<char>,
                XMLError,
            >(t@),
            r matches Err(e) ==> typed_text(xml_tree(*dict), key@, which, tag@) == Err::<
                Seq<char>,
                XMLError,
            >(e),
    {
        let value = match PartitionEntry::find_index_for(key, which, dict) {
            Ok(v) => v,
            Err(e) => return Err(e),
        };
        if !text_is(element_name(value), tag) {
            return Err(XMLError::XmlMalformed);
        }
        match element_text(value) {
            Some(t) => Ok(t),
            None => Ok(String::new()),
        }
    }

    /// The value paired with `key` in `dict`: the element right after the first `<key>`
    /// element whose text is `key` and whose next element is not itself a `<key>`. A key
    /// with no such value counts as missing.
    pub fn find_index_for<'a>(key: &str, which: PlistKey, dict: &'a xmltree::Element) -> (r: Result<
        &'a xmltree::Element,
        XMLError,
    >)
        ensures
            r is Ok <==> dict_value(xml_tree(*dict), key@, which) is Ok,
            r matches Ok(v) ==> dict_value(xml_tree(*dict), key@, which) == Ok::<XmlTree, XMLError>(
                xml_tree(*v),
            ),
            r matches Err(e) ==> dict_value(xml_tree(*dict), key@, which) == Err::<
                XmlTree,
                XMLError,
            >(e),
    {
        let ghost items = xml_tree(*dict).children;
        let n = child_count(dict);
        let mut i: usize = 0;
        while i < n
            invariant
                n == items.len(),
                items == xml_tree(*dict).children,
                i <= n,
                first_pair_at(items, key@, 0) == first_pair_at(items, key@, i as int),
            decreases n - i,
        {
            let is_key = match child_element(dict, i) {
                Some(c) => text_is(element_name(c), "key") && match element_text(c) {
                    Some(t) => text_is(t.as_str(), key),
                    None => false,
                },
                None => false,
            };
            if is_key {
                match PartitionEntry::next_element(dict, i + 1) {
                    Some(j) => match child_element(dict, j) {
                        Some(v) => {
                            if !text_is(element_name(v), "key") {
                                return Ok(v);
                            }
                        },
                        None => {},
                    },
                    None => {},
                }
            }
            i = i + 1;
        }
        Err(XMLError::MissingKey(which))
    }

    /// The index of the first child element of `dict` at or after `from`.
    fn next_element(dict: &xmltree::Element, from: usize) -> (r: Option<usize>)
        requires
            from <= xml_tree(*dict).children.len(),
        ensures
            match r {
                Some(j) => next_element_at(xml_tree(*dict).children, from as int) == Some(j as int)
                    && j < xml_tree(*dict).children.len() && xml_tree(
                    *dict,
                ).children[j as int] is Element,
                None => next_element_at(xml_tree(*dict).children, from as int) is None,
            },
    {
        let ghost items = xml_tree(*dict).children;
        let n = child_count(dict);
        let mut j: usize = from;
        while j < n
            invariant
                n == items.len(),
                items == xml_tree(*dict).children,
                from <= j <= n,
                next_element_at(items, from as int) == next_element_at(items, j as int),
            decreases n - j,
        {
            match child_element(dict, j) {
                Some(_) => {
                    return Some(j);
                },
                None => {},
            }
            j = j + 1;
        }
        None
    }
}

} // verus!
