use vstd::prelude::*;

use crate::convert::{
    build_koly, chunk_table, mish_base64, compress_runs, data_fork, koly_for, mish_for, run_count,
    total_sectors, SECTOR_SIZE,
};
use crate::koly::{decode_koly, koly_bytes, KolyBlock, KolyModel, KOLY_SIZE};
use crate::mish::{base64_encoded, decode_mish_text, mish_bytes, MishModel};
use crate::partition::PartitionModel;
use crate::util;
use crate::xml::{
    built_partition, decode_plist, decode_plist_bytes, plist_bytes, plist_tree, PList, XMLError,
};

verus! {

/// The bytes of a single-file image: the data fork, the property list, then the trailer
/// that points at both.
pub open spec fn image_bytes(fork: Seq<u8>, xml: Seq<u8>, sectors: u64) -> Seq<u8> {
    fork + xml + koly_bytes(koly_for(xml.len() as u64, fork.len() as u64, sectors))
}

/// The last 512 bytes of an image.
pub open spec fn trailer_of(image: Seq<u8>) -> Seq<u8> {
    image.subrange(image.len() - KOLY_SIZE, image.len() as int)
}

/// The mish block of the image made from `src`.
pub open spec fn image_mish(src: Seq<u8>) -> MishModel {
    mish_for(total_sectors(src) as u64, chunk_table(src))
}

/// The base64 text of the mish block of the image made from `src`.
pub open spec fn image_mish_text(src: Seq<u8>) -> Seq<char> {
    base64_encoded(mish_bytes(image_mish(src)))
}

/// The property list of the image made from `src`.
pub open spec fn image_plist(src: Seq<u8>) -> Seq<u8> {
    plist_bytes(image_mish_text(src))
}

/// The image made from the sectors of `src`.
pub open spec fn dmg_bytes(src: Seq<u8>) -> Seq<u8> {
    image_bytes(data_fork(src), image_plist(src), total_sectors(src) as u64)
}

/// What inspecting the bytes of an image gives: its trailer, and the partitions of the
/// property list that the trailer points at.
pub open spec fn decode_image(image: Seq<u8>) -> Result<(KolyModel, Seq<PartitionModel>), XMLError> {
    if image.len() < KOLY_SIZE {
        Err(XMLError::ShortBuffer(KOLY_SIZE as u64, image.len() as u64))
    } else {
        match decode_koly(trailer_of(image)) {
            Err(e) => Err(e),
            Ok(k) => if k.xml_offset + k.xml_length > image.len() {
                Err(
                    XMLError::ShortBuffer(
                        k.xml_length,
                        if k.xml_offset <= image.len() {
                            (image.len() - k.xml_offset) as u64
                        } else {
                            0
                        },
                    ),
                )
            } else {
                match decode_plist_bytes(
                    image.subrange(k.xml_offset as int, k.xml_offset + k.xml_length),
                ) {
                    Err(e) => Err(e),
                    Ok(ps) => Ok((k, ps)),
                }
            },
        }
    }
}

/// In an image laid out from a data fork and a property list, the trailer says that the
/// property list starts right after the data fork and ends right before the trailer.
pub proof fn lemma_trailer_cross_refs(fork: Seq<u8>, xml: Seq<u8>, sectors: u64)
    requires
        fork.len() <= u64::MAX,
        xml.len() <= u64::MAX,
    ensures
        decode_koly(trailer_of(image_bytes(fork, xml, sectors))) matches Ok(k) && k.xml_offset
            == k.data_fork_length && k.data_fork_length == fork.len() && k.xml_offset
            + k.xml_length == image_bytes(fork, xml, sectors).len() - KOLY_SIZE,
{
    let k = koly_for(xml.len() as u64, fork.len() as u64, sectors);
    let img = image_bytes(fork, xml, sectors);
    crate::koly::lemma_koly_round_trip(k);
    assert(trailer_of(img) =~= koly_bytes(k));
}

/// In the image made from `src`, the trailer locates the property list right after the
/// data fork and right before itself.
pub proof fn lemma_image_cross_refs(src: Seq<u8>)
    requires
        data_fork(src).len() <= u64::MAX,
        image_plist(src).len() <= u64::MAX,
    ensures
        decode_koly(trailer_of(dmg_bytes(src))) matches Ok(k) && k.xml_offset
            == k.data_fork_length && k.data_fork_length == data_fork(src).len() && k.xml_offset
            + k.xml_length == dmg_bytes(src).len() - KOLY_SIZE,
{
    lemma_trailer_cross_refs(data_fork(src), image_plist(src), total_sectors(src) as u64);
}

/// The image made from `src` depends on `src` alone: converting the same source twice
/// gives the same bytes.
pub proof fn lemma_convert_deterministic(a: Seq<u8>, b: Seq<u8>)
    requires
        a == b,
    ensures
        dmg_bytes(a) == dmg_bytes(b),
{
}

/// Inspecting the same bytes twice gives the same trailer and partitions.
pub proof fn lemma_inspect_deterministic(a: Seq<u8>, b: Seq<u8>)
    requires
        a == b,
    ensures
        decode_image(a) == decode_image(b),
{
}

/// Lays out an image: the data fork, the property list, then a trailer that points at both.
pub fn layout_image(data_fork: Vec<u8>, xml: Vec<u8>, sector_count: u64) -> (r: Vec<u8>)
    ensures
        r@ == image_bytes(data_fork@, xml@, sector_count),
{
    let koly = build_koly(xml.len() as u64, data_fork.len() as u64, sector_count);
    let mut out: Vec<u8> = Vec::new();
    util::push_bytes(&mut out, data_fork.as_slice());
    util::push_bytes(&mut out, xml.as_slice());
    koly.write_to(&mut out);
    out
}

/// Converts a raw disk image into a UDIF image with zlib-compressed runs of 512 sectors.
/// A source whose length is not a whole number of sectors is refused.
pub fn convert_image(src: &[u8]) -> (r: Result<Vec<u8>, XMLError>)
    requires
        run_count(total_sectors(src@)) < u32::MAX,
    ensures
        src@.len() % 512 != 0 ==> r == Err::<Vec<u8>, XMLError>(XMLError::UnalignedInput),
        src@.len() % 512 == 0 ==> r is Ok,
        r matches Ok(out) ==> out@ == dmg_bytes(src@),
        src@.len() % 512 == 0 ==> decode_mish_text(image_mish_text(src@)) == Ok::<
            MishModel,
            XMLError,
        >(image_mish(src@)),
        src@.len() % 512 == 0 ==> decode_plist(plist_tree(image_mish_text(src@))) == Ok::<
            Seq<PartitionModel>,
            XMLError,
        >(seq![built_partition(image_mish(src@))]),
{
    if src.len() % SECTOR_SIZE != 0 {
        return Err(XMLError::UnalignedInput);
    }
    let sectors = (src.len() / SECTOR_SIZE) as u64;
    let (fork, entries) = match compress_runs(src) {
        Ok(parts) => parts,
        Err(e) => return Err(e),
    };
    proof {
        crate::convert::lemma_run_entries_shape(src@, run_count(total_sectors(src@)));
    }
    let fork_len = fork.len();
    proof {
        assert(data_fork(src@).len() == fork_len);
        crate::convert::lemma_chunk_table_layout(src@);
    }
    let encoded = mish_base64(sectors, entries);
    proof {
        crate::xml::lemma_built_plist_decodes(encoded@);
    }
    let xml = match PList::build(encoded) {
        Ok(xml) => xml,
        Err(e) => return Err(e),
    };
    Ok(layout_image(fork, xml, sectors))
}

/// Inspects the bytes of an image: decodes the trailer in its last 512 bytes, then the
/// property list that the trailer points at. The bytes are only read.
pub fn inspect_image(image: &[u8]) -> (r: Result<(KolyBlock, PList), XMLError>)
    ensures
        r is Ok <==> decode_image(image@) is Ok,
        r matches Ok((k, p)) ==> decode_image(image@) == Ok::<
            (KolyModel, Seq<PartitionModel>),
            XMLError,
        >((k@, p@)),
        r matches Err(e) ==> decode_image(image@) == Err::<
            (KolyModel, Seq<PartitionModel>),
            XMLError,
        >(e),
{
    let len = image.len();
    if len < KOLY_SIZE {
        return Err(XMLError::ShortBuffer(KOLY_SIZE as u64, len as u64));
    }
    let mut trailer: Vec<u8> = Vec::new();
    util::push_bytes(&mut trailer, &image[len - KOLY_SIZE..len]);
    let koly = match KolyBlock::new(trailer) {
        Ok(k) => k,
        Err(e) => return Err(e),
    };
    let offset = koly.xml_offset;
    let length = koly.xml_length;
    if offset > len as u64 || length > len as u64 - offset {
        let remaining: u64 = if offset <= len as u64 {
            len as u64 - offset
        } else {
            0
        };
        return Err(XMLError::ShortBuffer(length, remaining));
    }
    let mut xml: Vec<u8> = Vec::new();
    util::push_bytes(&mut xml, &image[offset as usize..(offset + length) as usize]);
    match PList::from_bytes(xml) {
        Ok(p) => Ok((koly, p)),
        Err(e) => Err(e),
    }
}

} // verus!
