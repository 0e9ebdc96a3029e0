use vstd::prelude::*;

use crate::util;
use crate::util::{
    be_u128_bytes, be_u32_bytes, be_u64_bytes, checksum_bytes, checksum_canonical,
    checksum_from_bytes, u128_from_be, u32_from_be, u64_from_be, zeros, ChecksumModel,
    UDIFChecksum,
};
use crate::xml::{Signature, XMLError};

verus! {

/// "koly" in ASCII, read big-endian.
pub const KOLY_MAGIC: u32 = 0x6B6F_6C79;

/// Length of the trailer.
pub const KOLY_SIZE: usize = 512;

/// Length of the first reserved region.
pub const KOLY_RESERVED_SIZE: usize = 120;

/// Represents a koly block header.
/// Typically found in the last 512 bytes of a DMG.
/// All fields are in big endian ordering to maintain compatiblity
/// with older versions of macOS.
#[derive(Debug, PartialEq, Eq)]
pub struct KolyBlock {
    /// Magic - 0x6B6F6C79 "koly" in ASCII
    pub magic: u32,
    /// Current version is 4
    pub version: u32,
    /// Size of this header - 512 bytes
    pub header_size: u32,
    /// Flags
    pub flags: u32,
    /// where the running data fork starts (usually 0)
    pub running_data_fork_offset: u64,
    /// Data fork offset - usually 0, beginning of the dmg
    pub data_fork_offset: u64,
    /// Size of data fork in bytes
    pub data_fork_length: u64,
    /// Resource fork offset, if any
    pub source_fork_offset: u64,
    /// Resource fork length, if any
    pub source_fork_length: u64,
    /// Usually 1, may be 0
    pub segment_number: u32,
    /// Usually 1, may be 0
    pub segment_count: u32,
    /// 128-bit GUID identifier of segment (if segment_number != 0)
    pub segment_id: u128,
    /// See UDIFChecksum
    pub data_fork_checksum: UDIFChecksum,
    /// Start of the .plist data
    pub xml_offset: u64,
    /// Length of the .plist data
    pub xml_length: u64,
    /// 120 reserved bytes, zeroed
    pub reserved_one: Vec<u8>,
    /// Master Checksum, see UDIFChecksum
    pub master_checksum: UDIFChecksum,
    /// Commonly 1
    pub image_variant: u32,
    /// Size of DMG when expanded, in sectors
    pub sector_count: u64,
    /// 0
    pub reserved_two: u32,
    /// 0
    pub reserved_three: u32,
    /// 0
    pub reserved_four: u32,
}

/// The value a koly trailer holds.
pub struct KolyModel {
    pub magic: u32,
    pub version: u32,
    pub header_size: u32,
    pub flags: u32,
    pub running_data_fork_offset: u64,
    pub data_fork_offset: u64,
    pub data_fork_length: u64,
    pub source_fork_offset: u64,
    pub source_fork_length: u64,
    pub segment_number: u32,
    pub segment_count: u32,
    pub segment_id: u128,
    pub data_fork_checksum: ChecksumModel,
    pub xml_offset: u64,
    pub xml_length: u64,
    pub reserved_one: Seq<u8>,
    pub master_checksum: ChecksumModel,
    pub image_variant: u32,
    pub sector_count: u64,
    pub reserved_two: u32,
    pub reserved_three: u32,
    pub reserved_four: u32,
}

impl View for KolyBlock {
    type V = KolyModel;

    open spec fn view(&self) -> KolyModel {
        KolyModel {
            magic: self.magic,
            version: self.version,
            header_size: self.header_size,
            flags: self.flags,
            running_data_fork_offset: self.running_data_fork_offset,
            data_fork_offset: self.data_fork_offset,
            data_fork_length: self.data_fork_length,
            source_fork_offset: self.source_fork_offset,
            source_fork_length: self.source_fork_length,
            segment_number: self.segment_number,
            segment_count: self.segment_count,
            segment_id: self.segment_id,
            data_fork_checksum: self.data_fork_checksum@,
            xml_offset: self.xml_offset,
            xml_length: self.xml_length,
            reserved_one: self.reserved_one@,
            master_checksum: self.master_checksum@,
            image_variant: self.image_variant,
            sector_count: self.sector_count,
            reserved_two: self.reserved_two,
            reserved_three: self.reserved_three,
            reserved_four: self.reserved_four,
        }
    }
}

/// The first 80 bytes of a trailer: the fixed integers up to the segment identifier.
#[verifier::opaque]
pub open spec fn koly_head_bytes(k: KolyModel) -> Seq<u8> {
    be_u32_bytes(k.magic) + be_u32_bytes(k.version) + be_u32_bytes(k.header_size) + be_u32_bytes(
        k.flags,
    ) + be_u64_bytes(k.running_data_fork_offset) + be_u64_bytes(k.data_fork_offset)
        + be_u64_bytes(k.data_fork_length) + be_u64_bytes(k.source_fork_offset) + be_u64_bytes(
        k.source_fork_length,
    ) + be_u32_bytes(k.segment_number) + be_u32_bytes(k.segment_count) + be_u128_bytes(
        k.segment_id,
    )
}

/// The 16 bytes that locate the property list.
#[verifier::opaque]
pub open spec fn koly_xml_bytes(k: KolyModel) -> Seq<u8> {
    be_u64_bytes(k.xml_offset) + be_u64_bytes(k.xml_length)
}

/// The last 24 bytes of a trailer; the three reserved words are written as zeros.
#[verifier::opaque]
pub open spec fn koly_tail_bytes(k: KolyModel) -> Seq<u8> {
    be_u32_bytes(k.image_variant) + be_u64_bytes(k.sector_count) + zeros(12)
}

/// The 512 bytes of a trailer; reserved regions are written as zeros whatever the fields hold.
pub open spec fn koly_bytes(k: KolyModel) -> Seq<u8> {
    koly_head_bytes(k) + checksum_bytes(k.data_fork_checksum) + koly_xml_bytes(k) + zeros(120)
        + checksum_bytes(k.master_checksum) + koly_tail_bytes(k)
}

/// The trailer held in the first 512 bytes of `s`; reserved regions read as zeros.
pub open spec fn koly_from_bytes(s: Seq<u8>) -> KolyModel {
    KolyModel {
        magic: u32_from_be(s),
        version: u32_from_be(s.subrange(4, 8)),
        header_size: u32_from_be(s.subrange(8, 12)),
        flags: u32_from_be(s.subrange(12, 16)),
        running_data_fork_offset: u64_from_be(s.subrange(16, 24)),
        data_fork_offset: u64_from_be(s.subrange(24, 32)),
        data_fork_length: u64_from_be(s.subrange(32, 40)),
        source_fork_offset: u64_from_be(s.subrange(40, 48)),
        source_fork_length: u64_from_be(s.subrange(48, 56)),
        segment_number: u32_from_be(s.subrange(56, 60)),
        segment_count: u32_from_be(s.subrange(60, 64)),
        segment_id: u128_from_be(s.subrange(64, 80)),
        data_fork_checksum: checksum_from_bytes(s.subrange(80, 216)),
        xml_offset: u64_from_be(s.subrange(216, 224)),
        xml_length: u64_from_be(s.subrange(224, 232)),
        reserved_one: zeros(120),
        master_checksum: checksum_from_bytes(s.subrange(352, 488)),
        image_variant: u32_from_be(s.subrange(488, 492)),
        sector_count: u64_from_be(s.subrange(492, 500)),
        reserved_two: 0,
        reserved_three: 0,
        reserved_four: 0,
    }
}

/// What decoding a trailer from `s` gives.
pub open spec fn decode_koly(s: Seq<u8>) -> Result<KolyModel, XMLError> {
    if s.len() < KOLY_SIZE {
        Err(XMLError::ShortBuffer(KOLY_SIZE as u64, s.len() as u64))
    } else if u32_from_be(s) != KOLY_MAGIC {
        Err(XMLError::BadMagic(Signature::Koly))
    } else {
        Ok(koly_from_bytes(s))
    }
}

/// A trailer as encoding writes it back: right magic, zero reserved regions and
/// 128-byte checksum payloads.
pub open spec fn koly_canonical(k: KolyModel) -> bool {
    &&& k.magic == KOLY_MAGIC
    &&& k.reserved_one == zeros(120)
    &&& k.reserved_two == 0
    &&& k.reserved_three == 0
    &&& k.reserved_four == 0
    &&& checksum_canonical(k.data_fork_checksum)
    &&& checksum_canonical(k.master_checksum)
}

/// Reading a checksum carrier at offset `k` of `s` sees only the 136 bytes there.
pub proof fn lemma_checksum_window(s: Seq<u8>, k: int)
    requires
        0 <= k,
        k + 136 <= s.len(),
    ensures
        checksum_from_bytes(s.subrange(k, s.len() as int)) == checksum_from_bytes(
            s.subrange(k, k + 136),
        ),
{
    let a = s.subrange(k, s.len() as int);
    let b = s.subrange(k, k + 136);
    assert(a.subrange(0, 4) =~= b.subrange(0, 4));
    util::lemma_u32_prefix(a, b);
    assert(a.subrange(4, 8) =~= b.subrange(4, 8));
    assert(a.subrange(8, 136) =~= b.subrange(8, 136));
}

/// The fields that the first 80 bytes of a trailer hold read back as written.
#[verifier::rlimit(60)]
pub proof fn lemma_koly_head(k: KolyModel, s: Seq<u8>)
    requires
        s.len() >= 80,
        s.subrange(0, 80) == koly_head_bytes(k),
    ensures
        koly_head_bytes(k).len() == 80,
        u32_from_be(s) == k.magic,
        u32_from_be(s.subrange(4, 8)) == k.version,
        u32_from_be(s.subrange(8, 12)) == k.header_size,
        u32_from_be(s.subrange(12, 16)) == k.flags,
        u64_from_be(s.subrange(16, 24)) == k.running_data_fork_offset,
        u64_from_be(s.subrange(24, 32)) == k.data_fork_offset,
        u64_from_be(s.subrange(32, 40)) == k.data_fork_length,
        u64_from_be(s.subrange(40, 48)) == k.source_fork_offset,
        u64_from_be(s.subrange(48, 56)) == k.source_fork_length,
        u32_from_be(s.subrange(56, 60)) == k.segment_number,
        u32_from_be(s.subrange(60, 64)) == k.segment_count,
        u128_from_be(s.subrange(64, 80)) == k.segment_id,
{
    reveal(koly_head_bytes);
    let h = koly_head_bytes(k);
    util::lemma_u32_round_trip(k.magic);
    util::lemma_u32_round_trip(k.version);
    util::lemma_u32_round_trip(k.header_size);
    util::lemma_u32_round_trip(k.flags);
    util::lemma_u64_round_trip(k.running_data_fork_offset);
    util::lemma_u64_round_trip(k.data_fork_offset);
    util::lemma_u64_round_trip(k.data_fork_length);
    util::lemma_u64_round_trip(k.source_fork_offset);
    util::lemma_u64_round_trip(k.source_fork_length);
    util::lemma_u32_round_trip(k.segment_number);
    util::lemma_u32_round_trip(k.segment_count);
    util::lemma_u128_round_trip(k.segment_id);
    assert(s.subrange(0, 4) =~= be_u32_bytes(k.magic).subrange(0, 4)) by {
        assert(s.subrange(0, 4) =~= h.subrange(0, 4));
    }
    util::lemma_u32_prefix(s, be_u32_bytes(k.magic));
    assert(s.subrange(4, 8) =~= be_u32_bytes(k.version)) by {
        assert(s.subrange(4, 8) =~= h.subrange(4, 8));
    }
    assert(s.subrange(8, 12) =~= be_u32_bytes(k.header_size)) by {
        assert(s.subrange(8, 12) =~= h.subrange(8, 12));
    }
    assert(s.subrange(12, 16) =~= be_u32_bytes(k.flags)) by {
        assert(s.subrange(12, 16) =~= h.subrange(12, 16));
    }
    assert(s.subrange(16, 24) =~= be_u64_bytes(k.running_data_fork_offset)) by {
        assert(s.subrange(16, 24) =~= h.subrange(16, 24));
    }
    assert(s.subrange(24, 32) =~= be_u64_bytes(k.data_fork_offset)) by {
        assert(s.subrange(24, 32) =~= h.subrange(24, 32));
    }
    assert(s.subrange(32, 40) =~= be_u64_bytes(k.data_fork_length)) by {
        assert(s.subrange(32, 40) =~= h.subrange(32, 40));
    }
    assert(s.subrange(40, 48) =~= be_u64_bytes(k.source_fork_offset)) by {
        assert(s.subrange(40, 48) =~= h.subrange(40, 48));
    }
    assert(s.subrange(48, 56) =~= be_u64_bytes(k.source_fork_length)) by {
        assert(s.subrange(48, 56) =~= h.subrange(48, 56));
    }
    assert(s.subrange(56, 60) =~= be_u32_bytes(k.segment_number)) by {
        assert(s.subrange(56, 60) =~= h.subrange(56, 60));
    }
    assert(s.subrange(60, 64) =~= be_u32_bytes(k.segment_count)) by {
        assert(s.subrange(60, 64) =~= h.subrange(60, 64));
    }
    assert(s.subrange(64, 80) =~= be_u128_bytes(k.segment_id)) by {
        assert(s.subrange(64, 80) =~= h.subrange(64, 80));
    }
}

/// Decoding the bytes of a canonical trailer gives the trailer back.
#[verifier::rlimit(60)]
pub proof fn lemma_koly_round_trip(k: KolyModel)
    requires
        koly_canonical(k),
    ensures
        koly_bytes(k).len() == KOLY_SIZE,
        decode_koly(koly_bytes(k)) == Ok::<KolyModel, XMLError>(k),
{
    let s = koly_bytes(k);
    let h = koly_head_bytes(k);
    let x = koly_xml_bytes(k);
    let t = koly_tail_bytes(k);
    util::lemma_checksum_round_trip(k.data_fork_checksum);
    util::lemma_checksum_round_trip(k.master_checksum);
    util::lemma_u64_round_trip(k.xml_offset);
    util::lemma_u64_round_trip(k.xml_length);
    util::lemma_u32_round_trip(k.image_variant);
    util::lemma_u64_round_trip(k.sector_count);
    assert(x.len() == 16 && x.subrange(0, 8) =~= be_u64_bytes(k.xml_offset) && x.subrange(8, 16)
        =~= be_u64_bytes(k.xml_length)) by {
        reveal(koly_xml_bytes);
    }
    assert(t.len() == 24 && t.subrange(0, 4) =~= be_u32_bytes(k.image_variant) && t.subrange(4, 12)
        =~= be_u64_bytes(k.sector_count)) by {
        reveal(koly_tail_bytes);
    }
    assert(h.len() == 80) by {
        reveal(koly_head_bytes);
    }
    assert(s.len() == KOLY_SIZE);
    assert(s.subrange(0, 80) =~= h);
    lemma_koly_head(k, s);
    assert(s.subrange(80, 216) =~= checksum_bytes(k.data_fork_checksum));
    assert(s.subrange(216, 232) =~= x);
    assert(s.subrange(216, 224) =~= x.subrange(0, 8));
    assert(s.subrange(224, 232) =~= x.subrange(8, 16));
    assert(s.subrange(352, 488) =~= checksum_bytes(k.master_checksum));
    assert(s.subrange(488, 512) =~= t);
    assert(s.subrange(488, 492) =~= t.subrange(0, 4));
    assert(s.subrange(492, 500) =~= t.subrange(4, 12));
    assert(koly_from_bytes(s) == k);
}

impl KolyBlock {
    /// Decodes a trailer from the first 512 bytes of `buffer`. Reserved regions are not
    /// kept: they read back as zeros.
    pub fn new(buffer: Vec<u8>) -> (r: Result<KolyBlock, XMLError>)
        ensures
            r is Ok <==> decode_koly(buffer@) is Ok,
            r matches Ok(k) ==> decode_koly(buffer@) == Ok::<KolyModel, XMLError>(k@),
            r matches Err(e) ==> decode_koly(buffer@) == Err::<KolyModel, XMLError>(e),
    {
        let ghost s = buffer@;
        if buffer.len() < KOLY_SIZE {
            return Err(XMLError::ShortBuffer(KOLY_SIZE as u64, buffer.len() as u64));
        }
        let mut cursor: &[u8] = buffer.as_slice();
        let magic = util::take_be_u32(&mut cursor);
        if magic != KOLY_MAGIC {
            return Err(XMLError::BadMagic(Signature::Koly));
        }
        assert(cursor@ =~= s.subrange(4, s.len() as int));
        let version = util::take_be_u32(&mut cursor);
        assert(cursor@ =~= s.subrange(8, s.len() as int));
        let header_size = util::take_be_u32(&mut cursor);
        assert(cursor@ =~= s.subrange(12, s.len() as int));
        let flags = util::take_be_u32(&mut cursor);
        assert(cursor@ =~= s.subrange(16, s.len() as int));
        let running_data_fork_offset = util::take_be_u64(&mut cursor);
        assert(cursor@ =~= s.subrange(24, s.len() as int));
        let data_fork_offset = util::take_be_u64(&mut cursor);
        assert(cursor@ =~= s.subrange(32, s.len() as int));
        let data_fork_length = util::take_be_u64(&mut cursor);
        assert(cursor@ =~= s.subrange(40, s.len() as int));
        let source_fork_offset = util::take_be_u64(&mut cursor);
        assert(cursor@ =~= s.subrange(48, s.len() as int));
        let source_fork_length = util::take_be_u64(&mut cursor);
        assert(cursor@ =~= s.subrange(56, s.len() as int));
        let segment_number = util::take_be_u32(&mut cursor);
        assert(cursor@ =~= s.subrange(60, s.len() as int));
        let segment_count = util::take_be_u32(&mut cursor);
        assert(cursor@ =~= s.subrange(64, s.len() as int));
        let segment_id = util::take_be_u128(&mut cursor);
        assert(cursor@ =~= s.subrange(80, s.len() as int));
        let data_fork_checksum = UDIFChecksum::read_from(&mut cursor);
        assert(cursor@ =~= s.subrange(216, s.len() as int));
        let xml_offset = util::take_be_u64(&mut cursor);
        assert(cursor@ =~= s.subrange(224, s.len() as int));
        let xml_length = util::take_be_u64(&mut cursor);
        assert(cursor@ =~= s.subrange(232, s.len() as int));
        let (_reserved, rest) = cursor.split_at(KOLY_RESERVED_SIZE);
        cursor = rest;
        assert(cursor@ =~= s.subrange(352, s.len() as int));
        let master_checksum = UDIFChecksum::read_from(&mut cursor);
        assert(cursor@ =~= s.subrange(488, s.len() as int));
        let image_variant = util::take_be_u32(&mut cursor);
        assert(cursor@ =~= s.subrange(492, s.len() as int));
        let sector_count = util::take_be_u64(&mut cursor);
        let mut reserved_one: Vec<u8> = Vec::new();
        util::push_zeros(&mut reserved_one, KOLY_RESERVED_SIZE);
        proof {
            util::lemma_u32_window(s, 4);
            util::lemma_u32_window(s, 8);
            util::lemma_u32_window(s, 12);
            util::lemma_u64_window(s, 16);
            util::lemma_u64_window(s, 24);
            util::lemma_u64_window(s, 32);
            util::lemma_u64_window(s, 40);
            util::lemma_u64_window(s, 48);
            util::lemma_u32_window(s, 56);
            util::lemma_u32_window(s, 60);
            util::lemma_u128_window(s, 64);
            util::lemma_u64_window(s, 216);
            util::lemma_u64_window(s, 224);
            util::lemma_u32_window(s, 488);
            util::lemma_u64_window(s, 492);
            lemma_checksum_window(s, 80);
            lemma_checksum_window(s, 352);
        }
        let r = KolyBlock {
            magic,
            version,
            header_size,
            flags,
            running_data_fork_offset,
            data_fork_offset,
            data_fork_length,
            source_fork_offset,
            source_fork_length,
            segment_number,
            segment_count,
            segment_id,
            data_fork_checksum,
            xml_offset,
            xml_length,
            reserved_one,
            master_checksum,
            image_variant,
            sector_count,
            reserved_two: 0,
            reserved_three: 0,
            reserved_four: 0,
        };
        assert(r@.reserved_one =~= zeros(120));
        assert(r@ == koly_from_bytes(s));
        Ok(r)
    }

    /// Appends the first 80 bytes: the fixed integers up to the segment identifier.
    #[verifier::rlimit(60)]
    fn write_head(&self, buf: &mut Vec<u8>)
        ensures
            final(buf)@ == old(buf)@ + koly_head_bytes(self@),
    {
        util::push_be_u32(buf, self.magic);
        util::push_be_u32(buf, self.version);
        util::push_be_u32(buf, self.header_size);
        util::push_be_u32(buf, self.flags);
        util::push_be_u64(buf, self.running_data_fork_offset);
        util::push_be_u64(buf, self.data_fork_offset);
        util::push_be_u64(buf, self.data_fork_length);
        util::push_be_u64(buf, self.source_fork_offset);
        util::push_be_u64(buf, self.source_fork_length);
        util::push_be_u32(buf, self.segment_number);
        util::push_be_u32(buf, self.segment_count);
        util::push_be_u128(buf, self.segment_id);
        assert(buf@ =~= old(buf)@ + koly_head_bytes(self@)) by {
            reveal(koly_head_bytes);
        }
    }

    /// Appends the offset and length of the property list.
    fn write_xml_refs(&self, buf: &mut Vec<u8>)
        ensures
            final(buf)@ == old(buf)@ + koly_xml_bytes(self@),
    {
        util::push_be_u64(buf, self.xml_offset);
        util::push_be_u64(buf, self.xml_length);
        assert(buf@ =~= old(buf)@ + koly_xml_bytes(self@)) by {
            reveal(koly_xml_bytes);
        }
    }

    /// Appends the image variant, the sector count and the three zero reserved words.
    fn write_tail(&self, buf: &mut Vec<u8>)
        ensures
            final(buf)@ == old(buf)@ + koly_tail_bytes(self@),
    {
        util::push_be_u32(buf, self.image_variant);
        util::push_be_u64(buf, self.sector_count);
        util::push_zeros(buf, 12);
        assert(buf@ =~= old(buf)@ + koly_tail_bytes(self@)) by {
            reveal(koly_tail_bytes);
        }
    }

    /// Appends the 512 bytes of this trailer; reserved regions are written as zeros.
    pub fn write_to(&self, buf: &mut Vec<u8>)
        ensures
            final(buf)@ == old(buf)@ + koly_bytes(self@),
    {
        self.write_head(buf);
        self.data_fork_checksum.write_to(buf);
        self.write_xml_refs(buf);
        util::push_zeros(buf, KOLY_RESERVED_SIZE);
        self.master_checksum.write_to(buf);
        self.write_tail(buf);
        assert(buf@ =~= old(buf)@ + koly_bytes(self@));
    }

    /// The 512 big-endian bytes of this trailer.
    pub fn to_be_bytes(self) -> (r: Vec<u8>)
        ensures
            r@ == koly_bytes(self@),
    {
        let mut buffer: Vec<u8> = Vec::new();
        self.write_to(&mut buffer);
        assert(buffer@ =~= koly_bytes(self@));
        buffer
    }
}

} // verus!
