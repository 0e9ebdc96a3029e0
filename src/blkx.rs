use vstd::prelude::*;

use crate::util;
use crate::util::{be_u32_bytes, be_u64_bytes, u32_from_be, u64_from_be};
use crate::xml::XMLError;

verus! {

pub const BLKX_CHUNK_ENTRY_SIZE: usize = 40;

/// DMG blxx types
#[derive(Debug, Clone, Copy, PartialEq, Eq)]
pub enum DmgBlxx {
    /// Zero fill - 0x00000000
    ZeroFill,
    /// RAW or NULL compression (uncompressed) - 0x00000001
    RawOrNullCompression,
    /// Ignored/unknown - 0x00000002
    IgnoredOrUnknown,
    /// Apple data compression - 0x80000004
    AppleCompression,
    /// zLib data compression - 0x80000005
    ZLibCompression,
    /// bz2lib data compression - 0x80000006
    Bz2Compression,
    /// No blocks - Comment: +beg and +end - 0x7FFFFFFE
    Comment,
    /// No blocks - Identifies the last blxx entry - 0xFFFFFFFF
    LastEntry,
}

/// The wire code of each chunk type.
pub open spec fn blxx_code(t: DmgBlxx) -> u32 {
    match t {
        DmgBlxx::ZeroFill => 0x0000_0000,
        DmgBlxx::RawOrNullCompression => 0x0000_0001,
        DmgBlxx::IgnoredOrUnknown => 0x0000_0002,
        DmgBlxx::AppleCompression => 0x8000_0004,
        DmgBlxx::ZLibCompression => 0x8000_0005,
        DmgBlxx::Bz2Compression => 0x8000_0006,
        DmgBlxx::Comment => 0x7FFF_FFFE,
        DmgBlxx::LastEntry => 0xFFFF_FFFF,
    }
}

/// The chunk type with wire code `code`, if there is one.
pub open spec fn blxx_of_code(code: u32) -> Option<DmgBlxx> {
    if code == 0x0000_0000 {
        Some(DmgBlxx::ZeroFill)
    } else if code == 0x0000_0001 {
        Some(DmgBlxx::RawOrNullCompression)
    } else if code == 0x0000_0002 {
        Some(DmgBlxx::IgnoredOrUnknown)
    } else if code == 0x8000_0004 {
        Some(DmgBlxx::AppleCompression)
    } else if code == 0x8000_0005 {
        Some(DmgBlxx::ZLibCompression)
    } else if code == 0x8000_0006 {
        Some(DmgBlxx::Bz2Compression)
    } else if code == 0x7FFF_FFFE {
        Some(DmgBlxx::Comment)
    } else if code == 0xFFFF_FFFF {
        Some(DmgBlxx::LastEntry)
    } else {
        None
    }
}

/// Chunk types that stand for sectors of the image (as opposed to markers).
pub open spec fn carries_data(t: DmgBlxx) -> bool {
    !(t is Comment || t is LastEntry)
}

/// Every code maps back to the type it came from.
pub proof fn lemma_blxx_code_round_trip(t: DmgBlxx)
    ensures
        blxx_of_code(blxx_code(t)) == Some(t),
{
}

impl DmgBlxx {
    /// Convert big endian bytes into a DMG blxx type, advancing the cursor past the code.
    /// Fails with `ShortBuffer(4, remaining)` where fewer than four bytes remain, and with
    /// `UnknownChunkType(code)` where the code is not one of the eight.
    pub fn from_u32(be_bytes: &mut &[u8]) -> (r: Result<DmgBlxx, XMLError>)
        ensures
            old(be_bytes)@.len() < 4 ==> r == Err::<DmgBlxx, XMLError>(
                XMLError::ShortBuffer(4, old(be_bytes)@.len() as u64),
            ) && final(be_bytes)@ == old(be_bytes)@,
            old(be_bytes)@.len() >= 4 ==> final(be_bytes)@ == old(be_bytes)@.subrange(
                4,
                old(be_bytes)@.len() as int,
            ) && r == match blxx_of_code(u32_from_be(old(be_bytes)@)) {
                Some(t) => Ok::<DmgBlxx, XMLError>(t),
                None => Err(XMLError::UnknownChunkType(u32_from_be(old(be_bytes)@))),
            },
    {
        let uint = match util::read_be_u32(be_bytes) {
            Ok(v) => v,
            Err(e) => return Err(e),
        };
        match DmgBlxx::from_code(uint) {
            Some(t) => Ok(t),
            None => Err(XMLError::UnknownChunkType(uint)),
        }
    }

    /// The chunk type with the given wire code, if any.
    pub fn from_code(code: u32) -> (r: Option<DmgBlxx>)
        ensures
            r == blxx_of_code(code),
    {
        match code {
            0 => Some(DmgBlxx::ZeroFill),
            1 => Some(DmgBlxx::RawOrNullCompression),
            2 => Some(DmgBlxx::IgnoredOrUnknown),
            0x8000_0004 => Some(DmgBlxx::AppleCompression),
            0x8000_0005 => Some(DmgBlxx::ZLibCompression),
            0x8000_0006 => Some(DmgBlxx::Bz2Compression),
            0x7FFF_FFFE => Some(DmgBlxx::Comment),
            0xFFFF_FFFF => Some(DmgBlxx::LastEntry),
            _ => None,
        }
    }

    /// Whether entries of this type stand for sectors of the image.
    pub fn carries_data(&self) -> (r: bool)
        ensures
            r == carries_data(*self),
    {
        !matches!(self, DmgBlxx::Comment | DmgBlxx::LastEntry)
    }

    /// The wire code of this chunk type.
    pub fn code(&self) -> (r: u32)
        ensures
            r == blxx_code(*self),
    {
        match self {
            DmgBlxx::ZeroFill => 0,
            DmgBlxx::RawOrNullCompression => 1,
            DmgBlxx::IgnoredOrUnknown => 2,
            DmgBlxx::AppleCompression => 0x8000_0004,
            DmgBlxx::ZLibCompression => 0x8000_0005,
            DmgBlxx::Bz2Compression => 0x8000_0006,
            DmgBlxx::Comment => 0x7FFF_FFFE,
            DmgBlxx::LastEntry => 0xFFFF_FFFF,
        }
    }

    /// The four big-endian bytes of this type's wire code.
    pub fn to_be_bytes(self) -> (r: Vec<u8>)
        ensures
            r@ == be_u32_bytes(blxx_code(self)),
    {
        let mut buf: Vec<u8> = Vec::new();
        util::push_be_u32(&mut buf, self.code());
        assert(buf@ =~= be_u32_bytes(blxx_code(self)));
        buf
    }
}

#[derive(Debug, Clone, Copy, PartialEq, Eq)]
pub struct BlkxChunkEntry {
    /// Compression type used or entry type
    pub entry_type: DmgBlxx,
    /// "+beg" or "+end" if entry_type is comment (0x7FFFFFFE). Else reserved
    pub comment: u32,
    /// Start sector of this chunk
    pub sector_number: u64,
    /// Number of sectors in this chunk
    pub sector_count: u64,
    /// Start of chunk in data fork
    pub compressed_offset: u64,
    /// Count of bytes of chunk, in data fork
    pub compressed_length: u64,
}

/// The 40 bytes of a chunk entry.
pub open spec fn entry_bytes(e: BlkxChunkEntry) -> Seq<u8> {
    be_u32_bytes(blxx_code(e.entry_type)) + be_u32_bytes(e.comment) + be_u64_bytes(e.sector_number)
        + be_u64_bytes(e.sector_count) + be_u64_bytes(e.compressed_offset) + be_u64_bytes(
        e.compressed_length,
    )
}

/// The type code at the head of an encoded chunk entry.
pub open spec fn entry_code(s: Seq<u8>) -> u32 {
    u32_from_be(s)
}

/// The chunk entry that `s` encodes, given that its type code is known.
pub open spec fn entry_from_bytes(s: Seq<u8>, t: DmgBlxx) -> BlkxChunkEntry {
    BlkxChunkEntry {
        entry_type: t,
        comment: u32_from_be(s.subrange(4, 8)),
        sector_number: u64_from_be(s.subrange(8, 16)),
        sector_count: u64_from_be(s.subrange(16, 24)),
        compressed_offset: u64_from_be(s.subrange(24, 32)),
        compressed_length: u64_from_be(s.subrange(32, 40)),
    }
}

/// What decoding the first 40 bytes of `s` gives.
pub open spec fn decode_entry(s: Seq<u8>) -> Result<BlkxChunkEntry, XMLError> {
    if s.len() < BLKX_CHUNK_ENTRY_SIZE {
        Err(XMLError::ShortBuffer(BLKX_CHUNK_ENTRY_SIZE as u64, s.len() as u64))
    } else {
        match blxx_of_code(entry_code(s)) {
            Some(t) => Ok(entry_from_bytes(s, t)),
            None => Err(XMLError::UnknownChunkType(entry_code(s))),
        }
    }
}

/// Decoding an encoded chunk entry gives the same entry back.
pub proof fn lemma_entry_round_trip(e: BlkxChunkEntry)
    ensures
        entry_bytes(e).len() == BLKX_CHUNK_ENTRY_SIZE,
        decode_entry(entry_bytes(e)) == Ok::<BlkxChunkEntry, XMLError>(e),
{
    let s = entry_bytes(e);
    util::lemma_u32_round_trip(blxx_code(e.entry_type));
    util::lemma_u32_round_trip(e.comment);
    util::lemma_u64_round_trip(e.sector_number);
    util::lemma_u64_round_trip(e.sector_count);
    util::lemma_u64_round_trip(e.compressed_offset);
    util::lemma_u64_round_trip(e.compressed_length);
    assert(s.subrange(0, 4) =~= be_u32_bytes(blxx_code(e.entry_type)).subrange(0, 4));
    util::lemma_u32_prefix(s, be_u32_bytes(blxx_code(e.entry_type)));
    assert(s.subrange(4, 8) =~= be_u32_bytes(e.comment));
    assert(s.subrange(8, 16) =~= be_u64_bytes(e.sector_number));
    assert(s.subrange(16, 24) =~= be_u64_bytes(e.sector_count));
    assert(s.subrange(24, 32) =~= be_u64_bytes(e.compressed_offset));
    assert(s.subrange(32, 40) =~= be_u64_bytes(e.compressed_length));
    lemma_blxx_code_round_trip(e.entry_type);
}

/// Decoding reads only the first 40 bytes.
pub proof fn lemma_entry_prefix(s: Seq<u8>, t: Seq<u8>)
    requires
        s.len() >= BLKX_CHUNK_ENTRY_SIZE,
        t.len() >= BLKX_CHUNK_ENTRY_SIZE,
        s.subrange(0, 40) == t.subrange(0, 40),
    ensures
        decode_entry(s) == decode_entry(t),
{
    assert(s.subrange(0, 4) =~= s.subrange(0, 40).subrange(0, 4));
    assert(t.subrange(0, 4) =~= t.subrange(0, 40).subrange(0, 4));
    util::lemma_u32_prefix(s, t);
    assert(s.subrange(4, 8) =~= t.subrange(4, 8)) by {
        assert(s.subrange(4, 8) =~= s.subrange(0, 40).subrange(4, 8));
        assert(t.subrange(4, 8) =~= t.subrange(0, 40).subrange(4, 8));
    }
    assert(s.subrange(8, 16) =~= t.subrange(8, 16)) by {
        assert(s.subrange(8, 16) =~= s.subrange(0, 40).subrange(8, 16));
        assert(t.subrange(8, 16) =~= t.subrange(0, 40).subrange(8, 16));
    }
    assert(s.subrange(16, 24) =~= t.subrange(16, 24)) by {
        assert(s.subrange(16, 24) =~= s.subrange(0, 40).subrange(16, 24));
        assert(t.subrange(16, 24) =~= t.subrange(0, 40).subrange(16, 24));
    }
    assert(s.subrange(24, 32) =~= t.subrange(24, 32)) by {
        assert(s.subrange(24, 32) =~= s.subrange(0, 40).subrange(24, 32));
        assert(t.subrange(24, 32) =~= t.subrange(0, 40).subrange(24, 32));
    }
    assert(s.subrange(32, 40) =~= t.subrange(32, 40)) by {
        assert(s.subrange(32, 40) =~= s.subrange(0, 40).subrange(32, 40));
        assert(t.subrange(32, 40) =~= t.subrange(0, 40).subrange(32, 40));
    }
}

impl BlkxChunkEntry {
    /// Decodes the chunk entry held in the first 40 bytes of `buffer`.
    pub fn new(buffer: &[u8]) -> (r: Result<BlkxChunkEntry, XMLError>)
        ensures
            r == decode_entry(buffer@),
    {
        let ghost s = buffer@;
        if buffer.len() < BLKX_CHUNK_ENTRY_SIZE {
            return Err(
                XMLError::ShortBuffer(BLKX_CHUNK_ENTRY_SIZE as u64, buffer.len() as u64),
            );
        }
        let mut cursor: &[u8] = buffer;
        let code = util::take_be_u32(&mut cursor);
        let entry_type = match DmgBlxx::from_code(code) {
            Some(entry) => entry,
            None => return Err(XMLError::UnknownChunkType(code)),
        };
        let comment = util::take_be_u32(&mut cursor);
        assert(cursor@ =~= s.subrange(8, s.len() as int));
        let sector_number = util::take_be_u64(&mut cursor);
        assert(cursor@ =~= s.subrange(16, s.len() as int));
        let sector_count = util::take_be_u64(&mut cursor);
        assert(cursor@ =~= s.subrange(24, s.len() as int));
        let compressed_offset = util::take_be_u64(&mut cursor);
        assert(cursor@ =~= s.subrange(32, s.len() as int));
        let compressed_length = util::take_be_u64(&mut cursor);
        proof {
            util::lemma_u32_window(s, 4);
            util::lemma_u64_window(s, 8);
            util::lemma_u64_window(s, 16);
            util::lemma_u64_window(s, 24);
            util::lemma_u64_window(s, 32);
        }
        Ok(BlkxChunkEntry {
            entry_type,
            comment,
            sector_number,
            sector_count,
            compressed_offset,
            compressed_length,
        })
    }

    /// Appends the 40 bytes of this entry.
    pub fn write_to(&self, buf: &mut Vec<u8>)
        ensures
            final(buf)@ == old(buf)@ + entry_bytes(*self),
    {
        util::push_be_u32(buf, self.entry_type.code());
        util::push_be_u32(buf, self.comment);
        util::push_be_u64(buf, self.sector_number);
        util::push_be_u64(buf, self.sector_count);
        util::push_be_u64(buf, self.compressed_offset);
        util::push_be_u64(buf, self.compressed_length);
        assert(buf@ =~= old(buf)@ + entry_bytes(*self));
    }

    /// The 40 big-endian bytes of this entry.
    pub fn to_be_bytes(self) -> (r: Vec<u8>)
        ensures
            r@ == entry_bytes(self),
    {
        let mut buf: Vec<u8> = Vec::new();
        self.write_to(&mut buf);
        assert(buf@ =~= entry_bytes(self));
        buf
    }
}

} // verus!
