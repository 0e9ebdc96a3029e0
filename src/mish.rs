use vstd::prelude::*;

use crate::blkx::{carries_data, decode_entry, entry_bytes, BlkxChunkEntry, BLKX_CHUNK_ENTRY_SIZE};
use crate::util;
use crate::util::{
    be_u32_bytes, be_u64_bytes, checksum_bytes, checksum_canonical, checksum_from_bytes,
    u32_from_be, u64_from_be, ChecksumModel, UDIFChecksum, CHECKSUM_SIZE,
};
use crate::xml::{Signature, XMLError};

verus! {

/// "mish" in ASCII, read big-endian.
pub const MISH_MAGIC: u32 = 0x6D69_7368;

/// Length of the fixed part of a mish block, before its chunk table.
pub const MISH_HEADER_SIZE: usize = 204;

/// Decoded from a base64 string
/// All fields are in big endian ordering to maintain compatiblity
/// with older versions of macOS.
#[derive(Debug, PartialEq, Eq)]
pub struct MishBlock {
    /// Magic - "mish" in ASCII
    pub signature: u32,
    /// Current version is 1
    pub version: u32,
    /// Starting disk sector in this blkx descriptor
    pub sector_number: u64,
    /// Number of disk sectors in this blkx descriptor
    pub sector_count: u64,
    /// Start of raw data
    pub data_offset: u64,
    /// Size of the buffer in sectors needed to decompress
    pub buffers_needed: u32,
    /// Blocks descriptor
    pub block_descriptors: u32,
    /// Zeroed data
    pub reserved_1: u32,
    pub reserved_2: u32,
    pub reserved_3: u32,
    pub reserved_4: u32,
    pub reserved_5: u32,
    pub reserved_6: u32,
    /// UDIF Checksum - see util:UDIFChecksum
    pub checksum: UDIFChecksum,
    /// Number of entries in the blkx run table afterwards
    pub number_block_chunks: u32,
    /// [ num_block_chunks * blkxChunkEntry (40 bytes each)]
    pub block_entries: Vec<BlkxChunkEntry>,
}

/// The value a mish block holds.
pub struct MishModel {
    pub signature: u32,
    pub version: u32,
    pub sector_number: u64,
    pub sector_count: u64,
    pub data_offset: u64,
    pub buffers_needed: u32,
    pub block_descriptors: u32,
    pub reserved: Seq<u32>,
    pub checksum: ChecksumModel,
    pub number_block_chunks: u32,
    pub block_entries: Seq<BlkxChunkEntry>,
}

impl View for MishBlock {
    type V = MishModel;

    open spec fn view(&self) -> MishModel {
        MishModel {
            signature: self.signature,
            version: self.version,
            sector_number: self.sector_number,
            sector_count: self.sector_count,
            data_offset: self.data_offset,
            buffers_needed: self.buffers_needed,
            block_descriptors: self.block_descriptors,
            reserved: seq![
                self.reserved_1,
                self.reserved_2,
                self.reserved_3,
                self.reserved_4,
                self.reserved_5,
                self.reserved_6,
            ],
            checksum: self.checksum@,
            number_block_chunks: self.number_block_chunks,
            block_entries: self.block_entries@,
        }
    }
}

/// The 204 header bytes of a mish block; reserved words are written as zeros.
pub open spec fn mish_header_bytes(m: MishModel) -> Seq<u8> {
    be_u32_bytes(m.signature) + be_u32_bytes(m.version) + be_u64_bytes(m.sector_number)
        + be_u64_bytes(m.sector_count) + be_u64_bytes(m.data_offset) + be_u32_bytes(
        m.buffers_needed,
    ) + be_u32_bytes(m.block_descriptors) + util::zeros(24) + checksum_bytes(m.checksum)
        + be_u32_bytes(m.number_block_chunks)
}

/// The encodings of `es`, one after another.
pub open spec fn entries_bytes(es: Seq<BlkxChunkEntry>) -> Seq<u8>
    decreases es.len(),
{
    if es.len() == 0 {
        Seq::empty()
    } else {
        entries_bytes(es.drop_last()) + entry_bytes(es.last())
    }
}

/// The bytes of a mish block: its header, then its chunk table.
pub open spec fn mish_bytes(m: MishModel) -> Seq<u8> {
    mish_header_bytes(m) + entries_bytes(m.block_entries)
}

/// What decoding the first `n` 40-byte windows of `t` gives: the entries in order, or
/// the error of the first window that does not decode.
pub open spec fn decode_entries(t: Seq<u8>, n: nat) -> Result<Seq<BlkxChunkEntry>, XMLError>
    decreases n,
{
    if n == 0 {
        Ok(Seq::empty())
    } else {
        match decode_entries(t, (n - 1) as nat) {
            Err(e) => Err(e),
            Ok(es) => match decode_entry(t.subrange((n - 1) * 40, t.len() as int)) {
                Err(e) => Err(e),
                Ok(e) => Ok(es.push(e)),
            },
        }
    }
}

/// Sum of the sector counts of the data-carrying entries of `es`.
pub open spec fn data_sector_sum(es: Seq<BlkxChunkEntry>) -> int
    decreases es.len(),
{
    if es.len() == 0 {
        0
    } else {
        data_sector_sum(es.drop_last()) + if carries_data(es.last().entry_type) {
            es.last().sector_count as int
        } else {
            0
        }
    }
}

/// Whether entry `i` of `es` stands where it may: a data-carrying entry exactly where the
/// data before it ends; a marker no earlier than the entry before it and no later than where
/// the data before it ends.
pub open spec fn entry_placed(es: Seq<BlkxChunkEntry>, i: int) -> bool {
    if carries_data(es[i].entry_type) {
        es[i].sector_number == data_sector_sum(es.take(i))
    } else {
        &&& es[i].sector_number <= data_sector_sum(es.take(i))
        &&& i > 0 ==> es[i - 1].sector_number <= es[i].sector_number
    }
}

/// The entries come in non-decreasing sector order and the data-carrying ones cover
/// `[0, total)` one after another: each starts where the ones before it end, and their
/// counts add up to `total`.
pub open spec fn covers_sectors(es: Seq<BlkxChunkEntry>, total: int) -> bool {
    &&& data_sector_sum(es) == total
    &&& forall|i: int| 0 <= i < es.len() ==> #[trigger] entry_placed(es, i)
}

/// Where the data of the data-carrying entries of `es` ends: the end of the last one.
pub open spec fn data_end(es: Seq<BlkxChunkEntry>) -> int
    decreases es.len(),
{
    if es.len() == 0 {
        0
    } else if carries_data(es.last().entry_type) {
        es.last().compressed_offset + es.last().compressed_length
    } else {
        data_end(es.drop_last())
    }
}

/// The data of each data-carrying entry starts at or after the end of the data before it,
/// so no two regions overlap.
pub open spec fn regions_in_order(es: Seq<BlkxChunkEntry>) -> bool
    decreases es.len(),
{
    if es.len() == 0 {
        true
    } else {
        regions_in_order(es.drop_last()) && (carries_data(es.last().entry_type)
            ==> es.last().compressed_offset >= data_end(es.drop_last()))
    }
}

/// The chunk table of a mish block covers its sectors in order and its data regions do not
/// overlap.
#[verifier::opaque]
pub open spec fn chunk_layout_ok(es: Seq<BlkxChunkEntry>, sector_count: u64) -> bool {
    covers_sectors(es, sector_count as int) && regions_in_order(es)
}

/// The header fields that `s` encodes, with the given entries; reserved words read as zero.
pub open spec fn mish_from_parts(s: Seq<u8>, es: Seq<BlkxChunkEntry>) -> MishModel {
    MishModel {
        signature: u32_from_be(s),
        version: u32_from_be(s.subrange(4, 8)),
        sector_number: u64_from_be(s.subrange(8, 16)),
        sector_count: u64_from_be(s.subrange(16, 24)),
        data_offset: u64_from_be(s.subrange(24, 32)),
        buffers_needed: u32_from_be(s.subrange(32, 36)),
        block_descriptors: u32_from_be(s.subrange(36, 40)),
        reserved: seq![0u32, 0u32, 0u32, 0u32, 0u32, 0u32],
        checksum: checksum_from_bytes(s.subrange(64, 200)),
        number_block_chunks: u32_from_be(s.subrange(200, 204)),
        block_entries: es,
    }
}

/// What decoding the bytes `s` of a mish block gives.
pub open spec fn decode_mish(s: Seq<u8>) -> Result<MishModel, XMLError> {
    if s.len() < MISH_HEADER_SIZE {
        Err(XMLError::ShortBuffer(MISH_HEADER_SIZE as u64, s.len() as u64))
    } else if u32_from_be(s) != MISH_MAGIC {
        Err(XMLError::BadMagic(Signature::Mish))
    } else if s.len() - MISH_HEADER_SIZE != u32_from_be(s.subrange(200, 204)) * 40 {
        Err(XMLError::ChunkTableTruncated)
    } else {
        match decode_entries(
            s.subrange(MISH_HEADER_SIZE as int, s.len() as int),
            u32_from_be(s.subrange(200, 204)) as nat,
        ) {
            Err(e) => Err(e),
            Ok(es) => if chunk_layout_ok(es, u64_from_be(s.subrange(16, 24))) {
                Ok(mish_from_parts(s, es))
            } else {
                Err(XMLError::BadChunkLayout)
            },
        }
    }
}

/// A mish block as encoding writes it back: right signature, zero reserved words,
/// a 128-byte checksum payload, a chunk count that matches its table, and a chunk table
/// laid out as decoding demands.
pub open spec fn mish_canonical(m: MishModel) -> bool {
    &&& chunk_layout_ok(m.block_entries, m.sector_count)
    &&& m.signature == MISH_MAGIC
    &&& m.reserved == seq![0u32, 0u32, 0u32, 0u32, 0u32, 0u32]
    &&& checksum_canonical(m.checksum)
    &&& m.number_block_chunks == m.block_entries.len()
}

/// A table of `n` entries encodes to `40 * n` bytes.
pub proof fn lemma_entries_bytes_len(es: Seq<BlkxChunkEntry>)
    ensures
        entries_bytes(es).len() == es.len() * 40,
    decreases es.len(),
{
    if es.len() > 0 {
        lemma_entries_bytes_len(es.drop_last());
        crate::blkx::lemma_entry_round_trip(es.last());
    }
}

/// Entry `i` of a table sits at bytes `40 * i .. 40 * i + 40` of its encoding.
pub proof fn lemma_entries_bytes_window(es: Seq<BlkxChunkEntry>, i: int)
    requires
        0 <= i < es.len(),
    ensures
        entries_bytes(es).subrange(i * 40, i * 40 + 40) == entry_bytes(es[i]),
    decreases es.len(),
{
    let init = es.drop_last();
    lemma_entries_bytes_len(init);
    crate::blkx::lemma_entry_round_trip(es.last());
    if i < es.len() - 1 {
        lemma_entries_bytes_window(init, i);
        assert(entries_bytes(es).subrange(i * 40, i * 40 + 40) =~= entries_bytes(init).subrange(
            i * 40,
            i * 40 + 40,
        ));
    } else {
        assert(entries_bytes(es).subrange(i * 40, i * 40 + 40) =~= entry_bytes(es.last()));
    }
}

/// Decoding the first `k` windows of an encoded table gives its first `k` entries.
pub proof fn lemma_decode_entries_prefix(es: Seq<BlkxChunkEntry>, k: nat)
    requires
        k <= es.len(),
    ensures
        decode_entries(entries_bytes(es), k) == Ok::<Seq<BlkxChunkEntry>, XMLError>(es.take(k as int)),
    decreases k,
{
    if k > 0 {
        lemma_decode_entries_prefix(es, (k - 1) as nat);
        let t = entries_bytes(es);
        let i = k - 1;
        assert(t.subrange(i * 40, i * 40 + 40) == entry_bytes(es[i]) && t.len() == es.len() * 40) by {
            lemma_entries_bytes_len(es);
            lemma_entries_bytes_window(es, i);
        }
        crate::blkx::lemma_entry_round_trip(es[i]);
        let w = t.subrange(i * 40, t.len() as int);
        assert(decode_entry(w) == Ok::<BlkxChunkEntry, XMLError>(es[i])) by {
            assert(w.subrange(0, 40) =~= t.subrange(i * 40, i * 40 + 40));
            assert(t.subrange(i * 40, i * 40 + 40).subrange(0, 40) =~= t.subrange(i * 40, i * 40 + 40));
            crate::blkx::lemma_entry_prefix(w, t.subrange(i * 40, i * 40 + 40));
        }
        assert(es.take(k as int) =~= es.take(i).push(es[i]));
    } else {
        assert(es.take(0) =~= Seq::<BlkxChunkEntry>::empty());
    }
}

/// Once a window fails to decode, decoding more windows fails with the same error.
pub proof fn lemma_decode_entries_err_persists(t: Seq<u8>, k: nat, n: nat)
    requires
        k <= n,
        decode_entries(t, k) is Err,
    ensures
        decode_entries(t, n) == decode_entries(t, k),
    decreases n - k,
{
    if k < n {
        lemma_decode_entries_err_persists(t, k, (n - 1) as nat);
    }
}

/// Decoding the bytes of a canonical mish block gives the block back.
pub proof fn lemma_mish_round_trip(m: MishModel)
    requires
        mish_canonical(m),
    ensures
        decode_mish(mish_bytes(m)) == Ok::<MishModel, XMLError>(m),
{
    let s = mish_bytes(m);
    let h = mish_header_bytes(m);
    let t = entries_bytes(m.block_entries);
    lemma_entries_bytes_len(m.block_entries);
    util::lemma_checksum_round_trip(m.checksum);
    assert(h.len() == MISH_HEADER_SIZE);
    util::lemma_u32_round_trip(m.signature);
    util::lemma_u32_round_trip(m.version);
    util::lemma_u64_round_trip(m.sector_number);
    util::lemma_u64_round_trip(m.sector_count);
    util::lemma_u64_round_trip(m.data_offset);
    util::lemma_u32_round_trip(m.buffers_needed);
    util::lemma_u32_round_trip(m.block_descriptors);
    util::lemma_u32_round_trip(m.number_block_chunks);
    assert(s.subrange(0, 4) =~= be_u32_bytes(m.signature).subrange(0, 4));
    util::lemma_u32_prefix(s, be_u32_bytes(m.signature));
    assert(s.subrange(4, 8) =~= be_u32_bytes(m.version));
    assert(s.subrange(8, 16) =~= be_u64_bytes(m.sector_number));
    assert(s.subrange(16, 24) =~= be_u64_bytes(m.sector_count));
    assert(s.subrange(24, 32) =~= be_u64_bytes(m.data_offset));
    assert(s.subrange(32, 36) =~= be_u32_bytes(m.buffers_needed));
    assert(s.subrange(36, 40) =~= be_u32_bytes(m.block_descriptors));
    assert(s.subrange(64, 200) =~= checksum_bytes(m.checksum));
    assert(s.subrange(200, 204) =~= be_u32_bytes(m.number_block_chunks));
    assert(s.subrange(MISH_HEADER_SIZE as int, s.len() as int) =~= t);
    lemma_decode_entries_prefix(m.block_entries, m.block_entries.len());
    assert(m.block_entries.take(m.block_entries.len() as int) =~= m.block_entries);
    assert(mish_from_parts(s, m.block_entries) == m);
}

/// Whether `b` is an ASCII whitespace byte: space, tab, newline, form feed or carriage return.
pub open spec fn is_ascii_ws(b: u8) -> bool {
    b == 0x20 || b == 0x09 || b == 0x0A || b == 0x0C || b == 0x0D
}

/// `s` with every ASCII whitespace byte removed.
pub open spec fn strip_ws(s: Seq<u8>) -> Seq<u8>
    decreases s.len(),
{
    if s.len() == 0 {
        Seq::empty()
    } else if is_ascii_ws(s.last()) {
        strip_ws(s.drop_last())
    } else {
        strip_ws(s.drop_last()).push(s.last())
    }
}

/// The bytes that standard, padded base64 text decodes to; `None` where the text is not
/// valid base64.
pub uninterp spec fn base64_decoded(text: Seq<u8>) -> Option<Seq<u8>>;

/// The standard, padded base64 text of `bytes`.
pub uninterp spec fn base64_encoded(bytes: Seq<u8>) -> Seq<char>;

/// Whether `c` belongs to the standard base64 alphabet or is the padding sign.
pub open spec fn is_base64_char(c: char) -> bool {
    ('A' <= c && c <= 'Z') || ('a' <= c && c <= 'z') || ('0' <= c && c <= '9') || c == '+' || c
        == '/' || c == '='
}

/// The bytes of a text made of ASCII characters only.
pub open spec fn ascii_bytes(t: Seq<char>) -> Seq<u8> {
    Seq::new(t.len(), |i: int| t[i] as u8)
}

/// Relies on `base64::decode` (standard alphabet, padding accepted): it returns the decoded
/// bytes, or an error where the input holds a byte outside the alphabet (whitespace included),
/// a bad length or bad padding.
#[verifier::external_body]
fn base64_decode(text: &[u8]) -> (r: Option<Vec<u8>>)
    ensures
        match r {
            Some(v) => base64_decoded(text@) == Some(v@),
            None => base64_decoded(text@) is None,
        },
{
    base64::decode(text).ok()
}

/// Relies on `base64::encode`: it writes the standard alphabet with `=` padding, and what it
/// writes decodes back to its input.
#[verifier::external_body]
fn base64_encode(bytes: &[u8]) -> (r: String)
    ensures
        r@ == base64_encoded(bytes@),
        forall|i: int| 0 <= i < r@.len() ==> is_base64_char(#[trigger] r@[i]),
        base64_decoded(ascii_bytes(r@)) == Some(bytes@),
{
    base64::encode(bytes)
}

/// What decoding the text of a `Data` value into a mish block gives.
pub open spec fn decode_mish_text(t: Seq<char>) -> Result<MishModel, XMLError> {
    match base64_decoded(strip_ws(vstd::utf8::encode_utf8(t))) {
        None => Err(XMLError::BadBase64),
        Some(b) => decode_mish(b),
    }
}

/// Removes every ASCII whitespace byte.
pub fn strip_whitespace(s: &[u8]) -> (r: Vec<u8>)
    ensures
        r@ == strip_ws(s@),
{
    let mut out: Vec<u8> = Vec::new();
    let mut i: usize = 0;
    while i < s.len()
        invariant
            i <= s@.len(),
            out@ == strip_ws(s@.subrange(0, i as int)),
        decreases s@.len() - i,
    {
        let b = s[i];
        assert(s@.subrange(0, i + 1).drop_last() =~= s@.subrange(0, i as int));
        if !(b == 0x20 || b == 0x09 || b == 0x0A || b == 0x0C || b == 0x0D) {
            out.push(b);
        }
        i = i + 1;
    }
    assert(s@.subrange(0, s@.len() as int) =~= s@);
    out
}

/// Text without whitespace is left as it is.
pub proof fn lemma_strip_ws_identity(s: Seq<u8>)
    requires
        forall|i: int| 0 <= i < s.len() ==> !is_ascii_ws(#[trigger] s[i]),
    ensures
        strip_ws(s) == s,
    decreases s.len(),
{
    if s.len() > 0 {
        lemma_strip_ws_identity(s.drop_last());
        assert(s.drop_last().push(s.last()) =~= s);
    }
}

/// A prefix of a table whose regions are in order has its regions in order.
pub proof fn lemma_regions_prefix(es: Seq<BlkxChunkEntry>, k: int)
    requires
        0 <= k <= es.len(),
        regions_in_order(es),
    ensures
        regions_in_order(es.take(k)),
    decreases es.len(),
{
    if k == es.len() {
        assert(es.take(k) =~= es);
    } else {
        assert(es.take(k) =~= es.drop_last().take(k));
        lemma_regions_prefix(es.drop_last(), k);
    }
}

/// The sectors of a prefix never exceed those of the whole table.
pub proof fn lemma_sector_sum_prefix(es: Seq<BlkxChunkEntry>, k: int)
    requires
        0 <= k <= es.len(),
    ensures
        data_sector_sum(es.take(k)) <= data_sector_sum(es),
    decreases es.len(),
{
    if k == es.len() {
        assert(es.take(k) =~= es);
    } else {
        assert(es.take(k) =~= es.drop_last().take(k));
        lemma_sector_sum_prefix(es.drop_last(), k);
    }
}

/// Whether the chunk table `entries` covers `sector_count` sectors in order and its data
/// regions do not overlap.
pub fn chunk_layout_valid(entries: &Vec<BlkxChunkEntry>, sector_count: u64) -> (r: bool)
    ensures
        r == (covers_sectors(entries@, sector_count as int) && regions_in_order(entries@)),
        r == chunk_layout_ok(entries@, sector_count),
{
    reveal(chunk_layout_ok);
    let ghost es = entries@;
    let n = entries.len();
    let mut sum: u64 = 0;
    let mut end: u128 = 0;
    let mut prev: u64 = 0;
    let mut i: usize = 0;
    assert(es.take(0) =~= Seq::<BlkxChunkEntry>::empty());
    while i < n
        invariant
            es == entries@,
            n == es.len(),
            i <= n,
            sum == data_sector_sum(es.take(i as int)),
            end == data_end(es.take(i as int)),
            regions_in_order(es.take(i as int)),
            i > 0 ==> prev == es[i - 1].sector_number,
            forall|j: int| 0 <= j < i ==> #[trigger] entry_placed(es, j),
        decreases n - i,
    {
        proof {
            reveal(chunk_layout_ok);
        }
        let e = entries[i];
        assert(es.take(i + 1).drop_last() =~= es.take(i as int));
        let data = e.entry_type.carries_data();
        if (data && e.sector_number != sum) || (!data && (e.sector_number > sum || (i > 0
            && prev > e.sector_number))) {
            assert(!entry_placed(es, i as int));
            assert(!covers_sectors(es, sector_count as int));
            return false;
        }
        assert(entry_placed(es, i as int));
        if data {
            if (e.compressed_offset as u128) < end {
                proof {
                    assert(es.take(i + 1).last() == e);
                    assert(!regions_in_order(es.take(i + 1)));
                    if regions_in_order(es) {
                        lemma_regions_prefix(es, i + 1);
                    }
                }
                return false;
            }
            if sum > u64::MAX - e.sector_count {
                proof {
                    lemma_sector_sum_prefix(es, i + 1);
                }
                return false;
            }
            end = e.compressed_offset as u128 + e.compressed_length as u128;
            sum = sum + e.sector_count;
        }
        prev = e.sector_number;
        i = i + 1;
    }
    assert(es.take(n as int) =~= es);
    sum == sector_count
}

impl MishBlock {
    /// Decodes a mish block from base64 text; ASCII whitespace anywhere in it is ignored.
    pub fn from_base64(encoded: String) -> (r: Result<MishBlock, XMLError>)
        ensures
            r is Ok <==> decode_mish_text(encoded@) is Ok,
            r matches Ok(m) ==> decode_mish_text(encoded@) == Ok::<MishModel, XMLError>(m@),
            r matches Err(e) ==> decode_mish_text(encoded@) == Err::<MishModel, XMLError>(e),
    {
        let stripped = strip_whitespace(encoded.as_str().as_bytes());
        match base64_decode(stripped.as_slice()) {
            None => Err(XMLError::BadBase64),
            Some(decoded) => MishBlock::from_be_bytes(decoded),
        }
    }

    /// The base64 text of this block's bytes.
    pub fn to_base64(self) -> (r: String)
        ensures
            r@ == base64_encoded(mish_bytes(self@)),
            base64_decoded(strip_ws(vstd::utf8::encode_utf8(r@))) == Some(mish_bytes(self@)),
            mish_canonical(self@) ==> decode_mish_text(r@) == Ok::<MishModel, XMLError>(self@),
    {
        let ghost m = self@;
        let bytes = self.to_be_bytes();
        let r = base64_encode(bytes.as_slice());
        proof {
            let t = r@;
            assert(vstd::utf8::is_ascii_chars(t));
            vstd::utf8::is_ascii_chars_encode_utf8(t);
            let b = vstd::utf8::encode_utf8(t);
            assert(b =~= ascii_bytes(t));
            assert forall|i: int| 0 <= i < b.len() implies !is_ascii_ws(#[trigger] b[i]) by {
                assert(is_base64_char(t[i]));
            }
            lemma_strip_ws_identity(b);
            if mish_canonical(m) {
                lemma_mish_round_trip(m);
            }
        }
        r
    }

    /// Decodes a mish block: its 204-byte header, then exactly as many 40-byte chunk
    /// entries as the header declares.
    pub fn from_be_bytes(buffer: Vec<u8>) -> (r: Result<MishBlock, XMLError>)
        ensures
            r is Ok <==> decode_mish(buffer@) is Ok,
            r matches Ok(m) ==> decode_mish(buffer@) == Ok::<MishModel, XMLError>(m@),
            r matches Err(e) ==> decode_mish(buffer@) == Err::<MishModel, XMLError>(e),
    {
        let ghost s = buffer@;
        if buffer.len() < MISH_HEADER_SIZE {
            return Err(XMLError::ShortBuffer(MISH_HEADER_SIZE as u64, buffer.len() as u64));
        }
        let mut cursor: &[u8] = buffer.as_slice();
        let signature = util::take_be_u32(&mut cursor);
        if signature != MISH_MAGIC {
            return Err(XMLError::BadMagic(Signature::Mish));
        }
        assert(cursor@ =~= s.subrange(4, s.len() as int));
        let version = util::take_be_u32(&mut cursor);
        assert(cursor@ =~= s.subrange(8, s.len() as int));
        let sector_number = util::take_be_u64(&mut cursor);
        assert(cursor@ =~= s.subrange(16, s.len() as int));
        let sector_count = util::take_be_u64(&mut cursor);
        assert(cursor@ =~= s.subrange(24, s.len() as int));
        let data_offset = util::take_be_u64(&mut cursor);
        assert(cursor@ =~= s.subrange(32, s.len() as int));
        let buffers_needed = util::take_be_u32(&mut cursor);
        assert(cursor@ =~= s.subrange(36, s.len() as int));
        let block_descriptors = util::take_be_u32(&mut cursor);
        assert(cursor@ =~= s.subrange(40, s.len() as int));
        let (_reserved, rest) = cursor.split_at(24);
        cursor = rest;
        assert(cursor@ =~= s.subrange(64, s.len() as int));
        let checksum = UDIFChecksum::read_from(&mut cursor);
        assert(cursor@ =~= s.subrange(200, s.len() as int));
        let number_block_chunks = util::take_be_u32(&mut cursor);
        assert(cursor@ =~= s.subrange(204, s.len() as int));
        proof {
            util::lemma_u32_window(s, 4);
            util::lemma_u64_window(s, 8);
            util::lemma_u64_window(s, 16);
            util::lemma_u64_window(s, 24);
            util::lemma_u32_window(s, 32);
            util::lemma_u32_window(s, 36);
            util::lemma_u32_window(s, 200);
            assert(s.subrange(64, s.len() as int).subrange(0, 136) =~= s.subrange(64, 200).subrange(
                0,
                136,
            ));
            assert(s.subrange(64, s.len() as int).subrange(4, 8) =~= s.subrange(64, 200).subrange(
                4,
                8,
            ));
            assert(s.subrange(64, s.len() as int).subrange(8, 136) =~= s.subrange(64, 200).subrange(
                8,
                136,
            ));
            assert(s.subrange(64, s.len() as int).subrange(0, 4) =~= s.subrange(64, 200).subrange(
                0,
                4,
            ));
            util::lemma_u32_prefix(s.subrange(64, s.len() as int), s.subrange(64, 200));
        }
        if (buffer.len() - MISH_HEADER_SIZE) as u64 != (number_block_chunks as u64) * 40 {
            return Err(XMLError::ChunkTableTruncated);
        }
        let block_entries = match MishBlock::build_block_entries(cursor) {
            Ok(entries) => entries,
            Err(e) => return Err(e),
        };
        assert((cursor@.len() / 40) as nat == number_block_chunks as nat);
        if !chunk_layout_valid(&block_entries, sector_count) {
            return Err(XMLError::BadChunkLayout);
        }
        let r = MishBlock {
            signature,
            version,
            sector_number,
            sector_count,
            data_offset,
            buffers_needed,
            block_descriptors,
            reserved_1: 0,
            reserved_2: 0,
            reserved_3: 0,
            reserved_4: 0,
            reserved_5: 0,
            reserved_6: 0,
            checksum,
            number_block_chunks,
            block_entries,
        };
        assert(r@ == mish_from_parts(s, r@.block_entries));
        Ok(r)
    }

    /// Decodes every whole 40-byte window of `buffer` as a chunk entry, in order; a trailing
    /// part shorter than an entry is not read.
    pub fn build_block_entries(buffer: &[u8]) -> (r: Result<Vec<BlkxChunkEntry>, XMLError>)
        ensures
            r is Ok <==> decode_entries(buffer@, buffer@.len() / 40) is Ok,
            r matches Ok(v) ==> decode_entries(buffer@, buffer@.len() / 40) == Ok::<
                Seq<BlkxChunkEntry>,
                XMLError,
            >(v@),
            r matches Err(e) ==> decode_entries(buffer@, buffer@.len() / 40) == Err::<
                Seq<BlkxChunkEntry>,
                XMLError,
            >(e),
    {
        let len = buffer.len();
        let n = len / BLKX_CHUNK_ENTRY_SIZE;
        let mut entries: Vec<BlkxChunkEntry> = Vec::new();
        let mut i: usize = 0;
        while i < n
            invariant
                len == buffer@.len(),
                n == buffer@.len() / 40,
                i <= n,
                decode_entries(buffer@, i as nat) == Ok::<Seq<BlkxChunkEntry>, XMLError>(
                    entries@,
                ),
            decreases n - i,
        {
            assert(i * 40 + 40 <= buffer@.len()) by (nonlinear_arith)
                requires
                    i < n,
                    n == buffer@.len() / 40,
            ;
            let start: usize = i * 40;
            let window = &buffer[start..len];
            match BlkxChunkEntry::new(window) {
                Ok(e) => entries.push(e),
                Err(e) => {
                    proof {
                        lemma_decode_entries_err_persists(buffer@, (i + 1) as nat, n as nat);
                    }
                    return Err(e);
                },
            }
            i = i + 1;
        }
        Ok(entries)
    }

    /// Appends the 204 header bytes; reserved words are written as zeros.
    fn write_header(&self, buf: &mut Vec<u8>)
        ensures
            final(buf)@ == old(buf)@ + mish_header_bytes(self@),
    {
        util::push_be_u32(buf, self.signature);
        util::push_be_u32(buf, self.version);
        util::push_be_u64(buf, self.sector_number);
        util::push_be_u64(buf, self.sector_count);
        util::push_be_u64(buf, self.data_offset);
        util::push_be_u32(buf, self.buffers_needed);
        util::push_be_u32(buf, self.block_descriptors);
        util::push_zeros(buf, 24);
        self.checksum.write_to(buf);
        util::push_be_u32(buf, self.number_block_chunks);
        assert(buf@ =~= old(buf)@ + mish_header_bytes(self@));
    }

    /// The bytes of this block: header, then each chunk entry in order.
    pub fn to_be_bytes(self) -> (r: Vec<u8>)
        ensures
            r@ == mish_bytes(self@),
    {
        let mut buffer: Vec<u8> = Vec::new();
        self.write_header(&mut buffer);
        let mut i: usize = 0;
        while i < self.block_entries.len()
            invariant
                i <= self.block_entries@.len(),
                buffer@ == mish_header_bytes(self@) + entries_bytes(
                    self.block_entries@.take(i as int),
                ),
            decreases self.block_entries@.len() - i,
        {
            self.block_entries[i].write_to(&mut buffer);
            assert(self.block_entries@.take(i + 1).drop_last() =~= self.block_entries@.take(
                i as int,
            ));
            i = i + 1;
            assert(buffer@ =~= mish_header_bytes(self@) + entries_bytes(
                self.block_entries@.take(i as int),
            ));
        }
        assert(self.block_entries@.take(i as int) =~= self.block_entries@);
        buffer
    }
}

} // verus!
