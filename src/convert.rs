use vstd::prelude::*;

use std::io::Write;

use crate::blkx::{carries_data, BlkxChunkEntry, DmgBlxx};
use crate::koly::{KolyBlock, KolyModel, KOLY_MAGIC};
use crate::mish::{
    chunk_layout_ok, covers_sectors, data_end, entry_placed, data_sector_sum, regions_in_order, MishBlock,
    MishModel, MISH_MAGIC,
};
use crate::util;
use crate::util::{zeros, ChecksumModel, UDIFChecksum, CHECKSUM_DATA_SIZE};
use crate::xml::XMLError;

verus! {

/// Bytes in a sector.
pub const SECTOR_SIZE: usize = 512;

/// Sectors compressed together into one chunk.
pub const SECTORS_PER_RUN: usize = 512;

/// The zlib stream (deflate data between a zlib header and an Adler-32 trailer) that
/// `libflate`'s zlib encoder writes for `bytes`.
pub uninterp spec fn zlib_of(bytes: Seq<u8>) -> Seq<u8>;

/// Relies on `libflate::zlib::Encoder` (default options): it writes the zlib header into the
/// inner `Vec`, deflates what is written to it, and `finish` appends the Adler-32 trailer.
/// Each step fails only where the inner writer does, and a `Vec` never fails.
#[verifier::external_body]
fn zlib_compress(bytes: &[u8]) -> (r: Option<Vec<u8>>)
    ensures
        r is Some,
        r matches Some(c) ==> c@ == zlib_of(bytes@),
{
    let mut encoder = match libflate::zlib::Encoder::new(Vec::new()) {
        Ok(e) => e,
        Err(_) => return None,
    };
    match encoder.write_all(bytes) {
        Ok(()) => encoder.finish().into_result().ok(),
        Err(_) => None,
    }
}

/// The placeholder carrier: fork type 2, size 32, zero payload.
pub open spec fn placeholder_checksum() -> ChecksumModel {
    ChecksumModel { fork_type: 2, size: 32, data: zeros(CHECKSUM_DATA_SIZE as nat) }
}

/// Number of whole sectors in `src`.
pub open spec fn total_sectors(src: Seq<u8>) -> nat {
    src.len() / 512
}

/// Number of runs that `total` sectors are cut into.
pub open spec fn run_count(total: nat) -> nat {
    (total + 511) / 512
}

/// Sectors in run `j` of an image of `total` sectors: 512, or what is left for the last one.
pub open spec fn run_sector_count(total: nat, j: nat) -> nat {
    if total >= (j + 1) * 512 {
        512
    } else {
        (total - j * 512) as nat
    }
}

/// The source bytes of run `j`.
pub open spec fn run_bytes(src: Seq<u8>, j: nat) -> Seq<u8> {
    src.subrange((j * 512 * 512) as int, ((j * 512 + run_sector_count(total_sectors(src), j)) * 512) as int)
}

/// The data fork after the first `k` runs: their zlib streams, one after another.
pub open spec fn fork_prefix(src: Seq<u8>, k: nat) -> Seq<u8>
    decreases k,
{
    if k == 0 {
        Seq::empty()
    } else {
        fork_prefix(src, (k - 1) as nat) + zlib_of(run_bytes(src, (k - 1) as nat))
    }
}

/// The chunk entry of run `j`.
pub open spec fn run_entry(src: Seq<u8>, j: nat) -> BlkxChunkEntry {
    BlkxChunkEntry {
        entry_type: DmgBlxx::ZLibCompression,
        comment: 0,
        sector_number: (j * 512) as u64,
        sector_count: run_sector_count(total_sectors(src), j) as u64,
        compressed_offset: fork_prefix(src, j).len() as u64,
        compressed_length: zlib_of(run_bytes(src, j)).len() as u64,
    }
}

/// The chunk entries of the first `k` runs.
pub open spec fn run_entries(src: Seq<u8>, k: nat) -> Seq<BlkxChunkEntry>
    decreases k,
{
    if k == 0 {
        Seq::empty()
    } else {
        run_entries(src, (k - 1) as nat).push(run_entry(src, (k - 1) as nat))
    }
}

/// The sentinel that closes a chunk table.
pub open spec fn last_entry(sectors: u64, offset: u64) -> BlkxChunkEntry {
    BlkxChunkEntry {
        entry_type: DmgBlxx::LastEntry,
        comment: 0,
        sector_number: sectors,
        sector_count: 0,
        compressed_offset: offset,
        compressed_length: 0,
    }
}

/// The data fork of the image made from `src`.
pub open spec fn data_fork(src: Seq<u8>) -> Seq<u8> {
    fork_prefix(src, run_count(total_sectors(src)))
}

/// The chunk table of the image made from `src`: one entry per run, then the sentinel.
pub open spec fn chunk_table(src: Seq<u8>) -> Seq<BlkxChunkEntry> {
    run_entries(src, run_count(total_sectors(src))).push(
        last_entry(total_sectors(src) as u64, data_fork(src).len() as u64),
    )
}

/// Sum of the compressed lengths of the data-carrying entries of `es`.
pub open spec fn data_length_sum(es: Seq<BlkxChunkEntry>) -> int
    decreases es.len(),
{
    if es.len() == 0 {
        0
    } else {
        data_length_sum(es.drop_last()) + if carries_data(es.last().entry_type) {
            es.last().compressed_length as int
        } else {
            0
        }
    }
}

/// The table ends with a single sentinel, whose offset is the sum of the lengths before it.
pub open spec fn ends_with_sentinel(es: Seq<BlkxChunkEntry>) -> bool {
    &&& es.len() > 0
    &&& es.last().entry_type == DmgBlxx::LastEntry
    &&& es.last().compressed_offset == data_length_sum(es.drop_last())
    &&& forall|i: int| 0 <= i < es.len() - 1 ==> carries_data((#[trigger] es[i]).entry_type)
}

/// Each entry's offset is the sum of the lengths of the data before it, so offsets never
/// decrease.
pub open spec fn offsets_are_prefix_sums(es: Seq<BlkxChunkEntry>) -> bool {
    &&& forall|i: int|
        0 <= i < es.len() ==> (#[trigger] es[i]).compressed_offset == data_length_sum(es.take(i))
    &&& forall|i: int, j: int|
        0 <= i <= j < es.len() ==> (#[trigger] es[i]).compressed_offset <= (
        #[trigger] es[j]).compressed_offset
}

/// Sectors covered by the first `k` runs.
pub open spec fn sectors_before(total: nat, k: nat) -> nat {
    if k * 512 <= total {
        k * 512
    } else {
        total
    }
}

/// The entries of the first `k` runs, one per run, in order.
pub proof fn lemma_run_entries_shape(src: Seq<u8>, k: nat)
    ensures
        run_entries(src, k).len() == k,
        forall|i: int| 0 <= i < k ==> #[trigger] run_entries(src, k)[i] == run_entry(src, i as nat),
        forall|i: int| 0 <= i <= k ==> #[trigger] run_entries(src, k).take(i) == run_entries(src, i as nat),
    decreases k,
{
    if k > 0 {
        lemma_run_entries_shape(src, (k - 1) as nat);
        let es = run_entries(src, k);
        assert forall|i: int| 0 <= i <= k implies #[trigger] es.take(i) == run_entries(src, i as nat) by {
            if i == k {
                assert(es.take(i) =~= es);
            } else {
                assert(es.take(i) =~= run_entries(src, (k - 1) as nat).take(i));
            }
        }
    } else {
        assert(run_entries(src, 0).take(0) =~= run_entries(src, 0));
    }
}

/// The data fork only grows from one run to the next.
pub proof fn lemma_fork_prefix_monotone(src: Seq<u8>, i: nat, k: nat)
    requires
        i <= k,
    ensures
        fork_prefix(src, i).len() <= fork_prefix(src, k).len(),
    decreases k - i,
{
    if i < k {
        lemma_fork_prefix_monotone(src, i, (k - 1) as nat);
    }
}

/// The sums over the entries of the first `k` runs: the sectors they cover and the length of
/// the fork they fill.
pub proof fn lemma_run_entries_sums(src: Seq<u8>, k: nat)
    requires
        k <= run_count(total_sectors(src)),
        fork_prefix(src, k).len() <= u64::MAX,
        total_sectors(src) <= u64::MAX,
    ensures
        data_sector_sum(run_entries(src, k)) == sectors_before(total_sectors(src), k),
        data_length_sum(run_entries(src, k)) == fork_prefix(src, k).len(),
    decreases k,
{
    if k > 0 {
        lemma_fork_prefix_monotone(src, (k - 1) as nat, k);
        lemma_run_entries_sums(src, (k - 1) as nat);
        let total = total_sectors(src);
        let j = (k - 1) as nat;
        assert(j * 512 < total) by (nonlinear_arith)
            requires
                j < (total + 511) / 512,
        ;
        assert(run_entries(src, k).drop_last() == run_entries(src, j));
    }
}

/// The chunk table that conversion writes covers every sector once, in order, ends with its
/// sentinel and places each run right after the previous one in the data fork.
pub proof fn lemma_chunk_table_laws(src: Seq<u8>)
    requires
        src.len() <= usize::MAX,
        data_fork(src).len() <= usize::MAX,
    ensures
        covers_sectors(chunk_table(src), total_sectors(src) as int),
        ends_with_sentinel(chunk_table(src)),
        offsets_are_prefix_sums(chunk_table(src)),
{
    let total = total_sectors(src);
    let n = run_count(total);
    let runs = run_entries(src, n);
    let es = chunk_table(src);
    lemma_run_entries_shape(src, n);
    lemma_run_entries_sums(src, n);
    assert(n * 512 >= total) by (nonlinear_arith)
        requires
            n == (total + 511) / 512,
    ;
    assert(es.drop_last() == runs);
    assert(es.take(n as int) == runs);
    assert forall|i: int| 0 <= i < es.len() implies #[trigger] entry_placed(es, i) by {
        if i < n {
            assert(es.take(i) =~= runs.take(i));
            lemma_fork_prefix_monotone(src, i as nat, n);
            lemma_run_entries_sums(src, i as nat);
            assert(i * 512 < total) by (nonlinear_arith)
                requires
                    i < (total + 511) / 512,
            ;
        } else if n > 0 {
            let p = n - 1;
            assert(p * 512 < total) by (nonlinear_arith)
                requires
                    p < (total + 511) / 512,
            ;
        }
    }
    assert forall|i: int| 0 <= i < es.len() implies (#[trigger] es[i]).compressed_offset
        == data_length_sum(es.take(i)) by {
        if i < n {
            assert(es.take(i) =~= runs.take(i));
            lemma_fork_prefix_monotone(src, i as nat, n);
            lemma_run_entries_sums(src, i as nat);
        }
    }
    assert forall|i: int, j: int| 0 <= i <= j < es.len() implies (#[trigger] es[i]).compressed_offset
        <= (#[trigger] es[j]).compressed_offset by {
        if j < n {
            lemma_fork_prefix_monotone(src, i as nat, j as nat);
            lemma_fork_prefix_monotone(src, j as nat, n);
        } else {
            lemma_fork_prefix_monotone(src, i as nat, n);
        }
    }
}

/// The data regions of the first `k` runs follow one another and end where the fork does.
pub proof fn lemma_run_entries_regions(src: Seq<u8>, k: nat)
    requires
        k <= run_count(total_sectors(src)),
        fork_prefix(src, k).len() <= u64::MAX,
    ensures
        regions_in_order(run_entries(src, k)),
        data_end(run_entries(src, k)) == fork_prefix(src, k).len(),
    decreases k,
{
    if k > 0 {
        lemma_fork_prefix_monotone(src, (k - 1) as nat, k);
        lemma_run_entries_regions(src, (k - 1) as nat);
        assert(run_entries(src, k).drop_last() == run_entries(src, (k - 1) as nat));
    }
}

/// The chunk table that conversion writes passes the layout check that decoding makes.
pub proof fn lemma_chunk_table_layout(src: Seq<u8>)
    requires
        src.len() <= usize::MAX,
        data_fork(src).len() <= usize::MAX,
    ensures
        chunk_layout_ok(chunk_table(src), total_sectors(src) as u64),
{
    reveal(chunk_layout_ok);
    lemma_chunk_table_laws(src);
    let n = run_count(total_sectors(src));
    lemma_run_entries_regions(src, n);
    assert(chunk_table(src).drop_last() == run_entries(src, n));
}

/// The chunk entry that closes a table of `sectors` sectors whose data fork is `offset` long.
pub fn final_blkx(sectors: usize, offset: usize) -> (r: BlkxChunkEntry)
    ensures
        r == last_entry(sectors as u64, offset as u64),
{
    BlkxChunkEntry {
        entry_type: DmgBlxx::LastEntry,
        comment: 0,
        sector_count: 0,
        sector_number: sectors as u64,
        compressed_length: 0,
        compressed_offset: offset as u64,
    }
}

/// Cuts the whole sectors of `src` into runs of 512 sectors (the last one shorter),
/// compresses each run with zlib into the data fork and records a chunk entry for it, then
/// closes the table with the sentinel.
pub fn compress_runs(src: &[u8]) -> (r: Result<(Vec<u8>, Vec<BlkxChunkEntry>), XMLError>)
    ensures
        r matches Ok((fork, entries)) && fork@ == data_fork(src@) && entries@ == chunk_table(src@),
{
    let len = src.len();
    let total = len / SECTOR_SIZE;
    let runs = (total + 511) / SECTORS_PER_RUN;
    let mut fork: Vec<u8> = Vec::new();
    let mut entries: Vec<BlkxChunkEntry> = Vec::new();
    let mut j: usize = 0;
    while j < runs
        invariant
            len == src@.len(),
            total == total_sectors(src@),
            runs == run_count(total as nat),
            j <= runs,
            fork@ == fork_prefix(src@, j as nat),
            entries@ == run_entries(src@, j as nat),
        decreases runs - j,
    {
        assert(j * 512 < total) by (nonlinear_arith)
            requires
                j < (total + 511) / 512,
        ;
        assert(total * 512 <= src@.len()) by (nonlinear_arith)
            requires
                total == src@.len() / 512,
        ;
        let done: usize = j * SECTORS_PER_RUN;
        let run: usize = if total - done >= SECTORS_PER_RUN {
            SECTORS_PER_RUN
        } else {
            total - done
        };
        assert((done + run) * 512 <= total * 512) by (nonlinear_arith)
            requires
                done + run <= total,
        ;
        let start: usize = done * SECTOR_SIZE;
        let end: usize = (done + run) * SECTOR_SIZE;
        let compressed = match zlib_compress(&src[start..end]) {
            Some(c) => c,
            None => return Err(XMLError::CodecFailure),
        };
        let offset = fork.len() as u64;
        util::push_bytes(&mut fork, compressed.as_slice());
        entries.push(
            BlkxChunkEntry {
                entry_type: DmgBlxx::ZLibCompression,
                comment: 0,
                sector_number: done as u64,
                sector_count: run as u64,
                compressed_offset: offset,
                compressed_length: compressed.len() as u64,
            },
        );
        j = j + 1;
    }
    entries.push(final_blkx(total, fork.len()));
    Ok((fork, entries))
}

/// The mish block that describes a single partition of `sectors` sectors with the given
/// chunk table.
pub open spec fn mish_for(sectors: u64, entries: Seq<BlkxChunkEntry>) -> MishModel {
    MishModel {
        signature: MISH_MAGIC,
        version: 1,
        sector_number: 0,
        sector_count: sectors,
        data_offset: 0,
        buffers_needed: 520,
        block_descriptors: 0xFFFF_FFFE,
        reserved: seq![0u32, 0u32, 0u32, 0u32, 0u32, 0u32],
        checksum: placeholder_checksum(),
        number_block_chunks: entries.len() as u32,
        block_entries: entries,
    }
}

/// Builds the mish block of a single-partition image.
pub fn build_mish(sectors: u64, entries: Vec<BlkxChunkEntry>) -> (r: MishBlock)
    requires
        entries@.len() <= u32::MAX,
    ensures
        r@ == mish_for(sectors, entries@),
{
    MishBlock {
        signature: MISH_MAGIC,
        version: 1,
        sector_number: 0,
        sector_count: sectors,
        data_offset: 0,
        buffers_needed: 520,
        block_descriptors: 0xFFFF_FFFE,
        reserved_1: 0,
        reserved_2: 0,
        reserved_3: 0,
        reserved_4: 0,
        reserved_5: 0,
        reserved_6: 0,
        checksum: UDIFChecksum::placeholder(),
        number_block_chunks: entries.len() as u32,
        block_entries: entries,
    }
}

/// The base64 text of the mish block of a single partition of `sectors` sectors with the
/// given chunk table; where the table passes the layout check, the text decodes back to
/// that block.
pub fn mish_base64(sectors: u64, entries: Vec<BlkxChunkEntry>) -> (r: String)
    requires
        entries@.len() <= u32::MAX,
    ensures
        r@ == crate::mish::base64_encoded(crate::mish::mish_bytes(mish_for(sectors, entries@))),
        chunk_layout_ok(entries@, sectors) ==> crate::mish::decode_mish_text(r@) == Ok::<
            MishModel,
            XMLError,
        >(mish_for(sectors, entries@)),
{
    let mish = build_mish(sectors, entries);
    mish.to_base64()
}

/// The trailer of a single-file image whose data fork is `data_fork_length` bytes, followed
/// by a property list of `xml_length` bytes, and which expands to `sector_count` sectors.
pub open spec fn koly_for(xml_length: u64, data_fork_length: u64, sector_count: u64) -> KolyModel {
    KolyModel {
        magic: KOLY_MAGIC,
        version: 4,
        header_size: 512,
        flags: 1,
        running_data_fork_offset: 0,
        data_fork_offset: 0,
        data_fork_length,
        source_fork_offset: 0,
        source_fork_length: 0,
        segment_number: 0,
        segment_count: 0,
        segment_id: 0,
        data_fork_checksum: placeholder_checksum(),
        xml_offset: data_fork_length,
        xml_length,
        reserved_one: zeros(120),
        master_checksum: placeholder_checksum(),
        image_variant: 2,
        sector_count,
        reserved_two: 0,
        reserved_three: 0,
        reserved_four: 0,
    }
}

/// Builds the trailer of a single-file image.
pub fn build_koly(xml_length: u64, data_fork_length: u64, sector_count: u64) -> (r: KolyBlock)
    ensures
        r@ == koly_for(xml_length, data_fork_length, sector_count),
        crate::koly::koly_canonical(r@),
{
    let mut reserved_one: Vec<u8> = Vec::new();
    util::push_zeros(&mut reserved_one, 120);
    let r = KolyBlock {
        magic: KOLY_MAGIC,
        version: 4,
        header_size: 512,
        flags: 1,
        running_data_fork_offset: 0,
        data_fork_offset: 0,
        data_fork_length,
        source_fork_offset: 0,
        source_fork_length: 0,
        segment_number: 0,
        segment_count: 0,
        segment_id: 0,
        data_fork_checksum: UDIFChecksum::placeholder(),
        xml_offset: data_fork_length,
        xml_length,
        reserved_one,
        master_checksum: UDIFChecksum::placeholder(),
        image_variant: 2,
        sector_count,
        reserved_two: 0,
        reserved_three: 0,
        reserved_four: 0,
    };
    assert(r@.reserved_one =~= zeros(120));
    r
}

} // verus!
