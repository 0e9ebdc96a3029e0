use vstd::prelude::*;

use crate::blkx::{carries_data, BlkxChunkEntry, DmgBlxx};
use crate::koly::{KolyBlock, KolyModel};
use crate::mish::{MishBlock, MishModel};

verus! {

/// Oddities that decoding tolerates but a reader should hear about.
#[derive(Debug, Clone, Copy, PartialEq, Eq)]
pub enum Warning {
    /// The trailer's version is not 4
    KolyVersion(u32),
    /// The trailer's header size is not 512
    KolyHeaderSize(u32),
    /// The mish block's version is not 1
    MishVersion(u32),
    /// The chunk table does not end with a last-entry sentinel
    MissingLastEntry,
    /// The marker entry at this index carries sectors
    MarkerSectorCount(u64),
}

/// The warnings about a trailer.
pub open spec fn koly_warnings(k: KolyModel) -> Seq<Warning> {
    (if k.version != 4 {
        seq![Warning::KolyVersion(k.version)]
    } else {
        Seq::empty()
    }) + (if k.header_size != 512 {
        seq![Warning::KolyHeaderSize(k.header_size)]
    } else {
        Seq::empty()
    })
}

/// The warnings about the marker entries among the first `k` entries of `es`.
pub open spec fn marker_warnings(es: Seq<BlkxChunkEntry>, k: nat) -> Seq<Warning>
    decreases k,
{
    if k == 0 {
        Seq::empty()
    } else {
        let i = (k - 1) as nat;
        marker_warnings(es, i) + if !carries_data(es[i as int].entry_type)
            && es[i as int].sector_count != 0 {
            seq![Warning::MarkerSectorCount(i as u64)]
        } else {
            Seq::empty()
        }
    }
}

/// The warnings about a mish block: its version, its sentinel, then its marker entries.
pub open spec fn mish_warnings(m: MishModel) -> Seq<Warning> {
    (if m.version != 1 {
        seq![Warning::MishVersion(m.version)]
    } else {
        Seq::empty()
    }) + (if m.block_entries.len() == 0 || m.block_entries.last().entry_type
        != DmgBlxx::LastEntry {
        seq![Warning::MissingLastEntry]
    } else {
        Seq::empty()
    }) + marker_warnings(m.block_entries, m.block_entries.len())
}

impl KolyBlock {
    /// What is odd about this trailer without making it unreadable.
    pub fn warnings(&self) -> (r: Vec<Warning>)
        ensures
            r@ == koly_warnings(self@),
    {
        let mut r: Vec<Warning> = Vec::new();
        if self.version != 4 {
            r.push(Warning::KolyVersion(self.version));
        }
        if self.header_size != 512 {
            r.push(Warning::KolyHeaderSize(self.header_size));
        }
        assert(r@ =~= koly_warnings(self@));
        r
    }
}

impl MishBlock {
    /// What is odd about this block without making it unreadable.
    pub fn warnings(&self) -> (r: Vec<Warning>)
        ensures
            r@ == mish_warnings(self@),
    {
        let mut r: Vec<Warning> = Vec::new();
        if self.version != 1 {
            r.push(Warning::MishVersion(self.version));
        }
        let n = self.block_entries.len();
        if n == 0 || !matches!(self.block_entries[n - 1].entry_type, DmgBlxx::LastEntry) {
            r.push(Warning::MissingLastEntry);
        }
        let ghost head = r@;
        let mut i: usize = 0;
        while i < n
            invariant
                n == self.block_entries@.len(),
                i <= n,
                r@ == head + marker_warnings(self.block_entries@, i as nat),
            decreases n - i,
        {
            let e = self.block_entries[i];
            if !e.entry_type.carries_data() && e.sector_count != 0 {
                r.push(Warning::MarkerSectorCount(i as u64));
            }
            i = i + 1;
            assert(r@ =~= head + marker_warnings(self.block_entries@, i as nat));
        }
        assert(r@ =~= mish_warnings(self@));
        r
    }
}

} // verus!
