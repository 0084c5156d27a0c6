//! Sectors as the file system sees them: what has been read from the drive so
//! far, and what is to be written to it.

use vstd::prelude::*;

verus! {

pub const SECTOR_SIZE: usize = 512;

/// A drive as far as it is known: for each sector that was read, its bytes, or
/// `None` where the drive reported an error.
pub type DiskView = Map<u32, Option<Seq<u8>>>;

/// One remembered read.
pub struct CachedSector {
    pub lba: u32,
    pub data: Option<[u8; 512]>,
}

/// One sector to be written.
pub struct SectorWrite {
    pub lba: u32,
    pub data: [u8; 512],
}

/// A sector to be written, as a mathematical value.
#[verifier::ext_equal]
pub struct WriteView {
    pub lba: u32,
    pub data: Seq<u8>,
}

impl SectorWrite {
    pub open spec fn view(self) -> WriteView {
        WriteView { lba: self.lba, data: self.data@ }
    }
}

/// The writes of a plan as mathematical values.
pub open spec fn writes_view(w: Seq<SectorWrite>) -> Seq<WriteView> {
    Seq::new(w.len(), |i: int| w[i]@)
}

/// What is known of the drive after the writes were performed in order.
pub open spec fn apply_writes(d: DiskView, w: Seq<WriteView>) -> DiskView
    decreases w.len(),
{
    if w.len() == 0 {
        d
    } else {
        apply_writes(d, w.drop_last()).insert(w.last().lba, Some(w.last().data))
    }
}

pub open spec fn sector_bytes(data: Option<[u8; 512]>) -> Option<Seq<u8>> {
    match data {
        Some(bytes) => Some(bytes@),
        None => None,
    }
}

/// The reads that have been made so far. A later read of a sector takes the
/// place of an earlier one.
pub struct SectorCache {
    entries: Vec<CachedSector>,
}

spec fn known(entries: Seq<CachedSector>) -> DiskView
    decreases entries.len(),
{
    if entries.len() == 0 {
        Map::empty()
    } else {
        known(entries.drop_last()).insert(entries.last().lba, sector_bytes(entries.last().data))
    }
}

impl SectorCache {
    pub closed spec fn view(&self) -> DiskView {
        known(self.entries@)
    }

    /// Nothing has been read yet.
    pub fn new() -> (r: SectorCache)
        ensures
            r@ == Map::<u32, Option<Seq<u8>>>::empty(),
    {
        SectorCache { entries: Vec::new() }
    }

    /// Records what sector `lba` holds, or that it could not be read.
    pub fn learn(&mut self, lba: u32, data: Option<[u8; 512]>)
        ensures
            final(self)@ == old(self)@.insert(lba, sector_bytes(data)),
    {
        let ghost before = self.entries@;
        self.entries.push(CachedSector { lba, data });
        assert(self.entries@.drop_last() == before);
    }

    /// What is known of sector `lba`.
    pub fn lookup(&self, lba: u32) -> (r: Option<Option<[u8; 512]>>)
        ensures
            match r {
                Some(data) => self@.contains_key(lba) && self@[lba] == sector_bytes(data),
                None => !self@.contains_key(lba),
            },
    {
        let mut i: usize = self.entries.len();
        assert(self.entries@.take(i as int) == self.entries@);
        while i > 0
            invariant
                i <= self.entries.len(),
                known(self.entries@.take(i as int)).contains_key(lba) == self@.contains_key(lba),
                known(self.entries@.take(i as int)).contains_key(lba) ==> known(
                    self.entries@.take(i as int),
                )[lba] == self@[lba],
            decreases i,
        {
            assert(self.entries@.take(i as int).drop_last() == self.entries@.take(i - 1));
            i -= 1;
            if self.entries[i].lba == lba {
                return Some(self.entries[i].data);
            }
        }
        None
    }
}

} // verus!
