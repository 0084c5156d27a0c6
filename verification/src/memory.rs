//! Physical memory: frames are handed out once each from the regions that are
//! free to use.

use vstd::prelude::*;

verus! {

pub const FRAME_SIZE: u64 = 4096;

/// A stretch of physical memory, up to but not including `end`.
#[derive(Clone, Copy)]
pub struct MemoryRegion {
    pub start: u64,
    pub end: u64,
    pub usable: bool,
}

/// Frames that a region gives: one per 4096 bytes from its start on, a shorter rest
/// included.
pub open spec fn region_frames(r: MemoryRegion) -> int {
    if r.usable && r.start < r.end {
        (r.end - r.start + 4095) / 4096
    } else {
        0
    }
}

/// Frame `k` of a region: the one that contains the byte `k` times 4096 past the
/// region's start.
pub open spec fn region_frame(r: MemoryRegion, k: int) -> u64 {
    let addr = r.start + k * 4096;
    (addr - addr % 4096) as u64
}

/// Frames of the first `n` regions.
pub open spec fn frames_before(regions: Seq<MemoryRegion>, n: nat) -> int
    decreases n,
{
    if n == 0 {
        0
    } else {
        frames_before(regions, (n - 1) as nat) + region_frames(regions[n - 1])
    }
}

/// The frames of the first `n` regions, in order.
pub open spec fn usable_frames(regions: Seq<MemoryRegion>, n: nat) -> Seq<u64>
    decreases n,
{
    if n == 0 {
        Seq::empty()
    } else {
        usable_frames(regions, (n - 1) as nat) + Seq::new(
            region_frames(regions[n - 1]) as nat,
            |k: int| region_frame(regions[n - 1], k),
        )
    }
}

/// Whether every usable address is a physical one: 52 bits.
pub open spec fn regions_ok(regions: Seq<MemoryRegion>) -> bool {
    forall|i: int|
        0 <= i < regions.len() && (#[trigger] regions[i]).usable ==> regions[i].end
            <= 0x10_0000_0000_0000
}

/// `x86_64::structures::paging::PhysFrame::containing_address` of
/// `x86_64::PhysAddr::new`, and the frame's first address: the address, rounded
/// down to 4096 bytes. An address of more than 52 bits is not a physical one.
#[verifier::external_body]
fn frame_containing(addr: u64) -> (r: u64)
    requires
        addr < 0x10_0000_0000_0000,
    ensures
        r == addr - addr % 4096,
{
    let address = x86_64::PhysAddr::new(addr);
    let frame: x86_64::structures::paging::PhysFrame<x86_64::structures::paging::Size4KiB> =
        x86_64::structures::paging::PhysFrame::containing_address(address);
    frame.start_address().as_u64()
}

/// Hands out the frames of the usable regions one by one, and none twice.
pub struct BootInfoFrameAllocator {
    pub memory_regions: Vec<MemoryRegion>,
    /// Frames that were asked for so far.
    pub next: usize,
}

impl BootInfoFrameAllocator {
    pub open spec fn wf(self) -> bool {
        regions_ok(self.memory_regions@)
    }

    /// All frames, in the order in which they are handed out.
    pub open spec fn frames(self) -> Seq<u64> {
        usable_frames(self.memory_regions@, self.memory_regions@.len())
    }

    /// No frame was handed out yet.
    pub fn init(memory_regions: Vec<MemoryRegion>) -> (r: BootInfoFrameAllocator)
        requires
            regions_ok(memory_regions@),
        ensures
            r.wf(),
            r.memory_regions@ == memory_regions@,
            r.next == 0,
    {
        BootInfoFrameAllocator { memory_regions, next: 0 }
    }

    /// The next frame, while there is one.
    pub fn allocate_frame(&mut self) -> (r: Option<u64>)
        requires
            old(self).wf(),
            old(self).next < usize::MAX,
        ensures
            final(self).wf(),
            final(self).memory_regions@ == old(self).memory_regions@,
            final(self).next == old(self).next + 1,
            r == (if old(self).next < old(self).frames().len() {
                Some(old(self).frames()[old(self).next as int])
            } else {
                None
            }),
    {
        let ghost regions = self.memory_regions@;
        let n: u64 = self.next as u64;
        self.next = self.next + 1;
        let mut before: u64 = 0;
        let mut i: usize = 0;
        while i < self.memory_regions.len()
            invariant
                i <= self.memory_regions@.len(),
                regions == self.memory_regions@,
                regions == old(self).memory_regions@,
                regions_ok(regions),
                n == old(self).next,
                self.next == old(self).next + 1,
                before <= n,
                before == frames_before(regions, i as nat),
            decreases self.memory_regions@.len() - i,
        {
            let r = self.memory_regions[i];
            let count: u64 = if r.usable && r.start < r.end {
                (r.end - r.start - 1) / FRAME_SIZE + 1
            } else {
                0
            };
            assert(count == region_frames(r));
            if n - before < count {
                let k: u64 = n - before;
                let addr: u64 = r.start + k * FRAME_SIZE;
                proof {
                    lemma_frame_at(regions, regions.len(), i as int, k as int);
                }
                return Some(frame_containing(addr));
            }
            before = before + count;
            i += 1;
        }
        proof {
            lemma_frame_count(regions, regions.len());
        }
        None
    }
}

proof fn lemma_frame_count(regions: Seq<MemoryRegion>, n: nat)
    ensures
        usable_frames(regions, n).len() == frames_before(regions, n),
    decreases n,
{
    if n > 0 {
        lemma_frame_count(regions, (n - 1) as nat);
    }
}

/// Where a region's frames stand among all frames.
proof fn lemma_frame_at(regions: Seq<MemoryRegion>, n: nat, i: int, k: int)
    requires
        0 <= i < n,
        0 <= k < region_frames(regions[i]),
    ensures
        frames_before(regions, i as nat) + k < usable_frames(regions, n).len(),
        0 <= frames_before(regions, i as nat),
        usable_frames(regions, n)[frames_before(regions, i as nat) + k] == region_frame(
            regions[i],
            k,
        ),
    decreases n,
{
    lemma_frame_count(regions, i as nat);
    lemma_frame_count(regions, n);
    if i < n - 1 {
        lemma_frame_at(regions, (n - 1) as nat, i, k);
    }
}

/// The frame allocator and the address at which all physical memory is mapped, once
/// they are known.
pub struct PhysicalMemory {
    pub allocator: Option<BootInfoFrameAllocator>,
    pub offset: u64,
}

impl PhysicalMemory {
    pub fn new() -> (r: PhysicalMemory)
        ensures
            r.allocator is None,
            r.offset == 0,
    {
        PhysicalMemory { allocator: None, offset: 0 }
    }

    /// From now on frames come from this allocator.
    pub fn install_frame_allocator(&mut self, allocator: BootInfoFrameAllocator)
        ensures
            final(self).allocator == Some(allocator),
            final(self).offset == old(self).offset,
    {
        self.allocator = Some(allocator);
    }

    pub fn set_phys_mem_offset(&mut self, offset: u64)
        ensures
            final(self).offset == offset,
            final(self).allocator == old(self).allocator,
    {
        self.offset = offset;
    }

    /// The address at which physical memory is mapped, or 0 while it is not known.
    pub fn phys_mem_offset(&self) -> (r: u64)
        ensures
            r == self.offset,
    {
        self.offset
    }

    /// A frame from the installed allocator; the outer `None` says that there is no
    /// allocator.
    pub fn with_frame_allocator(&mut self) -> (r: Option<Option<u64>>)
        requires
            old(self).allocator matches Some(a) ==> a.wf() && a.next < usize::MAX,
        ensures
            final(self).offset == old(self).offset,
            match old(self).allocator {
                None => r is None && final(self).allocator is None,
                Some(a) => {
                    &&& final(self).allocator matches Some(b) && b.wf() && b.memory_regions@
                        == a.memory_regions@ && b.next == a.next + 1
                    &&& r == Some(
                        if a.next < a.frames().len() {
                            Some(a.frames()[a.next as int])
                        } else {
                            None
                        },
                    )
                },
            },
    {
        match &mut self.allocator {
            Some(a) => Some(a.allocate_frame()),
            None => None,
        }
    }
}

/// Whether the usable regions begin at frame boundaries and do not overlap.
pub open spec fn regions_apart(regions: Seq<MemoryRegion>) -> bool {
    &&& forall|i: int|
        0 <= i < regions.len() && (#[trigger] regions[i]).usable ==> regions[i].start % 4096 == 0
            && regions[i].end % 4096 == 0
    &&& forall|i: int, j: int|
        0 <= i < j < regions.len() && (#[trigger] regions[i]).usable
            && (#[trigger] regions[j]).usable ==> regions[i].end <= regions[j].start
            || regions[j].end <= regions[i].start
}

/// A frame lies in the usable region that it was taken from.
proof fn lemma_frame_source(regions: Seq<MemoryRegion>, n: nat, m: int) -> (r: (int, int))
    requires
        n <= regions.len(),
        0 <= m < usable_frames(regions, n).len(),
    ensures
        0 <= r.0 < n,
        0 <= r.1 < region_frames(regions[r.0]),
        usable_frames(regions, n)[m] == region_frame(regions[r.0], r.1),
        m == frames_before(regions, r.0 as nat) + r.1,
    decreases n,
{
    lemma_frame_count(regions, (n - 1) as nat);
    let before = usable_frames(regions, (n - 1) as nat);
    if m < before.len() {
        lemma_frame_source(regions, (n - 1) as nat, m)
    } else {
        (n - 1, m - before.len())
    }
}

/// Every frame lies within a usable region, where the regions begin at frame
/// boundaries.
pub proof fn law_frames_are_usable(regions: Seq<MemoryRegion>, m: int)
    requires
        regions_ok(regions),
        regions_apart(regions),
        0 <= m < usable_frames(regions, regions.len()).len(),
    ensures
        exists|i: int|
            #![trigger regions[i]]
            0 <= i < regions.len() && regions[i].usable && regions[i].start <= usable_frames(
                regions,
                regions.len(),
            )[m] && usable_frames(regions, regions.len())[m] + 4096 <= regions[i].end,
{
    let (i, k) = lemma_frame_source(regions, regions.len(), m);
    assert(regions[i].usable);
}

/// No frame is handed out twice, where the usable regions begin at frame boundaries
/// and do not overlap.
pub proof fn law_frames_are_distinct(regions: Seq<MemoryRegion>, m: int, n: int)
    requires
        regions_ok(regions),
        regions_apart(regions),
        0 <= m < n < usable_frames(regions, regions.len()).len(),
    ensures
        usable_frames(regions, regions.len())[m] != usable_frames(regions, regions.len())[n],
{
    let (i, k) = lemma_frame_source(regions, regions.len(), m);
    let (j, l) = lemma_frame_source(regions, regions.len(), n);
    assert(regions[i].usable && regions[j].usable);
    if i == j {
        assert(k != l);
    }
}

/// Whether a page lies in a usable region.
pub open spec fn has_page(r: MemoryRegion, page: u64) -> bool {
    r.usable && r.start % 4096 == 0 && page % 4096 == 0 && r.start <= page < r.end
}

proof fn lemma_frames_before(regions: Seq<MemoryRegion>, i: int, j: int)
    requires
        0 <= i < j,
    ensures
        frames_before(regions, i as nat) + region_frames(regions[i]) <= frames_before(
            regions,
            j as nat,
        ),
    decreases j,
{
    if i < j - 1 {
        lemma_frames_before(regions, i, j - 1);
    }
}

/// The frame of a page.
proof fn lemma_page_frame(regions: Seq<MemoryRegion>, i: int, page: u64) -> (m: int)
    requires
        0 <= i < regions.len(),
        has_page(regions[i], page),
    ensures
        0 <= m < usable_frames(regions, regions.len()).len(),
        usable_frames(regions, regions.len())[m] == page,
        m == frames_before(regions, i as nat) + (page - regions[i].start) / 4096,
        (page - regions[i].start) / 4096 < region_frames(regions[i]),
{
    let k = (page - regions[i].start) / 4096;
    lemma_frame_at(regions, regions.len(), i, k);
    frames_before(regions, i as nat) + k
}

/// Every page of a usable region is handed out.
pub proof fn law_every_usable_page_is_a_frame(regions: Seq<MemoryRegion>, i: int, page: u64)
    requires
        0 <= i < regions.len(),
        has_page(regions[i], page),
    ensures
        usable_frames(regions, regions.len()).contains(page),
{
    let m = lemma_page_frame(regions, i, page);
    assert(usable_frames(regions, regions.len())[m] == page);
}

/// Frames are handed out region by region, and within a region from its start on.
pub proof fn law_frames_come_in_order(
    regions: Seq<MemoryRegion>,
    i: int,
    a: u64,
    j: int,
    b: u64,
)
    requires
        0 <= i <= j < regions.len(),
        has_page(regions[i], a),
        has_page(regions[j], b),
        i == j ==> a < b,
    ensures
        exists|m: int, n: int|
            0 <= m < n < usable_frames(regions, regions.len()).len() && #[trigger] usable_frames(
                regions,
                regions.len(),
            )[m] == a && #[trigger] usable_frames(regions, regions.len())[n] == b,
{
    let m = lemma_page_frame(regions, i, a);
    let n = lemma_page_frame(regions, j, b);
    if i < j {
        lemma_frames_before(regions, i, j);
    }
    let frames = usable_frames(regions, regions.len());
    assert(m < n && frames[m] == a && frames[n] == b);
}

} // verus!
