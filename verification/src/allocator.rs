//! The kernel's heap: where it lies.

use vstd::prelude::*;

verus! {

/// Where the kernel's heap begins.
pub const HEAP_START: u64 = 0x4444_4444_0000;

/// Bytes of the kernel's heap.
pub const HEAP_SIZE: u64 = 0x1_9000;

/// The pages of the kernel's heap.
pub open spec fn heap_pages() -> Seq<u64> {
    Seq::new((HEAP_SIZE / 4096) as nat, |i: int| (HEAP_START + i * 4096) as u64)
}

/// `x86_64::structures::paging::Page::containing_address` of `x86_64::VirtAddr::new`, and
/// the page's first address: the address, rounded down to 4096 bytes. Addresses of more than
/// 47 bits are left out; not all of them are ones that the processor accepts.
#[verifier::external_body]
fn page_containing(addr: u64) -> (r: u64)
    requires
        addr < 0x8000_0000_0000,
    ensures
        r == addr - addr % 4096,
{
    let page: x86_64::structures::paging::Page<x86_64::structures::paging::Size4KiB> =
        x86_64::structures::paging::Page::containing_address(x86_64::VirtAddr::new(addr));
    page.start_address().as_u64()
}

/// The pages that the heap is made of, each to be mapped to a free frame.
pub fn init_heap() -> (r: Vec<u64>)
    ensures
        r@ == heap_pages(),
{
    let last: u64 = page_containing(HEAP_START + HEAP_SIZE - 1);
    let mut page: u64 = page_containing(HEAP_START);
    let mut pages: Vec<u64> = Vec::new();
    pages.push(page);
    assert(pages@ == heap_pages().take(1));
    while page != last
        invariant
            last == HEAP_START + HEAP_SIZE - 4096,
            1 <= pages@.len() <= 25,
            page == HEAP_START + (pages@.len() - 1) * 4096,
            pages@ == heap_pages().take(pages@.len() as int),
        decreases 25 - pages@.len(),
    {
        page = page + 4096;
        pages.push(page);
    }
    assert(heap_pages().take(25) == heap_pages());
    pages
}

/// The heap's pages follow one another and cover it exactly.
pub proof fn law_heap_pages_cover_the_heap(addr: u64)
    ensures
        HEAP_START <= addr < HEAP_START + HEAP_SIZE <==> exists|i: int|
            0 <= i < heap_pages().len() && #[trigger] heap_pages()[i] <= addr < heap_pages()[i]
                + 4096,
{
    if HEAP_START <= addr < HEAP_START + HEAP_SIZE {
        let i = (addr - HEAP_START) / 4096;
        assert(heap_pages()[i] <= addr < heap_pages()[i] + 4096);
    }
}

/// The heap is 100 KiB from 0x4444_4444_0000 on, and its pages follow one another.
pub proof fn law_heap_is_one_hundred_kib(i: int)
    requires
        0 <= i < 25,
    ensures
        heap_pages().len() == 25,
        heap_pages()[0] == 0x4444_4444_0000,
        i > 0 ==> heap_pages()[i] == heap_pages()[i - 1] + 4096,
        25 * 4096 == 100 * 1024,
{
}

} // verus!
