//! How a process's address space is put together.
//!
//! A build is a fixed list of steps: free frames are taken, a top-level page
//! table is filled, pages are mapped and loaded. Taking a frame and mapping a
//! page can fail, which ends the build. The page table entry that covers the
//! process's own pages is private to it; all others are the kernel's.

use crate::bytes::{le32, le64};
use crate::elf::{law_parsed_segments_fit, parsed, ElfImage, ProgramSegment};
use crate::process::{
    fds_view, process_ok, OpenFile, OpenFileView, Process, ProcessView, HEAP_PAGE_COUNT, HEAP_SIZE,
    HEAP_START, MAX_CODE_IMAGE_BYTES, PAGE_SIZE,
};
use crate::usertest::{
    padded_message, user_program, write_fixed_message, MESSAGE_LEN, MESSAGE_OFFSET, USER_CODE_ADDR,
    USER_STACK_ADDR,
};
use vstd::prelude::*;

verus! {

/// Pages that one segment of an executable may take.
pub const MAX_PAGES_PER_ELF_SEGMENT: u64 = 4;

/// Pages that all segments of an executable may take together.
pub const MAX_TOTAL_ELF_PAGES: u64 = 16;

/// Segments that an executable may have.
pub const MAX_ELF_LOAD_SEGMENTS: usize = 8;

/// What a frame or a page is for.
#[derive(Clone, Copy)]
pub enum Part {
    Pml4,
    Code,
    Stack,
    Heap,
    ElfSegment,
}

/// One step of a build. Frames are numbered from 0 in the order in which they
/// are taken.
pub enum BuildStep {
    /// Take the next free frame.
    TakeFrame(Part),
    /// Clear frame 0 and copy every entry of the kernel's top-level page table
    /// into it, but the one at `private`.
    FillTable { private: u16 },
    /// Map the page at `addr` to a frame, for reading and writing from ring 3.
    MapPage { addr: u64, frame: usize, part: Part },
    /// Clear a frame and put `data` at its start.
    LoadFrame { frame: usize, data: Vec<u8> },
}

/// One step of a build, as a mathematical value.
#[verifier::ext_equal]
pub enum StepView {
    TakeFrame(Part),
    FillTable { private: u16 },
    MapPage { addr: u64, frame: int, part: Part },
    LoadFrame { frame: int, data: Seq<u8> },
}

impl BuildStep {
    pub open spec fn view(self) -> StepView {
        match self {
            BuildStep::TakeFrame(part) => StepView::TakeFrame(part),
            BuildStep::FillTable { private } => StepView::FillTable { private },
            BuildStep::MapPage { addr, frame, part } => StepView::MapPage {
                addr,
                frame: frame as int,
                part,
            },
            BuildStep::LoadFrame { frame, data } => StepView::LoadFrame {
                frame: frame as int,
                data: data@,
            },
        }
    }
}

pub open spec fn steps_view(steps: Seq<BuildStep>) -> Seq<StepView> {
    Seq::new(steps.len(), |i: int| steps[i]@)
}

/// The complaint when there is no free frame.
pub open spec fn no_frame_error(part: Part) -> Seq<char> {
    match part {
        Part::Pml4 => "out of physical frames (pml4)"@,
        Part::Code => "out of physical frames (code)"@,
        Part::Stack => "out of physical frames (stack)"@,
        Part::Heap => "out of physical frames (heap)"@,
        Part::ElfSegment => "out of physical frames (elf segment)"@,
    }
}

/// The complaint when a page cannot be mapped. The top-level table itself is
/// never mapped.
pub open spec fn map_error(part: Part) -> Seq<char> {
    match part {
        Part::Pml4 => "map_to failed"@,
        Part::Code => "map_to failed (code page)"@,
        Part::Stack => "map_to failed (stack page)"@,
        Part::Heap => "map_to failed (heap page)"@,
        Part::ElfSegment => "map_to failed (elf segment page)"@,
    }
}

/// A build that was decided on: its steps, and which frame becomes what.
pub struct BuildPlan {
    pub label: &'static str,
    pub steps: Vec<BuildStep>,
    pub code: usize,
    pub stack: usize,
    pub first_heap: usize,
    pub extra: Vec<usize>,
}

/// A build that was decided on, as a mathematical value.
#[verifier::ext_equal]
pub struct PlanView {
    pub label: Seq<char>,
    pub steps: Seq<StepView>,
    pub code: int,
    pub stack: int,
    pub first_heap: int,
    pub extra: Seq<int>,
}

impl BuildPlan {
    pub open spec fn view(self) -> PlanView {
        PlanView {
            label: self.label@,
            steps: steps_view(self.steps@),
            code: self.code as int,
            stack: self.stack as int,
            first_heap: self.first_heap as int,
            extra: Seq::new(self.extra@.len(), |i: int| self.extra@[i] as int),
        }
    }
}

/// Whether a virtual address is canonical: bits 48 to 63 repeat bit 47.
pub open spec fn canonical(addr: int) -> bool {
    0 <= addr < 0x8000_0000_0000 || 0xFFFF_8000_0000_0000 <= addr <= u64::MAX
}

/// The top-level page table entry that an address goes through.
pub open spec fn table_slot(addr: int) -> int {
    addr / 0x80_0000_0000 % 512
}

/// `x86_64::VirtAddr::try_new`, and `p4_index` of what it gives: `None` for an
/// address that is not canonical, else bits 39 to 47 of the address.
#[verifier::external_body]
fn p4_index(addr: u64) -> (r: Option<u16>)
    ensures
        r == (if canonical(addr as int) {
            Some(table_slot(addr as int) as u16)
        } else {
            None::<u16>
        }),
{
    match x86_64::VirtAddr::try_new(addr) {
        Ok(v) => Some(u16::from(v.p4_index())),
        Err(_) => None,
    }
}

/// The steps that take, map and clear the first `k` heap pages.
pub open spec fn heap_steps(first: int, k: nat) -> Seq<StepView>
    decreases k,
{
    if k == 0 {
        Seq::empty()
    } else {
        heap_steps(first, (k - 1) as nat) + seq![
            StepView::TakeFrame(Part::Heap),
            StepView::MapPage {
                addr: (HEAP_START + (k - 1) * PAGE_SIZE) as u64,
                frame: first + k - 1,
                part: Part::Heap,
            },
            StepView::LoadFrame { frame: first + k - 1, data: Seq::empty() },
        ]
    }
}

/// The build of a process from a flat program image.
pub open spec fn image_plan(label: Seq<char>, image: Seq<u8>) -> Result<PlanView, Seq<char>> {
    if image.len() > MAX_CODE_IMAGE_BYTES {
        Err(
            "program image exceeds the 4096-byte code page capacity (one page, no multi-page programs yet)"@,
        )
    } else {
        Ok(
            PlanView {
                label,
                steps: seq![
                    StepView::TakeFrame(Part::Pml4),
                    StepView::FillTable { private: table_slot(USER_CODE_ADDR as int) as u16 },
                    StepView::TakeFrame(Part::Code),
                    StepView::TakeFrame(Part::Stack),
                    StepView::MapPage { addr: USER_CODE_ADDR, frame: 1, part: Part::Code },
                    StepView::MapPage { addr: USER_STACK_ADDR, frame: 2, part: Part::Stack },
                ] + heap_steps(3, HEAP_PAGE_COUNT as nat) + seq![
                    StepView::LoadFrame { frame: 1, data: image },
                ],
                code: 1,
                stack: 2,
                first_heap: 3,
                extra: Seq::empty(),
            },
        )
    }
}

fn push_heap_steps(first: usize, steps: &mut Vec<BuildStep>)
    requires
        first <= 0x1000,
    ensures
        steps_view(final(steps)@) == steps_view(old(steps)@) + heap_steps(
            first as int,
            HEAP_PAGE_COUNT as nat,
        ),
{
    let ghost before = steps_view(steps@);
    let mut k: u64 = 0;
    while k < HEAP_PAGE_COUNT
        invariant
            k <= HEAP_PAGE_COUNT,
            first <= 0x1000,
            steps_view(steps@) == before + heap_steps(first as int, k as nat),
        decreases HEAP_PAGE_COUNT - k,
    {
        let ghost prev = steps_view(steps@);
        let frame: usize = first + k as usize;
        steps.push(BuildStep::TakeFrame(Part::Heap));
        steps.push(
            BuildStep::MapPage {
                addr: HEAP_START + k * PAGE_SIZE as u64,
                frame,
                part: Part::Heap,
            },
        );
        steps.push(BuildStep::LoadFrame { frame, data: Vec::new() });
        assert(steps_view(steps@) == prev + seq![
            StepView::TakeFrame(Part::Heap),
            StepView::MapPage {
                addr: (HEAP_START + k * PAGE_SIZE) as u64,
                frame: first + k,
                part: Part::Heap,
            },
            StepView::LoadFrame { frame: first + k, data: Seq::empty() },
        ]);
        k += 1;
    }
}

fn copy_bytes(data: &[u8], from: usize, to: usize) -> (r: Vec<u8>)
    requires
        from <= to <= data.len(),
    ensures
        r@ == data@.subrange(from as int, to as int),
{
    let mut out: Vec<u8> = Vec::new();
    let mut i: usize = from;
    while i < to
        invariant
            from <= i <= to <= data.len(),
            out@ == data@.subrange(from as int, i as int),
        decreases to - i,
    {
        out.push(data[i]);
        i += 1;
    }
    out
}

/// The slot of the user pages: code and stack share one.
pub(crate) fn user_slot() -> (r: Result<u16, &'static str>)
    ensures
        r == Ok::<u16, &'static str>(table_slot(USER_CODE_ADDR as int) as u16),
{
    let code = p4_index(USER_CODE_ADDR);
    let stack = p4_index(USER_STACK_ADDR);
    match (code, stack) {
        (Some(c), Some(s)) if c == s => Ok(c),
        _ => Err(
            "USER_CODE_ADDR/USER_STACK_ADDR fall in different PML4 indices -- design assumption violated",
        ),
    }
}

/// Decides on the build of a process from a flat program image, which becomes its
/// code page.
pub fn create_process_from_image(label: &'static str, image: &[u8]) -> (r: Result<
    BuildPlan,
    &'static str,
>)
    ensures
        match r {
            Ok(plan) => image_plan(label@, image@) == Ok::<PlanView, Seq<char>>(plan@),
            Err(e) => image_plan(label@, image@) == Err::<PlanView, Seq<char>>(e@),
        },
        r matches Ok(plan) ==> plan_ok(plan@),
{
    if image.len() > MAX_CODE_IMAGE_BYTES {
        return Err(
            "program image exceeds the 4096-byte code page capacity (one page, no multi-page programs yet)",
        );
    }
    let private: u16 = match user_slot() {
        Ok(slot) => slot,
        Err(e) => return Err(e),
    };
    let mut steps: Vec<BuildStep> = Vec::new();
    steps.push(BuildStep::TakeFrame(Part::Pml4));
    steps.push(BuildStep::FillTable { private });
    steps.push(BuildStep::TakeFrame(Part::Code));
    steps.push(BuildStep::TakeFrame(Part::Stack));
    steps.push(BuildStep::MapPage { addr: USER_CODE_ADDR, frame: 1, part: Part::Code });
    steps.push(BuildStep::MapPage { addr: USER_STACK_ADDR, frame: 2, part: Part::Stack });
    assert(steps_view(steps@) == seq![
        StepView::TakeFrame(Part::Pml4),
        StepView::FillTable { private: table_slot(USER_CODE_ADDR as int) as u16 },
        StepView::TakeFrame(Part::Code),
        StepView::TakeFrame(Part::Stack),
        StepView::MapPage { addr: USER_CODE_ADDR, frame: 1, part: Part::Code },
        StepView::MapPage { addr: USER_STACK_ADDR, frame: 2, part: Part::Stack },
    ]);
    push_heap_steps(3, &mut steps);
    let ghost prev = steps_view(steps@);
    let data = copy_bytes(image, 0, image.len());
    assert(data@ == image@);
    steps.push(BuildStep::LoadFrame { frame: 1, data });
    assert(steps_view(steps@) == prev + seq![StepView::LoadFrame { frame: 1, data: image@ }]);
    let plan = BuildPlan { label, steps, code: 1, stack: 2, first_heap: 3, extra: Vec::new() };
    assert(plan@ == image_plan(label@, image@)->Ok_0);
    proof {
        law_image_plan_is_sound(label@, image@);
    }
    Ok(plan)
}

/// The program that the processes built at boot run: it asks for 16 bytes of
/// heap, stores its marker there, writes its message and exits.
pub open spec fn process_program() -> Seq<u8> {
    seq![
        0xB8, 0x02, 0x00, 0x00, 0x00, 0xBF, 0x10, 0x00, 0x00, 0x00, 0xCD, 0x80, 0xC6, 0x00, 0x00,
        0x48, 0xBF, 0x80, 0x00, 0x00, 0x50, 0x55, 0x55, 0x00, 0x00, 0xBE, 0x40, 0x00, 0x00, 0x00,
        0xB8, 0x00, 0x00, 0x00, 0x00, 0xCD, 0x80, 0xB8, 0x01, 0x00, 0x00, 0x00, 0xCD, 0x80, 0xEB,
        0xFE,
    ]
}

/// Bytes of that program.
pub const PROCESS_PROGRAM_LEN: usize = 46;

/// Where in the program the marker stands.
pub const HEAP_MARKER_PATCH_OFFSET: usize = 14;

/// Bytes of a boot process's image.
pub const BOOT_IMAGE_LEN: usize = 192;

/// The image of a process built at boot: the program with its marker, and the
/// message.
pub open spec fn boot_image(message: Seq<char>, heap_marker: u8) -> Seq<u8> {
    Seq::new(
        BOOT_IMAGE_LEN as nat,
        |i: int|
            if i == HEAP_MARKER_PATCH_OFFSET {
                heap_marker
            } else if i < PROCESS_PROGRAM_LEN {
                process_program()[i]
            } else if i < MESSAGE_OFFSET {
                0u8
            } else {
                padded_message(message)[i - MESSAGE_OFFSET]
            },
    )
}

/// The program points at its own message, with the message's length.
pub proof fn law_program_points_at_message(message: Seq<char>, heap_marker: u8)
    ensures
        le64(boot_image(message, heap_marker), 17) == USER_CODE_ADDR + MESSAGE_OFFSET,
        le32(boot_image(message, heap_marker), 26) == MESSAGE_LEN,
        boot_image(message, heap_marker).subrange(
            MESSAGE_OFFSET as int,
            MESSAGE_OFFSET + MESSAGE_LEN,
        ) == padded_message(message),
{
    assert(process_program().len() == PROCESS_PROGRAM_LEN);
    assert(boot_image(message, heap_marker).subrange(
        MESSAGE_OFFSET as int,
        MESSAGE_OFFSET + MESSAGE_LEN,
    ) == padded_message(message));
}

fn process_program_bytes() -> (r: [u8; 46])
    ensures
        r@ == process_program(),
{
    let r = [
        0xB8u8, 0x02, 0x00, 0x00, 0x00, 0xBF, 0x10, 0x00, 0x00, 0x00, 0xCD, 0x80, 0xC6, 0x00, 0x00,
        0x48, 0xBF, 0x80, 0x00, 0x00, 0x50, 0x55, 0x55, 0x00, 0x00, 0xBE, 0x40, 0x00, 0x00, 0x00,
        0xB8, 0x00, 0x00, 0x00, 0x00, 0xCD, 0x80, 0xB8, 0x01, 0x00, 0x00, 0x00, 0xCD, 0x80, 0xEB,
        0xFE,
    ];
    assert(r@ == process_program());
    r
}

/// Decides on the build of a process that runs the boot program.
pub fn create_process(label: &'static str, message: &str, heap_marker: u8) -> (r: Result<
    BuildPlan,
    &'static str,
>)
    ensures
        match r {
            Ok(plan) => image_plan(label@, boot_image(message@, heap_marker)) == Ok::<
                PlanView,
                Seq<char>,
            >(plan@),
            Err(e) => false,
        },
        r matches Ok(plan) ==> plan_ok(plan@),
{
    let program = process_program_bytes();
    let mut image: Vec<u8> = Vec::new();
    let mut i: usize = 0;
    while i < BOOT_IMAGE_LEN
        invariant
            i <= BOOT_IMAGE_LEN,
            image@.len() == i,
            program@ == process_program(),
            forall|k: int|
                0 <= k < i ==> image@[k] == (if k < PROCESS_PROGRAM_LEN {
                    process_program()[k]
                } else {
                    0u8
                }),
        decreases BOOT_IMAGE_LEN - i,
    {
        if i < PROCESS_PROGRAM_LEN {
            image.push(program[i]);
        } else {
            image.push(0);
        }
        i += 1;
    }
    image.set(HEAP_MARKER_PATCH_OFFSET, heap_marker);
    write_fixed_message(&mut image, message);
    assert(image@ == boot_image(message@, heap_marker));
    create_process_from_image(label, image.as_slice())
}

/// Decides on the builds of the two processes that exist from boot on.
pub fn init_test_processes() -> (r: Result<(BuildPlan, BuildPlan), &'static str>)
    ensures
        match r {
            Ok((a, b)) => {
                &&& image_plan(
                    "A"@,
                    boot_image("hello from process A -- via real write(ptr,len)!"@, 0x41),
                ) == Ok::<PlanView, Seq<char>>(a@)
                &&& image_plan(
                    "B"@,
                    boot_image("hello from process B -- via real write(ptr,len)!"@, 0x42),
                ) == Ok::<PlanView, Seq<char>>(b@)
            },
            Err(e) => false,
        },
        r matches Ok((a, b)) ==> plan_ok(a@) && plan_ok(b@),
{
    let a = match create_process("A", "hello from process A -- via real write(ptr,len)!", 0x41) {
        Ok(plan) => plan,
        Err(e) => return Err(e),
    };
    let b = match create_process("B", "hello from process B -- via real write(ptr,len)!", 0x42) {
        Ok(plan) => plan,
        Err(e) => return Err(e),
    };
    Ok((a, b))
}

/// Decides on the build of the process that exercises file descriptors.
pub fn init_fdtest_process(image: &[u8]) -> (r: Result<BuildPlan, &'static str>)
    ensures
        match r {
            Ok(plan) => image_plan("fdtest"@, image@) == Ok::<PlanView, Seq<char>>(plan@),
            Err(e) => image_plan("fdtest"@, image@) == Err::<PlanView, Seq<char>>(e@),
        },
        r matches Ok(plan) ==> plan_ok(plan@),
{
    create_process_from_image("fdtest", image)
}

/// Decides on the build of a process from a file's bytes.
pub fn create_loaded_process(image: &[u8]) -> (r: Result<BuildPlan, &'static str>)
    ensures
        match r {
            Ok(plan) => image_plan("loaded"@, image@) == Ok::<PlanView, Seq<char>>(plan@),
            Err(e) => image_plan("loaded"@, image@) == Err::<PlanView, Seq<char>>(e@),
        },
        r matches Ok(plan) ==> plan_ok(plan@),
{
    create_process_from_image("loaded", image)
}

/// Pages that a segment takes.
pub open spec fn segment_pages(seg: ProgramSegment) -> int {
    (seg.p_memsz + 4095) / 4096
}

/// Whether the first `k` pages of a segment go through the user pages' slot.
pub open spec fn pages_private(seg: ProgramSegment, k: int) -> bool {
    forall|i: int|
        0 <= i < k ==> canonical(#[trigger] (seg.p_vaddr + i * 4096)) && table_slot(
            seg.p_vaddr + i * 4096,
        ) == table_slot(USER_CODE_ADDR as int)
}

/// What keeps a segment from being loaded, if anything.
pub open spec fn segment_refusal(seg: ProgramSegment) -> Option<Seq<char>> {
    if seg.p_vaddr % 4096 != 0 {
        Some(
            "elf: a PT_LOAD segment's p_vaddr is not page-aligned -- this loader requires page-aligned segments (a real, disclosed limitation, not silently rounded)"@,
        )
    } else if seg.p_memsz == 0 {
        Some("elf: a PT_LOAD segment has p_memsz == 0"@)
    } else if segment_pages(seg) > MAX_PAGES_PER_ELF_SEGMENT {
        Some(
            "elf: a PT_LOAD segment needs more pages than this loader's fixed per-segment cap"@,
        )
    } else if !pages_private(seg, segment_pages(seg)) {
        Some(
            "elf: a PT_LOAD segment page falls outside the process's private PML4 slot -- refusing to map"@,
        )
    } else {
        None
    }
}

/// What keeps the first `k` segments from being loaded: the first complaint.
pub open spec fn segments_refusal(segs: Seq<ProgramSegment>, k: nat) -> Option<Seq<char>>
    decreases k,
{
    if k == 0 {
        None
    } else {
        match segments_refusal(segs, (k - 1) as nat) {
            Some(e) => Some(e),
            None => segment_refusal(segs[k - 1]),
        }
    }
}

/// Pages that the first `k` segments take.
pub open spec fn total_pages(segs: Seq<ProgramSegment>, k: nat) -> int
    decreases k,
{
    if k == 0 {
        0
    } else {
        total_pages(segs, (k - 1) as nat) + segment_pages(segs[k - 1])
    }
}

/// Whether an address lies within a segment's memory.
pub open spec fn covers(seg: ProgramSegment, addr: u64) -> bool {
    seg.p_vaddr <= addr && addr < (if seg.p_vaddr + seg.p_memsz <= u64::MAX {
        seg.p_vaddr + seg.p_memsz
    } else {
        u64::MAX as int
    })
}

/// What keeps an executable from being loaded, if anything.
pub open spec fn elf_refusal(entry: u64, segs: Seq<ProgramSegment>) -> Option<Seq<char>> {
    if entry != USER_CODE_ADDR {
        Some(
            "elf: e_entry does not equal USER_CODE_ADDR -- this loader only runs ELFs specifically linked so their entry point lands exactly there (milestone 36 deliberately did not make the ring-3 entry trampoline's jump target dynamic -- see process.rs's module doc comment)"@,
        )
    } else if segs.len() == 0 {
        Some("elf: no PT_LOAD segments to map"@)
    } else if segs.len() > MAX_ELF_LOAD_SEGMENTS {
        Some("elf: more PT_LOAD segments than this loader's fixed cap"@)
    } else if !(exists|k: int| 0 <= k < segs.len() && covers(#[trigger] segs[k], entry)) {
        Some(
            "elf: e_entry does not fall within any PT_LOAD segment's [p_vaddr, p_vaddr+p_memsz) range"@,
        )
    } else {
        match segments_refusal(segs, segs.len()) {
            Some(e) => Some(e),
            None => if total_pages(segs, segs.len()) > MAX_TOTAL_ELF_PAGES {
                Some(
                    "elf: total PT_LOAD page count across all segments exceeds this loader's fixed cap"@,
                )
            } else {
                None
            },
        }
    }
}

/// One page of an executable.
pub struct PageLoad {
    pub addr: u64,
    pub data: Vec<u8>,
}

/// One page of an executable, as a mathematical value.
#[verifier::ext_equal]
pub struct PageView {
    pub addr: u64,
    pub data: Seq<u8>,
}

impl PageLoad {
    pub open spec fn view(self) -> PageView {
        PageView { addr: self.addr, data: self.data@ }
    }
}

pub open spec fn pages_view(pages: Seq<PageLoad>) -> Seq<PageView> {
    Seq::new(pages.len(), |i: int| pages[i]@)
}

/// The bytes of the file that belong to page `i` of a segment.
pub open spec fn page_data(image: Seq<u8>, seg: ProgramSegment, i: int) -> Seq<u8> {
    let off = i * 4096;
    if off >= seg.p_filesz {
        Seq::empty()
    } else if seg.p_filesz - off <= 4096 {
        image.subrange(seg.p_offset + off, seg.p_offset + seg.p_filesz)
    } else {
        image.subrange(seg.p_offset + off, seg.p_offset + off + 4096)
    }
}

/// The first `k` pages of a segment.
pub open spec fn segment_page_loads(image: Seq<u8>, seg: ProgramSegment, k: nat) -> Seq<PageView> {
    Seq::new(
        k,
        |i: int|
            PageView { addr: (seg.p_vaddr + i * 4096) as u64, data: page_data(image, seg, i) },
    )
}

/// The pages of the first `k` segments.
pub open spec fn elf_page_loads(image: Seq<u8>, segs: Seq<ProgramSegment>, k: nat) -> Seq<PageView>
    decreases k,
{
    if k == 0 {
        Seq::empty()
    } else {
        elf_page_loads(image, segs, (k - 1) as nat) + segment_page_loads(
            image,
            segs[k - 1],
            segment_pages(segs[k - 1]) as nat,
        )
    }
}

/// The steps that take, map and load the first `k` pages of an executable.
pub open spec fn page_steps(pages: Seq<PageView>, k: nat) -> Seq<StepView>
    decreases k,
{
    if k == 0 {
        Seq::empty()
    } else {
        page_steps(pages, (k - 1) as nat) + seq![
            StepView::TakeFrame(Part::ElfSegment),
            StepView::MapPage {
                addr: pages[k - 1].addr,
                frame: k as int,
                part: Part::ElfSegment,
            },
            StepView::LoadFrame { frame: k as int, data: pages[k - 1].data },
        ]
    }
}

/// The frame of the page where the code begins: that of the last such page.
pub open spec fn code_frame_of(pages: Seq<PageView>, k: nat) -> Option<int>
    decreases k,
{
    if k == 0 {
        None
    } else if pages[k - 1].addr == USER_CODE_ADDR {
        Some(k as int)
    } else {
        code_frame_of(pages, (k - 1) as nat)
    }
}

/// The frames of all other pages.
pub open spec fn extra_frames_of(pages: Seq<PageView>, k: nat) -> Seq<int>
    decreases k,
{
    if k == 0 {
        Seq::empty()
    } else if pages[k - 1].addr == USER_CODE_ADDR {
        extra_frames_of(pages, (k - 1) as nat)
    } else {
        extra_frames_of(pages, (k - 1) as nat).push(k as int)
    }
}

/// The build of a process from an executable.
pub open spec fn elf_plan(
    label: Seq<char>,
    entry: u64,
    segs: Seq<ProgramSegment>,
    image: Seq<u8>,
) -> Result<PlanView, Seq<char>> {
    match elf_refusal(entry, segs) {
        Some(e) => Err(e),
        None => {
            let pages = elf_page_loads(image, segs, segs.len());
            let n = pages.len() as int;
            Ok(
                PlanView {
                    label,
                    steps: seq![
                        StepView::TakeFrame(Part::Pml4),
                        StepView::FillTable {
                            private: table_slot(USER_CODE_ADDR as int) as u16,
                        },
                    ] + page_steps(pages, pages.len()) + seq![
                        StepView::TakeFrame(Part::Stack),
                        StepView::MapPage {
                            addr: USER_STACK_ADDR,
                            frame: n + 1,
                            part: Part::Stack,
                        },
                    ] + heap_steps(n + 2, HEAP_PAGE_COUNT as nat),
                    code: code_frame_of(pages, pages.len())->0,
                    stack: n + 1,
                    first_heap: n + 2,
                    extra: extra_frames_of(pages, pages.len()),
                },
            )
        },
    }
}

/// Whether the file bytes of every segment that is loaded lie within the image.
pub open spec fn segments_in_image(segs: Seq<ProgramSegment>, len: nat) -> bool {
    forall|k: int|
        0 <= k < segs.len() ==> {
            let seg = #[trigger] segs[k];
            let loaded = segment_pages(seg) * 4096;
            seg.p_offset + (if seg.p_filesz <= loaded {
                seg.p_filesz as int
            } else {
                loaded
            }) <= len
        }
}

pub(crate) fn page_count(memsz: u64) -> (r: u64)
    ensures
        r == (memsz + 4095) / 4096,
{
    if memsz % 4096 == 0 {
        memsz / 4096
    } else {
        memsz / 4096 + 1
    }
}

/// Checks one segment.
fn check_segment(seg: &ProgramSegment, user_p4_index: u16) -> (r: Result<u64, &'static str>)
    requires
        user_p4_index == table_slot(USER_CODE_ADDR as int),
    ensures
        match r {
            Ok(pages) => segment_refusal(*seg) is None && pages == segment_pages(*seg),
            Err(e) => segment_refusal(*seg) == Some(e@),
        },
{
    if seg.p_vaddr % 4096 != 0 {
        return Err(
            "elf: a PT_LOAD segment's p_vaddr is not page-aligned -- this loader requires page-aligned segments (a real, disclosed limitation, not silently rounded)",
        );
    }
    if seg.p_memsz == 0 {
        return Err("elf: a PT_LOAD segment has p_memsz == 0");
    }
    let pages: u64 = page_count(seg.p_memsz);
    if pages > MAX_PAGES_PER_ELF_SEGMENT {
        return Err(
            "elf: a PT_LOAD segment needs more pages than this loader's fixed per-segment cap",
        );
    }
    let mut i: u64 = 0;
    while i < pages
        invariant
            i <= pages <= MAX_PAGES_PER_ELF_SEGMENT,
            pages == segment_pages(*seg),
            seg.p_vaddr % 4096 == 0,
            seg.p_memsz != 0,
            user_p4_index == table_slot(USER_CODE_ADDR as int),
            pages_private(*seg, i as int),
        decreases pages - i,
    {
        let inside = match seg.p_vaddr.checked_add(i * 4096) {
            Some(va) => match p4_index(va) {
                Some(idx) => idx == user_p4_index,
                None => false,
            },
            None => false,
        };
        if !inside {
            assert(!(canonical(seg.p_vaddr + i * 4096) && table_slot(seg.p_vaddr + i * 4096)
                == table_slot(USER_CODE_ADDR as int)));
            assert(!pages_private(*seg, pages as int));
            return Err(
                "elf: a PT_LOAD segment page falls outside the process's private PML4 slot -- refusing to map",
            );
        }
        i += 1;
    }
    Ok(pages)
}

/// A complaint about the first segments is one about all.
proof fn lemma_refusal_stays(segs: Seq<ProgramSegment>, k: nat, n: nat)
    requires
        k <= n,
        segments_refusal(segs, k) is Some,
    ensures
        segments_refusal(segs, n) == segments_refusal(segs, k),
    decreases n,
{
    if k < n {
        lemma_refusal_stays(segs, k, (n - 1) as nat);
    }
}

/// Where there is no complaint, every segment is in order.
pub proof fn lemma_no_refusal(segs: Seq<ProgramSegment>, k: nat, i: int)
    requires
        segments_refusal(segs, k) is None,
        0 <= i < k,
    ensures
        segment_refusal(segs[i]) is None,
    decreases k,
{
    if i < k - 1 {
        lemma_no_refusal(segs, (k - 1) as nat, i);
    }
}

/// Checks an executable.
fn check_elf(entry: u64, segments: &Vec<ProgramSegment>) -> (r: Result<u16, &'static str>)
    ensures
        match r {
            Ok(slot) => elf_refusal(entry, segments@) is None && slot == table_slot(
                USER_CODE_ADDR as int,
            ),
            Err(e) => elf_refusal(entry, segments@) == Some(e@),
        },
{
    if entry != USER_CODE_ADDR {
        return Err(
            "elf: e_entry does not equal USER_CODE_ADDR -- this loader only runs ELFs specifically linked so their entry point lands exactly there (milestone 36 deliberately did not make the ring-3 entry trampoline's jump target dynamic -- see process.rs's module doc comment)",
        );
    }
    if segments.len() == 0 {
        return Err("elf: no PT_LOAD segments to map");
    }
    if segments.len() > MAX_ELF_LOAD_SEGMENTS {
        return Err("elf: more PT_LOAD segments than this loader's fixed cap");
    }
    let user_p4_index: u16 = match user_slot() {
        Ok(slot) => slot,
        Err(e) => return Err(e),
    };
    let mut entry_in_segment = false;
    let mut k: usize = 0;
    while k < segments.len()
        invariant
            k <= segments.len(),
            entry_in_segment == (exists|j: int|
                0 <= j < k && covers(#[trigger] segments@[j], entry)),
        decreases segments.len() - k,
    {
        let end: u64 = segments[k].p_vaddr.saturating_add(segments[k].p_memsz);
        if entry >= segments[k].p_vaddr && entry < end {
            assert(covers(segments@[k as int], entry));
            entry_in_segment = true;
        }
        k += 1;
    }
    if !entry_in_segment {
        return Err(
            "elf: e_entry does not fall within any PT_LOAD segment's [p_vaddr, p_vaddr+p_memsz) range",
        );
    }
    let mut total: u64 = 0;
    let mut k: usize = 0;
    while k < segments.len()
        invariant
            k <= segments.len() <= MAX_ELF_LOAD_SEGMENTS,
            entry == USER_CODE_ADDR,
            segments.len() > 0,
            exists|j: int| 0 <= j < segments@.len() && covers(#[trigger] segments@[j], entry),
            user_p4_index == table_slot(USER_CODE_ADDR as int),
            segments_refusal(segments@, k as nat) is None,
            total == total_pages(segments@, k as nat),
            total <= k * MAX_PAGES_PER_ELF_SEGMENT,
        decreases segments.len() - k,
    {
        match check_segment(&segments[k], user_p4_index) {
            Ok(pages) => {
                total = total + pages;
            },
            Err(e) => {
                proof {
                    lemma_refusal_stays(segments@, (k + 1) as nat, segments@.len());
                }
                return Err(e);
            },
        }
        k += 1;
    }
    if total > MAX_TOTAL_ELF_PAGES {
        return Err(
            "elf: total PT_LOAD page count across all segments exceeds this loader's fixed cap",
        );
    }
    Ok(user_p4_index)
}

fn push_segment_pages(image: &[u8], seg: &ProgramSegment, pages: &mut Vec<PageLoad>)
    requires
        segment_refusal(*seg) is None,
        seg.p_offset + (if seg.p_filesz <= segment_pages(*seg) * 4096 {
            seg.p_filesz as int
        } else {
            segment_pages(*seg) * 4096
        }) <= image.len(),
    ensures
        pages_view(final(pages)@) == pages_view(old(pages)@) + segment_page_loads(
            image@,
            *seg,
            segment_pages(*seg) as nat,
        ),
{
    let ghost before = pages_view(pages@);
    let count: u64 = page_count(seg.p_memsz);
    let mut i: u64 = 0;
    while i < count
        invariant
            i <= count <= MAX_PAGES_PER_ELF_SEGMENT,
            count == segment_pages(*seg),
            pages_private(*seg, count as int),
            seg.p_offset + (if seg.p_filesz <= count * 4096 {
                seg.p_filesz as int
            } else {
                count * 4096
            }) <= image.len(),
            pages_view(pages@) == before + segment_page_loads(image@, *seg, i as nat),
        decreases count - i,
    {
        let ghost prev = pages_view(pages@);
        let off: u64 = i * 4096;
        assert(canonical(seg.p_vaddr + i * 4096));
        let data = if off < seg.p_filesz {
            let len: u64 = if seg.p_filesz - off <= 4096 {
                seg.p_filesz - off
            } else {
                4096
            };
            let from: usize = (seg.p_offset + off) as usize;
            copy_bytes(image, from, from + len as usize)
        } else {
            Vec::new()
        };
        assert(data@ == page_data(image@, *seg, i as int));
        pages.push(PageLoad { addr: seg.p_vaddr + off, data });
        assert(pages_view(pages@) == prev.push(
            segment_page_loads(image@, *seg, (i + 1) as nat)[i as int],
        ));
        assert(segment_page_loads(image@, *seg, (i + 1) as nat) == segment_page_loads(
            image@,
            *seg,
            i as nat,
        ).push(segment_page_loads(image@, *seg, (i + 1) as nat)[i as int]));
        i += 1;
    }
}

/// The pages of an executable are as many as its segments take.
pub proof fn lemma_page_count(image: Seq<u8>, segs: Seq<ProgramSegment>, k: nat)
    ensures
        elf_page_loads(image, segs, k).len() == total_pages(segs, k),
        k <= segs.len() ==> total_pages(segs, k) <= total_pages(segs, segs.len()),
    decreases k, segs.len() - k,
{
    lemma_page_total(segs, k, segs.len());
    if k > 0 {
        lemma_page_count(image, segs, (k - 1) as nat);
    }
}

pub proof fn lemma_page_total(segs: Seq<ProgramSegment>, k: nat, n: nat)
    ensures
        k <= n ==> total_pages(segs, k) <= total_pages(segs, n),
    decreases n,
{
    if k < n {
        lemma_page_total(segs, k, (n - 1) as nat);
    }
}

/// Some page of an executable is where the code begins.
proof fn lemma_code_page(image: Seq<u8>, segs: Seq<ProgramSegment>, k: nat, j: int, i: int)
    requires
        0 <= j < k,
        0 <= i < segment_pages(segs[j]),
        segs[j].p_vaddr + i * 4096 == USER_CODE_ADDR,
    ensures
        exists|m: int|
            0 <= m < elf_page_loads(image, segs, k).len() && (#[trigger] elf_page_loads(
                image,
                segs,
                k,
            )[m]).addr == USER_CODE_ADDR,
    decreases k,
{
    let all = elf_page_loads(image, segs, k);
    let before = elf_page_loads(image, segs, (k - 1) as nat);
    if j < k - 1 {
        lemma_code_page(image, segs, (k - 1) as nat, j, i);
        let m = choose|m: int| 0 <= m < before.len() && (#[trigger] before[m]).addr == USER_CODE_ADDR;
        assert(all[m].addr == USER_CODE_ADDR);
    } else {
        assert(all[before.len() + i].addr == USER_CODE_ADDR);
    }
}

proof fn lemma_code_frame_exists(pages: Seq<PageView>, k: nat, m: int)
    requires
        0 <= m < k <= pages.len(),
        pages[m].addr == USER_CODE_ADDR,
    ensures
        code_frame_of(pages, k) is Some,
    decreases k,
{
    if pages[k - 1].addr != USER_CODE_ADDR {
        lemma_code_frame_exists(pages, (k - 1) as nat, m);
    }
}

/// An executable that is not refused has a page where the code begins.
pub proof fn lemma_code_frame(image: Seq<u8>, entry: u64, segs: Seq<ProgramSegment>)
    requires
        elf_refusal(entry, segs) is None,
    ensures
        code_frame_of(
            elf_page_loads(image, segs, segs.len()),
            elf_page_loads(image, segs, segs.len()).len(),
        ) is Some,
{
    let j = choose|j: int| 0 <= j < segs.len() && covers(#[trigger] segs[j], entry);
    lemma_no_refusal(segs, segs.len(), j);
    let i = (USER_CODE_ADDR - segs[j].p_vaddr) / 4096;
    assert(segs[j].p_vaddr + i * 4096 == USER_CODE_ADDR);
    lemma_code_page(image, segs, segs.len(), j, i);
    let pages = elf_page_loads(image, segs, segs.len());
    let m = choose|m: int| 0 <= m < pages.len() && (#[trigger] pages[m]).addr == USER_CODE_ADDR;
    lemma_code_frame_exists(pages, pages.len(), m);
}

/// Decides on the build of a process from an executable's segments. The file
/// bytes of a segment are put at its address, and the rest of its memory is
/// cleared. A page at an address that is not canonical lies in no slot.
pub fn create_process_from_elf(
    label: &'static str,
    entry: u64,
    segments: &Vec<ProgramSegment>,
    image: &[u8],
) -> (r: Result<BuildPlan, &'static str>)
    requires
        elf_refusal(entry, segments@) is None ==> segments_in_image(segments@, image@.len()),
    ensures
        match r {
            Ok(plan) => elf_plan(label@, entry, segments@, image@) == Ok::<PlanView, Seq<char>>(
                plan@,
            ),
            Err(e) => elf_plan(label@, entry, segments@, image@) == Err::<PlanView, Seq<char>>(e@),
        },
        r matches Ok(plan) ==> plan_ok(plan@),
{
    let private: u16 = match check_elf(entry, segments) {
        Ok(slot) => slot,
        Err(e) => return Err(e),
    };
    let ghost segs = segments@;
    let mut pages: Vec<PageLoad> = Vec::new();
    let mut k: usize = 0;
    while k < segments.len()
        invariant
            k <= segments.len(),
            segs == segments@,
            segments_refusal(segs, segs.len()) is None,
            segments_in_image(segs, image@.len()),
            pages_view(pages@) == elf_page_loads(image@, segs, k as nat),
        decreases segments.len() - k,
    {
        proof {
            lemma_no_refusal(segs, segs.len(), k as int);
        }
        push_segment_pages(image, &segments[k], &mut pages);
        k += 1;
    }
    let ghost pv = pages_view(pages@);
    proof {
        lemma_page_count(image@, segs, segs.len());
        lemma_code_frame(image@, entry, segs);
    }
    let n: usize = pages.len();
    let mut steps: Vec<BuildStep> = Vec::new();
    steps.push(BuildStep::TakeFrame(Part::Pml4));
    steps.push(BuildStep::FillTable { private });
    let ghost head = seq![
        StepView::TakeFrame(Part::Pml4),
        StepView::FillTable { private: table_slot(USER_CODE_ADDR as int) as u16 },
    ];
    assert(steps_view(steps@) == head);
    let mut code: usize = 0;
    let mut extra: Vec<usize> = Vec::new();
    let mut i: usize = 0;
    while i < n
        invariant
            i <= n == pages.len(),
            n <= MAX_TOTAL_ELF_PAGES,
            pv == pages_view(pages@),
            steps_view(steps@) == head + page_steps(pv, i as nat),
            code == (match code_frame_of(pv, i as nat) {
                Some(c) => c,
                None => 0,
            }),
            Seq::new(extra@.len(), |j: int| extra@[j] as int) == extra_frames_of(pv, i as nat),
        decreases n - i,
    {
        let ghost prev = steps_view(steps@);
        let ghost prev_extra = Seq::new(extra@.len(), |j: int| extra@[j] as int);
        let addr: u64 = pages[i].addr;
        let data = copy_bytes(pages[i].data.as_slice(), 0, pages[i].data.len());
        assert(data@ == pv[i as int].data);
        steps.push(BuildStep::TakeFrame(Part::ElfSegment));
        steps.push(BuildStep::MapPage { addr, frame: i + 1, part: Part::ElfSegment });
        steps.push(BuildStep::LoadFrame { frame: i + 1, data });
        assert(steps_view(steps@) == prev + seq![
            StepView::TakeFrame(Part::ElfSegment),
            StepView::MapPage { addr, frame: i + 1, part: Part::ElfSegment },
            StepView::LoadFrame { frame: i + 1, data: pv[i as int].data },
        ]);
        if addr == USER_CODE_ADDR {
            code = i + 1;
        } else {
            extra.push(i + 1);
            assert(Seq::new(extra@.len(), |j: int| extra@[j] as int) == prev_extra.push(i + 1));
        }
        i += 1;
    }
    let ghost prev = steps_view(steps@);
    steps.push(BuildStep::TakeFrame(Part::Stack));
    steps.push(BuildStep::MapPage { addr: USER_STACK_ADDR, frame: n + 1, part: Part::Stack });
    assert(steps_view(steps@) == prev + seq![
        StepView::TakeFrame(Part::Stack),
        StepView::MapPage { addr: USER_STACK_ADDR, frame: n + 1, part: Part::Stack },
    ]);
    push_heap_steps(n + 2, &mut steps);
    let plan = BuildPlan { label, steps, code, stack: n + 1, first_heap: n + 2, extra };
    assert(plan@ == elf_plan(label@, entry, segs, image@)->Ok_0);
    proof {
        law_elf_plan_is_sound(label@, entry, segs, image@);
    }
    Ok(plan)
}

/// Decides on the build of a process from a parsed executable.
pub fn create_loaded_elf_process(image: &[u8], elf_image: &ElfImage) -> (r: Result<
    BuildPlan,
    &'static str,
>)
    requires
        elf_refusal(elf_image.entry, elf_image.segments@) is None ==> segments_in_image(
            elf_image.segments@,
            image@.len(),
        ),
    ensures
        match r {
            Ok(plan) => elf_plan(
                "elf-loaded"@,
                elf_image.entry,
                elf_image.segments@,
                image@,
            ) == Ok::<PlanView, Seq<char>>(plan@),
            Err(e) => elf_plan(
                "elf-loaded"@,
                elf_image.entry,
                elf_image.segments@,
                image@,
            ) == Err::<PlanView, Seq<char>>(e@),
        },
        r matches Ok(plan) ==> plan_ok(plan@),
{
    create_process_from_elf("elf-loaded", elf_image.entry, &elf_image.segments, image)
}

/// Frames that the first `k` steps take.
pub open spec fn frames_taken(steps: Seq<StepView>, k: nat) -> int
    decreases k,
{
    if k == 0 {
        0
    } else if steps[k - 1] is TakeFrame {
        frames_taken(steps, (k - 1) as nat) + 1
    } else {
        frames_taken(steps, (k - 1) as nat)
    }
}

/// Whether a step uses only frames among the first `n`, and fills no more than a page.
pub open spec fn uses_taken_frames(step: StepView, n: int) -> bool {
    match step {
        StepView::TakeFrame(_) => true,
        StepView::FillTable { .. } => 0 < n,
        StepView::MapPage { frame, .. } => 0 <= frame < n,
        StepView::LoadFrame { frame, data } => 0 <= frame < n && data.len() <= PAGE_SIZE,
    }
}

/// Whether every step uses only frames that were taken before it.
#[verifier::opaque]
pub open spec fn steps_ok(steps: Seq<StepView>) -> bool {
    forall|k: int|
        0 <= k < steps.len() ==> uses_taken_frames(
            #[trigger] steps[k],
            frames_taken(steps, k as nat),
        )
}

/// Whether a plan uses no frame before it was taken, and takes every frame that
/// the process consists of.
pub open spec fn plan_ok(p: PlanView) -> bool {
    let n = frames_taken(p.steps, p.steps.len());
    &&& 0 < n
    &&& 0 <= p.code < n
    &&& 0 <= p.stack < n
    &&& 0 <= p.first_heap
    &&& p.first_heap + HEAP_PAGE_COUNT <= n
    &&& forall|i: int| 0 <= i < p.extra.len() ==> 0 <= #[trigger] p.extra[i] < n
    &&& steps_ok(p.steps)
}

/// A build under way.
pub struct Build {
    pub plan: BuildPlan,
    /// Steps that were performed.
    pub at: usize,
    /// The frames that were taken, by their physical addresses.
    pub frames: Vec<u64>,
}

/// A build under way, as a mathematical value.
#[verifier::ext_equal]
pub struct BuildView {
    pub plan: PlanView,
    pub at: int,
    pub frames: Seq<u64>,
}

/// What the outcome of the next step makes of a build. Only taking a frame has a
/// value as its outcome; only that and mapping a page can fail.
pub open spec fn recorded(b: BuildView, outcome: Option<u64>) -> Result<BuildView, Seq<char>> {
    match b.plan.steps[b.at] {
        StepView::TakeFrame(part) => match outcome {
            Some(f) => Ok(BuildView { at: b.at + 1, frames: b.frames.push(f), ..b }),
            None => Err(no_frame_error(part)),
        },
        StepView::MapPage { addr, frame, part } => match outcome {
            Some(_) => Ok(BuildView { at: b.at + 1, ..b }),
            None => Err(map_error(part)),
        },
        _ => Ok(BuildView { at: b.at + 1, ..b }),
    }
}

/// The process that a build results in.
pub open spec fn finished(b: BuildView) -> ProcessView {
    ProcessView {
        label: b.plan.label,
        pml4_frame: b.frames[0],
        code_frame: b.frames[b.plan.code],
        stack_frame: b.frames[b.plan.stack],
        heap_frames: b.frames.subrange(
            b.plan.first_heap,
            b.plan.first_heap + HEAP_PAGE_COUNT,
        ),
        heap_used: 0,
        fds: seq![None, None, None, None],
        extra_frames: Seq::new(b.plan.extra.len(), |i: int| b.frames[b.plan.extra[i]]),
    }
}

fn no_frame_text(part: Part) -> (r: &'static str)
    ensures
        r@ == no_frame_error(part),
{
    match part {
        Part::Pml4 => "out of physical frames (pml4)",
        Part::Code => "out of physical frames (code)",
        Part::Stack => "out of physical frames (stack)",
        Part::Heap => "out of physical frames (heap)",
        Part::ElfSegment => "out of physical frames (elf segment)",
    }
}

fn map_text(part: Part) -> (r: &'static str)
    ensures
        r@ == map_error(part),
{
    match part {
        Part::Pml4 => "map_to failed",
        Part::Code => "map_to failed (code page)",
        Part::Stack => "map_to failed (stack page)",
        Part::Heap => "map_to failed (heap page)",
        Part::ElfSegment => "map_to failed (elf segment page)",
    }
}

impl Build {
    pub open spec fn view(self) -> BuildView {
        BuildView { plan: self.plan@, at: self.at as int, frames: self.frames@ }
    }

    pub open spec fn wf(self) -> bool {
        &&& plan_ok(self.plan@)
        &&& self.at <= self.plan.steps@.len()
        &&& self.frames@.len() == frames_taken(self.plan@.steps, self.at as nat)
    }

    /// Starts a build.
    pub fn start(plan: BuildPlan) -> (r: Build)
        requires
            plan_ok(plan@),
        ensures
            r.wf(),
            r@ == (BuildView { plan: plan@, at: 0, frames: Seq::empty() }),
    {
        Build { plan, at: 0, frames: Vec::new() }
    }

    /// The step to be performed next, if one is left.
    pub fn next_step(&self) -> (r: Option<&BuildStep>)
        requires
            self.wf(),
        ensures
            match r {
                Some(step) => self.at < self.plan.steps@.len() && step@
                    == self@.plan.steps[self.at as int],
                None => self.at == self.plan.steps@.len(),
            },
            r matches Some(step) ==> uses_taken_frames(step@, self.frames@.len() as int),
    {
        if self.at < self.plan.steps.len() {
            proof {
                reveal(steps_ok);
                assert(self@.plan.steps[self.at as int] == self.plan.steps@[self.at as int]@);
            }
            Some(&self.plan.steps[self.at])
        } else {
            None
        }
    }

    /// Takes in the outcome of the next step.
    pub fn record(&mut self, outcome: Option<u64>) -> (r: Result<(), &'static str>)
        requires
            old(self).wf(),
            old(self).at < old(self).plan.steps@.len(),
        ensures
            match r {
                Ok(()) => final(self).wf() && recorded(old(self)@, outcome) == Ok::<
                    BuildView,
                    Seq<char>,
                >(final(self)@),
                Err(e) => recorded(old(self)@, outcome) == Err::<BuildView, Seq<char>>(e@)
                    && final(self)@ == old(self)@,
            },
    {
        let ghost before = self@;
        let n: usize = self.plan.steps.len();
        assert(self.at < n);
        let (takes, failure) = self.next_failure();
        if let Some(text) = failure {
            if outcome.is_none() {
                return Err(text);
            }
        }
        if takes {
            if let Some(frame) = outcome {
                self.frames.push(frame);
            }
        }
        self.at = self.at + 1;
        assert(self@.plan == before.plan);
        Ok(())
    }

    /// Whether the next step takes a frame, and how it fails, if it can.
    fn next_failure(&self) -> (r: (bool, Option<&'static str>))
        requires
            self.at < self.plan.steps@.len(),
        ensures
            match self@.plan.steps[self.at as int] {
                StepView::TakeFrame(part) => {
                    &&& r.0
                    &&& r.1 matches Some(e) && e@ == no_frame_error(part)
                },
                StepView::MapPage { addr, frame, part } => {
                    &&& !r.0
                    &&& r.1 matches Some(e) && e@ == map_error(part)
                },
                _ => !r.0 && r.1 is None,
            },
    {
        match &self.plan.steps[self.at] {
            BuildStep::TakeFrame(part) => (true, Some(no_frame_text(*part))),
            BuildStep::MapPage { addr: _, frame: _, part } => (false, Some(map_text(*part))),
            _ => (false, None),
        }
    }

    /// The process, once every step was performed.
    pub fn finish(self) -> (r: Process)
        requires
            self.wf(),
            self.at == self.plan.steps@.len(),
        ensures
            r@ == finished(self@),
            process_ok(r@),
    {
        let ghost b = self@;
        let frame_count: usize = self.frames.len();
        assert(b.plan.steps.len() == self.plan.steps@.len());
        assert(frame_count == frames_taken(b.plan.steps, b.plan.steps.len()));
        assert(self.plan.first_heap + HEAP_PAGE_COUNT <= frame_count);
        let heap_frames = frames_between(
            &self.frames,
            self.plan.first_heap,
            self.plan.first_heap + HEAP_PAGE_COUNT as usize,
        );
        let mut extra_frames: Vec<u64> = Vec::new();
        let mut i: usize = 0;
        while i < self.plan.extra.len()
            invariant
                i <= self.plan.extra.len(),
                self@ == b,
                self.wf(),
                self.at == self.plan.steps@.len(),
                extra_frames@.len() == i,
                forall|k: int| 0 <= k < i ==> extra_frames@[k] == b.frames[b.plan.extra[k]],
            decreases self.plan.extra.len() - i,
        {
            assert(b.plan.extra[i as int] == self.plan.extra@[i as int]);
            extra_frames.push(self.frames[self.plan.extra[i]]);
            i += 1;
        }
        let mut fds: Vec<Option<OpenFile>> = Vec::new();
        fds.push(None);
        fds.push(None);
        fds.push(None);
        fds.push(None);
        assert(fds_view(fds@) == seq![None::<OpenFileView>, None, None, None]);
        let r = Process {
            label: self.plan.label,
            pml4_frame: self.frames[0],
            code_frame: self.frames[self.plan.code],
            stack_frame: self.frames[self.plan.stack],
            heap_frames,
            heap_used: 0,
            fds,
            extra_frames,
        };
        assert(r@ == finished(b));
        r
    }
}

fn frames_between(frames: &Vec<u64>, from: usize, to: usize) -> (r: Vec<u64>)
    requires
        from <= to <= frames@.len(),
    ensures
        r@ == frames@.subrange(from as int, to as int),
{
    let mut out: Vec<u64> = Vec::new();
    let mut i: usize = from;
    while i < to
        invariant
            from <= i <= to <= frames@.len(),
            out@ == frames@.subrange(from as int, i as int),
        decreases to - i,
    {
        out.push(frames[i]);
        i += 1;
    }
    out
}

/// Steps that follow do not change how many frames the first steps take.
proof fn lemma_taken_prefix(a: Seq<StepView>, b: Seq<StepView>, k: nat)
    requires
        k <= a.len(),
        k <= b.len(),
        forall|i: int| 0 <= i < k ==> a[i] == b[i],
    ensures
        frames_taken(a, k) == frames_taken(b, k),
    decreases k,
{
    if k > 0 {
        lemma_taken_prefix(a, b, (k - 1) as nat);
    }
}

/// Appending a step whose frames were taken.
proof fn lemma_push_step(steps: Seq<StepView>, x: StepView)
    requires
        steps_ok(steps),
        uses_taken_frames(x, frames_taken(steps, steps.len())),
    ensures
        steps_ok(steps.push(x)),
        frames_taken(steps.push(x), steps.len() + 1) == frames_taken(steps, steps.len()) + (
        if x is TakeFrame {
            1int
        } else {
            0
        }),
{
    reveal(steps_ok);
    let t = steps.push(x);
    lemma_taken_prefix(t, steps, steps.len());
    assert forall|k: int| 0 <= k < t.len() implies uses_taken_frames(
        #[trigger] t[k],
        frames_taken(t, k as nat),
    ) by {
        lemma_taken_prefix(t, steps, k as nat);
        if k < steps.len() {
            assert(t[k] == steps[k]);
        }
    }
}

/// Taking, mapping and loading one more page.
proof fn lemma_push_page(steps: Seq<StepView>, part: Part, addr: u64, frame: int, data: Seq<u8>)
    requires
        steps_ok(steps),
        frame == frames_taken(steps, steps.len()),
        0 <= frame,
        data.len() <= PAGE_SIZE,
    ensures
        ({
            let t = steps + seq![
                StepView::TakeFrame(part),
                StepView::MapPage { addr, frame, part },
                StepView::LoadFrame { frame, data },
            ];
            steps_ok(t) && frames_taken(t, t.len()) == frame + 1
        }),
{
    let a = steps.push(StepView::TakeFrame(part));
    lemma_push_step(steps, StepView::TakeFrame(part));
    let b = a.push(StepView::MapPage { addr, frame, part });
    lemma_push_step(a, StepView::MapPage { addr, frame, part });
    let c = b.push(StepView::LoadFrame { frame, data });
    lemma_push_step(b, StepView::LoadFrame { frame, data });
    assert(c == steps + seq![
        StepView::TakeFrame(part),
        StepView::MapPage { addr, frame, part },
        StepView::LoadFrame { frame, data },
    ]);
}

proof fn lemma_push_heap(steps: Seq<StepView>, first: int, k: nat)
    requires
        steps_ok(steps),
        first == frames_taken(steps, steps.len()),
        0 <= first,
    ensures
        steps_ok(steps + heap_steps(first, k)),
        frames_taken(steps + heap_steps(first, k), (steps + heap_steps(first, k)).len()) == first
            + k,
    decreases k,
{
    if k == 0 {
        assert(steps + heap_steps(first, k) == steps);
    } else {
        lemma_push_heap(steps, first, (k - 1) as nat);
        let before = steps + heap_steps(first, (k - 1) as nat);
        let addr = (HEAP_START + (k - 1) * PAGE_SIZE) as u64;
        lemma_push_page(before, Part::Heap, addr, first + k - 1, Seq::empty());
        assert(steps + heap_steps(first, k) == before + seq![
            StepView::TakeFrame(Part::Heap),
            StepView::MapPage { addr, frame: first + k - 1, part: Part::Heap },
            StepView::LoadFrame { frame: first + k - 1, data: Seq::<u8>::empty() },
        ]);
    }
}

proof fn lemma_push_pages(steps: Seq<StepView>, pages: Seq<PageView>, k: nat)
    requires
        steps_ok(steps),
        frames_taken(steps, steps.len()) == 1,
        k <= pages.len(),
        forall|i: int| 0 <= i < pages.len() ==> (#[trigger] pages[i]).data.len() <= PAGE_SIZE,
    ensures
        steps_ok(steps + page_steps(pages, k)),
        frames_taken(steps + page_steps(pages, k), (steps + page_steps(pages, k)).len()) == 1 + k,
    decreases k,
{
    if k == 0 {
        assert(steps + page_steps(pages, k) == steps);
    } else {
        lemma_push_pages(steps, pages, (k - 1) as nat);
        let before = steps + page_steps(pages, (k - 1) as nat);
        let page = pages[k - 1];
        lemma_push_page(before, Part::ElfSegment, page.addr, k as int, page.data);
        assert(steps + page_steps(pages, k) == before + seq![
            StepView::TakeFrame(Part::ElfSegment),
            StepView::MapPage { addr: page.addr, frame: k as int, part: Part::ElfSegment },
            StepView::LoadFrame { frame: k as int, data: page.data },
        ]);
    }
}

/// A build from a flat image uses frames only once they were taken, and takes all
/// that its process consists of.
pub proof fn law_image_plan_is_sound(label: Seq<char>, image: Seq<u8>)
    requires
        image_plan(label, image) is Ok,
    ensures
        plan_ok(image_plan(label, image)->Ok_0),
{
    let plan = image_plan(label, image)->Ok_0;
    let s0 = Seq::<StepView>::empty();
    assert(steps_ok(s0)) by {
        reveal(steps_ok);
    }
    let x0 = StepView::TakeFrame(Part::Pml4);
    let x1 = StepView::FillTable { private: table_slot(USER_CODE_ADDR as int) as u16 };
    let x2 = StepView::TakeFrame(Part::Code);
    let x3 = StepView::TakeFrame(Part::Stack);
    let x4 = StepView::MapPage { addr: USER_CODE_ADDR, frame: 1, part: Part::Code };
    let x5 = StepView::MapPage { addr: USER_STACK_ADDR, frame: 2, part: Part::Stack };
    lemma_push_step(s0, x0);
    lemma_push_step(s0.push(x0), x1);
    lemma_push_step(s0.push(x0).push(x1), x2);
    lemma_push_step(s0.push(x0).push(x1).push(x2), x3);
    lemma_push_step(s0.push(x0).push(x1).push(x2).push(x3), x4);
    lemma_push_step(s0.push(x0).push(x1).push(x2).push(x3).push(x4), x5);
    let head = s0.push(x0).push(x1).push(x2).push(x3).push(x4).push(x5);
    lemma_push_heap(head, 3, HEAP_PAGE_COUNT as nat);
    let mid = head + heap_steps(3, HEAP_PAGE_COUNT as nat);
    let last = StepView::LoadFrame { frame: 1, data: image };
    lemma_push_step(mid, last);
    assert(plan.steps == mid.push(last)) by {
        assert(head == seq![x0, x1, x2, x3, x4, x5]);
    }
}

proof fn lemma_page_data_len(image: Seq<u8>, segs: Seq<ProgramSegment>, k: nat)
    requires
        k <= segs.len(),
        segments_in_image(segs, image.len()),
    ensures
        forall|i: int|
            0 <= i < elf_page_loads(image, segs, k).len() ==> (#[trigger] elf_page_loads(
                image,
                segs,
                k,
            )[i]).data.len() <= PAGE_SIZE,
    decreases k,
{
    if k > 0 {
        lemma_page_data_len(image, segs, (k - 1) as nat);
        let before = elf_page_loads(image, segs, (k - 1) as nat);
        let seg = segs[k - 1];
        let tail = segment_page_loads(image, seg, segment_pages(seg) as nat);
        assert forall|i: int| 0 <= i < elf_page_loads(image, segs, k).len() implies (
        #[trigger] elf_page_loads(image, segs, k)[i]).data.len() <= PAGE_SIZE by {
            if i < before.len() {
                assert(elf_page_loads(image, segs, k)[i] == before[i]);
            } else {
                let j = i - before.len();
                assert(elf_page_loads(image, segs, k)[i] == tail[j]);
                assert(tail[j].data == page_data(image, seg, j));
            }
        }
    }
}

pub proof fn lemma_frame_numbers(pages: Seq<PageView>, k: nat)
    ensures
        code_frame_of(pages, k) matches Some(c) ==> 1 <= c <= k,
        forall|i: int|
            0 <= i < extra_frames_of(pages, k).len() ==> 1 <= #[trigger] extra_frames_of(
                pages,
                k,
            )[i] <= k,
    decreases k,
{
    if k > 0 {
        lemma_frame_numbers(pages, (k - 1) as nat);
        let before = extra_frames_of(pages, (k - 1) as nat);
        assert forall|i: int| 0 <= i < extra_frames_of(pages, k).len() implies 1
            <= #[trigger] extra_frames_of(pages, k)[i] <= k by {
            if i < before.len() {
                assert(extra_frames_of(pages, k)[i] == before[i]);
            }
        }
    }
}

/// The steps of a build from an executable with these pages.
spec fn elf_steps(pages: Seq<PageView>) -> Seq<StepView> {
    let n = pages.len() as int;
    seq![
        StepView::TakeFrame(Part::Pml4),
        StepView::FillTable { private: table_slot(USER_CODE_ADDR as int) as u16 },
    ] + page_steps(pages, pages.len()) + seq![
        StepView::TakeFrame(Part::Stack),
        StepView::MapPage { addr: USER_STACK_ADDR, frame: n + 1, part: Part::Stack },
    ] + heap_steps(n + 2, HEAP_PAGE_COUNT as nat)
}

proof fn lemma_elf_steps(pages: Seq<PageView>)
    requires
        forall|i: int| 0 <= i < pages.len() ==> (#[trigger] pages[i]).data.len() <= PAGE_SIZE,
    ensures
        steps_ok(elf_steps(pages)),
        frames_taken(elf_steps(pages), elf_steps(pages).len()) == pages.len() + 2
            + HEAP_PAGE_COUNT,
{
    let n = pages.len() as int;
    let s0 = Seq::<StepView>::empty();
    assert(steps_ok(s0)) by {
        reveal(steps_ok);
    }
    let x0 = StepView::TakeFrame(Part::Pml4);
    let x1 = StepView::FillTable { private: table_slot(USER_CODE_ADDR as int) as u16 };
    lemma_push_step(s0, x0);
    lemma_push_step(s0.push(x0), x1);
    let head = s0.push(x0).push(x1);
    lemma_push_pages(head, pages, pages.len());
    let mid = head + page_steps(pages, pages.len());
    let x2 = StepView::TakeFrame(Part::Stack);
    let x3 = StepView::MapPage { addr: USER_STACK_ADDR, frame: n + 1, part: Part::Stack };
    lemma_push_step(mid, x2);
    lemma_push_step(mid.push(x2), x3);
    let tail = mid.push(x2).push(x3);
    lemma_push_heap(tail, n + 2, HEAP_PAGE_COUNT as nat);
    assert(elf_steps(pages) == tail + heap_steps(n + 2, HEAP_PAGE_COUNT as nat)) by {
        assert(head == seq![x0, x1]);
        assert(tail == mid + seq![x2, x3]);
    }
}

/// A build from an executable uses frames only once they were taken, and takes all
/// that its process consists of.
pub proof fn law_elf_plan_is_sound(
    label: Seq<char>,
    entry: u64,
    segs: Seq<ProgramSegment>,
    image: Seq<u8>,
)
    requires
        elf_plan(label, entry, segs, image) is Ok,
        segments_in_image(segs, image.len()),
    ensures
        plan_ok(elf_plan(label, entry, segs, image)->Ok_0),
{
    let plan = elf_plan(label, entry, segs, image)->Ok_0;
    let pages = elf_page_loads(image, segs, segs.len());
    lemma_page_data_len(image, segs, segs.len());
    lemma_code_frame(image, entry, segs);
    lemma_frame_numbers(pages, pages.len());
    lemma_elf_steps(pages);
    assert(plan.steps == elf_steps(pages));
}

/// What a file was parsed to can be built: its segments lie within it.
pub proof fn law_parsed_elf_lies_in_image(image: Seq<u8>, entry: u64, segs: Seq<ProgramSegment>)
    requires
        parsed(image) == Ok::<(u64, Seq<ProgramSegment>), Seq<char>>((entry, segs)),
    ensures
        segments_in_image(segs, image.len()),
{
    law_parsed_segments_fit(image);
    assert forall|k: int| 0 <= k < segs.len() implies {
        let seg = #[trigger] segs[k];
        let loaded = segment_pages(seg) * 4096;
        seg.p_offset + (if seg.p_filesz <= loaded {
            seg.p_filesz as int
        } else {
            loaded
        }) <= image.len()
    } by {
        assert(segs[k].p_filesz <= segs[k].p_memsz);
    }
}

/// Byte `o` of a page that was cleared and loaded with `data`.
pub open spec fn loaded_byte(data: Seq<u8>, o: int) -> u8 {
    if o < data.len() {
        data[o]
    } else {
        0
    }
}

/// Every byte of a segment's pages is the file's byte at that offset of the
/// segment, or zero past the file's part of the segment.
pub proof fn law_segment_bytes(image: Seq<u8>, segs: Seq<ProgramSegment>, k: int, i: int, o: int)
    requires
        segments_in_image(segs, image.len()),
        0 <= k < segs.len(),
        0 <= i < segment_pages(segs[k]),
        0 <= o < PAGE_SIZE,
    ensures
        loaded_byte(page_data(image, segs[k], i), o) == (if i * PAGE_SIZE + o < segs[k].p_filesz {
            image[segs[k].p_offset + i * PAGE_SIZE + o]
        } else {
            0u8
        }),
{
    let seg = segs[k];
    let loaded = segment_pages(seg) * 4096;
    assert((i + 1) * 4096 <= loaded) by (nonlinear_arith)
        requires
            i + 1 <= segment_pages(seg),
            loaded == segment_pages(seg) * 4096,
    ;
}

/// The pages of a flat program go through the private slot, and no two of them are
/// the same page or share a frame.
pub proof fn law_image_pages_are_private(label: Seq<char>, image: Seq<u8>)
    requires
        image_plan(label, image) is Ok,
    ensures
        ({
            let steps = image_plan(label, image)->Ok_0.steps;
            &&& forall|k: int|
                0 <= k < steps.len() ==> (#[trigger] steps[k] matches StepView::MapPage {
                    addr,
                    ..
                } ==> canonical(addr as int) && addr % 4096 == 0 && table_slot(addr as int)
                    == table_slot(USER_CODE_ADDR as int))
            &&& forall|j: int, k: int|
                0 <= j < k < steps.len() ==> (#[trigger] steps[j] matches StepView::MapPage {
                    addr: a,
                    frame: f,
                    ..
                } ==> (#[trigger] steps[k] matches StepView::MapPage {
                    addr: b,
                    frame: g,
                    ..
                } ==> a != b && f != g))
        }),
{
    reveal_with_fuel(heap_steps, 5);
    let steps = image_plan(label, image)->Ok_0.steps;
    let heap = heap_steps(3, 4);
    assert(heap.len() == 12);
    assert(steps.len() == 19);
    assert forall|k: int| 0 <= k < 12 implies steps[6 + k] == #[trigger] heap[k] by {}
    assert forall|k: int| 6 <= k < 18 implies #[trigger] steps[k] == heap[k - 6] by {}
}

/// Every page of a segment that is accepted goes through the private slot.
proof fn lemma_segment_pages_private(
    entry: u64,
    segs: Seq<ProgramSegment>,
    image: Seq<u8>,
    k: nat,
)
    requires
        elf_refusal(entry, segs) is None,
        k <= segs.len(),
    ensures
        forall|m: int|
            0 <= m < elf_page_loads(image, segs, k).len() ==> {
                let addr = (#[trigger] elf_page_loads(image, segs, k)[m]).addr;
                canonical(addr as int) && addr % 4096 == 0 && table_slot(addr as int) == table_slot(
                    USER_CODE_ADDR as int,
                )
            },
    decreases k,
{
    if k > 0 {
        lemma_segment_pages_private(entry, segs, image, (k - 1) as nat);
        let all = elf_page_loads(image, segs, k);
        let before = elf_page_loads(image, segs, (k - 1) as nat);
        let seg = segs[k - 1];
        lemma_no_refusal(segs, segs.len(), k - 1);
        assert forall|m: int| 0 <= m < all.len() implies {
            let addr = (#[trigger] all[m]).addr;
            canonical(addr as int) && addr % 4096 == 0 && table_slot(addr as int) == table_slot(
                USER_CODE_ADDR as int,
            )
        } by {
            if m < before.len() {
                assert(all[m] == before[m]);
            } else {
                let i = m - before.len();
                assert(canonical(seg.p_vaddr + i * 4096));
                assert(all[m].addr == seg.p_vaddr + i * 4096);
            }
        }
    }
}

/// Step `j` of those that take, map and load the pages of an executable.
spec fn page_step(pages: Seq<PageView>, j: int) -> StepView {
    let m = j / 3;
    if j % 3 == 0 {
        StepView::TakeFrame(Part::ElfSegment)
    } else if j % 3 == 1 {
        StepView::MapPage { addr: pages[m].addr, frame: m + 1, part: Part::ElfSegment }
    } else {
        StepView::LoadFrame { frame: m + 1, data: pages[m].data }
    }
}

proof fn lemma_page_steps(pages: Seq<PageView>, k: nat)
    ensures
        page_steps(pages, k).len() == 3 * k,
        forall|j: int| 0 <= j < 3 * k ==> #[trigger] page_steps(pages, k)[j] == page_step(pages, j),
    decreases k,
{
    if k > 0 {
        lemma_page_steps(pages, (k - 1) as nat);
        let before = page_steps(pages, (k - 1) as nat);
        assert forall|j: int| 0 <= j < 3 * k implies #[trigger] page_steps(pages, k)[j]
            == page_step(pages, j) by {
            if j < before.len() {
                assert(page_steps(pages, k)[j] == before[j]);
            } else {
                assert(j / 3 == k - 1);
            }
        }
    }
}

/// The page that the frame with this number is mapped to, in a build from an executable.
spec fn page_of_frame(pages: Seq<PageView>, frame: int) -> u64 {
    let n = pages.len() as int;
    if frame <= n {
        pages[frame - 1].addr
    } else if frame == n + 1 {
        USER_STACK_ADDR
    } else {
        (HEAP_START + (frame - n - 2) * PAGE_SIZE) as u64
    }
}

/// A step that maps a page tells by its frame which step it is and which page it maps.
proof fn lemma_elf_mapping(pages: Seq<PageView>, k: int)
    requires
        0 <= k < elf_steps(pages).len(),
    ensures
        elf_steps(pages)[k] matches StepView::MapPage { addr, frame, .. } ==> {
            let n = pages.len() as int;
            &&& 1 <= frame < n + 2 + HEAP_PAGE_COUNT
            &&& k == (if frame <= n + 1 {
                3 * frame
            } else {
                3 * frame - 1
            })
            &&& addr == page_of_frame(pages, frame)
        },
{
    let n = pages.len() as int;
    let head = seq![
        StepView::TakeFrame(Part::Pml4),
        StepView::FillTable { private: table_slot(USER_CODE_ADDR as int) as u16 },
    ];
    let loads = page_steps(pages, pages.len());
    let stack = seq![
        StepView::TakeFrame(Part::Stack),
        StepView::MapPage { addr: USER_STACK_ADDR, frame: n + 1, part: Part::Stack },
    ];
    let heap = heap_steps(n + 2, HEAP_PAGE_COUNT as nat);
    let steps = elf_steps(pages);
    lemma_page_steps(pages, pages.len());
    reveal_with_fuel(heap_steps, 5);
    assert(heap.len() == 12);
    assert(steps == head + loads + stack + heap);
    if k < 2 {
        assert(steps[k] == head[k]);
    } else if k < 2 + 3 * n {
        assert(steps[k] == loads[k - 2]);
        assert(steps[k] == page_step(pages, k - 2));
    } else if k < 4 + 3 * n {
        assert(steps[k] == stack[k - 2 - 3 * n]);
    } else {
        assert(steps[k] == heap[k - 4 - 3 * n]);
    }
}

/// Where the memory that a segment takes ends: its last page is whole.
pub open spec fn segment_end(seg: ProgramSegment) -> int {
    seg.p_vaddr + segment_pages(seg) * 4096
}

/// Whether a segment has no page from `start` up to but not including `end`.
pub open spec fn keeps_off(seg: ProgramSegment, start: int, end: int) -> bool {
    segment_end(seg) <= start || end <= seg.p_vaddr
}

/// Whether no two segments have a page in common, and none has one with the stack or
/// the heap.
pub open spec fn segments_apart(segs: Seq<ProgramSegment>) -> bool {
    &&& forall|i: int, j: int|
        0 <= i < j < segs.len() ==> keeps_off(
            #[trigger] segs[i],
            (#[trigger] segs[j]).p_vaddr as int,
            segment_end(segs[j]),
        )
    &&& forall|i: int|
        0 <= i < segs.len() ==> keeps_off(
            #[trigger] segs[i],
            USER_STACK_ADDR as int,
            USER_STACK_ADDR + PAGE_SIZE,
        ) && keeps_off(segs[i], HEAP_START as int, HEAP_START + HEAP_SIZE)
}

/// The segment that a page of the first `k` segments belongs to.
proof fn lemma_page_in_segment(
    entry: u64,
    segs: Seq<ProgramSegment>,
    image: Seq<u8>,
    k: nat,
    m: int,
) -> (i: int)
    requires
        elf_refusal(entry, segs) is None,
        k <= segs.len(),
        0 <= m < elf_page_loads(image, segs, k).len(),
    ensures
        0 <= i < k,
        segs[i].p_vaddr <= elf_page_loads(image, segs, k)[m].addr,
        elf_page_loads(image, segs, k)[m].addr + 4096 <= segment_end(segs[i]),
    decreases k,
{
    let all = elf_page_loads(image, segs, k);
    let before = elf_page_loads(image, segs, (k - 1) as nat);
    let seg = segs[k - 1];
    if m < before.len() {
        assert(all[m] == before[m]);
        lemma_page_in_segment(entry, segs, image, (k - 1) as nat, m)
    } else {
        let j = m - before.len();
        lemma_no_refusal(segs, segs.len(), k - 1);
        assert(canonical(seg.p_vaddr + j * 4096));
        assert(all[m].addr == seg.p_vaddr + j * 4096);
        k - 1
    }
}

/// Where segments are apart, no two of their pages are the same.
proof fn lemma_pages_differ(
    entry: u64,
    segs: Seq<ProgramSegment>,
    image: Seq<u8>,
    k: nat,
    m: int,
    o: int,
)
    requires
        elf_refusal(entry, segs) is None,
        segments_apart(segs),
        k <= segs.len(),
        0 <= m < o < elf_page_loads(image, segs, k).len(),
    ensures
        elf_page_loads(image, segs, k)[m].addr != elf_page_loads(image, segs, k)[o].addr,
    decreases k,
{
    let all = elf_page_loads(image, segs, k);
    let before = elf_page_loads(image, segs, (k - 1) as nat);
    let seg = segs[k - 1];
    let first = before.len() as int;
    if o < first {
        assert(all[m] == before[m] && all[o] == before[o]);
        lemma_pages_differ(entry, segs, image, (k - 1) as nat, m, o);
    } else {
        lemma_no_refusal(segs, segs.len(), k - 1);
        assert(canonical(seg.p_vaddr + (o - first) * 4096));
        assert(all[o].addr == seg.p_vaddr + (o - first) * 4096);
        if m < first {
            assert(all[m] == before[m]);
            let i = lemma_page_in_segment(entry, segs, image, (k - 1) as nat, m);
            assert(keeps_off(segs[i], segs[k - 1].p_vaddr as int, segment_end(segs[k - 1])));
        } else {
            assert(canonical(seg.p_vaddr + (m - first) * 4096));
            assert(all[m].addr == seg.p_vaddr + (m - first) * 4096);
        }
    }
}

/// Where segments are apart, no page of an executable is mapped twice.
proof fn lemma_frames_have_own_pages(
    entry: u64,
    segs: Seq<ProgramSegment>,
    image: Seq<u8>,
    f: int,
    g: int,
)
    requires
        elf_refusal(entry, segs) is None,
        segments_apart(segs),
        1 <= f < g < elf_page_loads(image, segs, segs.len()).len() + 2 + HEAP_PAGE_COUNT,
    ensures
        ({
            let pages = elf_page_loads(image, segs, segs.len());
            page_of_frame(pages, f) != page_of_frame(pages, g)
        }),
{
    let pages = elf_page_loads(image, segs, segs.len());
    let n = pages.len() as int;
    if g <= n {
        lemma_pages_differ(entry, segs, image, segs.len(), f - 1, g - 1);
    } else if f <= n {
        let i = lemma_page_in_segment(entry, segs, image, segs.len(), f - 1);
        assert(keeps_off(segs[i], USER_STACK_ADDR as int, USER_STACK_ADDR + PAGE_SIZE));
        assert(keeps_off(segs[i], HEAP_START as int, HEAP_START + HEAP_SIZE));
    }
}

/// Every page of an executable goes through the private slot, its stack and its heap
/// included, and no two of them share a frame. Where its segments keep off each other,
/// off the stack and off the heap, no two are the same page.
pub proof fn law_elf_pages_are_private(
    label: Seq<char>,
    entry: u64,
    segs: Seq<ProgramSegment>,
    image: Seq<u8>,
)
    requires
        elf_plan(label, entry, segs, image) is Ok,
    ensures
        ({
            let steps = elf_plan(label, entry, segs, image)->Ok_0.steps;
            &&& forall|k: int|
                0 <= k < steps.len() ==> (#[trigger] steps[k] matches StepView::MapPage {
                    addr,
                    ..
                } ==> canonical(addr as int) && addr % 4096 == 0 && table_slot(addr as int)
                    == table_slot(USER_CODE_ADDR as int))
            &&& forall|j: int, k: int|
                0 <= j < k < steps.len() ==> (#[trigger] steps[j] matches StepView::MapPage {
                    addr: a,
                    frame: f,
                    ..
                } ==> (#[trigger] steps[k] matches StepView::MapPage {
                    addr: b,
                    frame: g,
                    ..
                } ==> f != g && (segments_apart(segs) ==> a != b)))
        }),
{
    let pages = elf_page_loads(image, segs, segs.len());
    let steps = elf_plan(label, entry, segs, image)->Ok_0.steps;
    assert(steps == elf_steps(pages));
    lemma_segment_pages_private(entry, segs, image, segs.len());
    assert forall|k: int| 0 <= k < steps.len() implies (
    #[trigger] steps[k] matches StepView::MapPage { addr, .. } ==> canonical(addr as int) && addr
        % 4096 == 0 && table_slot(addr as int) == table_slot(USER_CODE_ADDR as int)) by {
        lemma_elf_mapping(pages, k);
        if let StepView::MapPage { addr, frame, .. } = steps[k] {
            if frame <= pages.len() {
                assert(addr == pages[frame - 1].addr);
            }
        }
    }
    assert forall|j: int, k: int| 0 <= j < k < steps.len() implies (
    #[trigger] steps[j] matches StepView::MapPage { addr: a, frame: f, .. } ==> (
    #[trigger] steps[k] matches StepView::MapPage { addr: b, frame: g, .. } ==> f != g && (
    segments_apart(segs) ==> a != b))) by {
        lemma_elf_mapping(pages, j);
        lemma_elf_mapping(pages, k);
        if let StepView::MapPage { frame: f, .. } = steps[j] {
            if let StepView::MapPage { frame: g, .. } = steps[k] {
                if segments_apart(segs) {
                    lemma_frames_have_own_pages(entry, segs, image, f, g);
                }
            }
        }
    }
}

/// Whether a build maps the page at an address to the frame with this number.
pub open spec fn maps(steps: Seq<StepView>, addr: int, frame: int) -> bool {
    exists|k: int|
        0 <= k < steps.len() && (#[trigger] steps[k] matches StepView::MapPage {
            addr: a,
            frame: f,
            ..
        } && a == addr && f == frame)
}

/// Whether a build fills the frame with this number, and with `data` alone.
pub open spec fn fills(steps: Seq<StepView>, frame: int, data: Seq<u8>) -> bool {
    &&& exists|k: int|
        0 <= k < steps.len() && (#[trigger] steps[k] matches StepView::LoadFrame {
            frame: f,
            data: x,
        } && f == frame && x == data)
    &&& forall|k: int|
        0 <= k < steps.len() ==> (#[trigger] steps[k] matches StepView::LoadFrame {
            frame: f,
            data: x,
        } ==> (f == frame ==> x == data))
}

/// Whether a build gives a process its stack page and four cleared heap pages, and a
/// page table of its own with entry 170 private.
pub open spec fn has_stack_and_heap(p: PlanView) -> bool {
    &&& maps(p.steps, 0x5555_6000_0000, p.stack)
    &&& forall|h: int|
        0 <= h < 4 ==> maps(p.steps, 0x5555_7000_0000 + h * 4096, #[trigger] (p.first_heap + h))
            && fills(p.steps, p.first_heap + h, Seq::empty())
    &&& exists|k: int|
        0 <= k < p.steps.len() && (#[trigger] p.steps[k] matches StepView::FillTable { private }
            && private == 170)
    &&& forall|k: int|
        0 <= k < p.steps.len() ==> (#[trigger] p.steps[k] matches StepView::FillTable { private }
            ==> private == 170)
}

/// A process that is built from a flat image has the image at the start of its code page,
/// and nothing else in it.
#[verifier::spinoff_prover]
#[verifier::rlimit(40)]
pub proof fn law_image_is_at_the_code_address(label: Seq<char>, image: Seq<u8>)
    requires
        image_plan(label, image) is Ok,
    ensures
        ({
            let p = image_plan(label, image)->Ok_0;
            &&& p.label == label
            &&& maps(p.steps, 0x5555_5000_0000, p.code)
            &&& fills(p.steps, p.code, image)
            &&& has_stack_and_heap(p)
            &&& p.extra.len() == 0
        }),
{
    reveal_with_fuel(heap_steps, 5);
    let p = image_plan(label, image)->Ok_0;
    let steps = p.steps;
    let heap = heap_steps(3, 4);
    assert(heap.len() == 12);
    assert(steps.len() == 19);
    assert forall|k: int| 6 <= k < 18 implies #[trigger] steps[k] == heap[k - 6] by {}
    assert(steps[18] == (StepView::LoadFrame { frame: 1, data: image }));
    assert(steps[4] == (StepView::MapPage { addr: USER_CODE_ADDR, frame: 1, part: Part::Code }));
    assert(steps[5] == (StepView::MapPage { addr: USER_STACK_ADDR, frame: 2, part: Part::Stack }));
    assert(steps[1] is FillTable);
    assert(maps(steps, 0x5555_5000_0000, p.code));
    assert forall|h: int| 0 <= h < 4 implies maps(
        p.steps,
        0x5555_7000_0000 + h * 4096,
        #[trigger] (p.first_heap + h),
    ) && fills(p.steps, p.first_heap + h, Seq::empty()) by {
        assert(steps[6 + 3 * h + 1] == heap[3 * h + 1]);
        assert(steps[6 + 3 * h + 2] == heap[3 * h + 2]);
        assert(steps[6 + 3 * h + 2] is LoadFrame);
    }
}

/// Where the pages of a segment stand among all.
proof fn lemma_page_at(image: Seq<u8>, segs: Seq<ProgramSegment>, n: nat, k: int, i: int)
    requires
        0 <= k < n,
        0 <= i < segment_pages(segs[k]),
    ensures
        0 <= total_pages(segs, k as nat),
        total_pages(segs, k as nat) + i < elf_page_loads(image, segs, n).len(),
        elf_page_loads(image, segs, n)[total_pages(segs, k as nat) + i] == (PageView {
            addr: (segs[k].p_vaddr + i * 4096) as u64,
            data: page_data(image, segs[k], i),
        }),
    decreases n,
{
    let all = elf_page_loads(image, segs, n);
    let before = elf_page_loads(image, segs, (n - 1) as nat);
    lemma_page_count(image, segs, (n - 1) as nat);
    lemma_page_total(segs, 0, k as nat);
    if k < n - 1 {
        lemma_page_at(image, segs, (n - 1) as nat, k, i);
        assert(all[total_pages(segs, k as nat) + i] == before[total_pages(segs, k as nat) + i]);
    } else {
        assert(all[before.len() + i] == segment_page_loads(
            image,
            segs[n - 1],
            segment_pages(segs[n - 1]) as nat,
        )[i]);
    }
}

/// A step that fills a frame tells by its frame with what.
proof fn lemma_elf_filling(pages: Seq<PageView>, k: int)
    requires
        0 <= k < elf_steps(pages).len(),
    ensures
        elf_steps(pages)[k] matches StepView::LoadFrame { frame, data } ==> {
            let n = pages.len() as int;
            &&& 1 <= frame < n + 2 + HEAP_PAGE_COUNT
            &&& data == (if frame <= n {
                pages[frame - 1].data
            } else {
                Seq::empty()
            })
        },
        elf_steps(pages)[k] matches StepView::FillTable { private } ==> private == 170,
{
    let n = pages.len() as int;
    let head = seq![
        StepView::TakeFrame(Part::Pml4),
        StepView::FillTable { private: table_slot(USER_CODE_ADDR as int) as u16 },
    ];
    let loads = page_steps(pages, pages.len());
    let stack = seq![
        StepView::TakeFrame(Part::Stack),
        StepView::MapPage { addr: USER_STACK_ADDR, frame: n + 1, part: Part::Stack },
    ];
    let heap = heap_steps(n + 2, HEAP_PAGE_COUNT as nat);
    let steps = elf_steps(pages);
    lemma_page_steps(pages, pages.len());
    reveal_with_fuel(heap_steps, 5);
    assert(heap.len() == 12);
    assert(steps == head + loads + stack + heap);
    if k < 2 {
        assert(steps[k] == head[k]);
    } else if k < 2 + 3 * n {
        assert(steps[k] == loads[k - 2]);
        assert(steps[k] == page_step(pages, k - 2));
    } else if k < 4 + 3 * n {
        assert(steps[k] == stack[k - 2 - 3 * n]);
    } else {
        assert(steps[k] == heap[k - 4 - 3 * n]);
    }
}

/// The steps that map and fill the page in a frame.
proof fn lemma_elf_frame(pages: Seq<PageView>, frame: int)
    requires
        1 <= frame <= pages.len(),
    ensures
        maps(elf_steps(pages), pages[frame - 1].addr as int, frame),
        fills(elf_steps(pages), frame, pages[frame - 1].data),
{
    let steps = elf_steps(pages);
    let loads = page_steps(pages, pages.len());
    let m = frame - 1;
    lemma_page_steps(pages, pages.len());
    reveal_with_fuel(heap_steps, 5);
    assert(steps[2 + 3 * m + 1] == loads[3 * m + 1]);
    assert(loads[3 * m + 1] == page_step(pages, 3 * m + 1));
    assert((3 * m + 1) / 3 == m && (3 * m + 1) % 3 == 1);
    assert(steps[2 + 3 * m + 2] == loads[3 * m + 2]);
    assert(loads[3 * m + 2] == page_step(pages, 3 * m + 2));
    assert((3 * m + 2) / 3 == m && (3 * m + 2) % 3 == 2);
    assert forall|k: int| 0 <= k < steps.len() implies (
    #[trigger] steps[k] matches StepView::LoadFrame { frame: f, data: x } ==> (f == frame ==> x
        == pages[frame - 1].data)) by {
        lemma_elf_filling(pages, k);
    }
}

proof fn lemma_elf_stack_and_heap(pages: Seq<PageView>)
    ensures
        ({
            let n = pages.len() as int;
            let steps = elf_steps(pages);
            &&& maps(steps, 0x5555_6000_0000, n + 1)
            &&& forall|h: int|
                0 <= h < 4 ==> maps(steps, 0x5555_7000_0000 + h * 4096, #[trigger] (n + 2 + h))
                    && fills(steps, n + 2 + h, Seq::empty())
        }),
{
    let n = pages.len() as int;
    let steps = elf_steps(pages);
    let heap = heap_steps(n + 2, HEAP_PAGE_COUNT as nat);
    lemma_page_steps(pages, pages.len());
    reveal_with_fuel(heap_steps, 5);
    assert(heap.len() == 12);
    assert(steps[3 + 3 * n] == (StepView::MapPage {
        addr: USER_STACK_ADDR,
        frame: n + 1,
        part: Part::Stack,
    }));
    assert forall|h: int| 0 <= h < 4 implies maps(
        steps,
        0x5555_7000_0000 + h * 4096,
        #[trigger] (n + 2 + h),
    ) && fills(steps, n + 2 + h, Seq::empty()) by {
        assert(steps[4 + 3 * n + 3 * h + 1] == heap[3 * h + 1]);
        assert(steps[4 + 3 * n + 3 * h + 2] == heap[3 * h + 2]);
        assert(steps[4 + 3 * n + 3 * h + 2] is LoadFrame);
        assert forall|k: int| 0 <= k < steps.len() implies (
        #[trigger] steps[k] matches StepView::LoadFrame { frame: f, data: x } ==> (f == n + 2 + h
            ==> x == Seq::<u8>::empty())) by {
            lemma_elf_filling(pages, k);
        }
    }
}

proof fn lemma_code_frame_is_at_code(pages: Seq<PageView>, k: nat)
    ensures
        code_frame_of(pages, k) matches Some(c) ==> pages[c - 1].addr == USER_CODE_ADDR,
    decreases k,
{
    if k > 0 {
        lemma_code_frame_is_at_code(pages, (k - 1) as nat);
    }
}

/// A process that is built from an executable has every page of every segment at the
/// segment's address, filled with the segment's bytes of the file and with zeros past
/// them, besides its stack and its heap.
pub proof fn law_segments_are_at_their_addresses(
    label: Seq<char>,
    entry: u64,
    segs: Seq<ProgramSegment>,
    image: Seq<u8>,
    k: int,
    i: int,
)
    requires
        elf_plan(label, entry, segs, image) is Ok,
        segments_in_image(segs, image.len()),
        0 <= k < segs.len(),
        0 <= i,
        i * 4096 < segs[k].p_memsz,
    ensures
        ({
            let p = elf_plan(label, entry, segs, image)->Ok_0;
            &&& p.label == label
            &&& has_stack_and_heap(p)
            &&& maps(p.steps, 0x5555_5000_0000, p.code)
            &&& exists|frame: int, data: Seq<u8>| #[trigger]
                fills(p.steps, frame, data) && maps(
                    p.steps,
                    segs[k].p_vaddr + i * 4096,
                    frame,
                ) && data.len() <= 4096 && forall|o: int|
                    0 <= o < 4096 ==> #[trigger] loaded_byte(data, o) == (if i * 4096 + o
                        < segs[k].p_filesz {
                        image[segs[k].p_offset + i * 4096 + o]
                    } else {
                        0u8
                    })
        }),
{
    let p = elf_plan(label, entry, segs, image)->Ok_0;
    let pages = elf_page_loads(image, segs, segs.len());
    let n = pages.len() as int;
    assert(p.steps == elf_steps(pages));
    lemma_elf_stack_and_heap(pages);
    lemma_code_frame(image, entry, segs);
    lemma_frame_numbers(pages, pages.len());
    lemma_code_frame_is_at_code(pages, pages.len());
    lemma_elf_frame(pages, p.code);
    assert(p.steps[1] is FillTable) by {
        lemma_page_steps(pages, pages.len());
    }
    lemma_elf_filling(pages, 1);
    assert forall|j: int| 0 <= j < p.steps.len() implies (
    #[trigger] p.steps[j] matches StepView::FillTable { private } ==> private == 170) by {
        lemma_elf_filling(pages, j);
    }
    lemma_no_refusal(segs, segs.len(), k);
    assert(i < segment_pages(segs[k]));
    lemma_page_at(image, segs, segs.len(), k, i);
    let m = total_pages(segs, k as nat) + i;
    lemma_elf_frame(pages, m + 1);
    assert(canonical(segs[k].p_vaddr + i * 4096));
    assert(pages[m].addr == segs[k].p_vaddr + i * 4096);
    lemma_page_data_len(image, segs, segs.len());
    assert(pages[m].data.len() <= PAGE_SIZE);
    assert forall|o: int| 0 <= o < 4096 implies #[trigger] loaded_byte(pages[m].data, o) == (if i
        * 4096 + o < segs[k].p_filesz {
        image[segs[k].p_offset + i * 4096 + o]
    } else {
        0u8
    }) by {
        law_segment_bytes(image, segs, k, i, o);
    }
    assert(fills(p.steps, m + 1, pages[m].data));
}

/// A build keeps the frames that it is given, in the order of its requests, and fails
/// where it is refused one or a page cannot be mapped.
pub proof fn law_build_keeps_its_frames(b: BuildView, outcome: Option<u64>)
    ensures
        match recorded(b, outcome) {
            Ok(c) => c.plan == b.plan && c.at == b.at + 1 && match b.plan.steps[b.at] {
                StepView::TakeFrame(_) => outcome matches Some(f) && c.frames == b.frames.push(f),
                StepView::MapPage { .. } => outcome is Some && c.frames == b.frames,
                _ => c.frames == b.frames,
            },
            Err(_) => outcome is None && (b.plan.steps[b.at] is TakeFrame
                || b.plan.steps[b.at] is MapPage),
        },
{
}

/// A finished process consists of the frames that were taken for it: the first is its
/// page table, and the others are those that its plan names. It has used nothing of its
/// heap and has no file open.
pub proof fn law_process_consists_of_its_frames(b: BuildView)
    requires
        plan_ok(b.plan),
        b.frames.len() == frames_taken(b.plan.steps, b.plan.steps.len()),
    ensures
        ({
            let p = finished(b);
            &&& p.label == b.plan.label
            &&& p.pml4_frame == b.frames[0]
            &&& p.code_frame == b.frames[b.plan.code]
            &&& p.stack_frame == b.frames[b.plan.stack]
            &&& p.heap_frames.len() == 4
            &&& forall|h: int|
                0 <= h < 4 ==> #[trigger] p.heap_frames[h] == b.frames[b.plan.first_heap + h]
            &&& p.heap_used == 0
            &&& p.fds.len() == 4
            &&& forall|i: int| 0 <= i < 4 ==> #[trigger] p.fds[i] is None
            &&& p.extra_frames.len() == b.plan.extra.len()
            &&& forall|i: int|
                0 <= i < b.plan.extra.len() ==> #[trigger] p.extra_frames[i]
                    == b.frames[b.plan.extra[i]]
        }),
{
}

/// A flat image is accepted as long as it fits into one page.
pub proof fn law_images_of_a_page_are_accepted(label: Seq<char>, image: Seq<u8>)
    ensures
        image_plan(label, image) is Ok <==> image.len() <= 4096,
{
}

/// Whether a segment starts on a page, takes one to four pages, and all of them lie in
/// the part of the address space that top-level entry 170 covers.
pub open spec fn is_loadable(seg: ProgramSegment) -> bool {
    &&& seg.p_vaddr % 4096 == 0
    &&& 0 < seg.p_memsz <= 4 * 4096
    &&& 170 * 0x80_0000_0000 <= seg.p_vaddr
    &&& seg.p_vaddr + seg.p_memsz <= 171 * 0x80_0000_0000
}

proof fn lemma_loadable(seg: ProgramSegment)
    ensures
        segment_refusal(seg) is None <==> is_loadable(seg),
{
    let n = segment_pages(seg);
    if segment_refusal(seg) is None {
        assert(canonical(seg.p_vaddr + 0 * 4096));
        assert(canonical(seg.p_vaddr + (n - 1) * 4096));
    }
    if is_loadable(seg) {
        assert forall|i: int| 0 <= i < n implies canonical(#[trigger] (seg.p_vaddr + i * 4096))
            && table_slot(seg.p_vaddr + i * 4096) == table_slot(USER_CODE_ADDR as int) by {}
    }
}

proof fn lemma_all_loadable(segs: Seq<ProgramSegment>, k: nat)
    requires
        k <= segs.len(),
    ensures
        segments_refusal(segs, k) is None <==> forall|i: int|
            0 <= i < k ==> is_loadable(#[trigger] segs[i]),
    decreases k,
{
    if k > 0 {
        lemma_all_loadable(segs, (k - 1) as nat);
        lemma_loadable(segs[k - 1]);
    }
}

/// Which executables are accepted: those that start at the code address, which one of
/// their segments covers, with one to eight segments that can be loaded and sixteen
/// pages at most.
pub proof fn law_good_executables_are_accepted(
    label: Seq<char>,
    entry: u64,
    segs: Seq<ProgramSegment>,
    image: Seq<u8>,
)
    ensures
        elf_plan(label, entry, segs, image) is Ok <==> {
            &&& entry == 0x5555_5000_0000
            &&& 0 < segs.len() <= 8
            &&& exists|k: int|
                0 <= k < segs.len() && (#[trigger] segs[k]).p_vaddr <= entry && entry < segs[k].p_vaddr
                    + segs[k].p_memsz
            &&& forall|k: int| 0 <= k < segs.len() ==> is_loadable(#[trigger] segs[k])
            &&& total_pages(segs, segs.len()) <= 16
        },
{
    lemma_all_loadable(segs, segs.len());
    if exists|k: int| 0 <= k < segs.len() && covers(#[trigger] segs[k], entry) {
        let k = choose|k: int| 0 <= k < segs.len() && covers(#[trigger] segs[k], entry);
        assert(segs[k].p_vaddr <= entry < segs[k].p_vaddr + segs[k].p_memsz);
    }
    if entry == 0x5555_5000_0000 && exists|k: int|
        0 <= k < segs.len() && (#[trigger] segs[k]).p_vaddr <= entry && entry < segs[k].p_vaddr
            + segs[k].p_memsz {
        let k = choose|k: int|
            0 <= k < segs.len() && (#[trigger] segs[k]).p_vaddr <= entry && entry < segs[k].p_vaddr
                + segs[k].p_memsz;
        assert(covers(segs[k], entry));
    }
}

/// The pages that segments take together: for each one its memory, rounded up to whole
/// pages.
pub proof fn law_pages_add_up(segs: Seq<ProgramSegment>, k: nat)
    requires
        k < segs.len(),
    ensures
        total_pages(segs, 0) == 0,
        ({
            let more = total_pages(segs, k + 1) - total_pages(segs, k);
            more * 4096 >= segs[k as int].p_memsz && (more - 1) * 4096 < segs[k as int].p_memsz
        }),
{
}

/// Whether step `k` maps a page of the executable, other than the one where the code
/// begins, to a frame.
pub open spec fn maps_other_page(step: StepView, f: int) -> bool {
    step matches StepView::MapPage { addr, frame, part } && part is ElfSegment && addr
        != 0x5555_5000_0000 && frame == f
}

proof fn lemma_extra_frames(pages: Seq<PageView>, k: nat)
    requires
        k <= pages.len(),
    ensures
        ({
            let extra = extra_frames_of(pages, k);
            &&& forall|i: int|
                0 <= i < extra.len() ==> 1 <= #[trigger] extra[i] <= k && pages[extra[i] - 1].addr
                    != USER_CODE_ADDR
            &&& forall|i: int, j: int|
                0 <= i < j < extra.len() ==> #[trigger] extra[i] < #[trigger] extra[j]
            &&& forall|f: int|
                1 <= f <= k && pages[f - 1].addr != USER_CODE_ADDR ==> #[trigger] extra.contains(f)
        }),
    decreases k,
{
    if k > 0 {
        lemma_extra_frames(pages, (k - 1) as nat);
        let before = extra_frames_of(pages, (k - 1) as nat);
        let extra = extra_frames_of(pages, k);
        assert forall|f: int|
            1 <= f <= k && pages[f - 1].addr != USER_CODE_ADDR implies #[trigger] extra.contains(
            f,
        ) by {
            if f < k {
                assert(before.contains(f));
                let i = choose|i: int| 0 <= i < before.len() && before[i] == f;
                assert(extra[i] == f);
            } else {
                assert(extra[extra.len() - 1] == f);
            }
        }
    }
}

/// A process that is built from an executable keeps, besides the frame where its code
/// begins, the frame of every other page of its segments, each once and in the order in
/// which they were taken.
pub proof fn law_other_pages_are_kept(
    label: Seq<char>,
    entry: u64,
    segs: Seq<ProgramSegment>,
    image: Seq<u8>,
    f: int,
)
    ensures
        elf_plan(label, entry, segs, image) matches Ok(p) ==> {
            &&& p.extra.contains(f) <==> exists|k: int|
                0 <= k < p.steps.len() && maps_other_page(#[trigger] p.steps[k], f)
            &&& forall|i: int, j: int|
                0 <= i < j < p.extra.len() ==> #[trigger] p.extra[i] < #[trigger] p.extra[j]
        },
{
    if let Ok(p) = elf_plan(label, entry, segs, image) {
        let pages = elf_page_loads(image, segs, segs.len());
        let n = pages.len() as int;
        lemma_extra_frames(pages, pages.len());
        lemma_page_steps(pages, pages.len());
        assert(p.steps == elf_steps(pages));
        let loads = page_steps(pages, pages.len());
        if p.extra.contains(f) {
            let i = choose|i: int| 0 <= i < p.extra.len() && p.extra[i] == f;
            let j = 3 * (f - 1) + 1;
            assert(j / 3 == f - 1 && j % 3 == 1);
            assert(loads[j] == page_step(pages, j));
            assert(p.steps[2 + j] == loads[j]);
            assert(maps_other_page(p.steps[2 + j], f));
        }
        if exists|k: int| 0 <= k < p.steps.len() && maps_other_page(#[trigger] p.steps[k], f) {
            let k = choose|k: int|
                0 <= k < p.steps.len() && maps_other_page(#[trigger] p.steps[k], f);
            let heap = heap_steps(n + 2, HEAP_PAGE_COUNT as nat);
            reveal_with_fuel(heap_steps, 5);
            assert(heap.len() == 12);
            if 2 <= k < 2 + 3 * n {
                assert(p.steps[k] == loads[k - 2]);
                assert(p.steps[k] == page_step(pages, k - 2));
            } else if k >= 4 + 3 * n {
                assert(p.steps[k] == heap[k - 4 - 3 * n]);
            }
        }
    }
}

/// Whether bytes from `at` on put a number into register `eax`.
pub open spec fn loads_eax(code: Seq<u8>, at: int, value: u32) -> bool {
    code[at] == 0xB8 && le32(code, at + 1) == value
}

/// Whether bytes from `at` on raise the system call's interrupt.
pub open spec fn calls_kernel(code: Seq<u8>, at: int) -> bool {
    code[at] == 0xCD && code[at + 1] == 0x80
}

/// The program of a process built at boot makes three calls: for 16 bytes of heap, to
/// write its message, and to exit. Between the first two it stores its marker where the
/// heap begins. Two such programs differ in the marker and the message alone.
pub proof fn law_boot_program_makes_its_calls(
    message: Seq<char>,
    marker: u8,
    other: Seq<char>,
    another: u8,
    i: int,
)
    requires
        0 <= i < 128,
    ensures
        ({
            let code = boot_image(message, marker);
            &&& code.len() == 192
            &&& loads_eax(code, 0, 2) && code[5] == 0xBF && le32(code, 6) == 16 && calls_kernel(
                code,
                10,
            )
            &&& code[12] == 0xC6 && code[13] == 0 && code[14] == marker
            &&& code[15] == 0x48 && code[16] == 0xBF && le64(code, 17) == 0x5555_5000_0080
            &&& code[25] == 0xBE && le32(code, 26) == 64 && loads_eax(code, 30, 0)
                && calls_kernel(code, 35)
            &&& loads_eax(code, 37, 1) && calls_kernel(code, 42)
            &&& code[44] == 0xEB && code[45] == 0xFE
            &&& i != 14 ==> code[i] == boot_image(other, another)[i]
        }),
{
    assert(process_program().len() == PROCESS_PROGRAM_LEN);
}

/// The test program writes its message, 64 bytes at its place, and exits.
pub proof fn law_user_program_makes_its_calls()
    ensures
        ({
            let code = user_program();
            &&& code[0] == 0x48 && code[1] == 0xBF && le64(code, 2) == 0x5555_5000_0080
            &&& code[10] == 0xBE && le32(code, 11) == 64
            &&& loads_eax(code, 15, 0) && calls_kernel(code, 20)
            &&& loads_eax(code, 22, 1) && calls_kernel(code, 27)
            &&& code[29] == 0xEB && code[30] == 0xFE
        }),
{
}

} // verus!
