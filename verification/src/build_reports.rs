//! What is reported on the serial console while an address space is built.

use crate::address_space::{
    canonical, elf_page_loads, elf_plan, elf_refusal, image_plan, lemma_code_frame, lemma_frame_numbers,
    lemma_no_refusal, lemma_page_count, lemma_page_total, page_count, page_data, segment_pages,
    segment_refusal, segments_refusal, table_slot, total_pages, user_slot, Build, BuildPlan,
    BuildStep, BuildView, PlanView, StepView, MAX_PAGES_PER_ELF_SEGMENT,
};
use crate::elf::{ElfImage, ProgramSegment};
use crate::numbers::{decimal, decimal_text};
use crate::process::{HEAP_PAGE_COUNT, HEAP_SIZE, HEAP_START};
use crate::reports::{address, address_text};
use crate::text::{owned, texts_view};
use crate::usertest::{USER_CODE_ADDR, USER_STACK_ADDR};
use vstd::prelude::*;
use vstd::string::StringExecFns;

verus! {

/// An executable's entry point and its segments.
pub type ElfView = (u64, Seq<ProgramSegment>);

/// What a build is from: an executable, or (`None`) a flat program image.
pub open spec fn elf_view(elf: Option<&ElfImage>) -> Option<ElfView> {
    match elf {
        Some(e) => Some((e.entry, e.segments@)),
        None => None,
    }
}

/// Whether a plan is one for what the build is from.
pub open spec fn plan_fits(p: PlanView, elf: Option<ElfView>) -> bool {
    &&& 0 <= p.code <= p.stack
    &&& match elf {
        Some((entry, segs)) => elf_refusal(entry, segs) is None && total_pages(segs, segs.len()) + 1
            == p.stack,
        None => true,
    }
}

/// Every plan fits what it was decided on for.
pub proof fn law_plans_fit(
    label: Seq<char>,
    entry: u64,
    segs: Seq<ProgramSegment>,
    image: Seq<u8>,
)
    ensures
        image_plan(label, image) matches Ok(p) ==> plan_fits(p, None),
        elf_plan(label, entry, segs, image) matches Ok(p) ==> plan_fits(p, Some((entry, segs))),
{
    if elf_plan(label, entry, segs, image) is Ok {
        let pages = elf_page_loads(image, segs, segs.len());
        lemma_page_count(image, segs, segs.len());
        lemma_code_frame(image, entry, segs);
        lemma_frame_numbers(pages, pages.len());
    }
}

/// Texts with commas between them.
pub open spec fn listed(items: Seq<Seq<char>>, k: nat) -> Seq<char>
    decreases k,
{
    if k == 0 {
        ""@
    } else if k == 1 {
        ""@ + items[0]
    } else {
        listed(items, (k - 1) as nat) + ", "@ + items[k - 1]
    }
}

fn list(items: &Vec<String>) -> (r: String)
    ensures
        r@ == listed(texts_view(items@), items@.len()),
{
    let mut out = owned("");
    let mut i: usize = 0;
    while i < items.len()
        invariant
            i <= items@.len(),
            out@ == listed(texts_view(items@), i as nat),
        decreases items@.len() - i,
    {
        if i > 0 {
            out.append(", ");
        }
        out.append(items[i].as_str());
        i += 1;
    }
    out
}

/// The report on a build before its first step.
pub open spec fn build_start_text(label: Seq<char>, elf: Option<ElfView>) -> Seq<char> {
    let slot = table_slot(USER_CODE_ADDR as int) as nat;
    match elf {
        None => "milestone 30: process "@ + label + " -- user p4 index computed as "@
            + decimal_text(slot) + " (code "@ + address_text(USER_CODE_ADDR) + ", stack "@
            + address_text(USER_STACK_ADDR) + ")\n"@,
        Some((entry, segs)) => "milestone 36: process "@ + label + " -- ELF validated: e_entry="@
            + address_text(entry) + " falls inside a mapped segment, "@ + decimal_text(segs.len())
            + " PT_LOAD segment(s), "@ + decimal_text(total_pages(segs, segs.len()) as nat)
            + " total page(s), all within private p4 index "@ + decimal_text(slot) + "\n"@,
    }
}

/// Reports on a build before its first step.
pub fn build_start_report(plan: &BuildPlan, elf: Option<&ElfImage>) -> (r: String)
    requires
        plan_fits(plan@, elf_view(elf)),
    ensures
        r@ == build_start_text(plan.label@, elf_view(elf)),
{
    let slot: u64 = match user_slot() {
        Ok(slot) => slot as u64,
        Err(_) => 0,
    };
    match elf {
        None => {
            let mut out = owned("milestone 30: process ");
            out.append(plan.label);
            out.append(" -- user p4 index computed as ");
            out.append(decimal(slot).as_str());
            out.append(" (code ");
            out.append(address(USER_CODE_ADDR).as_str());
            out.append(", stack ");
            out.append(address(USER_STACK_ADDR).as_str());
            out.append(")\n");
            out
        },
        Some(e) => {
            proof {
                lemma_page_total(e.segments@, 0, e.segments@.len());
            }
            let mut out = owned("milestone 36: process ");
            out.append(plan.label);
            out.append(" -- ELF validated: e_entry=");
            out.append(address(e.entry).as_str());
            out.append(" falls inside a mapped segment, ");
            out.append(decimal(e.segments.len() as u64).as_str());
            out.append(" PT_LOAD segment(s), ");
            out.append(decimal((plan.stack - 1) as u64).as_str());
            out.append(" total page(s), all within private p4 index ");
            out.append(decimal(slot).as_str());
            out.append("\n");
            out
        },
    }
}

/// The report on a top-level page table that was filled.
pub open spec fn table_text(label: Seq<char>, is_elf: bool, pml4: u64, private: u16) -> Seq<char> {
    (if is_elf {
        "milestone 36: process "@
    } else {
        "milestone 30: process "@
    }) + label + " -- new pml4 "@ + address_text(pml4)
        + " populated: 511 kernel-space entries shared, index "@ + decimal_text(private as nat)
        + " left private\n"@
}

fn table_report(label: &str, is_elf: bool, pml4: u64, private: u16) -> (r: String)
    ensures
        r@ == table_text(label@, is_elf, pml4, private),
{
    let mut out = if is_elf {
        owned("milestone 36: process ")
    } else {
        owned("milestone 30: process ")
    };
    out.append(label);
    out.append(" -- new pml4 ");
    out.append(address(pml4).as_str());
    out.append(" populated: 511 kernel-space entries shared, index ");
    out.append(decimal(private as u64).as_str());
    out.append(" left private\n");
    out
}

/// The report on a stack page that was mapped, and for a flat program on its code page
/// too.
pub open spec fn stack_text(label: Seq<char>, is_elf: bool, code: u64, stack: u64) -> Seq<char> {
    if is_elf {
        "milestone 36: process "@ + label + " -- private stack page mapped to frame "@
            + address_text(stack) + "\n"@
    } else {
        "milestone 30: process "@ + label + " -- private code page mapped to frame "@
            + address_text(code) + ", private stack page mapped to frame "@ + address_text(stack)
            + "\n"@
    }
}

fn stack_report(label: &str, is_elf: bool, code: u64, stack: u64) -> (r: String)
    ensures
        r@ == stack_text(label@, is_elf, code, stack),
{
    if is_elf {
        let mut out = owned("milestone 36: process ");
        out.append(label);
        out.append(" -- private stack page mapped to frame ");
        out.append(address(stack).as_str());
        out.append("\n");
        out
    } else {
        let mut out = owned("milestone 30: process ");
        out.append(label);
        out.append(" -- private code page mapped to frame ");
        out.append(address(code).as_str());
        out.append(", private stack page mapped to frame ");
        out.append(address(stack).as_str());
        out.append("\n");
        out
    }
}

/// Numbers as a list.
pub open spec fn numbers_text(numbers: Seq<u64>) -> Seq<char> {
    listed(Seq::new(numbers.len(), |i: int| decimal_text(numbers[i] as nat)), numbers.len())
}

/// The report on a heap that was mapped, for a flat program with its frames.
pub open spec fn heap_text(label: Seq<char>, is_elf: bool, frames: Seq<u64>) -> Seq<char> {
    let pages = decimal_text(HEAP_PAGE_COUNT as nat);
    let first = address_text(HEAP_START);
    let last = address_text((HEAP_START + HEAP_SIZE - 1) as u64);
    if is_elf {
        "milestone 36: process "@ + label + " -- private heap mapped: "@ + pages + " pages at "@
            + first + ".."@ + last + "\n"@
    } else {
        "milestone 33: process "@ + label + " -- private heap mapped: "@ + pages + " pages at "@
            + first + ".."@ + last + ", backed by physical frames ["@ + numbers_text(frames)
            + "]\n"@
    }
}

fn heap_report(label: &str, is_elf: bool, all: &Vec<u64>, from: usize) -> (r: String)
    requires
        from + HEAP_PAGE_COUNT <= all@.len(),
    ensures
        r@ == heap_text(label@, is_elf, all@.subrange(from as int, from + HEAP_PAGE_COUNT)),
{
    let mut out = if is_elf {
        owned("milestone 36: process ")
    } else {
        owned("milestone 33: process ")
    };
    out.append(label);
    out.append(" -- private heap mapped: ");
    out.append(decimal(HEAP_PAGE_COUNT).as_str());
    out.append(" pages at ");
    out.append(address(HEAP_START).as_str());
    out.append("..");
    out.append(address(HEAP_START + HEAP_SIZE - 1).as_str());
    if is_elf {
        out.append("\n");
        return out;
    }
    let ghost frames = all@.subrange(from as int, from + HEAP_PAGE_COUNT);
    let ghost texts = Seq::new(frames.len(), |i: int| decimal_text(frames[i] as nat));
    let mut items: Vec<String> = Vec::new();
    while items.len() < HEAP_PAGE_COUNT as usize
        invariant
            from + HEAP_PAGE_COUNT <= all.len() == all@.len(),
            frames == all@.subrange(from as int, from + HEAP_PAGE_COUNT),
            texts == Seq::new(frames.len(), |i: int| decimal_text(frames[i] as nat)),
            items@.len() <= HEAP_PAGE_COUNT,
            texts_view(items@) == texts.take(items@.len() as int),
        decreases HEAP_PAGE_COUNT - items.len(),
    {
        let ghost before = texts_view(items@);
        let n: usize = items.len();
        items.push(decimal(all[from + n]));
        assert(texts_view(items@) == before.push(texts[n as int]));
    }
    assert(texts.take(HEAP_PAGE_COUNT as int) == texts);
    out.append(", backed by physical frames [");
    out.append(list(&items).as_str());
    out.append("]\n");
    out
}

/// Bytes of the file that belong to page `i` of a segment.
pub open spec fn bytes_loaded(seg: ProgramSegment, i: int) -> int {
    if i * 4096 >= seg.p_filesz {
        0
    } else if seg.p_filesz - i * 4096 <= 4096 {
        seg.p_filesz - i * 4096
    } else {
        4096
    }
}

/// Page `i` of a segment, as it is listed: address, frame, bytes loaded, flags.
pub open spec fn page_text(seg: ProgramSegment, i: int, frame: u64) -> Seq<char> {
    "("@ + decimal_text((seg.p_vaddr + i * 4096) as nat) + ", "@ + decimal_text(frame as nat)
        + ", "@ + decimal_text(bytes_loaded(seg, i) as nat) + ", "@ + decimal_text(
        seg.p_flags as nat,
    ) + ")"@
}

/// The first `k` pages of a segment, the first of which is in frame `first`.
pub open spec fn segment_texts(seg: ProgramSegment, frames: Seq<u64>, first: int, k: nat) -> Seq<
    Seq<char>,
> {
    Seq::new(k, |i: int| page_text(seg, i, frames[first + i]))
}

/// The pages of the first `k` segments.
pub open spec fn pages_texts(segs: Seq<ProgramSegment>, frames: Seq<u64>, k: nat) -> Seq<Seq<char>>
    decreases k,
{
    if k == 0 {
        Seq::empty()
    } else {
        let seg = segs[k - 1];
        pages_texts(segs, frames, (k - 1) as nat) + segment_texts(
            seg,
            frames,
            1 + total_pages(segs, (k - 1) as nat),
            segment_pages(seg) as nat,
        )
    }
}

/// The report on the pages of an executable, once all were loaded.
pub open spec fn pages_text(label: Seq<char>, segs: Seq<ProgramSegment>, frames: Seq<u64>) -> Seq<
    char,
> {
    let items = pages_texts(segs, frames, segs.len());
    "milestone 36: process "@ + label + " -- mapped "@ + decimal_text(items.len())
        + " PT_LOAD page(s): ["@ + listed(items, items.len()) + "]\n"@
}

fn push_segment_texts(seg: &ProgramSegment, frames: &Vec<u64>, first: usize, items: &mut Vec<String>)
    requires
        segment_refusal(*seg) is None,
        first + segment_pages(*seg) <= frames@.len(),
    ensures
        texts_view(final(items)@) == texts_view(old(items)@) + segment_texts(
            *seg,
            frames@,
            first as int,
            segment_pages(*seg) as nat,
        ),
{
    let ghost before = texts_view(items@);
    let count: u64 = page_count(seg.p_memsz);
    let mut i: u64 = 0;
    assert(before + segment_texts(*seg, frames@, first as int, 0) == before);
    while i < count
        invariant
            i <= count <= MAX_PAGES_PER_ELF_SEGMENT,
            count == segment_pages(*seg),
            segment_refusal(*seg) is None,
            first + count <= frames.len() == frames@.len(),
            texts_view(items@) == before + segment_texts(*seg, frames@, first as int, i as nat),
        decreases count - i,
    {
        let ghost prev = texts_view(items@);
        let off: u64 = i * 4096;
        assert(canonical(seg.p_vaddr + i * 4096));
        let loaded: u64 = if off >= seg.p_filesz {
            0
        } else if seg.p_filesz - off <= 4096 {
            seg.p_filesz - off
        } else {
            4096
        };
        let mut item = owned("(");
        item.append(decimal(seg.p_vaddr + off).as_str());
        item.append(", ");
        item.append(decimal(frames[first + i as usize]).as_str());
        item.append(", ");
        item.append(decimal(loaded).as_str());
        item.append(", ");
        item.append(decimal(seg.p_flags as u64).as_str());
        item.append(")");
        let ghost text = page_text(*seg, i as int, frames@[first + i]);
        assert(item@ == text);
        items.push(item);
        assert(texts_view(items@) == prev.push(text));
        assert(segment_texts(*seg, frames@, first as int, (i + 1) as nat) == segment_texts(
            *seg,
            frames@,
            first as int,
            i as nat,
        ).push(text));
        i += 1;
    }
}

fn pages_report(label: &str, elf: &ElfImage, frames: &Vec<u64>) -> (r: String)
    requires
        elf_refusal(elf.entry, elf.segments@) is None,
        total_pages(elf.segments@, elf.segments@.len()) + 1 <= frames@.len(),
    ensures
        r@ == pages_text(label@, elf.segments@, frames@),
{
    let ghost segs = elf.segments@;
    let mut items: Vec<String> = Vec::new();
    let mut k: usize = 0;
    assert(texts_view(items@) == pages_texts(segs, frames@, 0));
    while k < elf.segments.len()
        invariant
            k <= elf.segments.len(),
            segs == elf.segments@,
            segments_refusal(segs, segs.len()) is None,
            total_pages(segs, segs.len()) + 1 <= frames.len() == frames@.len(),
            items@.len() == total_pages(segs, k as nat),
            texts_view(items@) == pages_texts(segs, frames@, k as nat),
        decreases elf.segments.len() - k,
    {
        proof {
            lemma_no_refusal(segs, segs.len(), k as int);
            lemma_page_total(segs, (k + 1) as nat, segs.len());
        }
        let first: usize = items.len() + 1;
        push_segment_texts(&elf.segments[k], frames, first, &mut items);
        assert(items@.len() == texts_view(items@).len());
        k += 1;
    }
    let mut out = owned("milestone 36: process ");
    out.append(label);
    out.append(" -- mapped ");
    out.append(decimal(items.len() as u64).as_str());
    out.append(" PT_LOAD page(s): [");
    out.append(list(&items).as_str());
    out.append("]\n");
    out
}

/// The report on a flat program that was loaded.
pub open spec fn copied_text(label: Seq<char>, len: nat, code: u64) -> Seq<char> {
    "milestone 34: process "@ + label + " -- copied "@ + decimal_text(len)
        + " image bytes into private code frame "@ + address_text(code) + "\n"@
}

fn copied_report(label: &str, len: usize, code: u64) -> (r: String)
    ensures
        r@ == copied_text(label@, len as nat, code),
{
    let mut out = owned("milestone 34: process ");
    out.append(label);
    out.append(" -- copied ");
    out.append(decimal(len as u64).as_str());
    out.append(" image bytes into private code frame ");
    out.append(address(code).as_str());
    out.append("\n");
    out
}

/// The report on the next step of a build, once it was performed. Most steps are not
/// reported.
pub open spec fn step_text(b: BuildView, elf: Option<ElfView>) -> Seq<char> {
    let p = b.plan;
    match p.steps[b.at] {
        StepView::FillTable { private } => table_text(p.label, elf is Some, b.frames[0], private),
        StepView::MapPage { addr, frame, part } => if frame == p.stack {
            stack_text(p.label, elf is Some, b.frames[p.code], b.frames[frame])
        } else {
            ""@
        },
        StepView::LoadFrame { frame, data } => if frame == p.first_heap + HEAP_PAGE_COUNT - 1 {
            heap_text(
                p.label,
                elf is Some,
                b.frames.subrange(p.first_heap, p.first_heap + HEAP_PAGE_COUNT),
            )
        } else {
            match elf {
                Some((entry, segs)) => if frame + 1 == p.stack {
                    pages_text(p.label, segs, b.frames)
                } else {
                    ""@
                },
                None => if frame == p.code {
                    copied_text(p.label, data.len(), b.frames[frame])
                } else {
                    ""@
                },
            }
        },
        _ => ""@,
    }
}

/// Reports on the next step of a build, once it was performed.
pub fn step_report(b: &Build, elf: Option<&ElfImage>) -> (r: String)
    requires
        b.wf(),
        b.at < b.plan.steps@.len(),
        plan_fits(b.plan@, elf_view(elf)),
    ensures
        r@ == step_text(b@, elf_view(elf)),
{
    let label = b.plan.label;
    let is_elf = elf.is_some();
    match b.next_step() {
        Some(BuildStep::FillTable { private }) => table_report(
            label,
            is_elf,
            b.frames[0],
            *private,
        ),
        Some(BuildStep::MapPage { addr: _, frame, part: _ }) => if *frame == b.plan.stack {
            stack_report(label, is_elf, b.frames[b.plan.code], b.frames[*frame])
        } else {
            owned("")
        },
        Some(BuildStep::LoadFrame { frame, data }) => {
            let first: usize = b.plan.first_heap;
            if *frame >= first && *frame - first == HEAP_PAGE_COUNT as usize - 1 {
                return heap_report(label, is_elf, &b.frames, first);
            }
            match elf {
                Some(e) => if *frame < b.plan.stack && *frame == b.plan.stack - 1 {
                    pages_report(label, e, &b.frames)
                } else {
                    owned("")
                },
                None => if *frame == b.plan.code {
                    copied_report(label, data.len(), b.frames[*frame])
                } else {
                    owned("")
                },
            }
        },
        _ => owned(""),
    }
}

/// A report on an executable tells, for each page of a segment, how many of the file's
/// bytes were loaded into it.
pub proof fn law_reported_bytes_are_those_loaded(image: Seq<u8>, seg: ProgramSegment, i: int)
    requires
        0 <= i,
        seg.p_offset + seg.p_filesz <= image.len(),
    ensures
        bytes_loaded(seg, i) == page_data(image, seg, i).len(),
        0 <= bytes_loaded(seg, i) <= 4096,
{
}

/// A list of texts has all of them, with a comma and a blank between one and the next.
pub proof fn law_lists_have_every_item(a: Seq<Seq<char>>, b: Seq<Seq<char>>)
    requires
        a.len() > 0,
        b.len() > 0,
    ensures
        listed(a + b, a.len() + b.len()) == listed(a, a.len()) + ", "@ + listed(b, b.len()),
        listed(seq![a[0]], 1) == a[0],
{
    reveal_strlit("");
    lemma_listed(a, b, b.len());
    assert(""@ + a[0] == a[0]);
}

proof fn lemma_listed(a: Seq<Seq<char>>, b: Seq<Seq<char>>, k: nat)
    requires
        a.len() > 0,
        0 < k <= b.len(),
    ensures
        listed(a + b, a.len() + k) == listed(a, a.len()) + ", "@ + listed(b, k),
    decreases k,
{
    reveal_strlit("");
    lemma_listed_prefix(a, b, a.len());
    assert((a + b)[a.len() + k - 1] == b[k - 1]);
    let front = listed(a, a.len()) + ", "@;
    if k == 1 {
        assert(""@ + b[0] == b[0]);
    } else {
        lemma_listed(a, b, (k - 1) as nat);
        let before = listed(b, (k - 1) as nat);
        assert(front + before + ", "@ + b[k - 1] == front + (before + ", "@ + b[k - 1]));
    }
}

proof fn lemma_listed_prefix(a: Seq<Seq<char>>, b: Seq<Seq<char>>, k: nat)
    requires
        k <= a.len(),
    ensures
        listed(a + b, k) == listed(a, k),
    decreases k,
{
    if k > 1 {
        lemma_listed_prefix(a, b, (k - 1) as nat);
    }
}

} // verus!
