use spikeling_os::address_space::{
    create_loaded_elf_process, create_loaded_process, create_process, create_process_from_elf,
    create_process_from_image, init_fdtest_process, init_test_processes, Build, BuildPlan, BuildStep,
};
use spikeling_os::disk::{SectorCache, SectorWrite};
use spikeling_os::elf;
use spikeling_os::elf::ProgramSegment;
use spikeling_os::process::{
    Closing, Process, ProcessTable, HEAP_START, LOADED_PROCESS_ID,
};
use spikeling_os::step::Step;
use spikeling_os::usertest::{
    enter_ring3_now, hardware_cpl, store_failed, syscall_dispatch, user_range, write_fixed_message,
    SetupFailure, SyscallEffect, SyscallRegs, UserTest, USER_CODE_ADDR,
};
use std::collections::HashMap;

/// Performs a build with frames counted up from `first`; records what was mapped and
/// what each frame holds.
struct Machine {
    next: u64,
    mapped: Vec<(u64, u64)>,
    contents: HashMap<u64, Vec<u8>>,
    private: Option<u16>,
}

impl Machine {
    fn new(first: u64) -> Machine {
        Machine { next: first, mapped: vec![], contents: HashMap::new(), private: None }
    }

    fn build(&mut self, plan: BuildPlan) -> Process {
        let mut b = Build::start(plan);
        loop {
            let outcome = match b.next_step() {
                None => return b.finish(),
                Some(BuildStep::TakeFrame(_)) => {
                    self.next += 4096;
                    Some(self.next - 4096)
                }
                Some(BuildStep::FillTable { private }) => {
                    self.private = Some(*private);
                    Some(0)
                }
                Some(BuildStep::MapPage { addr, frame, .. }) => {
                    self.mapped.push((*addr, b.frames[*frame]));
                    Some(0)
                }
                Some(BuildStep::LoadFrame { frame, data }) => {
                    self.contents.insert(b.frames[*frame], data.clone());
                    Some(0)
                }
            };
            assert!(b.record(outcome).is_ok());
        }
    }
}

fn table_with_processes() -> ProcessTable {
    let mut t = ProcessTable::new();
    let mut m = Machine::new(0x10_0000);
    if let Ok((a, b)) = init_test_processes() {
        let (pa, pb) = (m.build(a), m.build(b));
        t.procs[0] = Some(pa);
        t.procs[1] = Some(pb);
    }
    t
}

struct Drive {
    sectors: HashMap<u32, [u8; 512]>,
}

impl Drive {
    fn blank() -> Drive {
        Drive { sectors: HashMap::new() }
    }

    fn learn(&self, c: &mut SectorCache, lba: u32) {
        c.learn(lba, Some(*self.sectors.get(&lba).unwrap_or(&[0u8; 512])));
    }

    fn perform(&mut self, ws: Vec<SectorWrite>) {
        for w in ws {
            self.sectors.insert(w.lba, w.data);
        }
    }

    fn open(&self, t: &mut ProcessTable, id: u8, path: &str) -> Option<u64> {
        let mut c = SectorCache::new();
        loop {
            match t.open_file(&c, id, path) {
                Step::Need(l) => self.learn(&mut c, l),
                Step::Done(r) => return r,
            }
        }
    }

    fn close(&mut self, t: &mut ProcessTable, id: u8, fd: u64) -> u8 {
        let mut c = SectorCache::new();
        loop {
            match t.close_fd(&c, id, fd) {
                Step::Need(l) => self.learn(&mut c, l),
                Step::Done(Closing::NotOpen) => return 1,
                Step::Done(Closing::Clean) => return 0,
                Step::Done(Closing::Persist(ws)) => {
                    self.perform(ws);
                    return 0;
                }
                Step::Done(Closing::Refused(_)) => return 2,
            }
        }
    }
}

#[test]
fn a_process_is_built_from_an_image() {
    let image = vec![0x90u8; 100];
    let mut m = Machine::new(0x5000);
    let plan = create_process_from_image("x", &image).unwrap_or_else(|e| panic!("{}", e));
    let p = m.build(plan);
    assert_eq!(p.label, "x");
    assert_eq!(p.pml4_frame, 0x5000);
    assert_eq!(p.code_frame, 0x6000);
    assert_eq!(p.stack_frame, 0x7000);
    assert_eq!(p.heap_frames, vec![0x8000, 0x9000, 0xA000, 0xB000]);
    assert_eq!(p.heap_used, 0);
    assert!(p.extra_frames.is_empty());
    // the top-level entry of 0x5555_5000_0000
    assert_eq!(m.private, Some(170));
    assert_eq!(
        m.mapped,
        vec![
            (0x5555_5000_0000, 0x6000),
            (0x5555_6000_0000, 0x7000),
            (0x5555_7000_0000, 0x8000),
            (0x5555_7000_1000, 0x9000),
            (0x5555_7000_2000, 0xA000),
            (0x5555_7000_3000, 0xB000),
        ]
    );
    assert_eq!(m.contents[&0x6000], image);
    assert!(m.contents[&0x8000].is_empty());
}

#[test]
fn an_image_larger_than_a_page_is_refused() {
    assert!(create_process_from_image("x", &[0u8; 4096]).is_ok());
    assert_eq!(
        create_process_from_image("x", &[0u8; 4097]).err(),
        Some("program image exceeds the 4096-byte code page capacity (one page, no multi-page programs yet)")
    );
    assert!(create_loaded_process(&[0u8; 4097]).is_err());
    assert!(init_fdtest_process(&[0u8; 4097]).is_err());
    assert_eq!(create_loaded_process(&[1]).unwrap_or_else(|e| panic!("{}", e)).label, "loaded");
    assert_eq!(init_fdtest_process(&[1]).unwrap_or_else(|e| panic!("{}", e)).label, "fdtest");
}

#[test]
fn a_failing_step_ends_the_build() {
    let errors = |fail_at: usize| {
        let plan = create_process_from_image("x", &[1, 2, 3]).unwrap_or_else(|e| panic!("{}", e));
        let mut b = Build::start(plan);
        for _ in 0..fail_at {
            b.record(Some(0x1000)).unwrap();
        }
        b.record(None).err()
    };
    assert_eq!(errors(0), Some("out of physical frames (pml4)"));
    assert_eq!(errors(2), Some("out of physical frames (code)"));
    assert_eq!(errors(3), Some("out of physical frames (stack)"));
    assert_eq!(errors(4), Some("map_to failed (code page)"));
    assert_eq!(errors(5), Some("map_to failed (stack page)"));
    assert_eq!(errors(6), Some("out of physical frames (heap)"));
    assert_eq!(errors(7), Some("map_to failed (heap page)"));
}

#[test]
fn boot_programs_carry_marker_and_message() {
    let plan = create_process("A", "hi", 0x41).unwrap_or_else(|e| panic!("{}", e));
    let mut m = Machine::new(0x1000);
    let p = m.build(plan);
    let image = &m.contents[&p.code_frame];
    assert_eq!(image.len(), 192);
    assert_eq!(&image[12..15], &[0xC6, 0x00, 0x41]);
    assert_eq!(&image[15..25], &[0x48, 0xBF, 0x80, 0, 0, 0x50, 0x55, 0x55, 0, 0]);
    assert_eq!(&image[128..130], b"hi");
    assert!(image[130..].iter().all(|b| *b == b' '));
}

#[test]
fn the_two_boot_processes_share_no_frame() {
    let t = table_with_processes();
    let frames = |p: &Process| {
        let mut v = vec![p.pml4_frame, p.code_frame, p.stack_frame];
        v.extend(p.heap_frames.iter());
        v
    };
    let a = frames(t.procs[0].as_ref().unwrap());
    let b = frames(t.procs[1].as_ref().unwrap());
    assert_eq!(t.procs[0].as_ref().unwrap().label, "A");
    assert_eq!(t.procs[1].as_ref().unwrap().label, "B");
    assert!(a.iter().all(|f| !b.contains(f)));
}

#[test]
fn the_heap_grows_up_to_its_end() {
    let mut t = table_with_processes();
    assert_eq!(t.sbrk(1, 16), Some(HEAP_START));
    assert_eq!(t.sbrk(1, 100), Some(HEAP_START + 16));
    assert_eq!(t.sbrk(2, 8), Some(HEAP_START));
    assert_eq!(t.sbrk(1, 0x4000), None);
    assert_eq!(t.sbrk(1, u64::MAX), None);
    assert_eq!(t.sbrk(1, 0x4000 - 116), Some(HEAP_START + 116));
    assert_eq!(t.sbrk(1, 1), None);
    assert_eq!(t.sbrk(1, 0), Some(HEAP_START + 0x4000));
    assert_eq!(t.sbrk(0, 1), None);
    assert_eq!(t.sbrk(3, 1), None);
    assert_eq!(t.sbrk(200, 1), None);
}

#[test]
fn files_are_written_closed_and_read_again() {
    let mut t = table_with_processes();
    let mut d = Drive::blank();
    let fd = d.open(&mut t, 1, "notes").unwrap();
    assert_eq!(fd, 0);
    assert_eq!(t.read_fd(1, fd, 10), Some(vec![]));
    assert_eq!(t.write_fd(1, fd, b"hello"), Some(5));
    assert_eq!(t.write_fd(1, fd, b", world"), Some(7));
    assert_eq!(d.close(&mut t, 1, fd), 0);
    assert_eq!(d.close(&mut t, 1, fd), 1);
    let fd = d.open(&mut t, 2, "notes").unwrap();
    assert_eq!(t.read_fd(2, fd, 5), Some(b"hello".to_vec()));
    assert_eq!(t.read_fd(2, fd, 100), Some(b", world".to_vec()));
    assert_eq!(t.read_fd(2, fd, 100), Some(vec![]));
    assert_eq!(d.close(&mut t, 2, fd), 0);
}

#[test]
fn a_write_fills_in_at_the_position() {
    let mut t = table_with_processes();
    let mut d = Drive::blank();
    let fd = d.open(&mut t, 1, "f").unwrap();
    t.write_fd(1, fd, b"abcdef");
    d.close(&mut t, 1, fd);
    let fd = d.open(&mut t, 1, "f").unwrap();
    assert_eq!(t.read_fd(1, fd, 2), Some(b"ab".to_vec()));
    assert_eq!(t.write_fd(1, fd, b"XY"), Some(2));
    assert_eq!(t.read_fd(1, fd, 9), Some(b"ef".to_vec()));
    assert_eq!(t.procs[0].as_ref().unwrap().fds[0].as_ref().unwrap().buffer, b"abXYef".to_vec());
}

#[test]
fn a_file_grows_to_its_largest_size_only() {
    let mut t = table_with_processes();
    let mut d = Drive::blank();
    let fd = d.open(&mut t, 1, "f").unwrap();
    assert_eq!(t.write_fd(1, fd, &[1u8; 4000]), Some(4000));
    assert_eq!(t.write_fd(1, fd, &[2u8; 200]), Some(96));
    assert_eq!(t.write_fd(1, fd, &[3u8; 5]), Some(0));
    assert_eq!(d.close(&mut t, 1, fd), 0);
}

#[test]
fn descriptors_run_out_and_are_used_again() {
    let mut t = table_with_processes();
    let mut d = Drive::blank();
    for i in 0..4 {
        assert_eq!(d.open(&mut t, 1, &format!("f{}", i)), Some(i));
    }
    assert_eq!(d.open(&mut t, 1, "f4"), None);
    assert_eq!(d.open(&mut t, 2, "f4"), Some(0));
    assert_eq!(d.close(&mut t, 1, 2), 0);
    assert_eq!(d.open(&mut t, 1, "again"), Some(2));
    assert_eq!(d.open(&mut t, 3, "x"), None);
    assert_eq!(t.read_fd(1, 4, 1), None);
    assert_eq!(t.read_fd(3, 0, 1), None);
    assert_eq!(t.write_fd(1, u64::MAX, b"x"), None);
    assert_eq!(d.close(&mut t, 1, 9), 1);
}

#[test]
fn a_file_that_cannot_be_stored_is_refused_and_released() {
    let mut t = table_with_processes();
    let mut d = Drive::blank();
    let fd = d.open(&mut t, 1, "no/such").unwrap();
    t.write_fd(1, fd, b"x");
    assert_eq!(d.close(&mut t, 1, fd), 2);
    assert_eq!(d.close(&mut t, 1, fd), 1);
}

#[test]
fn running_a_process_loads_its_page_table() {
    let mut t = table_with_processes();
    // bits that are no flags are dropped
    t.save_kernel_cr3(0x7000, 0xFFFF_FFFF_FFFF_FFFF);
    let frame = t.procs[0].as_ref().unwrap().pml4_frame;
    let s = t.run(1).unwrap_or_else(|e| panic!("{}", e));
    assert_eq!((s.frame, s.flags), (frame, 0x18));
    assert_eq!(t.active, 1);
    let s = t.restore_kernel_cr3();
    assert_eq!((s.frame, s.flags), (0x7000, 0x18));
    t.save_kernel_cr3(0x7000, 0x8);
    assert_eq!(t.restore_kernel_cr3().flags, 0x8);
}

#[test]
fn processes_that_do_not_exist_do_not_run() {
    let mut t = table_with_processes();
    assert_eq!(t.run(4).err(), Some("process not initialized"));
    assert_eq!(t.run(3).err(), Some("no such process -- use 1, 2, or 4 (FDTEST_PROCESS_ID)"));
    assert_eq!(t.run(0).err(), Some("no such process -- use 1, 2, or 4 (FDTEST_PROCESS_ID)"));
    assert_eq!(
        t.run_loaded_process().err(),
        Some("no loaded process -- create_loaded_process must succeed first")
    );
    assert_eq!(t.active, 0);
    let mut m = Machine::new(0x90_0000);
    let plan = create_loaded_process(&[0x90]).unwrap_or_else(|e| panic!("{}", e));
    let p = m.build(plan);
    t.procs[2] = Some(p);
    assert_eq!(t.run_loaded_process().map(|s| s.frame).ok(), Some(0x90_0000));
    assert_eq!(t.active, LOADED_PROCESS_ID);
}

/// A 64-bit ELF file with the given segments: address, offset, file size, memory size.
fn elf_file(entry: u64, segs: &[(u64, u64, u64, u64)], len: usize) -> Vec<u8> {
    let mut f = vec![0u8; len];
    f[..4].copy_from_slice(b"\x7fELF");
    f[4] = 2;
    f[5] = 1;
    f[16] = 2;
    f[18] = 0x3E;
    f[24..32].copy_from_slice(&entry.to_le_bytes());
    f[32..40].copy_from_slice(&64u64.to_le_bytes());
    f[54..56].copy_from_slice(&56u16.to_le_bytes());
    f[56..58].copy_from_slice(&(segs.len() as u16).to_le_bytes());
    for (i, s) in segs.iter().enumerate() {
        let at = 64 + 56 * i;
        f[at..at + 4].copy_from_slice(&1u32.to_le_bytes());
        f[at + 4..at + 8].copy_from_slice(&5u32.to_le_bytes());
        f[at + 8..at + 16].copy_from_slice(&s.1.to_le_bytes());
        f[at + 16..at + 24].copy_from_slice(&s.0.to_le_bytes());
        f[at + 32..at + 40].copy_from_slice(&s.2.to_le_bytes());
        f[at + 40..at + 48].copy_from_slice(&s.3.to_le_bytes());
    }
    f
}

#[test]
fn an_elf_file_is_parsed() {
    let f = elf_file(0x5555_5000_0000, &[(0x5555_5000_0000, 512, 100, 5000), (0x5555_5001_0000, 700, 3, 3)], 1024);
    let e = elf::parse(&f).unwrap_or_else(|e| panic!("{}", e));
    assert_eq!(e.entry, 0x5555_5000_0000);
    assert_eq!(e.segments.len(), 2);
    let s = e.segments[0];
    assert_eq!(
        (s.p_vaddr, s.p_offset, s.p_filesz, s.p_memsz, s.p_flags),
        (0x5555_5000_0000, 512, 100, 5000, 5)
    );
}

fn elf_error(f: &[u8]) -> &'static str {
    match elf::parse(f) {
        Ok(_) => "",
        Err(e) => e,
    }
}

#[test]
fn broken_elf_files_are_refused() {
    let good = elf_file(0, &[(0, 200, 4, 4)], 256);
    assert_eq!(elf_error(&good), "");
    let with = |at: usize, b: u8| {
        let mut f = good.clone();
        f[at] = b;
        f
    };
    assert_eq!(elf_error(&good[..63]), "elf: file smaller than a 64-byte ELF64 header");
    assert_eq!(elf_error(&with(0, 0)), "elf: bad magic -- not 0x7F 'E' 'L' 'F'");
    assert_eq!(elf_error(&with(4, 1)), "elf: not ELFCLASS64 (32-bit ELF is not supported)");
    assert_eq!(elf_error(&with(5, 2)), "elf: not ELFDATA2LSB (big-endian ELF is not supported)");
    assert_eq!(
        elf_error(&with(16, 3)),
        "elf: e_type is not ET_EXEC (only static, non-PIE executables are supported)"
    );
    assert_eq!(elf_error(&with(18, 0x28)), "elf: e_machine is not EM_X86_64");
    assert_eq!(elf_error(&with(56, 0)), "elf: e_phnum == 0 (no program headers -- nothing to load)");
    assert_eq!(
        elf_error(&with(54, 32)),
        "elf: e_phentsize is not 56 bytes -- not a standard Elf64_Phdr, refusing to guess field offsets"
    );
    let mut f = good.clone();
    f[32..40].copy_from_slice(&u64::MAX.to_le_bytes());
    assert_eq!(elf_error(&f), "elf: e_phoff + program header table size overflows");
    assert_eq!(elf_error(&with(56, 4)), "elf: program header table runs past the end of the file");
    assert_eq!(
        elf_error(&elf_file(0, &[(0, 200, 5, 4)], 256)),
        "elf: PT_LOAD segment has p_memsz < p_filesz (invalid per the ELF spec)"
    );
    assert_eq!(
        elf_error(&elf_file(0, &[(0, u64::MAX, 5, 5)], 256)),
        "elf: PT_LOAD p_offset + p_filesz overflows"
    );
    assert_eq!(
        elf_error(&elf_file(0, &[(0, 250, 7, 7)], 256)),
        "elf: PT_LOAD segment's file range runs past the end of the file"
    );
    assert_eq!(
        elf_error(&elf_file(0, &[(0, 0, 1, 1); 9], 1024)),
        "elf: more PT_LOAD segments than this parser's fixed MAX_LOAD_SEGMENTS cap"
    );
    assert_eq!(
        elf_error(&with(64, 4)),
        "elf: no PT_LOAD segments found in the program header table -- nothing to load"
    );
}

#[test]
fn a_process_is_built_from_an_elf_file() {
    let mut f = elf_file(USER_CODE_ADDR, &[(USER_CODE_ADDR, 512, 5000, 9000)], 6000);
    for i in 0..5000 {
        f[512 + i] = (i % 200) as u8 + 1;
    }
    let e = elf::parse(&f).unwrap_or_else(|e| panic!("{}", e));
    let plan = create_loaded_elf_process(&f, &e).unwrap_or_else(|e| panic!("{}", e));
    assert_eq!(plan.label, "elf-loaded");
    let mut m = Machine::new(0x1000);
    let p = m.build(plan);
    let code: Vec<(u64, u64)> =
        m.mapped.iter().copied().filter(|x| x.0 < 0x5555_6000_0000).collect();
    assert_eq!(code.len(), 3);
    assert_eq!(code[0], (USER_CODE_ADDR, p.code_frame));
    assert_eq!(m.contents[&code[0].1], f[512..512 + 4096].to_vec());
    assert_eq!(m.contents[&code[1].1], f[512 + 4096..512 + 5000].to_vec());
    assert!(m.contents[&code[2].1].is_empty());
    assert_eq!(p.heap_frames.len(), 4);
}

fn seg(vaddr: u64, memsz: u64) -> ProgramSegment {
    ProgramSegment { p_vaddr: vaddr, p_offset: 0, p_filesz: 0, p_memsz: memsz, p_flags: 5 }
}

#[test]
fn every_page_of_an_executable_is_private() {
    let mapped = |segs: Vec<ProgramSegment>| {
        let plan = create_process_from_elf("x", USER_CODE_ADDR, &segs, &[])
            .unwrap_or_else(|e| panic!("{}", e));
        let mut m = Machine::new(0x1000);
        m.build(plan);
        m.mapped
    };
    let check = |pages: &[(u64, u64)]| {
        for (i, p) in pages.iter().enumerate() {
            assert_eq!((p.0 % 4096, p.0 >> 39), (0, 170));
            assert!(pages[..i].iter().all(|q| q.1 != p.1));
        }
    };
    let apart = mapped(vec![seg(USER_CODE_ADDR, 9000), seg(USER_CODE_ADDR + 0x10000, 1)]);
    // four pages of segments, the stack, four pages of heap
    assert_eq!(apart.len(), 9);
    check(&apart);
    for (i, p) in apart.iter().enumerate() {
        assert!(apart[..i].iter().all(|q| q.0 != p.0));
    }
    // segments that overlap still get frames of their own
    let same = mapped(vec![seg(USER_CODE_ADDR, 1), seg(USER_CODE_ADDR, 1)]);
    check(&same);
    assert_eq!(same[0].0, same[1].0);
}

#[test]
fn elf_files_that_do_not_fit_are_refused() {
    let refusal = |entry: u64, segs: Vec<ProgramSegment>| {
        create_process_from_elf("x", entry, &segs, &[]).err().unwrap_or("")
    };
    let a = USER_CODE_ADDR;
    assert_eq!(refusal(a, vec![seg(a, 1)]), "");
    assert!(refusal(a + 1, vec![seg(a, 10)]).starts_with("elf: e_entry does not equal USER_CODE_ADDR"));
    assert_eq!(refusal(a, vec![]), "elf: no PT_LOAD segments to map");
    assert_eq!(
        refusal(a, vec![seg(a, 1); 9]),
        "elf: more PT_LOAD segments than this loader's fixed cap"
    );
    assert_eq!(
        refusal(a, vec![seg(a + 4096, 1)]),
        "elf: e_entry does not fall within any PT_LOAD segment's [p_vaddr, p_vaddr+p_memsz) range"
    );
    assert!(refusal(a, vec![seg(a, 1), seg(a + 4097, 1)]).starts_with("elf: a PT_LOAD segment's p_vaddr is not page-aligned"));
    assert_eq!(refusal(a, vec![seg(a, 1), seg(a + 4096, 0)]), "elf: a PT_LOAD segment has p_memsz == 0");
    assert_eq!(
        refusal(a, vec![seg(a, 5 * 4096)]),
        "elf: a PT_LOAD segment needs more pages than this loader's fixed per-segment cap"
    );
    assert_eq!(
        refusal(a, vec![seg(a, 1), seg(0x4000_0000, 1)]),
        "elf: a PT_LOAD segment page falls outside the process's private PML4 slot -- refusing to map"
    );
    assert_eq!(
        refusal(a, vec![seg(a, 1), seg(0x8000_0000_0000, 1)]),
        "elf: a PT_LOAD segment page falls outside the process's private PML4 slot -- refusing to map"
    );
    assert_eq!(
        refusal(a, (0..5).map(|i| seg(a + i * 0x10000, 4 * 4096)).collect()),
        "elf: total PT_LOAD page count across all segments exceeds this loader's fixed cap"
    );
}

fn regs(rax: u64, rdi: u64, rsi: u64, rdx: u64) -> SyscallRegs {
    SyscallRegs {
        r15: 1, r14: 2, r13: 3, r12: 4, r11: 5, r10: 6, r9: 7, r8: 8, rbp: 9, rdi, rsi, rdx,
        rcx: 10, rbx: 11, rax, rip: 12, cs: 0x23, rflags: 0x202, rsp: 13, ss: 0x1B,
    }
}

fn dispatch(
    t: &mut ProcessTable,
    d: &Drive,
    mut r: SyscallRegs,
    user: &[u8],
) -> (SyscallRegs, SyscallEffect) {
    let mut c = SectorCache::new();
    loop {
        match syscall_dispatch(&mut r, t, &c, user.to_vec()) {
            Step::Need(l) => d.learn(&mut c, l),
            Step::Done(e) => return (r, e),
        }
    }
}

#[test]
fn system_calls_of_a_process() {
    let mut t = table_with_processes();
    let mut d = Drive::blank();
    t.run(1).unwrap_or_else(|e| panic!("{}", e));
    let (r, e) = dispatch(&mut t, &d, regs(0, 0x5555_5000_0080, 5, 0), b"hello");
    assert_eq!(r.rbx, 11);
    assert!(matches!(e, SyscallEffect::Print(b) if b == b"hello"));
    let (r, e) = dispatch(&mut t, &d, regs(2, 32, 0, 0), b"");
    assert_eq!(r.rax, HEAP_START);
    assert!(matches!(e, SyscallEffect::Resume));
    let (r, _) = dispatch(&mut t, &d, regs(3, 0, 1, 0), b"f");
    assert_eq!(r.rax, 0);
    let (r, _) = dispatch(&mut t, &d, regs(5, 0, 0, 3), b"abc");
    assert_eq!(r.rax, 3);
    let (r, e) = dispatch(&mut t, &d, regs(6, 0, 0, 0), b"");
    assert_eq!(r.rax, 0);
    match e {
        SyscallEffect::Store(ws) => d.perform(ws),
        _ => panic!("a file that was written to is stored"),
    }
    let (r, _) = dispatch(&mut t, &d, regs(3, 0, 1, 0), b"f");
    assert_eq!(r.rax, 0);
    let (r, e) = dispatch(&mut t, &d, regs(4, 0, 0x7000, 2), b"");
    assert_eq!(r.rax, 2);
    assert!(matches!(e, SyscallEffect::Fill { ptr: 0x7000, data } if data == b"ab"));
    let (r, e) = dispatch(&mut t, &d, regs(6, 0, 0, 0), b"");
    assert_eq!(r.rax, 0);
    assert!(matches!(e, SyscallEffect::Resume));
    let (r, _) = dispatch(&mut t, &d, regs(6, 0, 0, 0), b"");
    assert_eq!(r.rax, 1);
    let (r, _) = dispatch(&mut t, &d, regs(3, 0, 2, 0), b"\xff\xfe");
    assert_eq!(r.rax, u64::MAX);
    t.save_kernel_cr3(0x3000, 0);
    let (_, e) = dispatch(&mut t, &d, regs(1, 0, 0, 0), b"");
    assert!(matches!(e, SyscallEffect::Exit(Some(s)) if s.frame == 0x3000));
    assert_eq!(t.active, 0);
}

#[test]
fn system_calls_without_a_process() {
    let mut t = table_with_processes();
    let d = Drive::blank();
    for n in 2..7 {
        let (r, e) = dispatch(&mut t, &d, regs(n, 0, 0, 0), b"");
        assert_eq!(r.rax, u64::MAX);
        assert!(matches!(e, SyscallEffect::Resume));
    }
    let (_, e) = dispatch(&mut t, &d, regs(1, 0, 0, 0), b"");
    assert!(matches!(e, SyscallEffect::Exit(None)));
    let mut r = regs(6, 0, 0, 0);
    store_failed(&mut r);
    assert_eq!(r.rax, 2);
    assert_eq!(hardware_cpl(&r), 3);
}

#[test]
fn heap_memory_that_is_not_there_is_refused() {
    let mut t = table_with_processes();
    let d = Drive::blank();
    t.run(1).unwrap_or_else(|e| panic!("{}", e));
    let (r, e) = dispatch(&mut t, &d, regs(2, 0x4001, 0, 0), b"");
    assert_eq!(r.rax, u64::MAX);
    assert!(matches!(e, SyscallEffect::Resume));
    let (r, _) = dispatch(&mut t, &d, regs(2, 0x4000, 0, 0), b"");
    assert_eq!(r.rax, HEAP_START);
    let (r, _) = dispatch(&mut t, &d, regs(2, 1, 0, 0), b"");
    assert_eq!(r.rax, u64::MAX);
    let (r, _) = dispatch(&mut t, &d, regs(2, 0, 0, 0), b"");
    assert_eq!(r.rax, HEAP_START + 0x4000);
}

#[test]
fn a_write_of_nothing_stores_nothing() {
    let mut t = table_with_processes();
    let mut d = Drive::blank();
    t.run(1).unwrap_or_else(|e| panic!("{}", e));
    let (r, _) = dispatch(&mut t, &d, regs(3, 0, 1, 0), b"f");
    assert_eq!(r.rax, 0);
    let (r, _) = dispatch(&mut t, &d, regs(5, 0, 0, 0), b"");
    assert_eq!(r.rax, 0);
    let (r, e) = dispatch(&mut t, &d, regs(6, 0, 0, 0), b"");
    assert_eq!(r.rax, 0);
    assert!(matches!(e, SyscallEffect::Resume));
    assert!(d.sectors.is_empty());
    // a file that is there already is not stored again either
    let fd = d.open(&mut t, 1, "f").unwrap();
    assert_eq!(t.write_fd(1, fd, b"abc"), Some(3));
    assert_eq!(d.close(&mut t, 1, fd), 0);
    let stored = d.sectors.clone();
    let fd = d.open(&mut t, 1, "f").unwrap();
    assert_eq!(t.write_fd(1, fd, b""), Some(0));
    let (r, e) = dispatch(&mut t, &d, regs(6, fd, 0, 0), b"");
    assert_eq!(r.rax, 0);
    assert!(matches!(e, SyscallEffect::Resume));
    assert_eq!(d.sectors, stored);
    // a write of nothing leaves an earlier change to be stored
    let fd = d.open(&mut t, 1, "f").unwrap();
    assert_eq!(t.write_fd(1, fd, b"x"), Some(1));
    assert_eq!(t.write_fd(1, fd, b""), Some(0));
    let (_, e) = dispatch(&mut t, &d, regs(6, fd, 0, 0), b"");
    assert!(matches!(e, SyscallEffect::Store(_)));
}

#[test]
fn a_file_that_cannot_be_stored_is_closed_with_its_reason() {
    let mut t = table_with_processes();
    let mut d = Drive::blank();
    t.run(1).unwrap_or_else(|e| panic!("{}", e));
    for name in ["a", "b", "c", "d", "e", "f", "g", "h"] {
        let fd = d.open(&mut t, 1, name).unwrap();
        assert_eq!(t.write_fd(1, fd, b"1"), Some(1));
        assert_eq!(d.close(&mut t, 1, fd), 0);
    }
    let fd = d.open(&mut t, 1, "more").unwrap();
    assert_eq!(t.write_fd(1, fd, b"12"), Some(2));
    assert_eq!(t.open_path(1, fd), Some(("more".to_string(), 2)));
    assert_eq!(t.open_path(1, fd + 1), None);
    assert_eq!(t.open_path(1, 99), None);
    assert_eq!(t.open_path(0, fd), None);
    assert_eq!(t.open_path(3, fd), None);
    let (r, e) = dispatch(&mut t, &d, regs(6, fd, 0, 0), b"");
    assert_eq!(r.rax, 2);
    assert!(matches!(e, SyscallEffect::Refused(e) if e == "directory full (max 8 entries)"));
    assert_eq!(t.open_path(1, fd), None);
}

#[test]
fn system_calls_read_bounded_ranges() {
    let range = |r: SyscallRegs, active: u8| user_range(&r, active).map(|u| (u.ptr, u.len));
    assert_eq!(range(regs(0, 7, 10, 0), 0), Some((7, 10)));
    assert_eq!(range(regs(0, 7, 100_000, 0), 0), Some((7, 4096)));
    assert_eq!(range(regs(3, 7, 100, 0), 1), Some((7, 64)));
    assert_eq!(range(regs(5, 1, 9, 5000), 1), Some((9, 4096)));
    assert_eq!(range(regs(5, 1, 9, 5000), 0), None);
    assert_eq!(range(regs(1, 0, 0, 0), 1), None);
}

#[test]
fn the_user_test_is_set_up_and_run() {
    let mut u = UserTest::new();
    assert_eq!(
        u.run(0x23, 0x1B).err(),
        Some("user test pages not mapped (setup() should have run at boot)")
    );
    let plan = u.setup().unwrap();
    assert_eq!((plan.code_page, plan.stack_page), (0x5555_5000_0000, 0x5555_6000_0000));
    assert_eq!(plan.message_addr, 0x5555_5000_0080);
    assert_eq!(plan.message.len(), 64);
    assert!(plan.message.starts_with(b"hello from ring 3, CPL=3 confirmed -- real write() syscall"));
    assert_eq!(u.setup_done(Some(SetupFailure::NoFrame)).err(), Some("out of physical frames"));
    assert_eq!(u.setup_done(Some(SetupFailure::MapFailed)).err(), Some("map_to failed"));
    assert!(u.setup().is_some());
    assert!(u.setup_done(None).is_ok());
    assert!(u.setup().is_none());
    let e = u.run(0x23, 0x1B).unwrap_or_else(|e| panic!("{}", e));
    assert_eq!((e.rip, e.rsp), (0x5555_5000_0000, 0x5555_6000_1000));
    assert_eq!((e.cs, e.ss, e.rflags), (0x23, 0x1B, 0x202));
    assert_eq!(u.run_count, 1);
    assert_eq!(enter_ring3_now(1, 2).cs, 1);
}

#[test]
fn messages_are_padded_with_spaces() {
    let mut page = vec![0u8; 4096];
    write_fixed_message(&mut page, "abc");
    assert_eq!(&page[128..131], b"abc");
    assert!(page[131..192].iter().all(|b| *b == b' '));
    assert!(page[..128].iter().all(|b| *b == 0));
    assert!(page[192..].iter().all(|b| *b == 0));
    let long = "x".repeat(100);
    write_fixed_message(&mut page, &long);
    assert!(page[128..192].iter().all(|b| *b == b'x'));
    assert_eq!(page[192], 0);
}
