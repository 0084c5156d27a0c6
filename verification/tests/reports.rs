use spikeling_os::address_space::{
    create_loaded_elf_process, create_loaded_process, Build, BuildPlan, BuildStep,
};
use spikeling_os::build_reports::{build_start_report, step_report};
use spikeling_os::elf::{ElfImage, ProgramSegment};
use spikeling_os::numbers::short_hex;
use spikeling_os::reports::{
    created_report, creating_report, entering_report, excursion_report, resumed_report,
    saved_table_report, store_report, switch_report, syscall_report, usertest_report,
    write_end_report,
};
use spikeling_os::usertest::{SyscallRegs, USER_CODE_ADDR};

fn regs(rax: u64, rdi: u64, rsi: u64, rdx: u64) -> SyscallRegs {
    SyscallRegs {
        r15: 0, r14: 0, r13: 0, r12: 0, r11: 0, r10: 0, r9: 0, r8: 0, rbp: 0, rdi, rsi, rdx,
        rcx: 0, rbx: 0, rax, rip: 0, cs: 0x33, rflags: 0x202, rsp: 0, ss: 0x2B,
    }
}

#[test]
fn hexadecimal_numbers_have_no_leading_zeros() {
    assert_eq!(short_hex(0), "0");
    assert_eq!(short_hex(15), "f");
    assert_eq!(short_hex(16), "10");
    assert_eq!(short_hex(0x5555_5000_0080), "555550000080");
    assert_eq!(short_hex(u64::MAX), "ffffffffffffffff");
}

#[test]
fn writes_are_reported() {
    assert_eq!(
        syscall_report(&regs(0, 0x5555_5000_0080, 5, 0), 2, b"hello", 0),
        "milestone 31: syscall WRITE (process 2) -- hardware-recorded CS=0x33 (CPL=3) -- ptr=0x555550000080 len=5 -- raw bytes >>>\n"
    );
    assert_eq!(
        syscall_report(&regs(0, 16, 5000, 0), 0, b"", 0),
        "milestone 31: syscall WRITE -- requested len 5000 exceeds MAX_WRITE_LEN 4096, truncating\n\
         milestone 31: syscall WRITE (legacy usertest, no active process) -- hardware-recorded CS=0x33 (CPL=3) -- ptr=0x10 len=4096 -- raw bytes >>>\n"
    );
    assert_eq!(
        write_end_report(&regs(0, 0, 5, 0), 1, b'A'),
        "\n<<< end of write (5 bytes)\n\
         milestone 33: syscall WRITE (process 1) also reads its own private heap at 0x555570000000 -- marker byte 0x41 ('A')\n"
    );
    assert_eq!(
        write_end_report(&regs(0, 0, 5, 0), 1, 7),
        "\n<<< end of write (5 bytes)\n\
         milestone 33: syscall WRITE (process 1) also reads its own private heap at 0x555570000000 -- marker byte 0x07 ('\u{7}')\n"
    );
    assert_eq!(write_end_report(&regs(0, 0, 9999, 0), 0, 0), "\n<<< end of write (4096 bytes)\n");
}

#[test]
fn exits_and_heap_requests_are_reported() {
    assert_eq!(
        syscall_report(&regs(1, 0, 0, 0), 1, b"", 1),
        "milestone 30: syscall EXIT -- hardware-recorded CS=0x33 (CPL=3) -- discarding ring-3 context, resuming kernel context\n"
    );
    assert_eq!(
        syscall_report(&regs(1, 0, 0, 0), 0, b"", 1),
        "milestone 27: syscall EXIT -- hardware-recorded CS=0x33 (CPL=3) -- discarding ring-3 context, resuming kernel context\n"
    );
    assert_eq!(
        syscall_report(&regs(2, 16, 0, 0), 1, b"", 0x5555_7000_0000),
        "milestone 33: syscall SBRK (process 1) -- hardware-recorded CS=0x33 (CPL=3) -- requested 16 bytes, returning heap pointer 0x555570000000\n"
    );
    assert_eq!(
        syscall_report(&regs(2, 99999, 0, 0), 1, b"", u64::MAX),
        "milestone 33: syscall SBRK (process 1) -- FAILED (requested 99999 bytes would exceed this process's fixed per-process heap) -- returning u64::MAX\n"
    );
    assert_eq!(
        syscall_report(&regs(2, 1, 0, 0), 0, b"", u64::MAX),
        "milestone 33: syscall SBRK called with no active process (plain usertest excursion has no per-process heap mapped) -- ignoring, returning u64::MAX\n"
    );
    assert_eq!(
        syscall_report(&regs(77, 0, 0, 0), 1, b"", 77),
        "milestone 27: unknown syscall 77 from CPL=3 -- ignoring\n"
    );
}

#[test]
fn opening_is_reported() {
    assert_eq!(
        syscall_report(&regs(3, 0, 4, 0), 4, b"note", 0),
        "milestone 35: syscall OPEN (process 4) -- hardware-recorded CS=0x33 (CPL=3) -- path='note' -> fd 0\n"
    );
    assert_eq!(
        syscall_report(&regs(3, 0, 4, 0), 4, b"note", u64::MAX),
        "milestone 35: syscall OPEN (process 4) -- FAILED for path='note' (fd table full -- max 4 open files per process) -- returning u64::MAX\n"
    );
    assert_eq!(
        syscall_report(&regs(3, 0, 1, 0), 4, b"\xff", u64::MAX),
        "milestone 35: syscall OPEN (process 4) -- path is not valid UTF-8, returning u64::MAX\n"
    );
    assert_eq!(
        syscall_report(&regs(3, 0, 70, 0), 0, b"", u64::MAX),
        "milestone 35: syscall OPEN -- requested path_len 70 exceeds MAX_PATH_LEN 64, truncating\n\
         milestone 35: syscall OPEN called with no active process (plain usertest excursion has no fd table) -- ignoring, returning u64::MAX\n"
    );
}

#[test]
fn transfers_are_reported() {
    assert_eq!(
        syscall_report(&regs(4, 1, 0, 100), 4, b"", 7),
        "milestone 35: syscall READ (process 4) -- hardware-recorded CS=0x33 (CPL=3) -- fd=1 requested=100 actual=7 bytes\n"
    );
    assert_eq!(
        syscall_report(&regs(4, 1, 0, 4097), 4, b"", u64::MAX),
        "milestone 35: syscall READ -- requested len 4097 exceeds MAX_FD_IO_LEN 4096, truncating\n\
         milestone 35: syscall READ (process 4) -- FAILED, fd 1 is not open -- returning u64::MAX\n"
    );
    assert_eq!(
        syscall_report(&regs(4, 1, 0, 1), 0, b"", u64::MAX),
        "milestone 35: syscall READ called with no active process (plain usertest excursion has no fd table) -- ignoring, returning u64::MAX\n"
    );
    assert_eq!(
        syscall_report(&regs(5, 2, 0, 3), 4, b"abc", 3),
        "milestone 35: syscall FDWRITE (process 4) -- hardware-recorded CS=0x33 (CPL=3) -- fd=2 requested=3 accepted=3 bytes\n"
    );
    assert_eq!(
        syscall_report(&regs(5, 2, 0, 5000), 4, b"", 10),
        "milestone 35: syscall FDWRITE -- requested len 5000 exceeds MAX_FD_IO_LEN 4096, truncating\n\
         milestone 35: syscall FDWRITE (process 4) -- hardware-recorded CS=0x33 (CPL=3) -- fd=2 requested=4096 accepted=10 bytes (TRUNCATED -- would have exceeded fs::MAX_FILE_BYTES)\n"
    );
    assert_eq!(
        syscall_report(&regs(5, 2, 0, 3), 4, b"abc", u64::MAX),
        "milestone 35: syscall FDWRITE (process 4) -- FAILED, fd 2 is not open -- returning u64::MAX\n"
    );
    assert_eq!(
        syscall_report(&regs(5, 2, 0, 3), 0, b"", u64::MAX),
        "milestone 35: syscall FDWRITE called with no active process (plain usertest excursion has no fd table) -- ignoring, returning u64::MAX\n"
    );
}

#[test]
fn closing_is_reported() {
    assert_eq!(
        syscall_report(&regs(6, 2, 0, 0), 4, b"", 0),
        "milestone 35: syscall CLOSE (process 4) -- hardware-recorded CS=0x33 (CPL=3) -- fd=2 closed successfully\n"
    );
    assert_eq!(
        syscall_report(&regs(6, 2, 0, 0), 4, b"", 1),
        "milestone 35: syscall CLOSE (process 4) -- FAILED, fd 2 was not open -- returning status 1\n"
    );
    assert_eq!(syscall_report(&regs(6, 2, 0, 0), 4, b"", 2), "");
    assert_eq!(
        syscall_report(&regs(6, 2, 0, 0), 0, b"", u64::MAX),
        "milestone 35: syscall CLOSE called with no active process (plain usertest excursion has no fd table) -- ignoring, returning u64::MAX\n"
    );
    assert_eq!(
        store_report(4, 2, "note", 12, None),
        "milestone 35: syscall CLOSE (process 4) -- fd 2 was dirty, persisted 12 bytes to 'note' on the real on-disk filesystem\n"
    );
    assert_eq!(
        store_report(4, 2, "note", 12, Some("directory full (max 8 entries)")),
        "milestone 35: syscall CLOSE (process 4) -- fd 2 was dirty, but fs::write_file('note') FAILED: directory full (max 8 entries) -- fd released anyway, data NOT persisted\n"
    );
}

#[test]
fn the_way_into_ring_three_and_back_is_reported() {
    assert_eq!(
        switch_report(1, "A", 0x10_0000),
        "milestone 30: runproc 1 (process A) -- about to switch CR3 to process pml4 0x100000\n"
    );
    assert_eq!(
        entering_report(1),
        "milestone 30: CR3 switched -- entering ring 3 for process 1 at 0x555550000000\n"
    );
    assert_eq!(
        resumed_report(1),
        "milestone 30: runproc 1 -- resumed in kernel context (CR3 already restored by the exit syscall before this point)\n"
    );
    assert_eq!(
        switch_report(3, "loaded", 0x10_0000),
        "milestone 34: loaded process -- about to switch CR3 to pml4 0x100000\n"
    );
    assert_eq!(
        entering_report(3),
        "milestone 34: CR3 switched -- entering ring 3 for the file-loaded process at 0x555550000000\n"
    );
    assert_eq!(
        resumed_report(3),
        "milestone 34: loaded process -- resumed in kernel context (CR3 already restored by the exit syscall before this point)\n"
    );
    assert_eq!(
        excursion_report(12, 0),
        "diagnostic: interrupts during excursion -- timer=12 keyboard=0\n"
    );
    assert_eq!(
        usertest_report(1, false),
        "milestone 27: usertest run #1 -- entering ring 3 at 0x555550000000\n"
    );
    assert_eq!(
        usertest_report(1, true),
        "milestone 27: usertest run #1 -- resumed in kernel context after ring-3 exit syscall\n"
    );
}

#[test]
fn processes_of_the_start_are_reported() {
    assert_eq!(
        saved_table_report(0x1000, 0x18),
        "milestone 30: saved kernel's own PML4 frame 0x1000 (cr3 flags 0x18) for restore-on-exit\n"
    );
    assert_eq!(creating_report(1), "milestone 30: creating process A's private address space...\n");
    assert_eq!(creating_report(2), "milestone 30: creating process B's private address space...\n");
    assert_eq!(
        creating_report(4),
        "milestone 35: creating FDTEST_PROCESS's private address space...\n"
    );
    assert_eq!(
        created_report(2, 0x1000, 0x2000, 0x3000),
        "milestone 30: process B created -- pml4=0x1000 code=0x2000 stack=0x3000\n"
    );
    assert_eq!(
        created_report(4, 0x1000, 0x2000, 0x3000),
        "milestone 35: FDTEST_PROCESS created -- pml4=0x1000 code=0x2000 stack=0x3000\n"
    );
}

/// Everything that is reported on a build, with frames counted up from 0x1000.
fn build_log(plan: BuildPlan, elf: Option<&ElfImage>) -> String {
    let mut log = build_start_report(&plan, elf);
    let mut b = Build::start(plan);
    let mut next: u64 = 0x1000;
    while let Some(step) = b.next_step() {
        let mut outcome = 0;
        if matches!(step, BuildStep::TakeFrame(_)) {
            outcome = next;
            next += 0x1000;
        }
        log.push_str(&step_report(&b, elf));
        assert!(b.record(Some(outcome)).is_ok());
    }
    log
}

#[test]
fn the_build_of_a_flat_program_is_reported() {
    let plan = create_loaded_process(&[0x90; 37]).unwrap_or_else(|e| panic!("{}", e));
    assert_eq!(
        build_log(plan, None),
        "milestone 30: process loaded -- user p4 index computed as 170 (code 0x555550000000, stack 0x555560000000)\n\
         milestone 30: process loaded -- new pml4 0x1000 populated: 511 kernel-space entries shared, index 170 left private\n\
         milestone 30: process loaded -- private code page mapped to frame 0x2000, private stack page mapped to frame 0x3000\n\
         milestone 33: process loaded -- private heap mapped: 4 pages at 0x555570000000..0x555570003fff, backed by physical frames [16384, 20480, 24576, 28672]\n\
         milestone 34: process loaded -- copied 37 image bytes into private code frame 0x2000\n"
    );
}

#[test]
fn the_build_of_an_executable_is_reported() {
    let segments = vec![
        ProgramSegment { p_vaddr: USER_CODE_ADDR, p_offset: 0, p_filesz: 5000, p_memsz: 9000, p_flags: 5 },
        ProgramSegment { p_vaddr: USER_CODE_ADDR + 0x10000, p_offset: 0, p_filesz: 4, p_memsz: 4, p_flags: 6 },
    ];
    let e = ElfImage { entry: USER_CODE_ADDR, segments };
    let plan = create_loaded_elf_process(&[7u8; 6000], &e).unwrap_or_else(|e| panic!("{}", e));
    assert_eq!(
        build_log(plan, Some(&e)),
        "milestone 36: process elf-loaded -- ELF validated: e_entry=0x555550000000 falls inside a mapped segment, 2 PT_LOAD segment(s), 4 total page(s), all within private p4 index 170\n\
         milestone 36: process elf-loaded -- new pml4 0x1000 populated: 511 kernel-space entries shared, index 170 left private\n\
         milestone 36: process elf-loaded -- mapped 4 PT_LOAD page(s): [(93824902758400, 8192, 4096, 5), (93824902762496, 12288, 904, 5), (93824902766592, 16384, 0, 5), (93824902823936, 20480, 4, 6)]\n\
         milestone 36: process elf-loaded -- private stack page mapped to frame 0x6000\n\
         milestone 36: process elf-loaded -- private heap mapped: 4 pages at 0x555570000000..0x555570003fff\n"
    );
}
