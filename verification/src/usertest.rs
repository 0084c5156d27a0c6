//! Ring 3: the fixed user pages, the user program, and the system calls.

use crate::disk::{writes_view, DiskView, SectorCache, SectorWrite, WriteView};
use crate::process::{
    bytes_read, close_result, is_free_fd, kernel_switch, open_file_at, open_result, process_at,
    read_fd_result, sbrk_result, table_ok, write_fd_result, Closing, ClosingView, PageTableSwitch,
    ProcessTable, TableView,
};
use crate::process_laws::law_processes_are_apart;
use crate::search::lemma_first_where;
use crate::step::Step;
use crate::text::utf8_text;
use vstd::prelude::*;
use vstd::utf8::{decode_utf8, encode_utf8, valid_utf8};

verus! {

/// Where a process's code begins.
pub const USER_CODE_ADDR: u64 = 0x5555_5000_0000;

/// Where a process's stack begins.
pub const USER_STACK_ADDR: u64 = 0x5555_6000_0000;

pub const USER_STACK_SIZE: u64 = 4096;

/// Where in the code page the program's message begins.
pub const MESSAGE_OFFSET: u64 = 128;

/// Bytes of the program's message.
pub const MESSAGE_LEN: usize = 64;

/// The message region for a text: its UTF-8 bytes, cut off or filled up with
/// spaces.
pub open spec fn padded_message(message: Seq<char>) -> Seq<u8> {
    let b = encode_utf8(message);
    Seq::new(
        MESSAGE_LEN as nat,
        |i: int|
            if i < b.len() {
                b[i]
            } else {
                0x20u8
            },
    )
}

/// Writes the message region into a code page.
pub fn write_fixed_message(page: &mut Vec<u8>, message: &str)
    requires
        old(page)@.len() >= MESSAGE_OFFSET + MESSAGE_LEN,
    ensures
        final(page)@.len() == old(page)@.len(),
        forall|i: int|
            0 <= i < old(page)@.len() ==> final(page)@[i] == (if MESSAGE_OFFSET <= i
                < MESSAGE_OFFSET + MESSAGE_LEN {
                padded_message(message@)[i - MESSAGE_OFFSET]
            } else {
                old(page)@[i]
            }),
{
    let bytes = message.as_bytes();
    let ghost before = page@;
    let mut i: usize = 0;
    while i < MESSAGE_LEN
        invariant
            i <= MESSAGE_LEN,
            bytes@ == encode_utf8(message@),
            page@.len() == before.len(),
            before.len() >= MESSAGE_OFFSET + MESSAGE_LEN,
            forall|k: int|
                0 <= k < before.len() ==> page@[k] == (if MESSAGE_OFFSET <= k < MESSAGE_OFFSET
                    + i {
                    padded_message(message@)[k - MESSAGE_OFFSET]
                } else {
                    before[k]
                }),
        decreases MESSAGE_LEN - i,
    {
        let b: u8 = if i < bytes.len() {
            bytes[i]
        } else {
            0x20
        };
        page.set(MESSAGE_OFFSET as usize + i, b);
        i += 1;
    }
}

/// Bytes that one write to the serial console may have.
pub const MAX_WRITE_LEN: u64 = 4096;

/// Bytes that the path of a file to be opened may have.
pub const MAX_PATH_LEN: u64 = 64;

/// Bytes that one transfer from or to an open file may have.
pub const MAX_FD_IO_LEN: u64 = 4096;

/// The registers of a program that made a system call, in the order in which they
/// lie on the stack. The last five were stored by the processor.
#[derive(Clone, Copy)]
pub struct SyscallRegs {
    pub r15: u64,
    pub r14: u64,
    pub r13: u64,
    pub r12: u64,
    pub r11: u64,
    pub r10: u64,
    pub r9: u64,
    pub r8: u64,
    pub rbp: u64,
    pub rdi: u64,
    pub rsi: u64,
    pub rdx: u64,
    pub rcx: u64,
    pub rbx: u64,
    pub rax: u64,
    pub rip: u64,
    pub cs: u64,
    pub rflags: u64,
    pub rsp: u64,
    pub ss: u64,
}

/// A stretch of the caller's memory.
#[derive(Clone, Copy)]
pub struct UserRange {
    pub ptr: u64,
    pub len: u64,
}

/// What a system call leaves to be done.
pub enum SyscallEffect {
    /// Nothing: the caller goes on.
    Resume,
    /// Send these bytes to the serial console.
    Print(Vec<u8>),
    /// Leave ring 3. Where a process was active, load the kernel's page table
    /// first.
    Exit(Option<PageTableSwitch>),
    /// Put these bytes into the caller's memory.
    Fill { ptr: u64, data: Vec<u8> },
    /// Perform these writes. If one fails, the call's status is that of
    /// `store_failed`.
    Store(Vec<SectorWrite>),
    /// Nothing: the caller goes on. The file that was closed could not be stored, for
    /// this reason.
    Refused(String),
}

/// What a system call leaves to be done, as a mathematical value.
pub enum EffectView {
    Resume,
    Print(Seq<u8>),
    Exit(Option<PageTableSwitch>),
    Fill { ptr: u64, data: Seq<u8> },
    Store(Seq<WriteView>),
    Refused(Seq<char>),
}

impl SyscallEffect {
    pub open spec fn view(self) -> EffectView {
        match self {
            SyscallEffect::Resume => EffectView::Resume,
            SyscallEffect::Print(b) => EffectView::Print(b@),
            SyscallEffect::Exit(s) => EffectView::Exit(s),
            SyscallEffect::Fill { ptr, data } => EffectView::Fill { ptr, data: data@ },
            SyscallEffect::Store(w) => EffectView::Store(writes_view(w@)),
            SyscallEffect::Refused(e) => EffectView::Refused(e@),
        }
    }
}

pub open spec fn at_most(len: u64, cap: u64) -> u64 {
    if len > cap {
        cap
    } else {
        len
    }
}

/// The memory of the caller that a system call reads.
pub open spec fn range_read(regs: SyscallRegs, active: u8) -> Option<UserRange> {
    if regs.rax == 0 {
        Some(UserRange { ptr: regs.rdi, len: at_most(regs.rsi, MAX_WRITE_LEN) })
    } else if regs.rax == 3 {
        Some(UserRange { ptr: regs.rdi, len: at_most(regs.rsi, MAX_PATH_LEN) })
    } else if regs.rax == 5 && active != 0 {
        Some(UserRange { ptr: regs.rsi, len: at_most(regs.rdx, MAX_FD_IO_LEN) })
    } else {
        None
    }
}

/// The registers with another result.
pub open spec fn with_rax(regs: SyscallRegs, value: u64) -> SyscallRegs {
    SyscallRegs { rax: value, ..regs }
}

/// What a system call comes to: `Step::Need` where a sector has to be known first.
pub type SyscallView = Step<u32, (SyscallRegs, TableView, EffectView)>;

/// Opening a file: the path is the caller's memory, read as UTF-8.
pub open spec fn syscall_open(
    regs: SyscallRegs,
    t: TableView,
    d: DiskView,
    user: Seq<u8>,
) -> SyscallView {
    if t.active == 0 || !valid_utf8(user) {
        Step::Done((with_rax(regs, u64::MAX), t, EffectView::Resume))
    } else {
        match open_result(t, d, t.active, decode_utf8(user)) {
            Step::Need(l) => Step::Need(l),
            Step::Done((u, Some(fd))) => Step::Done((with_rax(regs, fd), u, EffectView::Resume)),
            Step::Done((u, None)) => Step::Done(
                (with_rax(regs, u64::MAX), u, EffectView::Resume),
            ),
        }
    }
}

/// Reading from an open file.
pub open spec fn syscall_read(regs: SyscallRegs, t: TableView) -> (
    SyscallRegs,
    TableView,
    EffectView,
) {
    let len = at_most(regs.rdx, MAX_FD_IO_LEN) as nat;
    if t.active == 0 {
        (with_rax(regs, u64::MAX), t, EffectView::Resume)
    } else {
        match read_fd_result(t, t.active, regs.rdi, len) {
            (u, Some(data)) => (
                with_rax(regs, data.len() as u64),
                u,
                EffectView::Fill { ptr: regs.rsi, data },
            ),
            (u, None) => (with_rax(regs, u64::MAX), u, EffectView::Resume),
        }
    }
}

/// Writing to an open file.
pub open spec fn syscall_fdwrite(regs: SyscallRegs, t: TableView, user: Seq<u8>) -> (
    SyscallRegs,
    TableView,
    EffectView,
) {
    if t.active == 0 {
        (with_rax(regs, u64::MAX), t, EffectView::Resume)
    } else {
        match write_fd_result(t, t.active, regs.rdi, user) {
            (u, Some(n)) => (with_rax(regs, n as u64), u, EffectView::Resume),
            (u, None) => (with_rax(regs, u64::MAX), u, EffectView::Resume),
        }
    }
}

/// Closing a file: 0 if that went well, 1 if it was not open, 2 if it could not be
/// stored.
pub open spec fn syscall_close(regs: SyscallRegs, t: TableView, d: DiskView) -> SyscallView {
    if t.active == 0 {
        Step::Done((with_rax(regs, u64::MAX), t, EffectView::Resume))
    } else {
        match close_result(t, d, t.active, regs.rdi) {
            Step::Need(l) => Step::Need(l),
            Step::Done((u, ClosingView::NotOpen)) => Step::Done(
                (with_rax(regs, 1), u, EffectView::Resume),
            ),
            Step::Done((u, ClosingView::Clean)) => Step::Done(
                (with_rax(regs, 0), u, EffectView::Resume),
            ),
            Step::Done((u, ClosingView::Persist(w))) => Step::Done(
                (with_rax(regs, 0), u, EffectView::Store(w)),
            ),
            Step::Done((u, ClosingView::Refused(e))) => Step::Done(
                (with_rax(regs, 2), u, EffectView::Refused(e)),
            ),
        }
    }
}

/// What a system call comes to. `user` is the memory of the caller that it reads.
pub open spec fn syscall_result(
    regs: SyscallRegs,
    t: TableView,
    d: DiskView,
    user: Seq<u8>,
) -> SyscallView {
    if regs.rax == 0 {
        Step::Done((regs, t, EffectView::Print(user)))
    } else if regs.rax == 1 {
        if t.active != 0 {
            Step::Done(
                (regs, TableView { active: 0, ..t }, EffectView::Exit(Some(kernel_switch(t)))),
            )
        } else {
            Step::Done((regs, t, EffectView::Exit(None)))
        }
    } else if regs.rax == 2 {
        if t.active != 0 {
            match sbrk_result(t, t.active, regs.rdi) {
                (u, Some(ptr)) => Step::Done((with_rax(regs, ptr), u, EffectView::Resume)),
                (u, None) => Step::Done((with_rax(regs, u64::MAX), u, EffectView::Resume)),
            }
        } else {
            Step::Done((with_rax(regs, u64::MAX), t, EffectView::Resume))
        }
    } else if regs.rax == 3 {
        syscall_open(regs, t, d, user)
    } else if regs.rax == 4 {
        Step::Done(syscall_read(regs, t))
    } else if regs.rax == 5 {
        Step::Done(syscall_fdwrite(regs, t, user))
    } else if regs.rax == 6 {
        syscall_close(regs, t, d)
    } else {
        Step::Done((regs, t, EffectView::Resume))
    }
}

/// The privilege level that the caller ran at, as the processor recorded it.
pub fn hardware_cpl(regs: &SyscallRegs) -> (r: u64)
    ensures
        r == regs.cs % 4,
{
    let cs: u64 = regs.cs;
    assert(cs & 3 == cs % 4) by (bit_vector);
    regs.cs & 3
}

fn capped(len: u64, cap: u64) -> (r: u64)
    ensures
        r == at_most(len, cap),
{
    if len > cap {
        cap
    } else {
        len
    }
}

/// The memory of the caller that has to be read for its system call.
pub fn user_range(regs: &SyscallRegs, active: u8) -> (r: Option<UserRange>)
    ensures
        r == range_read(*regs, active),
{
    if regs.rax == 0 {
        Some(UserRange { ptr: regs.rdi, len: capped(regs.rsi, MAX_WRITE_LEN) })
    } else if regs.rax == 3 {
        Some(UserRange { ptr: regs.rdi, len: capped(regs.rsi, MAX_PATH_LEN) })
    } else if regs.rax == 5 && active != 0 {
        Some(UserRange { ptr: regs.rsi, len: capped(regs.rdx, MAX_FD_IO_LEN) })
    } else {
        None
    }
}

/// Performs a system call. `user` is the memory that `user_range` names.
pub fn syscall_dispatch(
    regs: &mut SyscallRegs,
    table: &mut ProcessTable,
    disk: &SectorCache,
    user: Vec<u8>,
) -> (r: Step<u32, SyscallEffect>)
    requires
        old(table).wf(),
    ensures
        final(table).wf(),
        match r {
            Step::Need(l) => {
                &&& syscall_result(*old(regs), old(table)@, disk@, user@) == SyscallView::Need(l)
                &&& *final(regs) == *old(regs)
                &&& final(table)@ == old(table)@
            },
            Step::Done(effect) => syscall_result(*old(regs), old(table)@, disk@, user@)
                == SyscallView::Done((*final(regs), final(table)@, effect@)),
        },
{
    let active: u8 = table.active;
    match regs.rax {
        0 => Step::Done(SyscallEffect::Print(user)),
        1 => {
            if active != 0 {
                let switch = table.restore_kernel_cr3();
                table.active = 0;
                Step::Done(SyscallEffect::Exit(Some(switch)))
            } else {
                Step::Done(SyscallEffect::Exit(None))
            }
        },
        2 => {
            regs.rax = if active != 0 {
                match table.sbrk(active, regs.rdi) {
                    Some(ptr) => ptr,
                    None => u64::MAX,
                }
            } else {
                u64::MAX
            };
            Step::Done(SyscallEffect::Resume)
        },
        3 => {
            let fd: u64 = if active == 0 {
                u64::MAX
            } else {
                match utf8_text(user.as_slice()) {
                    None => u64::MAX,
                    Some(path) => match table.open_file(disk, active, path) {
                        Step::Need(l) => return Step::Need(l),
                        Step::Done(Some(fd)) => fd,
                        Step::Done(None) => u64::MAX,
                    },
                }
            };
            regs.rax = fd;
            Step::Done(SyscallEffect::Resume)
        },
        4 => {
            let len: u64 = capped(regs.rdx, MAX_FD_IO_LEN);
            if active == 0 {
                regs.rax = u64::MAX;
                return Step::Done(SyscallEffect::Resume);
            }
            match table.read_fd(active, regs.rdi, len as usize) {
                Some(data) => {
                    regs.rax = data.len() as u64;
                    Step::Done(SyscallEffect::Fill { ptr: regs.rsi, data })
                },
                None => {
                    regs.rax = u64::MAX;
                    Step::Done(SyscallEffect::Resume)
                },
            }
        },
        5 => {
            regs.rax = if active == 0 {
                u64::MAX
            } else {
                match table.write_fd(active, regs.rdi, user.as_slice()) {
                    Some(n) => n as u64,
                    None => u64::MAX,
                }
            };
            Step::Done(SyscallEffect::Resume)
        },
        6 => {
            if active == 0 {
                regs.rax = u64::MAX;
                return Step::Done(SyscallEffect::Resume);
            }
            match table.close_fd(disk, active, regs.rdi) {
                Step::Need(l) => Step::Need(l),
                Step::Done(Closing::NotOpen) => {
                    regs.rax = 1;
                    Step::Done(SyscallEffect::Resume)
                },
                Step::Done(Closing::Clean) => {
                    regs.rax = 0;
                    Step::Done(SyscallEffect::Resume)
                },
                Step::Done(Closing::Persist(writes)) => {
                    regs.rax = 0;
                    Step::Done(SyscallEffect::Store(writes))
                },
                Step::Done(Closing::Refused(e)) => {
                    regs.rax = 2;
                    Step::Done(SyscallEffect::Refused(e))
                },
            }
        },
        _ => Step::Done(SyscallEffect::Resume),
    }
}

/// The status of a close whose writes the drive did not take.
pub fn store_failed(regs: &mut SyscallRegs)
    ensures
        *final(regs) == with_rax(*old(regs), 2),
{
    regs.rax = 2;
}

/// The program that runs without a process of its own: it writes its message and
/// exits.
pub open spec fn user_program() -> Seq<u8> {
    seq![
        0x48, 0xBF, 0x80, 0x00, 0x00, 0x50, 0x55, 0x55, 0x00, 0x00, 0xBE, 0x40, 0x00, 0x00, 0x00,
        0xB8, 0x00, 0x00, 0x00, 0x00, 0xCD, 0x80, 0xB8, 0x01, 0x00, 0x00, 0x00, 0xCD, 0x80, 0xEB,
        0xFE,
    ]
}

/// Whether the user pages are mapped, and how often the program was run.
pub struct UserTest {
    pub mapped: bool,
    pub run_count: u64,
}

/// What has to be done before the program can be run for the first time: pages to
/// be mapped each to a free frame, and bytes to be put at the start of the code
/// page and at its message.
pub struct SetupPlan {
    pub code_page: u64,
    pub stack_page: u64,
    pub program: Vec<u8>,
    pub message_addr: u64,
    pub message: Vec<u8>,
}

/// What went wrong while the pages were mapped.
pub enum SetupFailure {
    NoFrame,
    MapFailed,
}

/// How ring 3 is entered.
pub struct Ring3Entry {
    pub rsp: u64,
    pub rip: u64,
    pub cs: u64,
    pub ss: u64,
    pub rflags: u64,
}

/// The registers that ring 3 is entered with: the code's first byte, the stack's
/// end, and interrupts enabled.
pub open spec fn entry_state(cs: u16, ss: u16) -> Ring3Entry {
    Ring3Entry {
        rsp: (USER_STACK_ADDR + USER_STACK_SIZE) as u64,
        rip: USER_CODE_ADDR,
        cs: cs as u64,
        ss: ss as u64,
        rflags: 0x202,
    }
}

/// How ring 3 is entered with these segment selectors.
pub fn enter_ring3_now(user_cs: u16, user_ss: u16) -> (r: Ring3Entry)
    ensures
        r == entry_state(user_cs, user_ss),
{
    Ring3Entry {
        rsp: USER_STACK_ADDR + USER_STACK_SIZE,
        rip: USER_CODE_ADDR,
        cs: user_cs as u64,
        ss: user_ss as u64,
        rflags: 0x202,
    }
}

fn user_program_bytes() -> (r: Vec<u8>)
    ensures
        r@ == user_program(),
{
    let r: Vec<u8> = vec![
        0x48, 0xBF, 0x80, 0x00, 0x00, 0x50, 0x55, 0x55, 0x00, 0x00, 0xBE, 0x40, 0x00, 0x00, 0x00,
        0xB8, 0x00, 0x00, 0x00, 0x00, 0xCD, 0x80, 0xB8, 0x01, 0x00, 0x00, 0x00, 0xCD, 0x80, 0xEB,
        0xFE,
    ];
    assert(r@ == user_program());
    r
}

impl UserTest {
    pub fn new() -> (r: UserTest)
        ensures
            !r.mapped,
            r.run_count == 0,
    {
        UserTest { mapped: false, run_count: 0 }
    }

    /// What has to be done before the first run, unless it was done already.
    pub fn setup(&self) -> (r: Option<SetupPlan>)
        ensures
            match r {
                None => self.mapped,
                Some(p) => {
                    &&& !self.mapped
                    &&& p.code_page == USER_CODE_ADDR
                    &&& p.stack_page == USER_STACK_ADDR
                    &&& p.program@ == user_program()
                    &&& p.message_addr == USER_CODE_ADDR + MESSAGE_OFFSET
                    &&& p.message@ == padded_message(
                        "hello from ring 3, CPL=3 confirmed -- real write() syscall"@,
                    )
                },
            },
    {
        if self.mapped {
            return None;
        }
        let text = "hello from ring 3, CPL=3 confirmed -- real write() syscall";
        let bytes = text.as_bytes();
        let mut message: Vec<u8> = Vec::new();
        while message.len() < MESSAGE_LEN
            invariant
                bytes@ == encode_utf8(text@),
                message@.len() <= MESSAGE_LEN,
                message@ == padded_message(text@).take(message@.len() as int),
            decreases MESSAGE_LEN - message.len(),
        {
            let i: usize = message.len();
            let b: u8 = if i < bytes.len() {
                bytes[i]
            } else {
                0x20
            };
            message.push(b);
        }
        assert(padded_message(text@).take(MESSAGE_LEN as int) == padded_message(text@));
        Some(
            SetupPlan {
                code_page: USER_CODE_ADDR,
                stack_page: USER_STACK_ADDR,
                program: user_program_bytes(),
                message_addr: USER_CODE_ADDR + MESSAGE_OFFSET,
                message,
            },
        )
    }

    /// Takes in how the mapping went.
    pub fn setup_done(&mut self, failure: Option<SetupFailure>) -> (r: Result<(), &'static str>)
        ensures
            final(self).run_count == old(self).run_count,
            match failure {
                None => r is Ok && final(self).mapped,
                Some(SetupFailure::NoFrame) => {
                    &&& r matches Err(e) && e@ == "out of physical frames"@
                    &&& final(self).mapped == old(self).mapped
                },
                Some(SetupFailure::MapFailed) => {
                    &&& r matches Err(e) && e@ == "map_to failed"@
                    &&& final(self).mapped == old(self).mapped
                },
            },
    {
        match failure {
            Some(SetupFailure::NoFrame) => Err("out of physical frames"),
            Some(SetupFailure::MapFailed) => Err("map_to failed"),
            None => {
                self.mapped = true;
                Ok(())
            },
        }
    }

    /// Starts a run of the program: how ring 3 is to be entered.
    pub fn run(&mut self, user_cs: u16, user_ss: u16) -> (r: Result<Ring3Entry, &'static str>)
        ensures
            final(self).mapped == old(self).mapped,
            match r {
                Ok(e) => {
                    &&& old(self).mapped
                    &&& e == entry_state(user_cs, user_ss)
                    &&& final(self).run_count == old(self).run_count.wrapping_add(1)
                },
                Err(e) => {
                    &&& !old(self).mapped
                    &&& e@ == "user test pages not mapped (setup() should have run at boot)"@
                    &&& final(self).run_count == old(self).run_count
                },
            },
    {
        if !self.mapped {
            return Err("user test pages not mapped (setup() should have run at boot)");
        }
        self.run_count = self.run_count.wrapping_add(1);
        Ok(enter_ring3_now(user_cs, user_ss))
    }
}

/// The program points at its own message, with the message's length.
pub proof fn law_user_program_points_at_message()
    ensures
        crate::bytes::le64(user_program(), 2) == USER_CODE_ADDR + MESSAGE_OFFSET,
        crate::bytes::le32(user_program(), 11) == MESSAGE_LEN,
        user_program().len() <= MESSAGE_OFFSET,
{
}

/// A system call changes no register but the one for its result, and leaves every
/// process but the active one as it was.
pub proof fn law_syscall_stays_with_its_process(
    regs: SyscallRegs,
    t: TableView,
    d: DiskView,
    user: Seq<u8>,
    other: u8,
)
    requires
        table_ok(t),
        other != t.active,
    ensures
        syscall_result(regs, t, d, user) matches Step::Done((after, u, _)) ==> after == with_rax(
            regs,
            after.rax,
        ) && process_at(u, other) == process_at(t, other),
{
    if t.active != 0 {
        law_processes_are_apart(
            t,
            d,
            t.active,
            other,
            regs.rdi,
            regs.rdi,
            decode_utf8(user),
            user,
        );
    }
}

/// The result `u64::MAX` tells a refused request for memory, for a file or for a
/// transfer apart from one that was granted.
pub proof fn law_refusals_are_told_apart(
    regs: SyscallRegs,
    t: TableView,
    d: DiskView,
    user: Seq<u8>,
)
    requires
        table_ok(t),
        t.active != 0,
    ensures
        syscall_result(regs, t, d, user) matches Step::Done((after, _, _)) ==> {
            &&& regs.rax == 2 ==> (after.rax == u64::MAX) == (sbrk_result(
                t,
                t.active,
                regs.rdi,
            ).1 is None)
            &&& regs.rax == 3 && valid_utf8(user) ==> (after.rax == u64::MAX) == (open_result(
                t,
                d,
                t.active,
                decode_utf8(user),
            )->Done_0.1 is None)
            &&& regs.rax == 4 || regs.rax == 5 ==> (after.rax == u64::MAX) == (open_file_at(
                t,
                t.active,
                regs.rdi,
            ) is None)
        },
{
    if let Some(p) = process_at(t, t.active) {
        assert(t.procs[t.active - 1] == Some(p));
        lemma_first_where(p.fds.len(), is_free_fd(p.fds));
        if let Some(f) = open_file_at(t, t.active, regs.rdi) {
            assert(p.fds[regs.rdi as int] == Some(f));
            let len = at_most(regs.rdx, MAX_FD_IO_LEN) as nat;
            assert(bytes_read(f, len).len() <= len);
        }
    }
}

/// After the exit call no process is active.
pub proof fn law_exit_leaves_no_process_active(
    regs: SyscallRegs,
    t: TableView,
    d: DiskView,
    user: Seq<u8>,
)
    requires
        regs.rax == 1,
    ensures
        syscall_result(regs, t, d, user) matches Step::Done((_, u, _)) && u.active == 0 && u.procs
            == t.procs,
{
}

/// What a system call puts into its caller's memory fits the buffer that the caller
/// named, and the result says how much it is.
pub proof fn law_fill_fits_the_buffer(regs: SyscallRegs, t: TableView, d: DiskView, user: Seq<u8>)
    requires
        table_ok(t),
    ensures
        syscall_result(regs, t, d, user) matches Step::Done((r, u, EffectView::Fill { ptr, data }))
            ==> ptr == regs.rsi && data.len() <= regs.rdx && data.len() <= MAX_FD_IO_LEN && r.rax
            == data.len(),
{
    if regs.rax == 4 && t.active != 0 {
        let len = at_most(regs.rdx, MAX_FD_IO_LEN) as nat;
        if let Some(f) = open_file_at(t, t.active, regs.rdi) {
            let p = process_at(t, t.active)->0;
            assert(t.procs[t.active - 1] == Some(p));
            assert(p.fds[regs.rdi as int] == Some(f));
            assert(bytes_read(f, len).len() <= len);
        }
    }
}

/// User code starts at the first byte of its page, with the stack empty at the end of its
/// page, in the segments that it is given, and with interrupts enabled.
pub proof fn law_user_code_starts_at_its_page(cs: u16, ss: u16)
    ensures
        entry_state(cs, ss) == (Ring3Entry {
            rsp: 0x5555_6000_1000,
            rip: 0x5555_5000_0000,
            cs: cs as u64,
            ss: ss as u64,
            rflags: 0x202,
        }),
{
}

/// A message takes 64 bytes: its own first, and blanks behind them.
pub proof fn law_message_is_filled_with_blanks(message: Seq<char>, i: int)
    requires
        0 <= i < 64,
    ensures
        padded_message(message).len() == 64,
        padded_message(message)[i] == (if i < encode_utf8(message).len() {
            encode_utf8(message)[i]
        } else {
            0x20
        }),
{
}

} // verus!
