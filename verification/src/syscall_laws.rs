//! What a program in ring 3 can rely on: what each system call does, by its registers.

use crate::disk::DiskView;
use crate::fs::{file_contents, write_plan, PlanView};
use crate::process::{
    is_free_fd, open_file_at, opened, process_at, run_loaded_result, run_result, table_ok,
    with_process, write_fd_result, OpenFileView, ProcessView, TableView,
};
use crate::process_laws::{
    law_descriptor_reads_its_file, law_heap_grows_to_its_end, law_open_takes_the_first_descriptor,
    law_write_fills_in,
};
use crate::search::lemma_first_where;
use crate::step::Step;
use crate::usertest::{range_read, syscall_result, with_rax, EffectView, SyscallRegs};
use vstd::prelude::*;
use vstd::utf8::{decode_utf8, valid_utf8};

verus! {

/// The caller's memory that a call reads: the bytes to print at the address in `rdi`,
/// the path there, or the bytes for a file at the address in `rsi`. A console write or
/// a file write has at most 4096 bytes, a path 64.
pub proof fn law_calls_read_their_buffers(regs: SyscallRegs, active: u8)
    ensures
        regs.rax == 0 ==> (range_read(regs, active) matches Some(u) && u.ptr == regs.rdi && u.len
            == (if regs.rsi <= 4096 {
            regs.rsi
        } else {
            4096
        })),
        regs.rax == 3 ==> (range_read(regs, active) matches Some(u) && u.ptr == regs.rdi && u.len
            == (if regs.rsi <= 64 {
            regs.rsi
        } else {
            64
        })),
        regs.rax == 5 && active != 0 ==> (range_read(regs, active) matches Some(u) && u.ptr
            == regs.rsi && u.len == (if regs.rdx <= 4096 {
            regs.rdx
        } else {
            4096
        })),
        regs.rax != 0 && regs.rax != 3 && !(regs.rax == 5 && active != 0) ==> range_read(
            regs,
            active,
        ) is None,
{
}

/// Call 0 prints every byte that was read and changes nothing else.
pub proof fn law_write_call_prints(regs: SyscallRegs, t: TableView, d: DiskView, user: Seq<u8>)
    requires
        regs.rax == 0,
    ensures
        syscall_result(regs, t, d, user) matches Step::Done((after, u, e)) && after == regs && u
            == t && e == EffectView::Print(user),
{
}

/// Call 1 leaves ring 3. A process that ends hands the processor back to the kernel's
/// own page table.
pub proof fn law_exit_call_leaves(regs: SyscallRegs, t: TableView, d: DiskView, user: Seq<u8>)
    requires
        regs.rax == 1,
    ensures
        syscall_result(regs, t, d, user) matches Step::Done((_, u, e)) && {
            &&& u.active == 0
            &&& u.procs == t.procs
            &&& u.kernel_pml4_frame == t.kernel_pml4_frame
            &&& t.active != 0 ==> (e matches EffectView::Exit(Some(s)) && s.frame
                == t.kernel_pml4_frame && s.flags == t.kernel_cr3_flags & 0x18)
            &&& t.active == 0 ==> e == EffectView::Exit(None)
        },
{
}

/// Call 2 gives the end of what the process had of its heap, and moves that end by the
/// size in `rdi`.
pub proof fn law_sbrk_call_grows_the_heap(
    regs: SyscallRegs,
    t: TableView,
    d: DiskView,
    user: Seq<u8>,
)
    requires
        table_ok(t),
        regs.rax == 2,
    ensures
        syscall_result(regs, t, d, user) matches Step::Done((after, u, e)) && {
            &&& e == EffectView::Resume
            &&& after == with_rax(regs, after.rax)
            &&& match process_at(t, t.active) {
                Some(p) => if t.active <= 2 && p.heap_used + regs.rdi <= 0x4000 {
                    after.rax == 0x5555_7000_0000 + p.heap_used && process_at(u, t.active) == Some(
                        ProcessView { heap_used: (p.heap_used + regs.rdi) as u64, ..p },
                    )
                } else {
                    after.rax == u64::MAX && u == t
                },
                None => after.rax == u64::MAX && u == t,
            }
        },
{
    law_heap_grows_to_its_end(t, t.active, regs.rdi);
}

/// Call 3 opens the file at the path that was read: under the least free descriptor,
/// from its start, with what the drive has of it, or empty where there is no such file.
pub proof fn law_open_call_opens(
    regs: SyscallRegs,
    t: TableView,
    d: DiskView,
    user: Seq<u8>,
    data: Result<Seq<u8>, Seq<char>>,
)
    requires
        table_ok(t),
        regs.rax == 3,
        valid_utf8(user),
        process_at(t, t.active) is Some,
        file_contents(d, decode_utf8(user)) == Step::<u32, Result<Seq<u8>, Seq<char>>>::Done(data),
    ensures
        syscall_result(regs, t, d, user) matches Step::Done((after, u, e)) && {
            let fd = after.rax;
            &&& e == EffectView::Resume
            &&& after == with_rax(regs, fd)
            &&& (forall|j: u64| j < 4 ==> (#[trigger] open_file_at(t, t.active, j)) is Some)
                ==> fd == u64::MAX
            &&& (exists|j: u64| j < 4 && (#[trigger] open_file_at(t, t.active, j)) is None) ==> {
                &&& fd < 4
                &&& open_file_at(t, t.active, fd) is None
                &&& forall|j: u64| j < fd ==> (#[trigger] open_file_at(t, t.active, j)) is Some
                &&& open_file_at(u, t.active, fd) == Some(
                    OpenFileView {
                        path: decode_utf8(user),
                        buffer: match data {
                            Ok(bytes) => bytes,
                            Err(_) => Seq::empty(),
                        },
                        pos: 0,
                        dirty: false,
                    },
                )
            }
        },
{
    let path = decode_utf8(user);
    let buffer = match data {
        Ok(bytes) => bytes,
        Err(_) => Seq::empty(),
    };
    law_open_takes_the_first_descriptor(t, t.active, path, buffer, 0);
    let p = process_at(t, t.active)->0;
    assert(t.procs[t.active - 1] == Some(p));
    lemma_first_where(p.fds.len(), is_free_fd(p.fds));
    if exists|j: u64| j < 4 && (#[trigger] open_file_at(t, t.active, j)) is None {
        let j = choose|j: u64| j < 4 && (#[trigger] open_file_at(t, t.active, j)) is None;
        assert(is_free_fd(p.fds)(j as int));
    }
    if opened(t, t.active, path, buffer).1 is Some {
        let fd = opened(t, t.active, path, buffer).1->0;
        assert(open_file_at(t, t.active, fd) is None);
    }
}

/// Call 4 puts the bytes of an open file from its position on at the address in `rsi`:
/// as many as `rdx` asks for, but at most 4096 and no more than are left. It gives their
/// number and moves the position past them.
pub proof fn law_read_call_reads(regs: SyscallRegs, t: TableView, d: DiskView, user: Seq<u8>)
    requires
        table_ok(t),
        t.active != 0,
        regs.rax == 4,
    ensures
        syscall_result(regs, t, d, user) matches Step::Done((after, u, e)) && {
            &&& after == with_rax(regs, after.rax)
            &&& match open_file_at(t, t.active, regs.rdi) {
                Some(f) => e matches EffectView::Fill { ptr, data } && {
                    let asked = if regs.rdx <= 4096 {
                        regs.rdx as int
                    } else {
                        4096
                    };
                    let left = f.buffer.len() - f.pos;
                    &&& ptr == regs.rsi
                    &&& after.rax == data.len()
                    &&& data.len() == (if asked <= left {
                        asked
                    } else {
                        left
                    })
                    &&& forall|i: int|
                        0 <= i < data.len() ==> #[trigger] data[i] == f.buffer[f.pos + i]
                    &&& open_file_at(u, t.active, regs.rdi) == Some(
                        OpenFileView { pos: f.pos + data.len(), ..f },
                    )
                },
                None => after.rax == u64::MAX && u == t && e == EffectView::Resume,
            }
        },
{
    let len = if regs.rdx <= 4096 {
        regs.rdx as nat
    } else {
        4096
    };
    law_descriptor_reads_its_file(t, t.active, regs.rdi, len, 0);
}

/// Call 5 writes the bytes that were read into an open file, from its position on and
/// as far as the file stays within 4096 bytes. It gives how many it took.
pub proof fn law_fdwrite_call_writes(regs: SyscallRegs, t: TableView, d: DiskView, user: Seq<u8>)
    requires
        table_ok(t),
        t.active != 0,
        regs.rax == 5,
        user.len() <= 4096,
    ensures
        syscall_result(regs, t, d, user) matches Step::Done((after, u, e)) && {
            &&& e == EffectView::Resume
            &&& after == with_rax(regs, after.rax)
            &&& match open_file_at(t, t.active, regs.rdi) {
                Some(f) => open_file_at(u, t.active, regs.rdi) matches Some(g) && {
                    let n = after.rax;
                    &&& f.pos + user.len() <= 4096 ==> n == user.len()
                    &&& f.pos <= 4096 < f.pos + user.len() ==> n == 4096 - f.pos
                    &&& f.pos > 4096 ==> n == 0
                    &&& g.path == f.path
                    &&& g.pos == f.pos + n
                    &&& g.dirty == (f.dirty || n > 0)
                    &&& g.buffer.len() == (if f.pos + n > f.buffer.len() {
                        f.pos + n
                    } else {
                        f.buffer.len() as int
                    })
                    &&& forall|i: int|
                        0 <= i < g.buffer.len() ==> #[trigger] g.buffer[i] == (if f.pos <= i < f.pos
                            + n {
                            user[i - f.pos]
                        } else {
                            f.buffer[i]
                        })
                },
                None => after.rax == u64::MAX && u == t,
            }
        },
{
    if let Some(f) = open_file_at(t, t.active, regs.rdi) {
        let p = process_at(t, t.active)->0;
        assert(t.procs[t.active - 1] == Some(p));
        assert(p.fds[regs.rdi as int] == Some(f));
        law_write_fills_in(f, user);
        let u = write_fd_result(t, t.active, regs.rdi, user).0;
        let g = open_file_at(u, t.active, regs.rdi)->0;
        let n = write_fd_result(t, t.active, regs.rdi, user).1->0;
        assert forall|i: int| 0 <= i < g.buffer.len() implies #[trigger] g.buffer[i] == (if f.pos
            <= i < f.pos + n {
            user[i - f.pos]
        } else {
            f.buffer[i]
        }) by {
            if f.pos <= i < f.pos + n {
                assert(g.buffer.subrange(f.pos, f.pos + n)[i - f.pos] == user.take(n as int)[i
                    - f.pos]);
            }
        }
    }
}

/// Call 6 closes an open file. A file that was changed is handed to the file system,
/// whole and under its path; one that was not is left alone.
pub proof fn law_close_call_closes(regs: SyscallRegs, t: TableView, d: DiskView, user: Seq<u8>)
    requires
        table_ok(t),
        t.active != 0,
        regs.rax == 6,
    ensures
        match open_file_at(t, t.active, regs.rdi) {
            None => syscall_result(regs, t, d, user) matches Step::Done((after, u, e)) && after
                == with_rax(regs, 1) && u == t && e == EffectView::Resume,
            Some(f) => match syscall_result(regs, t, d, user) {
                Step::Done((after, u, e)) => {
                    &&& after == with_rax(regs, after.rax)
                    &&& open_file_at(u, t.active, regs.rdi) is None
                    &&& !f.dirty ==> after.rax == 0 && e == EffectView::Resume
                    &&& f.dirty ==> match write_plan(d, f.path, f.buffer) {
                        Step::Done(Ok(w)) => after.rax == 0 && e == EffectView::Store(w),
                        Step::Done(Err(x)) => after.rax == 2 && e == EffectView::Refused(x),
                        Step::Need(_) => false,
                    }
                },
                Step::Need(l) => f.dirty && write_plan(d, f.path, f.buffer) == PlanView::Need(l),
            },
        },
{
    if let Some(p) = process_at(t, t.active) {
        assert(t.procs[t.active - 1] == Some(p));
        if open_file_at(t, t.active, regs.rdi) is None {
            assert(with_process(t, t.active, p) == t);
        }
    }
}

/// Without a process the calls on files and memory give `u64::MAX` and do nothing; an
/// unknown call does nothing at all.
pub proof fn law_calls_without_a_process(
    regs: SyscallRegs,
    t: TableView,
    d: DiskView,
    user: Seq<u8>,
)
    ensures
        t.active == 0 && 2 <= regs.rax <= 6 ==> (syscall_result(regs, t, d, user) matches Step::Done(
            (after, u, e),
        ) && after == with_rax(regs, u64::MAX) && u == t && e == EffectView::Resume),
        regs.rax > 6 ==> (syscall_result(regs, t, d, user) matches Step::Done((after, u, e))
            && after == regs && u == t && e == EffectView::Resume),
        regs.rax == 3 && !valid_utf8(user) ==> (syscall_result(regs, t, d, user) matches Step::Done(
            (after, u, e),
        ) && after == with_rax(regs, u64::MAX) && u == t && e == EffectView::Resume),
{
}

/// A process that is run becomes the active one, and its own page table is the one to
/// be loaded. The boot processes are run by their ids 1, 2 and 4, the loaded one by a
/// function of its own.
pub proof fn law_run_loads_the_processes_table(t: TableView, id: u8)
    ensures
        run_result(t, id) is Ok <==> (id == 1 || id == 2 || id == 4) && process_at(t, id) is Some,
        run_result(t, id) matches Ok((u, s)) ==> u.active == id && u.procs == t.procs && s.frame
            == process_at(t, id)->0.pml4_frame && s.flags == t.kernel_cr3_flags & 0x18,
        run_loaded_result(t) is Ok <==> process_at(t, 3) is Some,
        run_loaded_result(t) matches Ok((u, s)) ==> u.active == 3 && u.procs == t.procs && s.frame
            == process_at(t, 3)->0.pml4_frame && s.flags == t.kernel_cr3_flags & 0x18,
{
}

/// No call changes which page table the kernel returns to, and none but an exit changes
/// which process runs.
pub proof fn law_calls_keep_the_kernels_table(
    regs: SyscallRegs,
    t: TableView,
    d: DiskView,
    user: Seq<u8>,
)
    requires
        table_ok(t),
    ensures
        syscall_result(regs, t, d, user) matches Step::Done((_, u, _)) ==> {
            &&& u.kernel_pml4_frame == t.kernel_pml4_frame
            &&& u.kernel_cr3_flags == t.kernel_cr3_flags
            &&& regs.rax != 1 ==> u.active == t.active
            &&& u.procs.len() == t.procs.len()
        },
{
}

} // verus!
