//! What processes can rely on: separate heaps and descriptors, and files that
//! keep what was written to them.

use crate::disk::{apply_writes, DiskView, WriteView};
use crate::fs::{file_contents, write_plan, PlanView, MAX_FILE_BYTES};
use crate::fs_laws::{law_read_gives_back_write, well_formed};
use crate::process::{
    accepted, bytes_read, close_result, file_read, file_written, is_free_fd, open_file_at,
    open_result, opened, process_at, read_fd_result, sbrk_result, table_ok, with_fd, with_process,
    write_fd_result, ClosingView, OpenFileView, ProcessView, TableView, HEAP_SIZE, HEAP_START,
};
use crate::search::lemma_first_where;
use crate::step::Step;
use vstd::prelude::*;

verus! {

/// Two regions of heap that a process gets one after the other do not overlap, and
/// lie within its heap.
pub proof fn law_heap_regions_are_apart(t: TableView, id: u8, a: u64, b: u64)
    requires
        table_ok(t),
        sbrk_result(t, id, a).1 is Some,
        sbrk_result(sbrk_result(t, id, a).0, id, b).1 is Some,
    ensures
        ({
            let p = sbrk_result(t, id, a).1->0;
            let q = sbrk_result(sbrk_result(t, id, a).0, id, b).1->0;
            HEAP_START <= p && p + a == q && q + b <= HEAP_START + HEAP_SIZE
        }),
{
}

/// What one process does with its heap and its descriptors leaves every other
/// process as it was.
pub proof fn law_processes_are_apart(
    t: TableView,
    d: DiskView,
    id: u8,
    other: u8,
    fd: u64,
    size: u64,
    path: Seq<char>,
    data: Seq<u8>,
)
    requires
        table_ok(t),
        id != other,
    ensures
        process_at(sbrk_result(t, id, size).0, other) == process_at(t, other),
        open_result(t, d, id, path) matches Step::Done((u, _)) ==> process_at(u, other)
            == process_at(t, other),
        process_at(read_fd_result(t, id, fd, size as nat).0, other) == process_at(t, other),
        process_at(write_fd_result(t, id, fd, data).0, other) == process_at(t, other),
        close_result(t, d, id, fd) matches Step::Done((u, _)) ==> process_at(u, other)
            == process_at(t, other),
{
}

/// Reading moves the position and changes nothing else, and two reads in a row give
/// what one longer read gives.
pub proof fn law_reads_run_on(f: OpenFileView, a: nat, b: nat)
    requires
        0 <= f.pos <= f.buffer.len(),
    ensures
        bytes_read(f, a) + bytes_read(file_read(f, a), b) == bytes_read(f, a + b),
        file_read(file_read(f, a), b) == file_read(f, a + b),
        file_read(f, a) == (OpenFileView { pos: f.pos + bytes_read(f, a).len(), ..f }),
{
    let g = file_read(f, a);
    assert(bytes_read(f, a) + bytes_read(g, b) == bytes_read(f, a + b));
}

/// A read gives the bytes from the position on, as many as were asked for or as there
/// are left, and moves the position past them. It gives nothing only where nothing was
/// asked for or the position is at the end.
pub proof fn law_read_gives_what_is_left(f: OpenFileView, len: nat)
    requires
        0 <= f.pos <= f.buffer.len(),
    ensures
        ({
            let left = f.buffer.len() - f.pos;
            let data = bytes_read(f, len);
            &&& data.len() == (if len <= left {
                len as int
            } else {
                left
            })
            &&& forall|i: int| 0 <= i < data.len() ==> #[trigger] data[i] == f.buffer[f.pos + i]
            &&& file_read(f, len).pos == f.pos + data.len()
            &&& file_read(f, len).buffer == f.buffer
            &&& file_read(f, len).path == f.path
            &&& file_read(f, len).dirty == f.dirty
            &&& data.len() == 0 ==> len == 0 || f.pos == f.buffer.len()
            &&& f.pos == 0 && len >= f.buffer.len() ==> data == f.buffer
        }),
{
    if f.pos == 0 && len >= f.buffer.len() {
        assert(bytes_read(f, len) == f.buffer);
    }
}

/// Reading by a descriptor gives the bytes of the file that is open under it, from its
/// position on, and moves that position alone.
pub proof fn law_descriptor_reads_its_file(
    t: TableView,
    id: u8,
    fd: u64,
    len: nat,
    other: u64,
)
    requires
        table_ok(t),
    ensures
        match (open_file_at(t, id, fd), read_fd_result(t, id, fd, len)) {
            (Some(f), (u, Some(data))) => {
                let left = f.buffer.len() - f.pos;
                &&& data.len() == (if len <= left {
                    len as int
                } else {
                    left
                })
                &&& forall|i: int| 0 <= i < data.len() ==> #[trigger] data[i] == f.buffer[f.pos + i]
                &&& open_file_at(u, id, fd) == Some(OpenFileView { pos: f.pos + data.len(), ..f })
                &&& other != fd ==> open_file_at(u, id, other) == open_file_at(t, id, other)
            },
            (None, (u, None)) => u == t,
            _ => false,
        },
{
    if let Some(f) = open_file_at(t, id, fd) {
        let p = process_at(t, id)->0;
        assert(t.procs[id - 1] == Some(p));
        assert(p.fds[fd as int] == Some(f));
        law_read_gives_what_is_left(f, len);
    }
}

/// A file that was just opened reads back whole.
pub proof fn law_opened_file_reads_whole(
    t: TableView,
    d: DiskView,
    id: u8,
    path: Seq<char>,
    data: Seq<u8>,
    len: nat,
)
    requires
        table_ok(t),
        file_contents(d, path) == Step::<u32, Result<Seq<u8>, Seq<char>>>::Done(Ok(data)),
        len >= data.len(),
    ensures
        open_result(t, d, id, path) matches Step::Done((u, r)) && (r matches Some(fd)
            ==> read_fd_result(u, id, fd, len).1 == Some(data)),
{
    let (u, r) = opened(t, id, path, data);
    if let Some(p) = process_at(t, id) {
        assert(t.procs[id - 1] == Some(p));
        lemma_first_where(p.fds.len(), is_free_fd(p.fds));
        if let Some(fd) = r {
            let f = open_file_at(u, id, fd)->0;
            assert(f.pos == 0 && f.buffer == data);
            law_read_gives_what_is_left(f, len);
        }
    }
}

/// Opening takes the least free descriptor of the process, with the given contents, from
/// their start and unchanged so far. It fails only where the process is not there or has
/// no descriptor left.
pub proof fn law_open_takes_the_first_descriptor(
    t: TableView,
    id: u8,
    path: Seq<char>,
    buffer: Seq<u8>,
    other: u64,
)
    requires
        table_ok(t),
    ensures
        ({
            let (u, r) = opened(t, id, path, buffer);
            match r {
                Some(fd) => {
                    &&& fd < 4
                    &&& open_file_at(t, id, fd) is None
                    &&& forall|j: u64| j < fd ==> (#[trigger] open_file_at(t, id, j)) is Some
                    &&& open_file_at(u, id, fd) == Some(
                        OpenFileView { path, buffer, pos: 0, dirty: false },
                    )
                    &&& other != fd ==> open_file_at(u, id, other) == open_file_at(t, id, other)
                },
                None => process_at(t, id) is None || forall|j: u64|
                    j < 4 ==> (#[trigger] open_file_at(t, id, j)) is Some,
            }
        }),
{
    let (u, r) = opened(t, id, path, buffer);
    if let Some(p) = process_at(t, id) {
        assert(t.procs[id - 1] == Some(p));
        lemma_first_where(p.fds.len(), is_free_fd(p.fds));
        match r {
            Some(fd) => {
                assert(is_free_fd(p.fds)(fd as int));
                assert forall|j: u64| j < fd implies (#[trigger] open_file_at(t, id, j)) is Some by {
                    assert(!is_free_fd(p.fds)(j as int));
                }
            },
            None => {
                assert forall|j: u64| j < 4 implies (#[trigger] open_file_at(t, id, j)) is Some by {
                    assert(!is_free_fd(p.fds)(j as int));
                }
            },
        }
    }
}

/// Only the two processes with a heap of their own get memory. They get it as long as
/// all that was asked for fits in the heap, right behind what they got before.
pub proof fn law_heap_grows_to_its_end(t: TableView, id: u8, size: u64)
    requires
        table_ok(t),
    ensures
        ({
            let (u, r) = sbrk_result(t, id, size);
            match process_at(t, id) {
                Some(p) => {
                    &&& r is Some <==> (id == 1 || id == 2) && p.heap_used + size <= 0x4000
                    &&& r matches Some(ptr) ==> ptr == 0x5555_7000_0000 + p.heap_used
                        && process_at(u, id) == Some(
                        ProcessView { heap_used: (p.heap_used + size) as u64, ..p },
                    )
                    &&& r is None ==> u == t
                },
                None => r is None && u == t,
            }
        }),
{
}

/// A write puts the accepted bytes at the position and leaves all other bytes as
/// they were. Everything is accepted that keeps the file within its limit.
pub proof fn law_write_fills_in(f: OpenFileView, data: Seq<u8>)
    requires
        0 <= f.pos <= f.buffer.len(),
    ensures
        ({
            let g = file_written(f, data);
            let n = accepted(f.pos, data.len());
            &&& n <= data.len()
            &&& f.pos + data.len() <= MAX_FILE_BYTES ==> n == data.len()
            &&& f.pos <= 4096 < f.pos + data.len() ==> n == 4096 - f.pos
            &&& f.pos > 4096 ==> n == 0
            &&& g.path == f.path
            &&& g.buffer.len() == (if f.pos + n > f.buffer.len() {
                f.pos + n
            } else {
                f.buffer.len() as int
            })
            &&& g.pos == f.pos + n
            &&& g.dirty == (f.dirty || n > 0)
            &&& n == 0 ==> g == f
            &&& g.pos <= g.buffer.len()
            &&& g.buffer.subrange(f.pos, f.pos + n) == data.take(n as int)
            &&& forall|i: int|
                0 <= i < f.buffer.len() && !(f.pos <= i < f.pos + n) ==> #[trigger] g.buffer[i]
                    == f.buffer[i]
            &&& f.buffer.len() <= MAX_FILE_BYTES ==> g.buffer.len() <= MAX_FILE_BYTES
        }),
{
    let g = file_written(f, data);
    let n = accepted(f.pos, data.len());
    assert(g.buffer.subrange(f.pos, f.pos + n) == data.take(n as int));
    if n == 0 {
        assert(g.buffer == f.buffer);
    }
}

/// A descriptor that was closed is no longer open, and can be taken again.
pub proof fn law_closed_descriptor_is_free(t: TableView, d: DiskView, id: u8, fd: u64)
    requires
        table_ok(t),
        open_file_at(t, id, fd) is Some,
        close_result(t, d, id, fd) is Done,
    ensures
        ({
            let u = (close_result(t, d, id, fd)->Done_0).0;
            &&& open_file_at(u, id, fd) is None
            &&& close_result(u, d, id, fd) == Step::<u32, (TableView, ClosingView)>::Done(
                (u, ClosingView::NotOpen),
            )
            &&& forall|path: Seq<char>, buffer: Seq<u8>|
                (#[trigger] opened(u, id, path, buffer)).1 is Some
        }),
{
    let u = (close_result(t, d, id, fd)->Done_0).0;
    let p = process_at(u, id)->0;
    assert(is_free_fd(p.fds)(fd as int));
    lemma_first_where(p.fds.len(), is_free_fd(p.fds));
    assert(close_result(u, d, id, fd)->Done_0.0 == u);
}

/// A descriptor that was opened and not written to is closed without touching the
/// drive.
pub proof fn law_reading_stores_nothing(
    t: TableView,
    d: DiskView,
    id: u8,
    path: Seq<char>,
    buffer: Seq<u8>,
    len: nat,
)
    requires
        table_ok(t),
        opened(t, id, path, buffer).1 is Some,
    ensures
        ({
            let (u, fd) = opened(t, id, path, buffer);
            let v = read_fd_result(u, id, fd->0, len).0;
            close_result(v, d, id, fd->0) matches Step::Done((w, c)) && c == ClosingView::Clean
        }),
{
    let p = process_at(t, id)->0;
    lemma_first_where(p.fds.len(), is_free_fd(p.fds));
}

/// A write that accepts no byte leaves everything as it was, so that a file to which
/// nothing else was written is closed without touching the drive.
pub proof fn law_empty_write_stores_nothing(
    t: TableView,
    d: DiskView,
    id: u8,
    path: Seq<char>,
    buffer: Seq<u8>,
    data: Seq<u8>,
)
    requires
        table_ok(t),
        opened(t, id, path, buffer).1 is Some,
        ({
            let (u, fd) = opened(t, id, path, buffer);
            write_fd_result(u, id, fd->0, data).1 == Some(0nat)
        }),
    ensures
        ({
            let (u, fd) = opened(t, id, path, buffer);
            let v = write_fd_result(u, id, fd->0, data).0;
            &&& v == u
            &&& close_result(v, d, id, fd->0) matches Step::Done((w, c)) && c
                == ClosingView::Clean
        }),
{
    let p = process_at(t, id)->0;
    lemma_first_where(p.fds.len(), is_free_fd(p.fds));
    let (u, fd) = opened(t, id, path, buffer);
    let f = open_file_at(u, id, fd->0)->0;
    law_write_fills_in(f, data);
    let q = process_at(u, id)->0;
    assert(with_fd(q, fd->0, Some(f)) == q);
    assert(with_process(u, id, q) == u);
}

/// What was in a written file's buffer when it was closed is what a later open of
/// its path finds, once the writes were performed.
pub proof fn law_closed_file_reopens_alike(
    t: TableView,
    d: DiskView,
    id: u8,
    fd: u64,
    u: TableView,
    w: Seq<WriteView>,
    other: u8,
)
    requires
        table_ok(t),
        well_formed(d),
        close_result(t, d, id, fd) == Step::<u32, (TableView, ClosingView)>::Done(
            (u, ClosingView::Persist(w)),
        ),
    ensures
        open_file_at(t, id, fd) matches Some(f) && open_result(
            u,
            apply_writes(d, w),
            other,
            f.path,
        ) == Step::<u32, (TableView, Option<u64>)>::Done(opened(u, other, f.path, f.buffer)),
{
    let f = open_file_at(t, id, fd)->0;
    assert(write_plan(d, f.path, f.buffer) == PlanView::Done(Ok(w)));
    law_read_gives_back_write(d, f.path, f.buffer, w);
}

/// Processes are numbered from one on, and every slot of the table has its number.
pub proof fn law_every_process_has_its_number(t: TableView, id: u8)
    requires
        table_ok(t),
    ensures
        t.procs.len() == 4,
        process_at(t, id) == (if 1 <= id <= 4 {
            t.procs[id - 1]
        } else {
            None
        }),
{
}

/// A process that is put into the table has its number; the others keep theirs, and what
/// runs stays what it was.
pub proof fn law_installed_process_has_its_number(t: TableView, id: u8, p: ProcessView, other: u8)
    requires
        table_ok(t),
        1 <= id <= 4,
    ensures
        process_at(with_process(t, id, p), id) == Some(p),
        other != id ==> process_at(with_process(t, id, p), other) == process_at(t, other),
        with_process(t, id, p).active == t.active,
        with_process(t, id, p).kernel_pml4_frame == t.kernel_pml4_frame,
        with_process(t, id, p).kernel_cr3_flags == t.kernel_cr3_flags,
{
}

} // verus!
