//! Processes: their address spaces, heaps and open files.

use crate::disk::{DiskView, SectorCache, SectorWrite, WriteView};
use crate::fs;
use crate::fs::{file_contents, write_plan, MAX_FILE_BYTES};
use crate::search::{first_where, lemma_first_where_is};
use crate::step::Step;
use crate::text::owned;
use vstd::prelude::*;

verus! {

pub const PAGE_SIZE: usize = 4096;

/// Bytes of code that a flat program image may have: one page.
pub const MAX_CODE_IMAGE_BYTES: usize = 4096;

/// Where every process sees its heap.
pub const HEAP_START: u64 = 0x5555_7000_0000;

/// Pages of a process's heap, all mapped when the process is created.
pub const HEAP_PAGE_COUNT: u64 = 4;

/// Bytes of a process's heap.
pub const HEAP_SIZE: u64 = 0x4000;

/// Files that one process may have open at a time.
pub const MAX_OPEN_FILES: usize = 4;

/// The process that was loaded from a file last.
pub const LOADED_PROCESS_ID: u8 = 3;

/// The process that exercises file descriptors.
pub const FDTEST_PROCESS_ID: u8 = 4;

/// Processes that there can be, with the ids from 1 on.
pub const PROCESS_COUNT: usize = 4;

/// A file that a process has open. Its contents are buffered as a whole when it
/// is opened, and stored when it is closed.
pub struct OpenFile {
    pub path: String,
    pub buffer: Vec<u8>,
    pub pos: usize,
    pub dirty: bool,
}

/// An open file as a mathematical value.
#[verifier::ext_equal]
pub struct OpenFileView {
    pub path: Seq<char>,
    pub buffer: Seq<u8>,
    pub pos: int,
    pub dirty: bool,
}

impl OpenFile {
    pub open spec fn view(self) -> OpenFileView {
        OpenFileView {
            path: self.path@,
            buffer: self.buffer@,
            pos: self.pos as int,
            dirty: self.dirty,
        }
    }
}

/// A process: the frames of its address space by their physical addresses, the
/// part of its heap that was handed out, and its open files.
pub struct Process {
    pub label: &'static str,
    pub pml4_frame: u64,
    pub code_frame: u64,
    pub stack_frame: u64,
    pub heap_frames: Vec<u64>,
    pub heap_used: u64,
    pub fds: Vec<Option<OpenFile>>,
    pub extra_frames: Vec<u64>,
}

/// A process as a mathematical value.
#[verifier::ext_equal]
pub struct ProcessView {
    pub label: Seq<char>,
    pub pml4_frame: u64,
    pub code_frame: u64,
    pub stack_frame: u64,
    pub heap_frames: Seq<u64>,
    pub heap_used: u64,
    pub fds: Seq<Option<OpenFileView>>,
    pub extra_frames: Seq<u64>,
}

pub open spec fn fd_view(f: Option<OpenFile>) -> Option<OpenFileView> {
    match f {
        Some(x) => Some(x@),
        None => None,
    }
}

pub open spec fn fds_view(fds: Seq<Option<OpenFile>>) -> Seq<Option<OpenFileView>> {
    Seq::new(fds.len(), |i: int| fd_view(fds[i]))
}

impl Process {
    pub open spec fn view(self) -> ProcessView {
        ProcessView {
            label: self.label@,
            pml4_frame: self.pml4_frame,
            code_frame: self.code_frame,
            stack_frame: self.stack_frame,
            heap_frames: self.heap_frames@,
            heap_used: self.heap_used,
            fds: fds_view(self.fds@),
            extra_frames: self.extra_frames@,
        }
    }
}

impl OpenFile {
    /// Reads up to `len` bytes from the position on, and moves the position.
    fn read(&mut self, len: usize) -> (r: Vec<u8>)
        requires
            old(self).pos <= old(self).buffer@.len(),
        ensures
            final(self)@ == file_read(old(self)@, len as nat),
            r@ == bytes_read(old(self)@, len as nat),
            final(self).pos <= final(self).buffer@.len(),
    {
        let ghost before = self@;
        let start: usize = self.pos;
        let end: usize = if len <= self.buffer.len() - start {
            start + len
        } else {
            self.buffer.len()
        };
        let mut out: Vec<u8> = Vec::new();
        let mut i: usize = start;
        while i < end
            invariant
                start <= i <= end <= self.buffer@.len(),
                self@ == before,
                out@ == self.buffer@.subrange(start as int, i as int),
            decreases end - i,
        {
            out.push(self.buffer[i]);
            i += 1;
        }
        self.pos = end;
        out
    }

    /// Writes from the position on, as far as the file may grow, and moves the
    /// position.
    fn write(&mut self, data: &[u8]) -> (n: usize)
        requires
            old(self).pos <= old(self).buffer@.len(),
        ensures
            final(self)@ == file_written(old(self)@, data@),
            n == accepted(old(self)@.pos, data@.len()),
            final(self).pos <= final(self).buffer@.len(),
    {
        let ghost before = self@;
        let start: usize = self.pos;
        let room: usize = if start <= MAX_FILE_BYTES {
            MAX_FILE_BYTES - start
        } else {
            0
        };
        let n: usize = if data.len() <= room {
            data.len()
        } else {
            room
        };
        if n > 0 && self.buffer.len() < start + n {
            self.buffer.resize(start + n, 0);
        }
        let ghost sized = self.buffer@;
        let mut i: usize = 0;
        while i < n
            invariant
                i <= n <= data@.len(),
                n > 0 ==> start + n <= MAX_FILE_BYTES,
                start + n <= sized.len(),
                self.buffer@.len() == sized.len(),
                self.path@ == before.path,
                self.pos == start,
                self.dirty == before.dirty,
                forall|k: int| start <= k < start + i ==> self.buffer@[k] == data@[k - start],
                forall|k: int|
                    0 <= k < sized.len() && !(start <= k < start + i) ==> self.buffer@[k]
                        == sized[k],
            decreases n - i,
        {
            self.buffer.set(start + i, data[i]);
            i += 1;
        }
        self.pos = start + n;
        self.dirty = self.dirty || n > 0;
        assert(self@.buffer == file_written(before, data@).buffer);
        n
    }
}

impl Process {
    /// Takes the first free descriptor for a file with these contents.
    fn open(&mut self, path: &str, buffer: Vec<u8>) -> (r: Option<u64>)
        requires
            process_ok(old(self)@),
        ensures
            process_ok(final(self)@),
            (final(self)@, r) == process_opened(old(self)@, path@, buffer@),
    {
        let ghost before = self@;
        let mut i: usize = 0;
        while i < self.fds.len() && self.fds[i].is_some()
            invariant
                i <= self.fds.len(),
                self@ == before,
                before.fds.len() == MAX_OPEN_FILES,
                forall|j: int| 0 <= j < i ==> !(#[trigger] is_free_fd(before.fds)(j)),
            decreases self.fds.len() - i,
        {
            assert(before.fds[i as int] == fd_view(self.fds[i as int]));
            i += 1;
        }
        if i < self.fds.len() {
            proof {
                assert(before.fds[i as int] == fd_view(self.fds[i as int]));
                lemma_first_where_is(before.fds.len(), is_free_fd(before.fds), Some(i as int));
            }
            self.fds.set(
                i,
                Some(OpenFile { path: path.to_owned(), buffer, pos: 0, dirty: false }),
            );
            assert(self@ == process_opened(before, path@, buffer@).0);
            Some(i as u64)
        } else {
            proof {
                lemma_first_where_is(before.fds.len(), is_free_fd(before.fds), None);
            }
            None
        }
    }

    fn read(&mut self, fd: u64, len: usize) -> (r: Option<Vec<u8>>)
        requires
            process_ok(old(self)@),
        ensures
            process_ok(final(self)@),
            match fd_at(old(self)@, fd) {
                Some(f) => {
                    &&& r matches Some(data) && data@ == bytes_read(f, len as nat)
                    &&& final(self)@ == with_fd(old(self)@, fd, Some(file_read(f, len as nat)))
                },
                None => r is None && final(self)@ == old(self)@,
            },
    {
        if fd >= MAX_OPEN_FILES as u64 {
            return None;
        }
        let ghost before = self@;
        let i: usize = fd as usize;
        let r = match &mut self.fds[i] {
            Some(f) => {
                assert(before.fds[i as int] == Some(f@));
                Some(f.read(len))
            },
            None => None,
        };
        assert(self@.fds == (match fd_at(before, fd) {
            Some(f) => with_fd(before, fd, Some(file_read(f, len as nat))).fds,
            None => before.fds,
        }));
        r
    }

    fn write(&mut self, fd: u64, data: &[u8]) -> (r: Option<usize>)
        requires
            process_ok(old(self)@),
        ensures
            process_ok(final(self)@),
            match fd_at(old(self)@, fd) {
                Some(f) => {
                    &&& r matches Some(n) && n == accepted(f.pos, data@.len())
                    &&& final(self)@ == with_fd(old(self)@, fd, Some(file_written(f, data@)))
                },
                None => r is None && final(self)@ == old(self)@,
            },
    {
        if fd >= MAX_OPEN_FILES as u64 {
            return None;
        }
        let ghost before = self@;
        let i: usize = fd as usize;
        let r = match &mut self.fds[i] {
            Some(f) => {
                assert(before.fds[i as int] == Some(f@));
                Some(f.write(data))
            },
            None => None,
        };
        assert(self@.fds == (match fd_at(before, fd) {
            Some(f) => with_fd(before, fd, Some(file_written(f, data@))).fds,
            None => before.fds,
        }));
        r
    }
}

impl Process {
    fn close(&mut self, disk: &SectorCache, fd: u64) -> (r: Step<u32, Closing>)
        requires
            process_ok(old(self)@),
        ensures
            process_ok(final(self)@),
            match process_closed(old(self)@, disk@, fd) {
                Step::Need(l) => r == Step::<u32, Closing>::Need(l) && final(self)@ == old(self)@,
                Step::Done((p, c)) => {
                    &&& r matches Step::Done(closing) && closing@ == c
                    &&& final(self)@ == p
                },
            },
    {
        if fd >= MAX_OPEN_FILES as u64 {
            return Step::Done(Closing::NotOpen);
        }
        let ghost before = self@;
        let i: usize = fd as usize;
        assert(before.fds[i as int] == fd_view(self.fds@[i as int]));
        let closing = match &self.fds[i] {
            None => return Step::Done(Closing::NotOpen),
            Some(f) => if !f.dirty {
                Closing::Clean
            } else {
                match fs::write_file(disk, f.path.as_str(), f.buffer.as_slice()) {
                    Step::Need(l) => return Step::Need(l),
                    Step::Done(Ok(w)) => Closing::Persist(w),
                    Step::Done(Err(e)) => Closing::Refused(e),
                }
            },
        };
        self.fds.set(i, None);
        assert(self@ == with_fd(before, fd, None));
        Step::Done(closing)
    }
}

/// Whether a process's heap mark lies within its heap, and its file positions
/// within their files.
pub open spec fn process_ok(p: ProcessView) -> bool {
    &&& p.heap_used <= HEAP_SIZE
    &&& p.fds.len() == MAX_OPEN_FILES
    &&& forall|i: int|
        0 <= i < p.fds.len() ==> (#[trigger] p.fds[i] matches Some(f) ==> 0 <= f.pos
            <= f.buffer.len())
}

/// All processes, and what is needed to switch between them and the kernel.
pub struct ProcessTable {
    /// The process with id `i + 1`, once it was created.
    pub procs: Vec<Option<Process>>,
    /// The id of the process that runs in ring 3, or 0.
    pub active: u8,
    pub kernel_pml4_frame: u64,
    pub kernel_cr3_flags: u64,
}

/// All processes as a mathematical value.
#[verifier::ext_equal]
pub struct TableView {
    pub procs: Seq<Option<ProcessView>>,
    pub active: u8,
    pub kernel_pml4_frame: u64,
    pub kernel_cr3_flags: u64,
}

pub open spec fn proc_view(p: Option<Process>) -> Option<ProcessView> {
    match p {
        Some(x) => Some(x@),
        None => None,
    }
}

pub open spec fn procs_view(ps: Seq<Option<Process>>) -> Seq<Option<ProcessView>> {
    Seq::new(ps.len(), |i: int| proc_view(ps[i]))
}

/// Whether the table has a place for every id and all its processes are sound.
pub open spec fn table_ok(t: TableView) -> bool {
    &&& t.procs.len() == PROCESS_COUNT
    &&& forall|i: int|
        0 <= i < t.procs.len() ==> (#[trigger] t.procs[i] matches Some(p) ==> process_ok(p))
}

/// The process with this id.
pub open spec fn process_at(t: TableView, id: u8) -> Option<ProcessView> {
    if 1 <= id <= PROCESS_COUNT {
        t.procs[id - 1]
    } else {
        None
    }
}

/// The table with another process under this id.
pub open spec fn with_process(t: TableView, id: u8, p: ProcessView) -> TableView {
    TableView { procs: t.procs.update(id - 1, Some(p)), ..t }
}

/// What a request for `size` more bytes of heap comes to. Only the two processes
/// that are built at boot have their heap handed out.
pub open spec fn sbrk_result(t: TableView, id: u8, size: u64) -> (TableView, Option<u64>) {
    match process_at(t, id) {
        Some(p) => if (id == 1 || id == 2) && p.heap_used + size <= HEAP_SIZE {
            (
                with_process(
                    t,
                    id,
                    ProcessView { heap_used: (p.heap_used + size) as u64, ..p },
                ),
                Some((HEAP_START + p.heap_used) as u64),
            )
        } else {
            (t, None)
        },
        None => (t, None),
    }
}

pub open spec fn is_free_fd(fds: Seq<Option<OpenFileView>>) -> spec_fn(int) -> bool {
    |i: int| fds[i] is None
}

/// What opening a file comes to for its process, once the contents are known.
pub open spec fn process_opened(p: ProcessView, path: Seq<char>, buffer: Seq<u8>) -> (
    ProcessView,
    Option<u64>,
) {
    match first_where(p.fds.len(), is_free_fd(p.fds)) {
        Some(i) => (
            ProcessView {
                fds: p.fds.update(i, Some(OpenFileView { path, buffer, pos: 0, dirty: false })),
                ..p
            },
            Some(i as u64),
        ),
        None => (p, None),
    }
}

/// What opening a file comes to, once its contents are known.
pub open spec fn opened(t: TableView, id: u8, path: Seq<char>, buffer: Seq<u8>) -> (
    TableView,
    Option<u64>,
) {
    match process_at(t, id) {
        Some(p) => {
            let (q, fd) = process_opened(p, path, buffer);
            (with_process(t, id, q), fd)
        },
        None => (t, None),
    }
}

/// What opening a file comes to. A path that cannot be read starts an empty
/// buffer.
pub open spec fn open_result(t: TableView, d: DiskView, id: u8, path: Seq<char>) -> Step<
    u32,
    (TableView, Option<u64>),
> {
    match file_contents(d, path) {
        Step::Need(l) => Step::Need(l),
        Step::Done(Ok(data)) => Step::Done(opened(t, id, path, data)),
        Step::Done(Err(e)) => Step::Done(opened(t, id, path, Seq::empty())),
    }
}

/// The file that is open under this descriptor.
pub open spec fn fd_at(p: ProcessView, fd: u64) -> Option<OpenFileView> {
    if fd < p.fds.len() {
        p.fds[fd as int]
    } else {
        None
    }
}

/// The process with another open file, or none, under this descriptor.
pub open spec fn with_fd(p: ProcessView, fd: u64, f: Option<OpenFileView>) -> ProcessView {
    ProcessView { fds: p.fds.update(fd as int, f), ..p }
}

/// The file that a process has open under this descriptor.
pub open spec fn open_file_at(t: TableView, id: u8, fd: u64) -> Option<OpenFileView> {
    match process_at(t, id) {
        Some(p) => fd_at(p, fd),
        None => None,
    }
}

/// The table with another open file, or none, under this descriptor.
pub open spec fn with_open_file(
    t: TableView,
    id: u8,
    fd: u64,
    f: Option<OpenFileView>,
) -> TableView {
    with_process(t, id, with_fd(process_at(t, id)->0, fd, f))
}

/// Where a read of `len` bytes from the file's position ends.
pub open spec fn read_end(f: OpenFileView, len: nat) -> int {
    if f.pos + len <= f.buffer.len() {
        f.pos + len
    } else {
        f.buffer.len() as int
    }
}

/// The file after a read of `len` bytes.
pub open spec fn file_read(f: OpenFileView, len: nat) -> OpenFileView {
    OpenFileView { pos: read_end(f, len), ..f }
}

/// The bytes that a read of `len` bytes gives.
pub open spec fn bytes_read(f: OpenFileView, len: nat) -> Seq<u8> {
    f.buffer.subrange(f.pos, read_end(f, len))
}

/// What reading from an open file comes to.
pub open spec fn read_fd_result(t: TableView, id: u8, fd: u64, len: nat) -> (
    TableView,
    Option<Seq<u8>>,
) {
    match open_file_at(t, id, fd) {
        Some(f) => (
            with_open_file(t, id, fd, Some(file_read(f, len))),
            Some(bytes_read(f, len)),
        ),
        None => (t, None),
    }
}

/// How many bytes a write at position `pos` may still store.
pub open spec fn accepted(pos: int, len: nat) -> nat {
    let room = if pos <= MAX_FILE_BYTES {
        (MAX_FILE_BYTES - pos) as nat
    } else {
        0
    };
    if len <= room {
        len
    } else {
        room
    }
}

/// `old` with `data` written over it from `pos` on, as long as it has to be.
pub open spec fn overwritten(old: Seq<u8>, pos: int, data: Seq<u8>) -> Seq<u8> {
    if pos + data.len() <= old.len() {
        old.take(pos) + data + old.skip(pos + data.len())
    } else {
        old.take(pos) + data
    }
}

/// The file after a write. One that accepts no byte changes nothing.
pub open spec fn file_written(f: OpenFileView, data: Seq<u8>) -> OpenFileView {
    let n = accepted(f.pos, data.len());
    OpenFileView {
        buffer: overwritten(f.buffer, f.pos, data.take(n as int)),
        pos: f.pos + n,
        dirty: f.dirty || n > 0,
        ..f
    }
}

/// What writing to an open file comes to.
pub open spec fn write_fd_result(t: TableView, id: u8, fd: u64, data: Seq<u8>) -> (
    TableView,
    Option<nat>,
) {
    match open_file_at(t, id, fd) {
        Some(f) => (
            with_open_file(t, id, fd, Some(file_written(f, data))),
            Some(accepted(f.pos, data.len())),
        ),
        None => (t, None),
    }
}

/// What closing a descriptor asks of the drive.
pub enum Closing {
    /// There was no such descriptor.
    NotOpen,
    /// The file was not written to: nothing is left to do.
    Clean,
    /// The file's contents are to be stored by these writes.
    Persist(Vec<SectorWrite>),
    /// The file system refuses the contents.
    Refused(String),
}

/// What closing a descriptor asks of the drive, as a mathematical value.
pub enum ClosingView {
    NotOpen,
    Clean,
    Persist(Seq<WriteView>),
    Refused(Seq<char>),
}

impl Closing {
    pub open spec fn view(self) -> ClosingView {
        match self {
            Closing::NotOpen => ClosingView::NotOpen,
            Closing::Clean => ClosingView::Clean,
            Closing::Persist(w) => ClosingView::Persist(crate::disk::writes_view(w@)),
            Closing::Refused(e) => ClosingView::Refused(e@),
        }
    }
}

/// What closing a descriptor comes to for its process. The descriptor is released
/// in any case.
pub open spec fn process_closed(p: ProcessView, d: DiskView, fd: u64) -> Step<
    u32,
    (ProcessView, ClosingView),
> {
    match fd_at(p, fd) {
        None => Step::Done((p, ClosingView::NotOpen)),
        Some(f) => {
            let released = with_fd(p, fd, None);
            if !f.dirty {
                Step::Done((released, ClosingView::Clean))
            } else {
                match write_plan(d, f.path, f.buffer) {
                    Step::Need(l) => Step::Need(l),
                    Step::Done(Ok(w)) => Step::Done((released, ClosingView::Persist(w))),
                    Step::Done(Err(e)) => Step::Done((released, ClosingView::Refused(e))),
                }
            }
        },
    }
}

/// What closing a descriptor comes to.
pub open spec fn close_result(t: TableView, d: DiskView, id: u8, fd: u64) -> Step<
    u32,
    (TableView, ClosingView),
> {
    match process_at(t, id) {
        None => Step::Done((t, ClosingView::NotOpen)),
        Some(p) => match process_closed(p, d, fd) {
            Step::Need(l) => Step::Need(l),
            Step::Done((q, c)) => Step::Done((with_process(t, id, q), c)),
        },
    }
}

/// A top-level page table to be loaded: its frame, and the flags to load it with.
#[derive(Clone, Copy)]
pub struct PageTableSwitch {
    pub frame: u64,
    pub flags: u64,
}

/// The bits that the page table register has flags for: write-through and cache
/// disable.
pub open spec fn known_cr3_flags(bits: u64) -> u64 {
    bits & 0x18
}

/// `x86_64::registers::control::Cr3Flags::from_bits_truncate`: keeps the bits that
/// are flags (3 and 4) and drops the others.
#[verifier::external_body]
fn cr3_flags(bits: u64) -> (r: u64)
    ensures
        r == known_cr3_flags(bits),
{
    x86_64::registers::control::Cr3Flags::from_bits_truncate(bits).bits()
}

/// The kernel's own page table.
pub open spec fn kernel_switch(t: TableView) -> PageTableSwitch {
    PageTableSwitch {
        frame: t.kernel_pml4_frame,
        flags: known_cr3_flags(t.kernel_cr3_flags),
    }
}

/// What making a process the active one comes to.
pub open spec fn activated(t: TableView, id: u8, missing: Seq<char>) -> Result<
    (TableView, PageTableSwitch),
    Seq<char>,
> {
    match process_at(t, id) {
        Some(p) => Ok(
            (
                TableView { active: id, ..t },
                PageTableSwitch { frame: p.pml4_frame, flags: known_cr3_flags(t.kernel_cr3_flags) },
            ),
        ),
        None => Err(missing),
    }
}

/// What running a process that was built at boot comes to.
pub open spec fn run_result(t: TableView, id: u8) -> Result<
    (TableView, PageTableSwitch),
    Seq<char>,
> {
    if id == 1 || id == 2 || id == FDTEST_PROCESS_ID {
        activated(t, id, "process not initialized"@)
    } else {
        Err("no such process -- use 1, 2, or 4 (FDTEST_PROCESS_ID)"@)
    }
}

/// What running the process that was loaded from a file comes to.
pub open spec fn run_loaded_result(t: TableView) -> Result<
    (TableView, PageTableSwitch),
    Seq<char>,
> {
    activated(
        t,
        LOADED_PROCESS_ID,
        "no loaded process -- create_loaded_process must succeed first"@,
    )
}

impl ProcessTable {
    pub open spec fn view(self) -> TableView {
        TableView {
            procs: procs_view(self.procs@),
            active: self.active,
            kernel_pml4_frame: self.kernel_pml4_frame,
            kernel_cr3_flags: self.kernel_cr3_flags,
        }
    }

    pub open spec fn wf(self) -> bool {
        table_ok(self@)
    }

    /// No process yet.
    pub fn new() -> (r: ProcessTable)
        ensures
            r.wf(),
            r@ == (TableView {
                procs: seq![None, None, None, None],
                active: 0,
                kernel_pml4_frame: 0,
                kernel_cr3_flags: 0,
            }),
    {
        let mut procs: Vec<Option<Process>> = Vec::new();
        procs.push(None);
        procs.push(None);
        procs.push(None);
        procs.push(None);
        let r = ProcessTable { procs, active: 0, kernel_pml4_frame: 0, kernel_cr3_flags: 0 };
        assert(r@.procs == seq![None::<ProcessView>, None, None, None]);
        r
    }

    /// Hands out `size` more bytes of a process's heap.
    pub fn sbrk(&mut self, id: u8, size: u64) -> (r: Option<u64>)
        requires
            old(self).wf(),
        ensures
            final(self).wf(),
            (final(self)@, r) == sbrk_result(old(self)@, id, size),
    {
        if id != 1 && id != 2 {
            return None;
        }
        let i: usize = id as usize - 1;
        let ghost before = self@;
        let r = match &mut self.procs[i] {
            Some(p) => {
                assert(before.procs[i as int] == Some(p@));
                let used: u64 = p.heap_used;
                if size > HEAP_SIZE - used {
                    None
                } else {
                    p.heap_used = used + size;
                    Some(HEAP_START + used)
                }
            },
            None => None,
        };
        assert(self@ == sbrk_result(before, id, size).0);
        r
    }

    /// Opens the file at `path` for a process. The contents are read as a whole;
    /// a path that cannot be read starts an empty file.
    pub fn open_file(&mut self, disk: &SectorCache, id: u8, path: &str) -> (r: Step<
        u32,
        Option<u64>,
    >)
        requires
            old(self).wf(),
        ensures
            final(self).wf(),
            match r {
                Step::Need(l) => final(self)@ == old(self)@ && open_result(
                    old(self)@,
                    disk@,
                    id,
                    path@,
                ) == Step::<u32, (TableView, Option<u64>)>::Need(l),
                Step::Done(fd) => open_result(old(self)@, disk@, id, path@) == Step::<
                    u32,
                    (TableView, Option<u64>),
                >::Done((final(self)@, fd)),
            },
    {
        let buffer = match fs::read_file(disk, path) {
            Step::Need(l) => return Step::Need(l),
            Step::Done(Ok(data)) => data,
            Step::Done(Err(_)) => Vec::new(),
        };
        let ghost before = self@;
        let ghost data = buffer@;
        assert(open_result(before, disk@, id, path@) == Step::<
            u32,
            (TableView, Option<u64>),
        >::Done(opened(before, id, path@, data)));
        if id < 1 || id as usize > PROCESS_COUNT {
            return Step::Done(None);
        }
        let i: usize = id as usize - 1;
        let r = match &mut self.procs[i] {
            Some(p) => {
                assert(before.procs[i as int] == Some(p@));
                p.open(path, buffer)
            },
            None => None,
        };
        assert(self@ == opened(before, id, path@, data).0);
        Step::Done(r)
    }

    /// Reads up to `len` bytes from an open file, from its position on.
    pub fn read_fd(&mut self, id: u8, fd: u64, len: usize) -> (r: Option<Vec<u8>>)
        requires
            old(self).wf(),
        ensures
            final(self).wf(),
            final(self)@ == read_fd_result(old(self)@, id, fd, len as nat).0,
            match r {
                Some(data) => read_fd_result(old(self)@, id, fd, len as nat).1 == Some(data@),
                None => read_fd_result(old(self)@, id, fd, len as nat).1 is None,
            },
    {
        if id < 1 || id as usize > PROCESS_COUNT {
            return None;
        }
        let ghost before = self@;
        let i: usize = id as usize - 1;
        let r = match &mut self.procs[i] {
            Some(p) => {
                assert(before.procs[i as int] == Some(p@));
                p.read(fd, len)
            },
            None => None,
        };
        assert(self@ == read_fd_result(before, id, fd, len as nat).0);
        r
    }

    /// Writes to an open file, from its position on. Says how many bytes the file
    /// still had room for.
    pub fn write_fd(&mut self, id: u8, fd: u64, data: &[u8]) -> (r: Option<usize>)
        requires
            old(self).wf(),
        ensures
            final(self).wf(),
            final(self)@ == write_fd_result(old(self)@, id, fd, data@).0,
            match r {
                Some(n) => write_fd_result(old(self)@, id, fd, data@).1 == Some(n as nat),
                None => write_fd_result(old(self)@, id, fd, data@).1 is None,
            },
    {
        if id < 1 || id as usize > PROCESS_COUNT {
            return None;
        }
        let ghost before = self@;
        let i: usize = id as usize - 1;
        let r = match &mut self.procs[i] {
            Some(p) => {
                assert(before.procs[i as int] == Some(p@));
                p.write(fd, data)
            },
            None => None,
        };
        assert(self@ == write_fd_result(before, id, fd, data@).0);
        r
    }

    /// The path and the length of an open file.
    pub fn open_path(&self, id: u8, fd: u64) -> (r: Option<(String, usize)>)
        requires
            self.wf(),
        ensures
            match (r, open_file_at(self@, id, fd)) {
                (Some((path, len)), Some(f)) => path@ == f.path && len == f.buffer.len(),
                (None, None) => true,
                _ => false,
            },
    {
        if id < 1 || id as usize > PROCESS_COUNT {
            return None;
        }
        let i: usize = id as usize - 1;
        match &self.procs[i] {
            Some(p) => {
                assert(self@.procs[i as int] == Some(p@));
                if fd >= MAX_OPEN_FILES as u64 {
                    return None;
                }
                match &p.fds[fd as usize] {
                    Some(f) => {
                        assert(p@.fds[fd as int] == Some(f@));
                        Some((owned(f.path.as_str()), f.buffer.len()))
                    },
                    None => {
                        assert(p@.fds[fd as int] is None);
                        None
                    },
                }
            },
            None => {
                assert(self@.procs[i as int] is None);
                None
            },
        }
    }

    /// Closes a descriptor. A file that was written to is to be stored.
    pub fn close_fd(&mut self, disk: &SectorCache, id: u8, fd: u64) -> (r: Step<u32, Closing>)
        requires
            old(self).wf(),
        ensures
            final(self).wf(),
            match r {
                Step::Need(l) => final(self)@ == old(self)@ && close_result(
                    old(self)@,
                    disk@,
                    id,
                    fd,
                ) == Step::<u32, (TableView, ClosingView)>::Need(l),
                Step::Done(c) => close_result(old(self)@, disk@, id, fd) == Step::<
                    u32,
                    (TableView, ClosingView),
                >::Done((final(self)@, c@)),
            },
    {
        if id < 1 || id as usize > PROCESS_COUNT {
            return Step::Done(Closing::NotOpen);
        }
        let ghost before = self@;
        let i: usize = id as usize - 1;
        let r = match &mut self.procs[i] {
            Some(p) => {
                assert(before.procs[i as int] == Some(p@));
                p.close(disk, fd)
            },
            None => Step::Done(Closing::NotOpen),
        };
        assert(match close_result(before, disk@, id, fd) {
            Step::Need(l) => self@ == before,
            Step::Done((after, c)) => self@ == after,
        });
        r
    }

    /// Remembers the kernel's own top-level page table and the flags that it is
    /// loaded with.
    pub fn save_kernel_cr3(&mut self, frame: u64, flags: u64)
        requires
            old(self).wf(),
        ensures
            final(self).wf(),
            final(self)@ == (TableView {
                kernel_pml4_frame: frame,
                kernel_cr3_flags: flags,
                ..old(self)@
            }),
    {
        self.kernel_pml4_frame = frame;
        self.kernel_cr3_flags = flags;
    }

    /// The top-level page table that the kernel itself runs on, as it was saved.
    pub fn restore_kernel_cr3(&self) -> (r: PageTableSwitch)
        ensures
            r == kernel_switch(self@),
    {
        PageTableSwitch {
            frame: self.kernel_pml4_frame,
            flags: cr3_flags(self.kernel_cr3_flags),
        }
    }

    /// Makes a process that was built at boot the active one. Says which page
    /// table it runs on.
    pub fn run(&mut self, id: u8) -> (r: Result<PageTableSwitch, &'static str>)
        requires
            old(self).wf(),
        ensures
            final(self).wf(),
            match r {
                Ok(s) => run_result(old(self)@, id) == Ok::<_, Seq<char>>((final(self)@, s)),
                Err(e) => run_result(old(self)@, id) == Err::<(TableView, PageTableSwitch), _>(e@)
                    && final(self)@ == old(self)@,
            },
    {
        if id != 1 && id != 2 && id != FDTEST_PROCESS_ID {
            return Err("no such process -- use 1, 2, or 4 (FDTEST_PROCESS_ID)");
        }
        self.activate(id, "process not initialized")
    }

    /// Makes the process that was loaded from a file the active one. Says which
    /// page table it runs on.
    pub fn run_loaded_process(&mut self) -> (r: Result<PageTableSwitch, &'static str>)
        requires
            old(self).wf(),
        ensures
            final(self).wf(),
            match r {
                Ok(s) => run_loaded_result(old(self)@) == Ok::<_, Seq<char>>((final(self)@, s)),
                Err(e) => run_loaded_result(old(self)@) == Err::<
                    (TableView, PageTableSwitch),
                    _,
                >(e@) && final(self)@ == old(self)@,
            },
    {
        self.activate(
            LOADED_PROCESS_ID,
            "no loaded process -- create_loaded_process must succeed first",
        )
    }

    fn activate(&mut self, id: u8, missing: &'static str) -> (r: Result<
        PageTableSwitch,
        &'static str,
    >)
        requires
            old(self).wf(),
            1 <= id <= PROCESS_COUNT,
        ensures
            final(self).wf(),
            match r {
                Ok(s) => activated(old(self)@, id, missing@) == Ok::<_, Seq<char>>(
                    (final(self)@, s),
                ),
                Err(e) => activated(old(self)@, id, missing@) == Err::<
                    (TableView, PageTableSwitch),
                    _,
                >(e@) && final(self)@ == old(self)@,
            },
    {
        let i: usize = id as usize - 1;
        assert(self@.procs[i as int] == proc_view(self.procs@[i as int]));
        let frame: u64 = match &self.procs[i] {
            Some(p) => p.pml4_frame,
            None => return Err(missing),
        };
        self.active = id;
        Ok(PageTableSwitch { frame, flags: cr3_flags(self.kernel_cr3_flags) })
    }

    /// Puts a process under an id, in place of an earlier one.
    pub fn install(&mut self, id: u8, p: Process)
        requires
            old(self).wf(),
            1 <= id <= PROCESS_COUNT,
            process_ok(p@),
        ensures
            final(self).wf(),
            final(self)@ == with_process(old(self)@, id, p@),
    {
        let ghost before = self@;
        self.procs.set(id as usize - 1, Some(p));
        assert(self@ == with_process(before, id, p@));
    }
}

} // verus!
