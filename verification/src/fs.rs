//! A small file system on raw 512-byte sectors.
//!
//! Sector 1 holds the root directory, a table of eight entries. A shared pool
//! of 64 sectors starts at sector 2. A file occupies a run of up to eight
//! neighbouring pool sectors; a subdirectory occupies one, which holds a table
//! in the root's format. Subdirectories exist directly under the root only.
//!
//! Every operation is a function of what has been read from the drive so far.
//! It asks for the next sector that it has to know, or it is done. An operation
//! that changes the drive answers with the sectors to be written, in order.

use crate::bytes::{le16, le32, read_u16, read_u32};
use crate::disk::{writes_view, DiskView, SectorCache, SectorWrite, WriteView, SECTOR_SIZE};
use crate::search::{first_where, lemma_first_where_is};
use crate::step::Step;
use crate::text::{find_char, first_index, join3, lossy_text, shown_text, split_once};
use vstd::prelude::*;
use vstd::string::StrSliceExecFns;
use vstd::utf8::encode_utf8;

verus! {

/// The root directory's sector.
pub const DIR_LBA: u32 = 1;

/// Entries of a directory table.
pub const MAX_ENTRIES: usize = 8;

/// The first sector of the shared data pool.
pub const FILE_DATA_START_LBA: u32 = 2;

/// Marks a sector as a directory table.
pub const MAGIC: u32 = 0x53504B46;

/// Bytes of a stored name.
pub const NAME_LEN: usize = 16;

/// Bytes of a stored entry: used flag, directory flag, name, length, first
/// sector, sector count.
pub const ENTRY_LEN: usize = 25;

/// Sectors that one file may occupy.
pub const MAX_FILE_SECTORS: usize = 8;

/// Bytes that one file may hold.
pub const MAX_FILE_BYTES: usize = 4096;

/// Sectors of the shared data pool.
pub const NUM_DATA_SECTORS: usize = 64;

/// One slot of a directory table.
#[derive(Clone, Copy)]
pub struct DirEntry {
    pub used: bool,
    pub is_dir: bool,
    pub name: [u8; 16],
    pub len: u16,
    pub start_lba: u32,
    pub sector_count: u8,
}

/// One slot of a directory table, as a mathematical value.
#[verifier::ext_equal]
pub struct EntryView {
    pub used: bool,
    pub is_dir: bool,
    pub name: Seq<u8>,
    pub len: u16,
    pub start_lba: u32,
    pub sector_count: u8,
}

/// A run of sectors: its first sector and its length.
pub type Run = (u32, u8);

/// What an operation that changes the drive answers, as a mathematical value.
pub type PlanView = Step<u32, Result<Seq<WriteView>, Seq<char>>>;

/// An unused slot.
pub open spec fn empty_entry() -> EntryView {
    EntryView {
        used: false,
        is_dir: false,
        name: Seq::new(NAME_LEN as nat, |i: int| 0u8),
        len: 0,
        start_lba: 0,
        sector_count: 0,
    }
}

/// A table without entries.
pub open spec fn empty_table() -> Seq<EntryView> {
    Seq::new(MAX_ENTRIES as nat, |i: int| empty_entry())
}

/// The entry that starts at byte `off` of a table sector.
pub open spec fn entry_at(s: Seq<u8>, off: int) -> EntryView {
    EntryView {
        used: s[off] != 0,
        is_dir: s[off + 1] != 0,
        name: s.subrange(off + 2, off + 2 + NAME_LEN),
        len: le16(s, off + 2 + NAME_LEN),
        start_lba: le32(s, off + 4 + NAME_LEN),
        sector_count: s[off + 8 + NAME_LEN],
    }
}

/// The directory table that a sector holds. A sector that could not be read or
/// does not carry the magic number is an empty table.
pub open spec fn table_of(sector: Option<Seq<u8>>) -> Seq<EntryView> {
    match sector {
        Some(s) => if le32(s, 0) == MAGIC {
            Seq::new(MAX_ENTRIES as nat, |i: int| entry_at(s, 4 + i * ENTRY_LEN))
        } else {
            empty_table()
        },
        None => empty_table(),
    }
}

/// Byte `j` of a stored entry.
pub open spec fn entry_byte(e: EntryView, j: int) -> u8 {
    if j == 0 {
        e.used as u8
    } else if j == 1 {
        e.is_dir as u8
    } else if j < 18 {
        e.name[j - 2]
    } else if j == 18 {
        (e.len % 0x100) as u8
    } else if j == 19 {
        (e.len / 0x100) as u8
    } else if j == 20 {
        (e.start_lba % 0x100) as u8
    } else if j == 21 {
        (e.start_lba / 0x100 % 0x100) as u8
    } else if j == 22 {
        (e.start_lba / 0x1_0000 % 0x100) as u8
    } else if j == 23 {
        (e.start_lba / 0x100_0000) as u8
    } else {
        e.sector_count
    }
}

/// The sector that stores a directory table.
pub open spec fn table_sector(es: Seq<EntryView>) -> Seq<u8> {
    Seq::new(
        SECTOR_SIZE as nat,
        |k: int|
            if k == 0 {
                0x46u8
            } else if k == 1 {
                0x4Bu8
            } else if k == 2 {
                0x50u8
            } else if k == 3 {
                0x53u8
            } else if k < 4 + MAX_ENTRIES * ENTRY_LEN {
                entry_byte(es[(k - 4) / ENTRY_LEN as int], (k - 4) % ENTRY_LEN as int)
            } else {
                0u8
            },
    )
}

/// The stored form of a name: its UTF-8 bytes, cut off or filled up with zeros.
pub open spec fn stored_name(name: Seq<char>) -> Seq<u8> {
    let b = encode_utf8(name);
    Seq::new(
        NAME_LEN as nat,
        |i: int|
            if i < b.len() {
                b[i]
            } else {
                0u8
            },
    )
}

/// The directory table at `lba`.
pub open spec fn load_dir(d: DiskView, lba: u32) -> Step<u32, Seq<EntryView>> {
    if d.contains_key(lba) {
        Step::Done(table_of(d[lba]))
    } else {
        Step::Need(lba)
    }
}

pub open spec fn is_named(es: Seq<EntryView>, name: Seq<u8>) -> spec_fn(int) -> bool {
    |i: int| es[i].used && es[i].name == name
}

pub open spec fn is_unused(es: Seq<EntryView>) -> spec_fn(int) -> bool {
    |i: int| !es[i].used
}

/// The slot of the entry with this stored name.
pub open spec fn find_name(es: Seq<EntryView>, name: Seq<u8>) -> Option<int> {
    first_where(es.len(), is_named(es, name))
}

/// The first unused slot.
pub open spec fn find_unused(es: Seq<EntryView>) -> Option<int> {
    first_where(es.len(), is_unused(es))
}

/// The sector of the subdirectory `dir`.
pub open spec fn dir_lba(d: DiskView, dir: Seq<char>) -> Step<u32, Result<u32, Seq<char>>> {
    match load_dir(d, DIR_LBA) {
        Step::Need(l) => Step::Need(l),
        Step::Done(root) => match find_name(root, stored_name(dir)) {
            None => Step::Done(Err("no such directory '"@ + dir + "'"@)),
            Some(i) => if root[i].is_dir {
                Step::Done(Ok(root[i].start_lba))
            } else {
                Step::Done(Err("'"@ + dir + "' is a file, not a directory"@))
            },
        },
    }
}

/// The table that a path leads to, and the name within it.
pub open spec fn place_of(d: DiskView, path: Seq<char>) -> Step<
    u32,
    Result<(u32, Seq<char>), Seq<char>>,
> {
    match first_index(path, '/') {
        None => Step::Done(Ok((DIR_LBA, path))),
        Some(i) => {
            let dir = path.take(i);
            let name = path.skip(i + 1);
            if name.len() == 0 || first_index(name, '/') is Some {
                Step::Done(
                    Err(
                        "'"@ + path
                            + "' -- only one level of subdirectory nesting is supported (DIR/NAME, not DIR/SUB/NAME)"@,
                    ),
                )
            } else {
                match dir_lba(d, dir) {
                    Step::Need(l) => Step::Need(l),
                    Step::Done(Err(e)) => Step::Done(Err(e)),
                    Step::Done(Ok(lba)) => Step::Done(Ok((lba, name))),
                }
            }
        },
    }
}

/// The runs that the first `k` entries of a table occupy.
pub open spec fn table_runs(es: Seq<EntryView>, k: nat) -> Seq<Run>
    decreases k,
{
    if k == 0 {
        Seq::empty()
    } else {
        let e = es[k - 1];
        let before = table_runs(es, (k - 1) as nat);
        if e.used && e.sector_count > 0 {
            before.push((e.start_lba, e.sector_count))
        } else {
            before
        }
    }
}

/// The runs that the first `k` entries of the root occupy, each subdirectory's
/// table followed by the runs of its entries.
pub open spec fn root_runs(d: DiskView, root: Seq<EntryView>, k: nat) -> Step<u32, Seq<Run>>
    decreases k,
{
    if k == 0 {
        Step::Done(Seq::empty())
    } else {
        let e = root[k - 1];
        match root_runs(d, root, (k - 1) as nat) {
            Step::Need(l) => Step::Need(l),
            Step::Done(before) => if !e.used || e.sector_count == 0 {
                Step::Done(before)
            } else if !e.is_dir {
                Step::Done(before.push((e.start_lba, e.sector_count)))
            } else {
                match load_dir(d, e.start_lba) {
                    Step::Need(l) => Step::Need(l),
                    Step::Done(sub) => Step::Done(
                        before.push((e.start_lba, e.sector_count)) + table_runs(sub, sub.len()),
                    ),
                }
            },
        }
    }
}

pub open spec fn is_run(runs: Seq<Run>, r: Run) -> spec_fn(int) -> bool {
    |i: int| runs[i] == r
}

/// The runs without the first one that equals `exclude`.
pub open spec fn without_run(runs: Seq<Run>, exclude: Option<Run>) -> Seq<Run> {
    match exclude {
        None => runs,
        Some(r) => match first_where(runs.len(), is_run(runs, r)) {
            None => runs,
            Some(i) => runs.remove(i),
        },
    }
}

/// Every occupied run of the drive but the excluded one.
pub open spec fn occupied_runs(d: DiskView, exclude: Option<Run>) -> Step<u32, Seq<Run>> {
    match load_dir(d, DIR_LBA) {
        Step::Need(l) => Step::Need(l),
        Step::Done(root) => match root_runs(d, root, root.len()) {
            Step::Need(l) => Step::Need(l),
            Step::Done(runs) => Step::Done(without_run(runs, exclude)),
        },
    }
}

/// Whether a run has a sector in common with the sectors from `start` up to but
/// not including `end`.
pub open spec fn overlaps(r: Run, start: int, end: int) -> bool {
    start < r.0 + r.1 && r.0 < end
}

/// Whether `needed` sectors from pool sector `start` on are free.
pub open spec fn is_free(runs: Seq<Run>, needed: nat) -> spec_fn(int) -> bool {
    |start: int|
        forall|i: int|
            0 <= i < runs.len() ==> !overlaps(
                #[trigger] runs[i],
                FILE_DATA_START_LBA + start,
                FILE_DATA_START_LBA + start + needed,
            )
}

/// The first pool sector from which `needed` sectors are free.
pub open spec fn free_span(runs: Seq<Run>, needed: nat) -> Option<int> {
    first_where((NUM_DATA_SECTORS - needed + 1) as nat, is_free(runs, needed))
}

/// Sectors that hold `len` bytes.
pub open spec fn sectors_for(len: nat) -> nat {
    (len + 511) / 512
}

/// Sector `i` of a file's data, filled up with zeros.
pub open spec fn data_sector(data: Seq<u8>, i: int) -> Seq<u8> {
    Seq::new(
        SECTOR_SIZE as nat,
        |k: int|
            if i * SECTOR_SIZE + k < data.len() {
                data[i * SECTOR_SIZE + k]
            } else {
                0u8
            },
    )
}

/// The writes that store `data` from sector `start` on.
pub open spec fn data_writes(data: Seq<u8>, start: u32) -> Seq<WriteView> {
    Seq::new(
        sectors_for(data.len()),
        |i: int| WriteView { lba: (start + i) as u32, data: data_sector(data, i) },
    )
}

/// The write that stores a directory table.
pub open spec fn table_write(lba: u32, es: Seq<EntryView>) -> WriteView {
    WriteView { lba, data: table_sector(es) }
}

pub open spec fn dir_entry_for(name: Seq<u8>, lba: u32) -> EntryView {
    EntryView { used: true, is_dir: true, name, len: 0, start_lba: lba, sector_count: 1 }
}

pub open spec fn file_entry_for(name: Seq<u8>, len: nat, lba: u32) -> EntryView {
    EntryView {
        used: true,
        is_dir: false,
        name,
        len: len as u16,
        start_lba: if len == 0 {
            0
        } else {
            lba
        },
        sector_count: sectors_for(len) as u8,
    }
}

/// What creating the directory `name` comes to.
pub open spec fn make_dir_plan(d: DiskView, name: Seq<char>) -> PlanView {
    if first_index(name, '/') is Some {
        Step::Done(
            Err(
                "mkdir only supports creating a directory directly under the root (no 'mkdir a/b')"@,
            ),
        )
    } else {
        match load_dir(d, DIR_LBA) {
            Step::Need(l) => Step::Need(l),
            Step::Done(root) => if find_name(root, stored_name(name)) is Some {
                Step::Done(Err("'"@ + name + "' already exists"@))
            } else {
                match find_unused(root) {
                    None => Step::Done(Err("directory full (max 8 entries)"@)),
                    Some(slot) => match occupied_runs(d, None) {
                        Step::Need(l) => Step::Need(l),
                        Step::Done(runs) => match free_span(runs, 1) {
                            None => Step::Done(
                                Err("not enough free disk space (fragmented or full)"@),
                            ),
                            Some(start) => {
                                let lba = (FILE_DATA_START_LBA + start) as u32;
                                Step::Done(
                                    Ok(
                                        seq![
                                            table_write(lba, empty_table()),
                                            table_write(
                                                DIR_LBA,
                                                root.update(
                                                    slot,
                                                    dir_entry_for(stored_name(name), lba),
                                                ),
                                            ),
                                        ],
                                    ),
                                )
                            },
                        },
                    },
                }
            },
        }
    }
}

/// The run that a slot's entry occupies at present.
pub open spec fn slot_run(e: EntryView) -> Option<Run> {
    if e.used {
        Some((e.start_lba, e.sector_count))
    } else {
        None
    }
}

/// What storing `data` in a slot of a table comes to.
pub open spec fn store_plan(
    d: DiskView,
    lba: u32,
    es: Seq<EntryView>,
    slot: int,
    name: Seq<u8>,
    data: Seq<u8>,
) -> PlanView {
    if data.len() == 0 {
        Step::Done(Ok(seq![table_write(lba, es.update(slot, file_entry_for(name, 0, 0)))]))
    } else {
        match occupied_runs(d, slot_run(es[slot])) {
            Step::Need(l) => Step::Need(l),
            Step::Done(runs) => match free_span(runs, sectors_for(data.len())) {
                None => Step::Done(Err("not enough free disk space (fragmented or full)"@)),
                Some(start) => {
                    let first = (FILE_DATA_START_LBA + start) as u32;
                    Step::Done(
                        Ok(
                            data_writes(data, first).push(
                                table_write(
                                    lba,
                                    es.update(slot, file_entry_for(name, data.len(), first)),
                                ),
                            ),
                        ),
                    )
                },
            },
        }
    }
}

/// What writing `data` to the file at `path` comes to.
pub open spec fn write_plan(d: DiskView, path: Seq<char>, data: Seq<u8>) -> PlanView {
    if data.len() > MAX_FILE_BYTES {
        Step::Done(
            Err("file too large -- max 4096 bytes (8 sectors per file, no bigger files yet)"@),
        )
    } else {
        match place_of(d, path) {
            Step::Need(l) => Step::Need(l),
            Step::Done(Err(e)) => Step::Done(Err(e)),
            Step::Done(Ok((lba, name))) => match load_dir(d, lba) {
                Step::Need(l) => Step::Need(l),
                Step::Done(es) => {
                    let stored = stored_name(name);
                    match find_name(es, stored) {
                        Some(i) => if es[i].is_dir {
                            Step::Done(Err("'"@ + name + "' is a directory"@))
                        } else {
                            store_plan(d, lba, es, i, stored, data)
                        },
                        None => match find_unused(es) {
                            None => Step::Done(Err("directory full (max 8 entries)"@)),
                            Some(slot) => store_plan(d, lba, es, slot, stored, data),
                        },
                    }
                },
            },
        }
    }
}

/// The entry that a path names, as reading and removing look it up.
pub open spec fn file_slot(d: DiskView, path: Seq<char>, refusal: Seq<char>) -> Step<
    u32,
    Result<(u32, Seq<EntryView>, int), Seq<char>>,
> {
    match place_of(d, path) {
        Step::Need(l) => Step::Need(l),
        Step::Done(Err(e)) => Step::Done(Err(e)),
        Step::Done(Ok((lba, name))) => match load_dir(d, lba) {
            Step::Need(l) => Step::Need(l),
            Step::Done(es) => match find_name(es, stored_name(name)) {
                None => Step::Done(Err("no such file '"@ + name + "'"@)),
                Some(i) => if es[i].is_dir {
                    Step::Done(Err("'"@ + name + refusal))
                } else {
                    Step::Done(Ok((lba, es, i)))
                },
            },
        },
    }
}

/// The bytes of the `k` sectors from `start` on. A sector that cannot be read
/// ends the reading with the drive's complaint.
pub open spec fn sectors_from(d: DiskView, start: u32, k: nat) -> Step<
    u32,
    Result<Seq<u8>, Seq<char>>,
>
    decreases k,
{
    if k == 0 {
        Step::Done(Ok(Seq::empty()))
    } else {
        let lba = start.wrapping_add((k - 1) as u32);
        match sectors_from(d, start, (k - 1) as nat) {
            Step::Need(l) => Step::Need(l),
            Step::Done(Err(e)) => Step::Done(Err(e)),
            Step::Done(Ok(bytes)) => if !d.contains_key(lba) {
                Step::Need(lba)
            } else {
                match d[lba] {
                    Some(s) => Step::Done(Ok(bytes + s)),
                    None => Step::Done(Err("ATA error bit set"@)),
                }
            },
        }
    }
}

/// The first `len` bytes, or all of them if there are fewer.
pub open spec fn cut(bytes: Seq<u8>, len: nat) -> Seq<u8> {
    if len <= bytes.len() {
        bytes.take(len as int)
    } else {
        bytes
    }
}

/// The contents that an entry describes.
pub open spec fn entry_contents(d: DiskView, e: EntryView) -> Step<
    u32,
    Result<Seq<u8>, Seq<char>>,
> {
    match sectors_from(d, e.start_lba, e.sector_count as nat) {
        Step::Need(l) => Step::Need(l),
        Step::Done(Err(x)) => Step::Done(Err(x)),
        Step::Done(Ok(bytes)) => Step::Done(Ok(cut(bytes, e.len as nat))),
    }
}

/// What reading the file at `path` gives.
pub open spec fn file_contents(d: DiskView, path: Seq<char>) -> Step<
    u32,
    Result<Seq<u8>, Seq<char>>,
> {
    match file_slot(d, path, "' is a directory, not a file"@) {
        Step::Need(l) => Step::Need(l),
        Step::Done(Err(e)) => Step::Done(Err(e)),
        Step::Done(Ok((lba, es, i))) => entry_contents(d, es[i]),
    }
}

/// What removing the file at `path` comes to.
pub open spec fn delete_plan(d: DiskView, path: Seq<char>) -> PlanView {
    match file_slot(d, path, "' is a directory -- rm does not remove directories (no rmdir yet)"@) {
        Step::Need(l) => Step::Need(l),
        Step::Done(Err(e)) => Step::Done(Err(e)),
        Step::Done(Ok((lba, es, i))) => Step::Done(
            Ok(seq![table_write(lba, es.update(i, empty_entry()))]),
        ),
    }
}

/// One line of a directory listing: name, directory flag, length.
pub type ListingView = (Seq<char>, bool, u16);

pub open spec fn is_zero(name: Seq<u8>) -> spec_fn(int) -> bool {
    |i: int| name[i] == 0
}

/// The bytes of a stored name up to the first zero.
pub open spec fn used_bytes(name: Seq<u8>) -> Seq<u8> {
    match first_where(name.len(), is_zero(name)) {
        Some(i) => name.take(i),
        None => name,
    }
}

/// A stored name as text.
pub open spec fn shown_name(name: Seq<u8>) -> Seq<char> {
    shown_text(used_bytes(name))
}

/// Whether a name is stored whole.
pub open spec fn storable(name: Seq<char>) -> bool {
    encode_utf8(name).len() <= NAME_LEN && !name.contains('\0')
}

/// The listing of the first `k` entries of a table.
pub open spec fn listing_of(es: Seq<EntryView>, k: nat) -> Seq<ListingView>
    decreases k,
{
    if k == 0 {
        Seq::empty()
    } else {
        let e = es[k - 1];
        let before = listing_of(es, (k - 1) as nat);
        if e.used {
            before.push((shown_name(e.name), e.is_dir, e.len))
        } else {
            before
        }
    }
}

/// What listing the root, or the subdirectory `dir`, gives.
pub open spec fn listing(d: DiskView, dir: Option<Seq<char>>) -> Step<
    u32,
    Result<Seq<ListingView>, Seq<char>>,
> {
    let place = match dir {
        Some(name) => dir_lba(d, name),
        None => Step::Done(Ok(DIR_LBA)),
    };
    match place {
        Step::Need(l) => Step::Need(l),
        Step::Done(Err(e)) => Step::Done(Err(e)),
        Step::Done(Ok(lba)) => match load_dir(d, lba) {
            Step::Need(l) => Step::Need(l),
            Step::Done(es) => Step::Done(Ok(listing_of(es, es.len()))),
        },
    }
}

impl DirEntry {
    pub open spec fn view(self) -> EntryView {
        EntryView {
            used: self.used,
            is_dir: self.is_dir,
            name: self.name@,
            len: self.len,
            start_lba: self.start_lba,
            sector_count: self.sector_count,
        }
    }

    /// An unused slot.
    pub fn empty() -> (r: DirEntry)
        ensures
            r@ == empty_entry(),
    {
        let r = DirEntry {
            used: false,
            is_dir: false,
            name: [0u8; 16],
            len: 0,
            start_lba: 0,
            sector_count: 0,
        };
        assert(r@.name == empty_entry().name);
        r
    }

    /// The stored name as text.
    pub fn name_str(&self) -> (r: String)
        ensures
            r@ == shown_name(self@.name),
    {
        let mut end: usize = 0;
        while end < NAME_LEN && self.name[end] != 0
            invariant
                end <= NAME_LEN,
                forall|j: int| 0 <= j < end ==> self.name[j] != 0,
            decreases NAME_LEN - end,
        {
            end += 1;
        }
        let mut bytes: Vec<u8> = Vec::new();
        let mut i: usize = 0;
        while i < end
            invariant
                i <= end <= NAME_LEN,
                bytes@ == self.name@.take(i as int),
            decreases end - i,
        {
            bytes.push(self.name[i]);
            i += 1;
        }
        proof {
            let found = if end < NAME_LEN {
                Some(end as int)
            } else {
                None
            };
            lemma_first_where_is(NAME_LEN as nat, is_zero(self.name@), found);
            assert(self.name@.take(NAME_LEN as int) == self.name@);
        }
        lossy_text(bytes.as_slice())
    }
}

/// A table's slots as mathematical values.
pub open spec fn entries_view(es: Seq<DirEntry>) -> Seq<EntryView> {
    Seq::new(es.len(), |i: int| es[i]@)
}

fn read_entry(buf: &[u8; 512], off: usize) -> (r: DirEntry)
    requires
        off + ENTRY_LEN <= 512,
    ensures
        r@ == entry_at(buf@, off as int),
{
    let mut name = [0u8; 16];
    let mut j: usize = 0;
    while j < NAME_LEN
        invariant
            j <= NAME_LEN,
            off + ENTRY_LEN <= 512,
            forall|k: int| 0 <= k < j ==> name[k] == buf[off + 2 + k],
        decreases NAME_LEN - j,
    {
        name[j] = buf[off + 2 + j];
        j += 1;
    }
    let r = DirEntry {
        used: buf[off] != 0,
        is_dir: buf[off + 1] != 0,
        name,
        len: read_u16(buf.as_slice(), off + 2 + NAME_LEN),
        start_lba: read_u32(buf.as_slice(), off + 4 + NAME_LEN),
        sector_count: buf[off + 8 + NAME_LEN],
    };
    assert(r@.name == entry_at(buf@, off as int).name);
    r
}

/// A table without entries.
fn empty_entries() -> (r: Vec<DirEntry>)
    ensures
        entries_view(r@) == empty_table(),
        r.len() == MAX_ENTRIES,
{
    let mut r: Vec<DirEntry> = Vec::new();
    while r.len() < MAX_ENTRIES
        invariant
            r.len() <= MAX_ENTRIES,
            forall|i: int| 0 <= i < r.len() ==> (#[trigger] r[i])@ == empty_entry(),
        decreases MAX_ENTRIES - r.len(),
    {
        r.push(DirEntry::empty());
    }
    r
}

/// The directory table at `lba`: the root's, or that of a subdirectory.
pub fn load_dir_at(disk: &SectorCache, lba: u32) -> (r: Step<u32, Vec<DirEntry>>)
    ensures
        match r {
            Step::Need(l) => load_dir(disk@, lba) == Step::<u32, Seq<EntryView>>::Need(l),
            Step::Done(es) => load_dir(disk@, lba) == Step::<u32, Seq<EntryView>>::Done(
                entries_view(es@),
            ) && es.len() == MAX_ENTRIES,
        },
{
    match disk.lookup(lba) {
        None => Step::Need(lba),
        Some(None) => Step::Done(empty_entries()),
        Some(Some(buf)) => {
            if read_u32(buf.as_slice(), 0) != MAGIC {
                return Step::Done(empty_entries());
            }
            let mut es: Vec<DirEntry> = Vec::new();
            let mut i: usize = 0;
            while i < MAX_ENTRIES
                invariant
                    i <= MAX_ENTRIES,
                    es.len() == i,
                    forall|j: int| 0 <= j < i ==> (#[trigger] es[j])@ == entry_at(
                        buf@,
                        4 + j * ENTRY_LEN,
                    ),
                decreases MAX_ENTRIES - i,
            {
                es.push(read_entry(&buf, 4 + i * ENTRY_LEN));
                i += 1;
            }
            assert(entries_view(es@) == table_of(Some(buf@)));
            Step::Done(es)
        },
    }
}

fn put_entry(buf: &mut [u8; 512], off: usize, e: &DirEntry)
    requires
        off + ENTRY_LEN <= 512,
    ensures
        forall|k: int|
            0 <= k < 512 ==> final(buf)[k] == (if off <= k < off + ENTRY_LEN {
                entry_byte(e@, k - off)
            } else {
                old(buf)[k]
            }),
{
    let ghost before = buf@;
    buf[off] = if e.used {
        1
    } else {
        0
    };
    buf[off + 1] = if e.is_dir {
        1
    } else {
        0
    };
    let mut j: usize = 0;
    while j < NAME_LEN
        invariant
            j <= NAME_LEN,
            off + ENTRY_LEN <= 512,
            forall|k: int|
                0 <= k < 512 ==> buf[k] == (if off <= k < off + 2 + j {
                    entry_byte(e@, k - off)
                } else {
                    before[k]
                }),
        decreases NAME_LEN - j,
    {
        buf[off + 2 + j] = e.name[j];
        j += 1;
    }
    buf[off + 18] = (e.len % 0x100) as u8;
    buf[off + 19] = (e.len / 0x100) as u8;
    buf[off + 20] = (e.start_lba % 0x100) as u8;
    buf[off + 21] = (e.start_lba / 0x100 % 0x100) as u8;
    buf[off + 22] = (e.start_lba / 0x1_0000 % 0x100) as u8;
    buf[off + 23] = (e.start_lba / 0x100_0000) as u8;
    buf[off + 24] = e.sector_count;
}

/// The write that stores a directory table at `lba`.
pub fn save_dir_at(lba: u32, entries: &Vec<DirEntry>) -> (r: SectorWrite)
    requires
        entries.len() == MAX_ENTRIES,
    ensures
        r@ == table_write(lba, entries_view(entries@)),
{
    let mut buf = [0u8; 512];
    buf[0] = 0x46;
    buf[1] = 0x4B;
    buf[2] = 0x50;
    buf[3] = 0x53;
    let ghost es = entries_view(entries@);
    let mut i: usize = 0;
    while i < MAX_ENTRIES
        invariant
            i <= MAX_ENTRIES,
            entries.len() == MAX_ENTRIES,
            es == entries_view(entries@),
            forall|k: int| 0 <= k < 4 + i * ENTRY_LEN ==> buf[k] == #[trigger] table_sector(es)[k],
            forall|k: int| 4 + i * ENTRY_LEN <= k < 512 ==> buf[k] == 0,
        decreases MAX_ENTRIES - i,
    {
        put_entry(&mut buf, 4 + i * ENTRY_LEN, &entries[i]);
        i += 1;
    }
    assert(buf@ == table_sector(es));
    SectorWrite { lba, data: buf }
}

/// The stored form of a name.
pub fn name_bytes(name: &str) -> (r: [u8; 16])
    ensures
        r@ == stored_name(name@),
{
    let bytes = name.as_bytes();
    let mut out = [0u8; 16];
    let mut i: usize = 0;
    while i < NAME_LEN && i < bytes.len()
        invariant
            i <= NAME_LEN,
            i <= bytes.len(),
            forall|k: int| 0 <= k < i ==> out[k] == bytes[k],
            forall|k: int| i <= k < NAME_LEN ==> out[k] == 0,
        decreases NAME_LEN - i,
    {
        out[i] = bytes[i];
        i += 1;
    }
    assert(out@ == stored_name(name@));
    out
}

fn same_name(a: &[u8; 16], b: &[u8; 16]) -> (r: bool)
    ensures
        r == (a@ == b@),
{
    let mut i: usize = 0;
    while i < NAME_LEN
        invariant
            i <= NAME_LEN,
            forall|k: int| 0 <= k < i ==> a[k] == b[k],
        decreases NAME_LEN - i,
    {
        if a[i] != b[i] {
            assert(a@[i as int] != b@[i as int]);
            return false;
        }
        i += 1;
    }
    assert(a@ == b@);
    true
}

fn find_entry(es: &Vec<DirEntry>, name: &[u8; 16]) -> (r: Option<usize>)
    ensures
        match r {
            Some(i) => find_name(entries_view(es@), name@) == Some(i as int) && i < es.len(),
            None => find_name(entries_view(es@), name@) is None,
        },
{
    let ghost v = entries_view(es@);
    let mut i: usize = 0;
    while i < es.len()
        invariant
            i <= es.len(),
            v == entries_view(es@),
            forall|j: int| 0 <= j < i ==> !(#[trigger] is_named(v, name@)(j)),
        decreases es.len() - i,
    {
        if es[i].used && same_name(&es[i].name, name) {
            proof {
                lemma_first_where_is(v.len(), is_named(v, name@), Some(i as int));
            }
            return Some(i);
        }
        i += 1;
    }
    proof {
        lemma_first_where_is(v.len(), is_named(v, name@), None);
    }
    None
}

fn find_free_slot(es: &Vec<DirEntry>) -> (r: Option<usize>)
    ensures
        match r {
            Some(i) => find_unused(entries_view(es@)) == Some(i as int) && i < es.len(),
            None => find_unused(entries_view(es@)) is None,
        },
{
    let ghost v = entries_view(es@);
    let mut i: usize = 0;
    while i < es.len()
        invariant
            i <= es.len(),
            v == entries_view(es@),
            forall|j: int| 0 <= j < i ==> !(#[trigger] is_unused(v)(j)),
        decreases es.len() - i,
    {
        if !es[i].used {
            proof {
                lemma_first_where_is(v.len(), is_unused(v), Some(i as int));
            }
            return Some(i);
        }
        i += 1;
    }
    proof {
        lemma_first_where_is(v.len(), is_unused(v), None);
    }
    None
}

/// The sector of the subdirectory `dir_name`.
pub fn resolve_dir_lba(disk: &SectorCache, dir_name: &str) -> (r: Step<u32, Result<u32, String>>)
    ensures
        dir_lba(disk@, dir_name@) == (match r {
            Step::Need(l) => Step::Need(l),
            Step::Done(Ok(lba)) => Step::Done(Ok(lba)),
            Step::Done(Err(e)) => Step::Done(Err(e@)),
        }),
{
    let root = match load_dir_at(disk, DIR_LBA) {
        Step::Need(l) => return Step::Need(l),
        Step::Done(root) => root,
    };
    match find_entry(&root, &name_bytes(dir_name)) {
        None => Step::Done(Err(join3("no such directory '", dir_name, "'"))),
        Some(i) => if root[i].is_dir {
            Step::Done(Ok(root[i].start_lba))
        } else {
            Step::Done(Err(join3("'", dir_name, "' is a file, not a directory")))
        },
    }
}

/// The table that a path leads to, and the name within it.
pub fn resolve_table<'a>(disk: &SectorCache, path: &'a str) -> (r: Step<
    u32,
    Result<(u32, &'a str), String>,
>)
    ensures
        place_of(disk@, path@) == (match r {
            Step::Need(l) => Step::Need(l),
            Step::Done(Ok((lba, name))) => Step::Done(Ok((lba, name@))),
            Step::Done(Err(e)) => Step::Done(Err(e@)),
        }),
{
    match split_once(path, '/') {
        None => Step::Done(Ok((DIR_LBA, path))),
        Some((dir, name)) => {
            if name.unicode_len() == 0 || find_char(name, '/').is_some() {
                return Step::Done(
                    Err(
                        join3(
                            "'",
                            path,
                            "' -- only one level of subdirectory nesting is supported (DIR/NAME, not DIR/SUB/NAME)",
                        ),
                    ),
                );
            }
            match resolve_dir_lba(disk, dir) {
                Step::Need(l) => Step::Need(l),
                Step::Done(Err(e)) => Step::Done(Err(e)),
                Step::Done(Ok(lba)) => Step::Done(Ok((lba, name))),
            }
        },
    }
}

fn push_table_runs(es: &Vec<DirEntry>, runs: &mut Vec<Run>)
    ensures
        final(runs)@ == old(runs)@ + table_runs(entries_view(es@), es@.len()),
{
    let ghost before = runs@;
    let ghost v = entries_view(es@);
    let mut i: usize = 0;
    while i < es.len()
        invariant
            i <= es.len(),
            v == entries_view(es@),
            runs@ == before + table_runs(v, i as nat),
        decreases es.len() - i,
    {
        if es[i].used && es[i].sector_count > 0 {
            runs.push((es[i].start_lba, es[i].sector_count));
        }
        i += 1;
    }
}

/// Every occupied run of the drive, but the first one that equals `exclude`:
/// the run that is about to be replaced.
pub fn collect_occupied(disk: &SectorCache, exclude: Option<Run>) -> (r: Step<u32, Vec<Run>>)
    ensures
        occupied_runs(disk@, exclude) == (match r {
            Step::Need(l) => Step::Need(l),
            Step::Done(runs) => Step::Done(runs@),
        }),
{
    let root = match load_dir_at(disk, DIR_LBA) {
        Step::Need(l) => return Step::Need(l),
        Step::Done(root) => root,
    };
    let ghost v = entries_view(root@);
    let mut runs: Vec<Run> = Vec::new();
    let mut i: usize = 0;
    while i < root.len()
        invariant
            i <= root.len(),
            v == entries_view(root@),
            load_dir(disk@, DIR_LBA) == Step::<u32, Seq<EntryView>>::Done(v),
            root_runs(disk@, v, i as nat) == Step::<u32, Seq<Run>>::Done(runs@),
        decreases root.len() - i,
    {
        let e = root[i];
        if e.used && e.sector_count != 0 {
            runs.push((e.start_lba, e.sector_count));
            if e.is_dir {
                match load_dir_at(disk, e.start_lba) {
                    Step::Need(l) => {
                        proof {
                            lemma_root_runs_need(disk@, v, (i + 1) as nat, v.len(), l);
                        }
                        return Step::Need(l);
                    },
                    Step::Done(sub) => push_table_runs(&sub, &mut runs),
                }
            }
        }
        i += 1;
    }
    if let Some(ex) = exclude {
        let ghost all = runs@;
        let mut k: usize = 0;
        while k < runs.len() && !(runs[k].0 == ex.0 && runs[k].1 == ex.1)
            invariant
                k <= runs.len(),
                runs@ == all,
                forall|j: int| 0 <= j < k ==> !(#[trigger] is_run(all, ex)(j)),
            decreases runs.len() - k,
        {
            k += 1;
        }
        if k < runs.len() {
            proof {
                lemma_first_where_is(all.len(), is_run(all, ex), Some(k as int));
            }
            runs.remove(k);
        } else {
            proof {
                lemma_first_where_is(all.len(), is_run(all, ex), None);
            }
        }
    }
    Step::Done(runs)
}

/// A sector that is missing while the first entries are scanned is missing for
/// the whole scan.
proof fn lemma_root_runs_need(d: DiskView, root: Seq<EntryView>, k: nat, n: nat, l: u32)
    requires
        k <= n,
        root_runs(d, root, k) == Step::<u32, Seq<Run>>::Need(l),
    ensures
        root_runs(d, root, n) == Step::<u32, Seq<Run>>::Need(l),
    decreases n,
{
    if k < n {
        lemma_root_runs_need(d, root, k, (n - 1) as nat, l);
    }
}

/// The first free run of `needed` pool sectors, counted from the pool's start.
pub fn find_free_span(occupied: &Vec<Run>, needed: usize) -> (r: Option<u32>)
    requires
        needed <= NUM_DATA_SECTORS,
    ensures
        match r {
            Some(start) => free_span(occupied@, needed as nat) == Some(start as int) && start
                + needed <= NUM_DATA_SECTORS,
            None => free_span(occupied@, needed as nat) is None,
        },
{
    let ghost n = (NUM_DATA_SECTORS - needed + 1) as nat;
    let ghost p = is_free(occupied@, needed as nat);
    let mut start: usize = 0;
    while start <= NUM_DATA_SECTORS - needed
        invariant
            needed <= NUM_DATA_SECTORS,
            start <= NUM_DATA_SECTORS - needed + 1,
            n == NUM_DATA_SECTORS - needed + 1,
            p == is_free(occupied@, needed as nat),
            forall|j: int| 0 <= j < start ==> !(#[trigger] p(j)),
        decreases NUM_DATA_SECTORS - needed + 1 - start,
    {
        let cand_start: u64 = FILE_DATA_START_LBA as u64 + start as u64;
        let cand_end: u64 = cand_start + needed as u64;
        let mut k: usize = 0;
        let mut free = true;
        while k < occupied.len()
            invariant
                k <= occupied.len(),
                cand_start == FILE_DATA_START_LBA + start,
                cand_end == cand_start + needed,
                p == is_free(occupied@, needed as nat),
                free == (forall|i: int|
                    0 <= i < k ==> !overlaps(
                        #[trigger] occupied@[i],
                        cand_start as int,
                        cand_end as int,
                    )),
            decreases occupied.len() - k,
        {
            let occ_end: u64 = occupied[k].0 as u64 + occupied[k].1 as u64;
            if cand_start < occ_end && (occupied[k].0 as u64) < cand_end {
                assert(overlaps(occupied@[k as int], cand_start as int, cand_end as int));
                free = false;
            }
            k += 1;
        }
        if free {
            proof {
                assert(p(start as int));
                lemma_first_where_is(n, p, Some(start as int));
            }
            return Some(start as u32);
        }
        assert(!p(start as int));
        start += 1;
    }
    proof {
        lemma_first_where_is(n, p, None);
    }
    None
}

/// A plan of writes as a mathematical value.
pub open spec fn plan_view(r: Step<u32, Result<Vec<SectorWrite>, String>>) -> PlanView {
    match r {
        Step::Need(l) => Step::Need(l),
        Step::Done(Ok(w)) => Step::Done(Ok(writes_view(w@))),
        Step::Done(Err(e)) => Step::Done(Err(e@)),
    }
}

fn text(s: &str) -> (r: String)
    ensures
        r@ == s@,
{
    s.to_owned()
}

/// Creates the directory `name` under the root.
pub fn make_dir(disk: &SectorCache, name: &str) -> (r: Step<u32, Result<Vec<SectorWrite>, String>>)
    ensures
        plan_view(r) == make_dir_plan(disk@, name@),
{
    if find_char(name, '/').is_some() {
        return Step::Done(
            Err(
                text(
                    "mkdir only supports creating a directory directly under the root (no 'mkdir a/b')",
                ),
            ),
        );
    }
    let mut root = match load_dir_at(disk, DIR_LBA) {
        Step::Need(l) => return Step::Need(l),
        Step::Done(root) => root,
    };
    let ghost v = entries_view(root@);
    let target_name = name_bytes(name);
    if find_entry(&root, &target_name).is_some() {
        return Step::Done(Err(join3("'", name, "' already exists")));
    }
    let slot: usize = match find_free_slot(&root) {
        None => return Step::Done(Err(text("directory full (max 8 entries)"))),
        Some(slot) => slot,
    };
    let occupied = match collect_occupied(disk, None) {
        Step::Need(l) => return Step::Need(l),
        Step::Done(runs) => runs,
    };
    let start_pool: u32 = match find_free_span(&occupied, 1) {
        None => return Step::Done(
            Err(text("not enough free disk space (fragmented or full)")),
        ),
        Some(start) => start,
    };
    let table_lba: u32 = FILE_DATA_START_LBA + start_pool;
    let mut writes: Vec<SectorWrite> = Vec::new();
    writes.push(save_dir_at(table_lba, &empty_entries()));
    root.set(
        slot,
        DirEntry {
            used: true,
            is_dir: true,
            name: target_name,
            len: 0,
            start_lba: table_lba,
            sector_count: 1,
        },
    );
    assert(entries_view(root@) == v.update(
        slot as int,
        dir_entry_for(stored_name(name@), table_lba),
    ));
    writes.push(save_dir_at(DIR_LBA, &root));
    assert(writes_view(writes@) == make_dir_plan(disk@, name@)->Done_0->Ok_0);
    Step::Done(Ok(writes))
}

fn push_data_writes(data: &[u8], start_lba: u32, writes: &mut Vec<SectorWrite>)
    requires
        data.len() <= MAX_FILE_BYTES,
        start_lba + MAX_FILE_SECTORS <= u32::MAX,
    ensures
        writes_view(final(writes)@) == writes_view(old(writes)@) + data_writes(data@, start_lba),
{
    let ghost before = writes_view(writes@);
    let ghost all = data_writes(data@, start_lba);
    let needed: usize = (data.len() + 511) / 512;
    let mut i: usize = 0;
    while i < needed
        invariant
            i <= needed,
            needed == sectors_for(data@.len()),
            needed <= MAX_FILE_SECTORS,
            data.len() <= MAX_FILE_BYTES,
            start_lba + MAX_FILE_SECTORS <= u32::MAX,
            all == data_writes(data@, start_lba),
            writes_view(writes@) == before + all.take(i as int),
        decreases needed - i,
    {
        let mut sector = [0u8; 512];
        let base: usize = i * SECTOR_SIZE;
        let mut k: usize = 0;
        while k < SECTOR_SIZE && base + k < data.len()
            invariant
                k <= SECTOR_SIZE,
                base == i * SECTOR_SIZE,
                base <= MAX_FILE_BYTES,
                base + k <= data.len(),
                forall|j: int| 0 <= j < k ==> sector[j] == data[base + j],
                forall|j: int| k <= j < SECTOR_SIZE ==> sector[j] == 0,
            decreases SECTOR_SIZE - k,
        {
            sector[k] = data[base + k];
            k += 1;
        }
        assert(sector@ == data_sector(data@, i as int));
        let ghost prev = writes_view(writes@);
        writes.push(SectorWrite { lba: start_lba + i as u32, data: sector });
        assert(writes_view(writes@) == prev.push(all[i as int]));
        assert(all.take(i + 1) == all.take(i as int).push(all[i as int]));
        assert(writes_view(writes@) == before + all.take(i + 1));
        i += 1;
    }
    assert(all.take(needed as int) == all);
}

/// Stores `data` in slot `slot` of the table at `table_lba`.
fn store_file(
    disk: &SectorCache,
    table_lba: u32,
    table: Vec<DirEntry>,
    slot: usize,
    target_name: [u8; 16],
    data: &[u8],
) -> (r: Step<u32, Result<Vec<SectorWrite>, String>>)
    requires
        table.len() == MAX_ENTRIES,
        slot < MAX_ENTRIES,
        data.len() <= MAX_FILE_BYTES,
    ensures
        plan_view(r) == store_plan(
            disk@,
            table_lba,
            entries_view(table@),
            slot as int,
            target_name@,
            data@,
        ),
{
    let mut entries = table;
    let ghost v = entries_view(entries@);
    let old_alloc = if entries[slot].used {
        Some((entries[slot].start_lba, entries[slot].sector_count))
    } else {
        None
    };
    let needed: usize = (data.len() + 511) / 512;
    let start_lba: u32 = if needed == 0 {
        0
    } else {
        let occupied = match collect_occupied(disk, old_alloc) {
            Step::Need(l) => return Step::Need(l),
            Step::Done(runs) => runs,
        };
        match find_free_span(&occupied, needed) {
            None => return Step::Done(
                Err(text("not enough free disk space (fragmented or full)")),
            ),
            Some(start) => FILE_DATA_START_LBA + start,
        }
    };
    let mut writes: Vec<SectorWrite> = Vec::new();
    push_data_writes(data, start_lba, &mut writes);
    let ghost stored = writes_view(writes@);
    assert(stored == data_writes(data@, start_lba));
    entries.set(
        slot,
        DirEntry {
            used: true,
            is_dir: false,
            name: target_name,
            len: data.len() as u16,
            start_lba,
            sector_count: needed as u8,
        },
    );
    assert(entries_view(entries@) == v.update(
        slot as int,
        file_entry_for(target_name@, data@.len(), start_lba),
    ));
    writes.push(save_dir_at(table_lba, &entries));
    assert(writes_view(writes@) == stored.push(table_write(table_lba, entries_view(entries@))));
    assert(writes_view(writes@) == store_plan(
        disk@,
        table_lba,
        v,
        slot as int,
        target_name@,
        data@,
    )->Done_0->Ok_0);
    Step::Done(Ok(writes))
}

/// Writes `data` to the file at `path`, in place of what it held before.
pub fn write_file(disk: &SectorCache, path: &str, data: &[u8]) -> (r: Step<
    u32,
    Result<Vec<SectorWrite>, String>,
>)
    ensures
        plan_view(r) == write_plan(disk@, path@, data@),
{
    if data.len() > MAX_FILE_BYTES {
        return Step::Done(
            Err(
                text(
                    "file too large -- max 4096 bytes (8 sectors per file, no bigger files yet)",
                ),
            ),
        );
    }
    let (table_lba, name) = match resolve_table(disk, path) {
        Step::Need(l) => return Step::Need(l),
        Step::Done(Err(e)) => return Step::Done(Err(e)),
        Step::Done(Ok(place)) => place,
    };
    let entries = match load_dir_at(disk, table_lba) {
        Step::Need(l) => return Step::Need(l),
        Step::Done(es) => es,
    };
    let target_name = name_bytes(name);
    match find_entry(&entries, &target_name) {
        Some(i) => if entries[i].is_dir {
            Step::Done(Err(join3("'", name, "' is a directory")))
        } else {
            store_file(disk, table_lba, entries, i, target_name, data)
        },
        None => match find_free_slot(&entries) {
            None => Step::Done(Err(text("directory full (max 8 entries)"))),
            Some(slot) => store_file(disk, table_lba, entries, slot, target_name, data),
        },
    }
}

fn format_no_such_file(name: &str) -> (r: String)
    ensures
        r@ == "no such file '"@ + name@ + "'"@,
{
    join3("no such file '", name, "'")
}

/// Looks up the file at `path`. `refusal` ends the complaint about a directory.
fn find_file(disk: &SectorCache, path: &str, refusal: &str) -> (r: Step<
    u32,
    Result<(u32, Vec<DirEntry>, usize), String>,
>)
    ensures
        file_slot(disk@, path@, refusal@) == (match r {
            Step::Need(l) => Step::Need(l),
            Step::Done(Ok((lba, es, i))) => Step::Done(Ok((lba, entries_view(es@), i as int))),
            Step::Done(Err(e)) => Step::Done(Err(e@)),
        }),
        r matches Step::Done(Ok((lba, es, i))) ==> es.len() == MAX_ENTRIES && i < MAX_ENTRIES,
{
    let (table_lba, name) = match resolve_table(disk, path) {
        Step::Need(l) => return Step::Need(l),
        Step::Done(Err(e)) => return Step::Done(Err(e)),
        Step::Done(Ok(place)) => place,
    };
    let entries = match load_dir_at(disk, table_lba) {
        Step::Need(l) => return Step::Need(l),
        Step::Done(es) => es,
    };
    match find_entry(&entries, &name_bytes(name)) {
        None => Step::Done(Err(format_no_such_file(name))),
        Some(i) => if entries[i].is_dir {
            Step::Done(Err(join3("'", name, refusal)))
        } else {
            Step::Done(Ok((table_lba, entries, i)))
        },
    }
}

/// A sector that is missing, or that the drive cannot read, decides the whole
/// reading.
proof fn lemma_sectors_from_stops(d: DiskView, start: u32, k: nat, n: nat)
    requires
        k <= n,
        !(sectors_from(d, start, k) matches Step::Done(Ok(_))),
    ensures
        sectors_from(d, start, n) == sectors_from(d, start, k),
    decreases n,
{
    if k < n {
        lemma_sectors_from_stops(d, start, k, (n - 1) as nat);
    }
}

/// What a read gave, as a mathematical value.
pub open spec fn read_view(r: Step<u32, Result<Vec<u8>, String>>) -> Step<
    u32,
    Result<Seq<u8>, Seq<char>>,
> {
    match r {
        Step::Need(l) => Step::Need(l),
        Step::Done(Ok(data)) => Step::Done(Ok(data@)),
        Step::Done(Err(e)) => Step::Done(Err(e@)),
    }
}

/// Reads the file at `path`.
pub fn read_file(disk: &SectorCache, path: &str) -> (r: Step<u32, Result<Vec<u8>, String>>)
    ensures
        read_view(r) == file_contents(disk@, path@),
{
    let (_table_lba, entries, i) = match find_file(disk, path, "' is a directory, not a file") {
        Step::Need(l) => return Step::Need(l),
        Step::Done(Err(e)) => return Step::Done(Err(e)),
        Step::Done(Ok(found)) => found,
    };
    let entry = entries[i];
    let ghost n = entry.sector_count as nat;
    let mut data: Vec<u8> = Vec::new();
    let mut k: u8 = 0;
    while k < entry.sector_count
        invariant
            k <= entry.sector_count,
            n == entry.sector_count,
            file_contents(disk@, path@) == entry_contents(disk@, entry@),
            sectors_from(disk@, entry.start_lba, k as nat) == Step::<
                u32,
                Result<Seq<u8>, Seq<char>>,
            >::Done(Ok(data@)),
        decreases entry.sector_count - k,
    {
        let lba: u32 = entry.start_lba.wrapping_add(k as u32);
        match disk.lookup(lba) {
            None => {
                proof {
                    lemma_sectors_from_stops(disk@, entry.start_lba, (k + 1) as nat, n);
                }
                return Step::Need(lba);
            },
            Some(None) => {
                proof {
                    lemma_sectors_from_stops(disk@, entry.start_lba, (k + 1) as nat, n);
                }
                return Step::Done(Err(text("ATA error bit set")));
            },
            Some(Some(sector)) => {
                let ghost before = data@;
                data.extend_from_slice(sector.as_slice());
                assert(data@ == before + sector@);
            },
        }
        k += 1;
    }
    let ghost bytes = data@;
    data.truncate(entry.len as usize);
    assert(data@ == cut(bytes, entry.len as nat));
    Step::Done(Ok(data))
}

/// Removes the file at `path`, which frees its slot and its sectors.
pub fn delete_file(disk: &SectorCache, path: &str) -> (r: Step<
    u32,
    Result<Vec<SectorWrite>, String>,
>)
    ensures
        plan_view(r) == delete_plan(disk@, path@),
{
    let (table_lba, table, slot) = match find_file(
        disk,
        path,
        "' is a directory -- rm does not remove directories (no rmdir yet)",
    ) {
        Step::Need(l) => return Step::Need(l),
        Step::Done(Err(e)) => return Step::Done(Err(e)),
        Step::Done(Ok(found)) => found,
    };
    let mut entries = table;
    let ghost v = entries_view(entries@);
    entries.set(slot, DirEntry::empty());
    assert(entries_view(entries@) == v.update(slot as int, empty_entry()));
    let mut writes: Vec<SectorWrite> = Vec::new();
    writes.push(save_dir_at(table_lba, &entries));
    assert(writes_view(writes@) == delete_plan(disk@, path@)->Done_0->Ok_0);
    Step::Done(Ok(writes))
}

/// One line of a directory listing: name, directory flag, length.
pub type ListingLine = (String, bool, u16);

/// A listing as a mathematical value.
pub open spec fn lines_view(lines: Seq<ListingLine>) -> Seq<ListingView> {
    Seq::new(lines.len(), |i: int| (lines[i].0@, lines[i].1, lines[i].2))
}

/// What a directory holds, by name, directory flag and length: the root, or the
/// subdirectory `dir`.
pub fn list(disk: &SectorCache, dir: Option<&str>) -> (r: Step<
    u32,
    Result<Vec<ListingLine>, String>,
>)
    ensures
        listing(
            disk@,
            match dir {
                Some(name) => Some(name@),
                None => None,
            },
        ) == (match r {
            Step::Need(l) => Step::Need(l),
            Step::Done(Ok(lines)) => Step::Done(Ok(lines_view(lines@))),
            Step::Done(Err(e)) => Step::Done(Err(e@)),
        }),
{
    let table_lba: u32 = match dir {
        Some(name) => match resolve_dir_lba(disk, name) {
            Step::Need(l) => return Step::Need(l),
            Step::Done(Err(e)) => return Step::Done(Err(e)),
            Step::Done(Ok(lba)) => lba,
        },
        None => DIR_LBA,
    };
    let es = match load_dir_at(disk, table_lba) {
        Step::Need(l) => return Step::Need(l),
        Step::Done(es) => es,
    };
    let ghost v = entries_view(es@);
    let mut lines: Vec<ListingLine> = Vec::new();
    let mut i: usize = 0;
    while i < es.len()
        invariant
            i <= es.len(),
            v == entries_view(es@),
            lines_view(lines@) == listing_of(v, i as nat),
        decreases es.len() - i,
    {
        let ghost before = lines@;
        if es[i].used {
            lines.push((es[i].name_str(), es[i].is_dir, es[i].len));
            assert(lines_view(lines@) == lines_view(before).push(
                (shown_name(v[i as int].name), v[i as int].is_dir, v[i as int].len),
            ));
        }
        i += 1;
    }
    Step::Done(Ok(lines))
}

} // verus!
