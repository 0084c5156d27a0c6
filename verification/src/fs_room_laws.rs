//! Where the file system has room, and what its tables and files hold.

use crate::bytes::{le16, le32};
use crate::disk::DiskView;
use crate::fs::{
    data_sector, data_writes, delete_plan, file_contents, file_entry_for, find_name, find_unused,
    free_span, is_free, is_named, is_unused, listing, listing_of, make_dir_plan, occupied_runs,
    overlaps, place_of, sectors_for, sectors_from, shown_name, slot_run, store_plan, stored_name,
    table_of, table_write, write_plan, EntryView, PlanView, Run, DIR_LBA, FILE_DATA_START_LBA,
    MAX_ENTRIES, NUM_DATA_SECTORS,
};
use crate::fs_laws::{
    entry_in, is_entry, is_table, lemma_occupied_source, lemma_root_runs_done, table_at, table_lba,
    well_formed,
};
use crate::search::lemma_first_where;
use crate::step::Step;
use crate::text::{first_index, lemma_first_index};
use vstd::prelude::*;
use vstd::utf8::encode_utf8;

verus! {

/// Whether an entry of the drive has sector `l`.
pub open spec fn in_use(d: DiskView, l: int) -> bool {
    exists|t: Option<int>, i: int| #[trigger]
        is_entry(d, t, i) && entry_in(d, t, i).start_lba <= l < entry_in(d, t, i).start_lba
            + entry_in(d, t, i).sector_count
}

/// Whether `n` sectors from sector `start` on lie in the pool, and no entry has one.
pub open spec fn has_span(d: DiskView, start: int, n: int) -> bool {
    2 <= start && start + n <= 66 && forall|l: int| start <= l < start + n ==> !#[trigger] in_use(d, l)
}

/// Whether a path names a file in table `t` of the drive: the name alone in the root,
/// or behind the name of a subdirectory and a slash.
pub open spec fn leads_to(d: DiskView, path: Seq<char>, t: Option<int>, name: Seq<char>) -> bool {
    &&& !name.contains('/')
    &&& match t {
        None => path == name,
        Some(r) => is_table(d, t) && name.len() > 0 && exists|dir: Seq<char>|
            !dir.contains('/') && path == #[trigger] (dir + "/"@ + name) && entry_in(
                d,
                None,
                r,
            ).name == stored_name(dir),
    }
}

/// Whether a file of this name can be entered into a table: no directory has the name,
/// and a file has it or a slot is unused.
pub open spec fn takes_name(es: Seq<EntryView>, name: Seq<char>) -> bool {
    &&& forall|i: int|
        0 <= i < 8 && (#[trigger] es[i]).used && es[i].name == stored_name(name) ==> !es[i].is_dir
    &&& exists|i: int| 0 <= i < 8 && (!(#[trigger] es[i]).used || es[i].name == stored_name(name))
}

/// A path leads to the table that it names.
proof fn lemma_leads_to(d: DiskView, path: Seq<char>, t: Option<int>, name: Seq<char>)
    requires
        well_formed(d),
        leads_to(d, path, t, name),
    ensures
        place_of(d, path) == Step::<u32, Result<(u32, Seq<char>), Seq<char>>>::Done(
            Ok((table_lba(d, t), name)),
        ),
        is_table(d, t),
{
    lemma_first_index(path, '/');
    lemma_first_index(name, '/');
    assert(is_table(d, None));
    if let Some(i) = first_index(name, '/') {
        assert(name[i] == '/');
    }
    if let Some(r) = t {
        let dir = choose|dir: Seq<char>|
            !dir.contains('/') && path == #[trigger] (dir + "/"@ + name) && entry_in(
                d,
                None,
                r,
            ).name == stored_name(dir);
        reveal_strlit("/");
        assert(path[dir.len() as int] == '/');
        let i = first_index(path, '/')->Some_0;
        if i < dir.len() {
            assert(dir[i] == '/');
        }
        assert(path.take(i) == dir);
        assert(path.skip(i + 1) == name);
        let root = table_at(d, None);
        let stored = stored_name(dir);
        lemma_first_where(root.len(), is_named(root, stored));
        assert(is_entry(d, None, r));
        assert(is_named(root, stored)(r));
        let j = find_name(root, stored)->Some_0;
        assert(is_named(root, stored)(j));
        assert(is_entry(d, None, j));
    }
}

/// Sectors that no entry has are found free.
proof fn lemma_span_found(d: DiskView, start: int, n: nat, exclude: Option<Run>)
    requires
        well_formed(d),
        0 < n,
        has_span(d, start, n as int),
    ensures
        occupied_runs(d, exclude) is Done,
        free_span(occupied_runs(d, exclude)->Done_0, n) matches Some(found) && 0 <= found
            <= start - 2,
{
    lemma_root_runs_done(d, MAX_ENTRIES as nat);
    assert(is_table(d, None));
    let runs = occupied_runs(d, exclude)->Done_0;
    let at = start - 2;
    assert(is_free(runs, n)(at)) by {
        assert forall|m: int| 0 <= m < runs.len() implies !overlaps(
            #[trigger] runs[m],
            FILE_DATA_START_LBA + at,
            FILE_DATA_START_LBA + at + n,
        ) by {
            let (u, j) = lemma_occupied_source(d, exclude, m);
            let e = entry_in(d, u, j);
            assert(is_entry(d, u, j));
            if overlaps(runs[m], start, start + n) {
                let l = if start <= e.start_lba {
                    e.start_lba as int
                } else {
                    start
                };
                assert(in_use(d, l));
            }
        }
    }
    lemma_first_where((NUM_DATA_SECTORS - n + 1) as nat, is_free(runs, n));
}

/// A write of up to 4096 bytes is accepted wherever its directory has a slot for the
/// name and enough sectors in a row belong to nothing. The data goes to sectors in a
/// row, none of them behind those, and the directory's table is written last.
pub proof fn law_write_fits_where_there_is_room(
    d: DiskView,
    path: Seq<char>,
    t: Option<int>,
    name: Seq<char>,
    data: Seq<u8>,
    start: int,
)
    requires
        well_formed(d),
        leads_to(d, path, t, name),
        takes_name(table_at(d, t), name),
        data.len() <= 4096,
        has_span(d, start, (data.len() as int + 511) / 512),
    ensures
        write_plan(d, path, data) matches Step::Done(Ok(w)) && {
            let n = (data.len() as int + 511) / 512;
            &&& w.len() == n + 1
            &&& w[n].lba == (match t {
                None => 1,
                Some(r) => table_of(d[1u32])[r].start_lba,
            })
            &&& forall|i: int|
                0 <= i < n ==> 2 <= (#[trigger] w[i]).lba <= start + i && w[i].lba == w[0].lba + i
                    && w[i].data.len() == 512
            &&& forall|i: int, k: int|
                0 <= i < n && 0 <= k < 512 ==> #[trigger] w[i].data[k] == (if 512 * i + k
                    < data.len() {
                    data[512 * i + k]
                } else {
                    0
                })
        },
{
    lemma_leads_to(d, path, t, name);
    let es = table_at(d, t);
    let stored = stored_name(name);
    let n = sectors_for(data.len());
    lemma_first_where(es.len(), is_named(es, stored));
    lemma_first_where(es.len(), is_unused(es));
    let i = choose|i: int| 0 <= i < 8 && (!(#[trigger] es[i]).used || es[i].name == stored);
    assert(is_named(es, stored)(i) || is_unused(es)(i));
    let slot = match find_name(es, stored) {
        Some(j) => j,
        None => find_unused(es)->Some_0,
    };
    if let Some(j) = find_name(es, stored) {
        assert(is_named(es, stored)(j));
        assert(es[j].used);
    }
    assert(write_plan(d, path, data) == store_plan(d, table_lba(d, t), es, slot, stored, data));
    if data.len() > 0 {
        lemma_span_found(d, start, n, slot_run(es[slot]));
        let found = free_span(
            occupied_runs(d, slot_run(es[slot]))->Done_0,
            n,
        )->Some_0;
        let first = (FILE_DATA_START_LBA + found) as u32;
        let w = data_writes(data, first).push(
            table_write(table_lba(d, t), es.update(slot, file_entry_for(stored, data.len(), first))),
        );
        assert(write_plan(d, path, data) == PlanView::Done(Ok(w)));
        assert forall|i: int| 0 <= i < n implies 2 <= (#[trigger] w[i]).lba <= start + i && w[i].lba
            == w[0].lba + i && w[i].data.len() == 512 by {
            assert(w[i].data == data_sector(data, i));
        }
        assert forall|i: int, k: int| 0 <= i < n && 0 <= k < 512 implies #[trigger] w[i].data[k]
            == (if 512 * i + k < data.len() {
            data[512 * i + k]
        } else {
            0
        }) by {
            assert(w[i].data == data_sector(data, i));
        }
        assert(w[n as int].lba == table_lba(d, t));
    } else {
        let w = seq![table_write(table_lba(d, t), es.update(slot, file_entry_for(stored, 0, 0)))];
        assert(write_plan(d, path, data) == PlanView::Done(Ok(w)));
        assert(w[0].lba == table_lba(d, t));
    }
}

/// A directory can be created wherever the root has an unused slot, nothing has the
/// name and a sector of the pool belongs to nothing.
pub proof fn law_directory_fits_where_there_is_room(
    d: DiskView,
    name: Seq<char>,
    slot: int,
    start: int,
)
    requires
        well_formed(d),
        !name.contains('/'),
        0 <= slot < 8,
        !table_of(d[1u32])[slot].used,
        forall|i: int|
            0 <= i < 8 && (#[trigger] table_of(d[1u32])[i]).used ==> table_of(d[1u32])[i].name
                != stored_name(name),
        has_span(d, start, 1),
    ensures
        make_dir_plan(d, name) matches Step::Done(Ok(w)) && {
            &&& w.len() == 2
            &&& 2 <= w[0].lba <= start
            &&& w[1].lba == 1
        },
{
    lemma_first_index(name, '/');
    if let Some(i) = first_index(name, '/') {
        assert(name[i] == '/');
    }
    assert(is_table(d, None));
    let root = table_at(d, None);
    lemma_first_where(root.len(), is_named(root, stored_name(name)));
    lemma_first_where(root.len(), is_unused(root));
    assert(is_unused(root)(slot));
    if let Some(j) = find_name(root, stored_name(name)) {
        assert(is_named(root, stored_name(name))(j));
        assert(root[j].used);
    }
    lemma_span_found(d, start, 1, None);
    let w = make_dir_plan(d, name)->Done_0->Ok_0;
    assert(w.len() == 2);
    assert(w[1].lba == DIR_LBA);
}

/// A write of more than 4096 bytes is refused, and so is one to a path with more than
/// one slash.
pub proof fn law_write_is_refused(d: DiskView, path: Seq<char>, data: Seq<u8>, i: int, j: int)
    requires
        data.len() > 4096 || 0 <= i < j < path.len() && path[i] == '/' && path[j] == '/',
    ensures
        write_plan(d, path, data) matches Step::Done(Err(_)),
{
    if data.len() <= 4096 {
        lemma_first_index(path, '/');
        let f = first_index(path, '/')->Some_0;
        let name = path.skip(f + 1);
        lemma_first_index(name, '/');
        assert(name[j - f - 1] == '/');
    }
}

/// Every file that can be read can be removed: its directory's table is written, and
/// nothing else.
pub proof fn law_readable_files_can_be_removed(d: DiskView, path: Seq<char>, bytes: Seq<u8>)
    requires
        well_formed(d),
        file_contents(d, path) == Step::<u32, Result<Seq<u8>, Seq<char>>>::Done(Ok(bytes)),
    ensures
        match (delete_plan(d, path), place_of(d, path)) {
            (Step::Done(Ok(w)), Step::Done(Ok((lba, name)))) => w.len() == 1 && w[0].lba == lba,
            _ => false,
        },
{
}

/// A directory is no file: it cannot be read, written or removed as one.
pub proof fn law_directories_are_not_files(
    d: DiskView,
    path: Seq<char>,
    t: Option<int>,
    name: Seq<char>,
    slot: int,
    data: Seq<u8>,
)
    requires
        well_formed(d),
        leads_to(d, path, t, name),
        is_entry(d, t, slot),
        entry_in(d, t, slot).name == stored_name(name),
        entry_in(d, t, slot).is_dir,
    ensures
        file_contents(d, path) matches Step::Done(Err(_)),
        delete_plan(d, path) matches Step::Done(Err(_)),
        write_plan(d, path, data) matches Step::Done(Err(_)),
        t is None ==> make_dir_plan(d, name) matches Step::Done(Err(_)),
{
    lemma_leads_to(d, path, t, name);
    lemma_slot_found(d, t, name, slot);
    lemma_first_index(name, '/');
}

/// A file that is not there can be neither read nor removed.
pub proof fn law_missing_files_are_refused(
    d: DiskView,
    path: Seq<char>,
    t: Option<int>,
    name: Seq<char>,
)
    requires
        well_formed(d),
        leads_to(d, path, t, name),
        forall|i: int| #[trigger] is_entry(d, t, i) ==> entry_in(d, t, i).name != stored_name(name),
    ensures
        file_contents(d, path) matches Step::Done(Err(_)),
        delete_plan(d, path) matches Step::Done(Err(_)),
{
    lemma_leads_to(d, path, t, name);
    let es = table_at(d, t);
    let stored = stored_name(name);
    lemma_first_where(es.len(), is_named(es, stored));
    if let Some(j) = find_name(es, stored) {
        assert(is_named(es, stored)(j));
        assert(is_entry(d, t, j));
    }
}

/// The one slot with a name is the slot that is found.
proof fn lemma_slot_found(d: DiskView, t: Option<int>, name: Seq<char>, slot: int)
    requires
        well_formed(d),
        is_entry(d, t, slot),
        entry_in(d, t, slot).name == stored_name(name),
    ensures
        find_name(table_at(d, t), stored_name(name)) == Some(slot),
{
    let es = table_at(d, t);
    let stored = stored_name(name);
    lemma_first_where(es.len(), is_named(es, stored));
    assert(is_named(es, stored)(slot));
    let j = find_name(es, stored)->Some_0;
    assert(is_named(es, stored)(j));
    assert(is_entry(d, t, j));
}

/// A file that is there is read as its entry says: the bytes of its sectors, one sector
/// behind the other, as many as it is long.
pub proof fn law_file_is_read_from_its_sectors(
    d: DiskView,
    path: Seq<char>,
    t: Option<int>,
    name: Seq<char>,
    slot: int,
    bytes: Seq<u8>,
    i: int,
)
    requires
        well_formed(d),
        leads_to(d, path, t, name),
        is_entry(d, t, slot),
        entry_in(d, t, slot).name == stored_name(name),
        !entry_in(d, t, slot).is_dir,
        file_contents(d, path) == Step::<u32, Result<Seq<u8>, Seq<char>>>::Done(Ok(bytes)),
        0 <= i < bytes.len(),
    ensures
        bytes.len() == entry_in(d, t, slot).len,
        d[(entry_in(d, t, slot).start_lba + i / 512) as u32] matches Some(s) && bytes[i] == s[i
            % 512],
{
    lemma_leads_to(d, path, t, name);
    lemma_slot_found(d, t, name, slot);
    let e = entry_in(d, t, slot);
    assert(is_entry(d, t, slot));
    assert(e.sector_count == sectors_for(e.len as nat));
    lemma_sectors_bytes(d, e.start_lba, e.sector_count as nat, i);
}

proof fn lemma_sectors_bytes(d: DiskView, start: u32, k: nat, i: int)
    requires
        well_formed(d),
        start + k <= 0x1000,
        sectors_from(d, start, k) matches Step::Done(Ok(_)),
        0 <= i,
    ensures
        sectors_from(d, start, k)->Done_0->Ok_0.len() == 512 * k,
        i < 512 * k ==> (d[(start + i / 512) as u32] matches Some(s) && sectors_from(
            d,
            start,
            k,
        )->Done_0->Ok_0[i] == s[i % 512]),
    decreases k,
{
    if k > 0 {
        lemma_sectors_bytes(d, start, (k - 1) as nat, i);
        let lba = start.wrapping_add((k - 1) as u32);
        assert(lba == start + (k - 1));
        let before = sectors_from(d, start, (k - 1) as nat)->Done_0->Ok_0;
        let all = sectors_from(d, start, k)->Done_0->Ok_0;
        assert(d.contains_key(lba));
        let s = d[lba]->Some_0;
        assert(s.len() == 512);
        assert(all == before + s);
        if 512 * (k - 1) <= i < 512 * k {
            assert(i / 512 == k - 1);
            assert(all[i] == s[i - 512 * (k - 1)]);
        }
    }
}

/// Where a table keeps its entries: behind four bytes that mark it as a table, 25 bytes
/// for each of eight. A sector without the mark is an empty table.
pub proof fn law_entries_have_their_places(s: Seq<u8>, i: int)
    requires
        s.len() == 512,
        0 <= i < 8,
    ensures
        table_of(Some(s)).len() == 8,
        table_of(None).len() == 8,
        !table_of(None)[i].used,
        ({
            let e = table_of(Some(s))[i];
            let at = 4 + 25 * i;
            if le32(s, 0) == 0x53504B46 {
                &&& e.used == (s[at] != 0)
                &&& e.is_dir == (s[at + 1] != 0)
                &&& e.name == s.subrange(at + 2, at + 18)
                &&& e.len == le16(s, at + 18)
                &&& e.start_lba == le32(s, at + 20)
                &&& e.sector_count == s[at + 24]
            } else {
                !e.used
            }
        }),
{
}

proof fn lemma_listing_has(es: Seq<EntryView>, k: nat, i: int)
    requires
        k <= es.len(),
        0 <= i < k,
        es[i].used,
    ensures
        listing_of(es, k).contains((shown_name(es[i].name), es[i].is_dir, es[i].len)),
    decreases k,
{
    let line = (shown_name(es[i].name), es[i].is_dir, es[i].len);
    let before = listing_of(es, (k - 1) as nat);
    if i < k - 1 {
        lemma_listing_has(es, (k - 1) as nat, i);
        let m = choose|m: int| 0 <= m < before.len() && before[m] == line;
        assert(listing_of(es, k)[m] == line);
    } else {
        assert(listing_of(es, k)[before.len() as int] == line);
    }
}

proof fn lemma_listing_from(es: Seq<EntryView>, k: nat, m: int) -> (i: int)
    requires
        k <= es.len(),
        0 <= m < listing_of(es, k).len(),
    ensures
        m <= i < k,
        es[i].used,
        listing_of(es, k)[m] == (shown_name(es[i].name), es[i].is_dir, es[i].len),
    decreases k,
{
    let before = listing_of(es, (k - 1) as nat);
    lemma_listing_len(es, (k - 1) as nat);
    if m < before.len() {
        lemma_listing_from(es, (k - 1) as nat, m)
    } else {
        k - 1
    }
}

proof fn lemma_listing_len(es: Seq<EntryView>, k: nat)
    ensures
        listing_of(es, k).len() <= k,
    decreases k,
{
    if k > 0 {
        lemma_listing_len(es, (k - 1) as nat);
    }
}

/// A listing has a line for every entry of its directory, with the entry's name, whether
/// it is a directory and its length, and no other line.
pub proof fn law_listing_has_every_entry(d: DiskView, i: int, m: int)
    requires
        well_formed(d),
    ensures
        listing(d, None) matches Step::Done(Ok(lines)) && {
            &&& is_entry(d, None, i) ==> lines.contains(
                (
                    shown_name(entry_in(d, None, i).name),
                    entry_in(d, None, i).is_dir,
                    entry_in(d, None, i).len,
                ),
            )
            &&& 0 <= m < lines.len() ==> exists|j: int| #[trigger]
                is_entry(d, None, j) && lines[m] == (
                    shown_name(entry_in(d, None, j).name),
                    entry_in(d, None, j).is_dir,
                    entry_in(d, None, j).len,
                )
        },
{
    assert(is_table(d, None));
    let es = table_at(d, None);
    if is_entry(d, None, i) {
        lemma_listing_has(es, es.len(), i);
    }
    if 0 <= m < listing_of(es, es.len()).len() {
        let j = lemma_listing_from(es, es.len(), m);
        assert(is_entry(d, None, j));
    }
}

/// The listing of a subdirectory is made of its own table.
pub proof fn law_subdirectory_listing_has_every_entry(
    d: DiskView,
    dir: Seq<char>,
    r: int,
    i: int,
    m: int,
)
    requires
        well_formed(d),
        is_table(d, Some(r)),
        entry_in(d, None, r).name == stored_name(dir),
    ensures
        listing(d, Some(dir)) matches Step::Done(Ok(lines)) && {
            &&& is_entry(d, Some(r), i) ==> lines.contains(
                (
                    shown_name(entry_in(d, Some(r), i).name),
                    entry_in(d, Some(r), i).is_dir,
                    entry_in(d, Some(r), i).len,
                ),
            )
            &&& 0 <= m < lines.len() ==> exists|j: int| #[trigger]
                is_entry(d, Some(r), j) && lines[m] == (
                    shown_name(entry_in(d, Some(r), j).name),
                    entry_in(d, Some(r), j).is_dir,
                    entry_in(d, Some(r), j).len,
                )
        },
{
    assert(is_table(d, None));
    assert(is_entry(d, None, r));
    lemma_slot_found(d, None, dir, r);
    let es = table_at(d, Some(r));
    if is_entry(d, Some(r), i) {
        lemma_listing_has(es, es.len(), i);
    }
    if 0 <= m < listing_of(es, es.len()).len() {
        let j = lemma_listing_from(es, es.len(), m);
        assert(is_entry(d, Some(r), j));
    }
}

/// A name is stored by its first sixteen bytes; a shorter one has zeros behind it.
pub proof fn law_names_are_cut_to_sixteen_bytes(name: Seq<char>, i: int)
    requires
        0 <= i < 16,
    ensures
        stored_name(name).len() == 16,
        stored_name(name)[i] == (if i < encode_utf8(name).len() {
            encode_utf8(name)[i]
        } else {
            0
        }),
{
}

} // verus!
