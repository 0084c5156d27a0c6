//! What the file system promises as a whole.
//!
//! A drive is well formed when its directory tables make sense together: no two
//! entries share a sector, every run lies in the pool, names are unique within
//! a table. A blank drive is well formed, every operation keeps a drive so, and
//! on a well-formed drive a read gives back what was written.

use crate::bytes::le32;
use crate::disk::{apply_writes, DiskView, WriteView, SECTOR_SIZE};
use crate::fs::{
    cut, data_sector, data_writes, delete_plan, dir_entry_for, dir_lba, empty_entry, empty_table, entry_at,
    entry_byte, entry_contents, file_contents, file_entry_for, find_name, find_unused, free_span,
    is_free, is_named, is_run, is_unused, is_zero, listing, listing_of, load_dir, make_dir_plan,
    occupied_runs, overlaps, place_of, root_runs, sectors_for, sectors_from, shown_name, slot_run,
    storable, store_plan, stored_name, table_of, table_runs, table_sector, table_write, used_bytes,
    write_plan, EntryView, PlanView, Run, DIR_LBA, ENTRY_LEN, FILE_DATA_START_LBA, MAGIC,
    MAX_ENTRIES, MAX_FILE_BYTES, NAME_LEN, NUM_DATA_SECTORS,
};
use crate::search::{first_where, lemma_first_where, lemma_first_where_is};
use crate::step::Step;
use crate::text::first_index;
use vstd::prelude::*;
use vstd::utf8::{
    decode_first_scalar, decode_utf8, encode_utf8, encode_utf8_decode_utf8, encode_utf8_valid_utf8,
    length_of_first_scalar, pop_first_scalar, valid_utf8,
};

verus! {

/// The table of the root (`None`), or of the subdirectory in root slot `t`.
pub open spec fn table_at(d: DiskView, t: Option<int>) -> Seq<EntryView> {
    let root = table_of(d[DIR_LBA]);
    match t {
        None => root,
        Some(r) => table_of(d[root[r].start_lba]),
    }
}

/// The sector of that table.
pub open spec fn table_lba(d: DiskView, t: Option<int>) -> u32 {
    match t {
        None => DIR_LBA,
        Some(r) => table_of(d[DIR_LBA])[r].start_lba,
    }
}

/// Whether there is such a table.
pub open spec fn is_table(d: DiskView, t: Option<int>) -> bool {
    match t {
        None => true,
        Some(r) => 0 <= r < MAX_ENTRIES && table_of(d[DIR_LBA])[r].used && table_of(
            d[DIR_LBA],
        )[r].is_dir,
    }
}

/// Slot `i` of table `t`.
pub open spec fn entry_in(d: DiskView, t: Option<int>, i: int) -> EntryView {
    table_at(d, t)[i]
}

/// Whether slot `i` of table `t` is in use.
pub open spec fn is_entry(d: DiskView, t: Option<int>, i: int) -> bool {
    is_table(d, t) && 0 <= i < MAX_ENTRIES && entry_in(d, t, i).used
}

/// Whether an entry makes sense by itself: a directory has one sector, a file as
/// many as its length takes, and they lie in the pool.
pub open spec fn entry_ok(e: EntryView) -> bool {
    &&& e.is_dir ==> e.sector_count == 1
    &&& !e.is_dir ==> e.len <= MAX_FILE_BYTES && e.sector_count == sectors_for(e.len as nat)
    &&& e.sector_count > 0 ==> FILE_DATA_START_LBA <= e.start_lba && e.start_lba + e.sector_count
        <= FILE_DATA_START_LBA + NUM_DATA_SECTORS
}

/// Whether two entries have no sector in common.
pub open spec fn apart(a: EntryView, b: EntryView) -> bool {
    a.sector_count > 0 && b.sector_count > 0 ==> !overlaps(
        (a.start_lba, a.sector_count),
        b.start_lba as int,
        b.start_lba + b.sector_count,
    )
}

/// Whether every sector that was read has a sector's length.
pub open spec fn whole_sectors(d: DiskView) -> bool {
    forall|l: u32| #[trigger]
        d.contains_key(l) ==> (d[l] matches Some(s) ==> s.len() == SECTOR_SIZE)
}

/// Whether the drive's directory tables are known and make sense together.
pub open spec fn well_formed(d: DiskView) -> bool {
    &&& whole_sectors(d)
    &&& forall|t: Option<int>| #[trigger] is_table(d, t) ==> d.contains_key(table_lba(d, t))
    &&& forall|t: Option<int>, i: int| #[trigger]
        is_entry(d, t, i) ==> entry_ok(entry_in(d, t, i)) && (t is Some ==> !entry_in(
            d,
            t,
            i,
        ).is_dir)
    &&& forall|t: Option<int>, i: int, u: Option<int>, j: int| #[trigger]
        is_entry(d, t, i) && #[trigger] is_entry(d, u, j) && !(t == u && i == j) ==> apart(
            entry_in(d, t, i),
            entry_in(d, u, j),
        )
    &&& forall|t: Option<int>, i: int, j: int| #[trigger]
        is_entry(d, t, i) && #[trigger] is_entry(d, t, j) && i != j ==> entry_in(d, t, i).name
            != entry_in(d, t, j).name
}

/// The bytes of a stored entry read back as the entry.
proof fn lemma_entry_roundtrip(s: Seq<u8>, off: int, e: EntryView)
    requires
        0 <= off,
        off + ENTRY_LEN <= s.len(),
        e.name.len() == NAME_LEN,
        forall|j: int| 0 <= j < ENTRY_LEN ==> s[#[trigger] (off + j)] == entry_byte(e, j),
    ensures
        entry_at(s, off) == e,
{
    let r = entry_at(s, off);
    assert(s[off + 0] == entry_byte(e, 0));
    assert(s[off + 1] == entry_byte(e, 1));
    assert forall|j: int| 0 <= j < NAME_LEN implies r.name[j] == e.name[j] by {
        assert(s[off + (2 + j)] == entry_byte(e, 2 + j));
    }
    assert(r.name == e.name);
    assert(s[off + 18] == entry_byte(e, 18));
    assert(s[off + 19] == entry_byte(e, 19));
    assert(r.len == e.len);
    assert(s[off + 20] == entry_byte(e, 20));
    assert(s[off + 21] == entry_byte(e, 21));
    assert(s[off + 22] == entry_byte(e, 22));
    assert(s[off + 23] == entry_byte(e, 23));
    assert(r.start_lba == e.start_lba);
    assert(s[off + 24] == entry_byte(e, 24));
}

/// A table that was stored reads back as it was.
pub proof fn law_table_roundtrip(es: Seq<EntryView>)
    requires
        es.len() == MAX_ENTRIES,
        forall|i: int| 0 <= i < MAX_ENTRIES ==> (#[trigger] es[i]).name.len() == NAME_LEN,
    ensures
        table_of(Some(table_sector(es))) == es,
{
    let s = table_sector(es);
    assert(le32(s, 0) == MAGIC);
    assert forall|i: int| 0 <= i < MAX_ENTRIES implies #[trigger] table_of(Some(s))[i] == es[i] by {
        let off = 4 + i * ENTRY_LEN;
        assert forall|j: int| 0 <= j < ENTRY_LEN implies s[#[trigger] (off + j)] == entry_byte(
            es[i],
            j,
        ) by {
            assert((off + j - 4) / 25 == i && (off + j - 4) % 25 == j);
        }
        lemma_entry_roundtrip(s, off, es[i]);
    }
    assert(table_of(Some(s)) == es);
}

/// The names of a table that was read have their full length.
proof fn lemma_table_names(d: DiskView, l: u32)
    requires
        whole_sectors(d),
        d.contains_key(l),
    ensures
        table_of(d[l]).len() == MAX_ENTRIES,
        forall|i: int| 0 <= i < MAX_ENTRIES ==> (#[trigger] table_of(d[l])[i]).name.len() == NAME_LEN,
{
}

/// A drive whose root sector is not a directory table is well formed, and holds
/// nothing.
pub proof fn law_blank_drive_is_well_formed(d: DiskView)
    requires
        whole_sectors(d),
        d.contains_key(DIR_LBA),
        d[DIR_LBA] matches Some(s) ==> le32(s, 0) != MAGIC,
    ensures
        well_formed(d),
        listing(d, None) == Step::<u32, Result<Seq<(Seq<char>, bool, u16)>, Seq<char>>>::Done(
            Ok(Seq::empty()),
        ),
{
    lemma_listing_empty(empty_table(), MAX_ENTRIES as nat);
}

/// A table without used entries lists nothing.
proof fn lemma_listing_empty(es: Seq<EntryView>, k: nat)
    requires
        forall|i: int| 0 <= i < k ==> !(#[trigger] es[i]).used,
    ensures
        listing_of(es, k) == Seq::<(Seq<char>, bool, u16)>::empty(),
    decreases k,
{
    if k > 0 {
        lemma_listing_empty(es, (k - 1) as nat);
    }
}

/// The run of an entry.
pub open spec fn run_of(e: EntryView) -> Run {
    (e.start_lba, e.sector_count)
}

proof fn lemma_table_runs_cover(es: Seq<EntryView>, k: nat, i: int)
    requires
        0 <= i < k,
        es[i].used,
        es[i].sector_count > 0,
    ensures
        table_runs(es, k).contains(run_of(es[i])),
    decreases k,
{
    let before = table_runs(es, (k - 1) as nat);
    if i < k - 1 {
        lemma_table_runs_cover(es, (k - 1) as nat, i);
        let m = choose|m: int| 0 <= m < before.len() && before[m] == run_of(es[i]);
        assert(table_runs(es, k)[m] == run_of(es[i]));
    } else {
        assert(table_runs(es, k)[before.len() as int] == run_of(es[i]));
    }
}

/// Each run of a table is that of one of its entries.
proof fn lemma_table_runs_source(es: Seq<EntryView>, k: nat, m: int) -> (i: int)
    requires
        0 <= m < table_runs(es, k).len(),
    ensures
        0 <= i < k,
        es[i].used,
        es[i].sector_count > 0,
        table_runs(es, k)[m] == run_of(es[i]),
    decreases k,
{
    let before = table_runs(es, (k - 1) as nat);
    if m < before.len() {
        lemma_table_runs_source(es, (k - 1) as nat, m)
    } else {
        k - 1
    }
}

/// Every entry with sectors is among the runs that a scan of the drive finds.
proof fn lemma_root_runs_cover(d: DiskView, k: nat, t: Option<int>, i: int)
    requires
        well_formed(d),
        root_runs(d, table_at(d, None), k) is Done,
        is_entry(d, t, i),
        entry_in(d, t, i).sector_count > 0,
        match t {
            None => i < k,
            Some(r) => r < k,
        },
    ensures
        root_runs(d, table_at(d, None), k)->Done_0.contains(run_of(entry_in(d, t, i))),
    decreases k,
{
    let root = table_at(d, None);
    let run = run_of(entry_in(d, t, i));
    let all = root_runs(d, root, k)->Done_0;
    let before = root_runs(d, root, (k - 1) as nat)->Done_0;
    let last = match t {
        None => i,
        Some(r) => r,
    };
    if last < k - 1 {
        lemma_root_runs_cover(d, (k - 1) as nat, t, i);
        let m = choose|m: int| 0 <= m < before.len() && before[m] == run;
        assert(all[m] == run);
    } else {
        match t {
            None => {
                assert(all[before.len() as int] == run);
            },
            Some(r) => {
                assert(is_entry(d, None, r));
                let sub = table_at(d, t);
                assert(sub.len() == MAX_ENTRIES);
                lemma_table_runs_cover(sub, sub.len(), i);
                let tail = table_runs(sub, sub.len());
                let m = choose|m: int| 0 <= m < tail.len() && tail[m] == run;
                assert(all[before.len() + 1 + m] == run);
            },
        }
    }
}

/// The entry that a run of the scan belongs to.
proof fn lemma_root_runs_source(d: DiskView, k: nat, m: int) -> (r: (Option<int>, int))
    requires
        k <= MAX_ENTRIES,
        root_runs(d, table_at(d, None), k) is Done,
        0 <= m < root_runs(d, table_at(d, None), k)->Done_0.len(),
    ensures
        is_entry(d, r.0, r.1),
        entry_in(d, r.0, r.1).sector_count > 0,
        root_runs(d, table_at(d, None), k)->Done_0[m] == run_of(entry_in(d, r.0, r.1)),
        match r.0 {
            None => r.1 < k,
            Some(q) => q < k,
        },
    decreases k,
{
    let root = table_at(d, None);
    let before = root_runs(d, root, (k - 1) as nat)->Done_0;
    if m < before.len() {
        lemma_root_runs_source(d, (k - 1) as nat, m)
    } else if m == before.len() {
        (None, k - 1)
    } else {
        let t = Some(k - 1);
        let sub = table_at(d, t);
        let i = lemma_table_runs_source(sub, sub.len(), m - before.len() - 1);
        (t, i)
    }
}

/// On a well-formed drive the scan finds every table it needs.
pub proof fn lemma_root_runs_done(d: DiskView, k: nat)
    requires
        well_formed(d),
        k <= MAX_ENTRIES,
    ensures
        root_runs(d, table_at(d, None), k) is Done,
    decreases k,
{
    if k > 0 {
        lemma_root_runs_done(d, (k - 1) as nat);
        let e = entry_in(d, None, k - 1);
        if e.used && e.is_dir {
            assert(is_table(d, Some(k - 1)));
        }
    }
}

proof fn lemma_table_runs_differ(d: DiskView, t: Option<int>, k: nat, m: int, n: int)
    requires
        well_formed(d),
        is_table(d, t),
        k <= MAX_ENTRIES,
        0 <= m < n < table_runs(table_at(d, t), k).len(),
    ensures
        table_runs(table_at(d, t), k)[m] != table_runs(table_at(d, t), k)[n],
    decreases k,
{
    let es = table_at(d, t);
    let before = table_runs(es, (k - 1) as nat);
    if n < before.len() {
        lemma_table_runs_differ(d, t, (k - 1) as nat, m, n);
    } else {
        let i = lemma_table_runs_source(es, (k - 1) as nat, m);
        assert(is_entry(d, t, i) && is_entry(d, t, k - 1));
    }
}

/// On a well-formed drive no run is found twice.
proof fn lemma_root_runs_differ(d: DiskView, k: nat, m: int, n: int)
    requires
        well_formed(d),
        k <= MAX_ENTRIES,
        root_runs(d, table_at(d, None), k) is Done,
        0 <= m < n < root_runs(d, table_at(d, None), k)->Done_0.len(),
    ensures
        root_runs(d, table_at(d, None), k)->Done_0[m] != root_runs(
            d,
            table_at(d, None),
            k,
        )->Done_0[n],
    decreases k,
{
    let root = table_at(d, None);
    let before = root_runs(d, root, (k - 1) as nat)->Done_0;
    if n < before.len() {
        lemma_root_runs_differ(d, (k - 1) as nat, m, n);
    } else if m > before.len() {
        lemma_table_runs_differ(
            d,
            Some(k - 1),
            MAX_ENTRIES as nat,
            m - before.len() - 1,
            n - before.len() - 1,
        );
    } else {
        lemma_root_runs_source(d, k, m);
        lemma_root_runs_source(d, k, n);
        if m < before.len() {
            lemma_root_runs_source(d, (k - 1) as nat, m);
            if n == before.len() {
                assert(is_entry(d, None, k - 1));
            } else {
                let sub = table_at(d, Some(k - 1));
                let i = lemma_table_runs_source(sub, sub.len(), n - before.len() - 1);
                assert(is_entry(d, Some(k - 1), i));
            }
        } else {
            let sub = table_at(d, Some(k - 1));
            let i = lemma_table_runs_source(sub, sub.len(), n - before.len() - 1);
            assert(is_entry(d, None, k - 1) && is_entry(d, Some(k - 1), i));
        }
    }
}

/// Every entry with sectors is occupied, but the one that is excluded.
proof fn lemma_occupied_cover(d: DiskView, exclude: Option<Run>, t: Option<int>, i: int)
    requires
        well_formed(d),
        is_entry(d, t, i),
        entry_in(d, t, i).sector_count > 0,
        exclude != Some(run_of(entry_in(d, t, i))),
    ensures
        occupied_runs(d, exclude) is Done,
        occupied_runs(d, exclude)->Done_0.contains(run_of(entry_in(d, t, i))),
{
    assert(is_table(d, None));
    let runs = root_runs(d, table_at(d, None), MAX_ENTRIES as nat)->Done_0;
    let run = run_of(entry_in(d, t, i));
    lemma_root_runs_done(d, MAX_ENTRIES as nat);
    lemma_root_runs_cover(d, MAX_ENTRIES as nat, t, i);
    let m = choose|m: int| 0 <= m < runs.len() && runs[m] == run;
    if let Some(x) = exclude {
        lemma_first_where(runs.len(), is_run(runs, x));
        if let Some(c) = first_where(runs.len(), is_run(runs, x)) {
            assert(is_run(runs, x)(c));
            let rest = runs.remove(c);
            if m < c {
                assert(rest[m] == run);
            } else {
                assert(rest[m - 1] == run);
            }
        }
    }
}

/// What is occupied belongs to an entry, and the excluded run is left out.
pub proof fn lemma_occupied_source(d: DiskView, exclude: Option<Run>, m: int) -> (r: (
    Option<int>,
    int,
))
    requires
        well_formed(d),
        occupied_runs(d, exclude) is Done,
        0 <= m < occupied_runs(d, exclude)->Done_0.len(),
    ensures
        is_entry(d, r.0, r.1),
        entry_in(d, r.0, r.1).sector_count > 0,
        occupied_runs(d, exclude)->Done_0[m] == run_of(entry_in(d, r.0, r.1)),
        exclude != Some(run_of(entry_in(d, r.0, r.1))),
{
    assert(is_table(d, None));
    let runs = root_runs(d, table_at(d, None), MAX_ENTRIES as nat)->Done_0;
    match exclude {
        None => lemma_root_runs_source(d, MAX_ENTRIES as nat, m),
        Some(x) => {
            lemma_first_where(runs.len(), is_run(runs, x));
            match first_where(runs.len(), is_run(runs, x)) {
                None => {
                    assert(!is_run(runs, x)(m));
                    lemma_root_runs_source(d, MAX_ENTRIES as nat, m)
                },
                Some(c) => {
                    assert(is_run(runs, x)(c));
                    let n = if m < c {
                        m
                    } else {
                        m + 1
                    };
                    if n < c {
                        lemma_root_runs_differ(d, MAX_ENTRIES as nat, n, c);
                    } else {
                        lemma_root_runs_differ(d, MAX_ENTRIES as nat, c, n);
                    }
                    lemma_root_runs_source(d, MAX_ENTRIES as nat, n)
                },
            }
        },
    }
}

/// A free span has no sector of any entry but the excluded one.
proof fn lemma_free_span_apart(
    d: DiskView,
    exclude: Option<Run>,
    needed: nat,
    t: Option<int>,
    i: int,
)
    requires
        well_formed(d),
        0 < needed <= NUM_DATA_SECTORS,
        occupied_runs(d, exclude) is Done,
        free_span(occupied_runs(d, exclude)->Done_0, needed) is Some,
        is_entry(d, t, i),
        entry_in(d, t, i).sector_count > 0,
        exclude != Some(run_of(entry_in(d, t, i))),
    ensures
        !overlaps(
            run_of(entry_in(d, t, i)),
            FILE_DATA_START_LBA + free_span(occupied_runs(d, exclude)->Done_0, needed)->0,
            FILE_DATA_START_LBA + free_span(occupied_runs(d, exclude)->Done_0, needed)->0 + needed,
        ),
{
    let runs = occupied_runs(d, exclude)->Done_0;
    let start = free_span(runs, needed)->0;
    lemma_occupied_cover(d, exclude, t, i);
    lemma_first_where((NUM_DATA_SECTORS - needed + 1) as nat, is_free(runs, needed));
    assert(is_free(runs, needed)(start));
    let m = choose|m: int| 0 <= m < runs.len() && runs[m] == run_of(entry_in(d, t, i));
    assert(!overlaps(runs[m], FILE_DATA_START_LBA + start, FILE_DATA_START_LBA + start + needed));
}

/// Whether `d2` is `d` with another table in place of table `t`, and every other
/// table unchanged.
spec fn table_replaced(d: DiskView, d2: DiskView, t: Option<int>, es: Seq<EntryView>) -> bool {
    &&& d2.contains_key(table_lba(d, t))
    &&& d2[table_lba(d, t)] == Some(table_sector(es))
    &&& forall|u: Option<int>|
        #![trigger is_table(d, u)]
        is_table(d, u) && u != t ==> d2.contains_key(table_lba(d, u)) && d2[table_lba(d, u)]
            == d[table_lba(d, u)]
}

/// Two tables of a well-formed drive lie in different sectors.
proof fn lemma_tables_differ(d: DiskView, t: Option<int>, u: Option<int>)
    requires
        well_formed(d),
        is_table(d, t),
        is_table(d, u),
        t != u,
    ensures
        table_lba(d, t) != table_lba(d, u),
{
    if let Some(r) = t {
        assert(is_entry(d, None, r));
    }
    if let Some(r) = u {
        assert(is_entry(d, None, r));
    }
}

/// What the tables are after one slot of one table was replaced by an entry for a
/// file, or emptied.
proof fn lemma_slot_replaced(d: DiskView, d2: DiskView, t: Option<int>, slot: int, e: EntryView)
    requires
        well_formed(d),
        is_table(d, t),
        0 <= slot < MAX_ENTRIES,
        is_entry(d, t, slot) ==> !entry_in(d, t, slot).is_dir,
        e.used ==> !e.is_dir,
        e.name.len() == NAME_LEN,
        table_replaced(d, d2, t, table_at(d, t).update(slot, e)),
    ensures
        forall|u: Option<int>| #[trigger] is_table(d2, u) == is_table(d, u),
        forall|u: Option<int>| #[trigger] is_table(d, u) ==> table_lba(d2, u) == table_lba(d, u),
        forall|u: Option<int>| #[trigger]
            is_table(d, u) ==> table_at(d2, u) == (if u == t {
                table_at(d, t).update(slot, e)
            } else {
                table_at(d, u)
            }),
{
    let es = table_at(d, t).update(slot, e);
    lemma_table_names(d, table_lba(d, t));
    law_table_roundtrip(es);
    assert(is_table(d, None));
    let root = table_at(d, None);
    let root2 = table_at(d2, None);
    assert(root2 == (if t is None {
        es
    } else {
        root
    }));
    if t is None && root[slot].used {
        assert(is_entry(d, None, slot));
    }
    assert forall|u: Option<int>| #[trigger] is_table(d2, u) == is_table(d, u) by {}
}

/// Replacing one slot by a sound entry, apart from all others and with a name of
/// its own, or emptying it, keeps a drive well formed.
proof fn lemma_slot_keeps_well_formed(
    d: DiskView,
    d2: DiskView,
    t: Option<int>,
    slot: int,
    e: EntryView,
)
    requires
        well_formed(d),
        whole_sectors(d2),
        is_table(d, t),
        0 <= slot < MAX_ENTRIES,
        is_entry(d, t, slot) ==> !entry_in(d, t, slot).is_dir,
        e.used ==> !e.is_dir && entry_ok(e),
        e.name.len() == NAME_LEN,
        table_replaced(d, d2, t, table_at(d, t).update(slot, e)),
        e.used ==> forall|u: Option<int>, j: int| #[trigger]
            is_entry(d, u, j) && !(u == t && j == slot) ==> apart(entry_in(d, u, j), e),
        e.used ==> forall|j: int| #[trigger]
            is_entry(d, t, j) && j != slot ==> entry_in(d, t, j).name != e.name,
    ensures
        well_formed(d2),
{
    lemma_slot_replaced(d, d2, t, slot, e);
    lemma_table_names(d, table_lba(d, t));
    assert forall|u: Option<int>, j: int|
        #![trigger is_entry(d2, u, j)]
        is_entry(d2, u, j) implies (if u == t && j == slot {
        entry_in(d2, u, j) == e && e.used
    } else {
        entry_in(d2, u, j) == entry_in(d, u, j) && is_entry(d, u, j)
    }) by {
        assert(is_table(d2, u));
    }
    assert forall|u: Option<int>| #[trigger] is_table(d2, u) implies d2.contains_key(
        table_lba(d2, u),
    ) by {
        assert(is_table(d, u));
    }
    assert forall|u: Option<int>, i: int, v: Option<int>, j: int| #[trigger]
        is_entry(d2, u, i) && #[trigger] is_entry(d2, v, j) && !(u == v && i == j) implies apart(
        entry_in(d2, u, i),
        entry_in(d2, v, j),
    ) by {
        if u == t && i == slot {
            assert(apart(entry_in(d, v, j), e));
        } else if v == t && j == slot {
            assert(apart(entry_in(d, u, i), e));
        } else {
            assert(is_entry(d, u, i) && is_entry(d, v, j));
        }
    }
}

/// The writes of a file's data put its sectors in place and leave every other
/// sector alone.
proof fn lemma_data_writes(d: DiskView, data: Seq<u8>, first: u32, k: nat)
    requires
        k <= sectors_for(data.len()),
        first + sectors_for(data.len()) <= u32::MAX,
    ensures
        forall|l: u32| #[trigger]
            apply_writes(d, data_writes(data, first).take(k as int)).contains_key(l) == (
            d.contains_key(l) || first <= l < first + k),
        forall|l: u32| #[trigger]
            apply_writes(d, data_writes(data, first).take(k as int))[l] == (if first <= l < first
                + k {
                Some(data_sector(data, l - first))
            } else {
                d[l]
            }),
    decreases k,
{
    let w = data_writes(data, first).take(k as int);
    if k > 0 {
        lemma_data_writes(d, data, first, (k - 1) as nat);
        assert(w.drop_last() == data_writes(data, first).take(k - 1));
        assert(w.last() == data_writes(data, first)[k - 1]);
    }
}

/// The sectors of a file's data make up the data, filled up with zeros.
proof fn lemma_read_back(d: DiskView, data: Seq<u8>, first: u32, k: nat)
    requires
        k <= sectors_for(data.len()),
        first + sectors_for(data.len()) <= u32::MAX,
        forall|l: u32|
            first <= l < first + sectors_for(data.len()) ==> d.contains_key(l) && #[trigger] d[l]
                == Some(data_sector(data, l - first)),
    ensures
        sectors_from(d, first, k) matches Step::Done(Ok(bytes)) && bytes.len() == 512 * k && forall|
            j: int,
        |
            0 <= j < 512 * k ==> #[trigger] bytes[j] == (if j < data.len() {
                data[j]
            } else {
                0u8
            }),
    decreases k,
{
    if k > 0 {
        lemma_read_back(d, data, first, (k - 1) as nat);
        let l = (first + (k - 1)) as u32;
        assert(d[l] == Some(data_sector(data, k - 1)));
        let before = sectors_from(d, first, (k - 1) as nat)->Done_0->Ok_0;
        let bytes = before + data_sector(data, k - 1);
        assert(sectors_from(d, first, k) == Step::<u32, Result<Seq<u8>, Seq<char>>>::Done(
            Ok(bytes),
        ));
        assert forall|j: int| 0 <= j < 512 * k implies #[trigger] bytes[j] == (if j < data.len() {
            data[j]
        } else {
            0u8
        }) by {
            if j >= 512 * (k - 1) {
                assert(bytes[j] == data_sector(data, k - 1)[j - 512 * (k - 1)]);
            } else {
                assert(bytes[j] == before[j]);
            }
        }
    }
}

/// Whether two drives have the same in sector `l`.
spec fn same_at(d: DiskView, d2: DiskView, l: u32) -> bool {
    d2.contains_key(l) == d.contains_key(l) && d2[l] == d[l]
}

/// The table of a subdirectory.
proof fn lemma_dir_is_table(d: DiskView, dir: Seq<char>) -> (t: Option<int>)
    requires
        dir_lba(d, dir) matches Step::Done(Ok(_)),
    ensures
        is_table(d, t),
        table_lba(d, t) == dir_lba(d, dir)->Done_0->Ok_0,
{
    let root = table_at(d, None);
    let stored = stored_name(dir);
    lemma_first_where(root.len(), is_named(root, stored));
    let r = find_name(root, stored)->0;
    assert(is_named(root, stored)(r));
    Some(r)
}

/// The table that a path leads to.
proof fn lemma_place_is_table(d: DiskView, path: Seq<char>) -> (t: Option<int>)
    requires
        place_of(d, path) matches Step::Done(Ok(_)),
    ensures
        is_table(d, t),
        table_lba(d, t) == (place_of(d, path)->Done_0->Ok_0).0,
{
    match first_index(path, '/') {
        None => None,
        Some(i) => lemma_dir_is_table(d, path.take(i)),
    }
}

/// What a write that was accepted stores: the table and the slot that it changes,
/// and the new entry.
proof fn lemma_write_effect(d: DiskView, path: Seq<char>, data: Seq<u8>) -> (r: (
    Option<int>,
    int,
    EntryView,
))
    requires
        well_formed(d),
        write_plan(d, path, data) matches Step::Done(Ok(_)),
    ensures
        ({
            let (t, slot, e) = r;
            let w = write_plan(d, path, data)->Done_0->Ok_0;
            let d2 = apply_writes(d, w);
            let place = place_of(d, path)->Done_0->Ok_0;
            &&& data.len() <= MAX_FILE_BYTES
            &&& place_of(d, path) matches Step::Done(Ok(_))
            &&& is_table(d, t)
            &&& table_lba(d, t) == place.0
            &&& 0 <= slot < MAX_ENTRIES
            &&& is_entry(d, t, slot) ==> !entry_in(d, t, slot).is_dir && entry_in(d, t, slot).name
                == e.name
            &&& e == file_entry_for(stored_name(place.1), data.len(), e.start_lba)
            &&& entry_ok(e)
            &&& e.start_lba + e.sector_count <= FILE_DATA_START_LBA + NUM_DATA_SECTORS
            &&& table_replaced(d, d2, t, table_at(d, t).update(slot, e))
            &&& whole_sectors(d2)
            &&& forall|u: Option<int>, j: int| #[trigger]
                is_entry(d, u, j) && !(u == t && j == slot) ==> apart(entry_in(d, u, j), e)
            &&& forall|j: int| #[trigger]
                is_entry(d, t, j) && j != slot ==> entry_in(d, t, j).name != e.name
            &&& forall|l: u32|
                e.start_lba <= l < e.start_lba + e.sector_count ==> d2.contains_key(l)
                    && #[trigger] d2[l] == Some(data_sector(data, l - e.start_lba))
            &&& forall|l: u32|
                !(e.start_lba <= l < e.start_lba + e.sector_count) && l != place.0
                    ==> #[trigger] same_at(d, d2, l)
        }),
{
    let t = lemma_place_is_table(d, path);
    let w = write_plan(d, path, data)->Done_0->Ok_0;
    let d2 = apply_writes(d, w);
    let (lba, name) = place_of(d, path)->Done_0->Ok_0;
    let stored = stored_name(name);
    let es = table_at(d, t);
    lemma_table_names(d, lba);
    lemma_first_where(es.len(), is_named(es, stored));
    lemma_first_where(es.len(), is_unused(es));
    let slot = match find_name(es, stored) {
        Some(i) => i,
        None => find_unused(es)->0,
    };
    if find_name(es, stored) is Some {
        assert(is_named(es, stored)(slot));
        assert(is_entry(d, t, slot));
    } else {
        assert(is_unused(es)(slot));
    }
    assert(write_plan(d, path, data) == store_plan(d, lba, es, slot, stored, data));
    assert forall|j: int| #[trigger] is_entry(d, t, j) && j != slot implies entry_in(d, t, j).name
        != stored by {
        if find_name(es, stored) is None {
            assert(!is_named(es, stored)(j));
        }
    }
    let n = sectors_for(data.len());
    let exclude = slot_run(es[slot]);
    let first = if data.len() == 0 {
        0u32
    } else {
        (FILE_DATA_START_LBA + free_span(occupied_runs(d, exclude)->Done_0, n)->0) as u32
    };
    let e = file_entry_for(stored, data.len(), first);
    if data.len() > 0 {
        let runs = occupied_runs(d, exclude)->Done_0;
        lemma_first_where((NUM_DATA_SECTORS - n + 1) as nat, is_free(runs, n));
    }
    assert forall|u: Option<int>, j: int| #[trigger]
        is_entry(d, u, j) && !(u == t && j == slot) implies apart(entry_in(d, u, j), e) by {
        if data.len() > 0 && entry_in(d, u, j).sector_count > 0 {
            if es[slot].used {
                assert(is_entry(d, t, slot));
                assert(apart(entry_in(d, u, j), es[slot]));
            }
            lemma_free_span_apart(d, exclude, n, u, j);
        }
    }
    let mid = apply_writes(d, data_writes(data, first));
    assert(data_writes(data, first).take(n as int) == data_writes(data, first));
    lemma_data_writes(d, data, first, n);
    let es2 = es.update(slot, e);
    assert(d2 == mid.insert(lba, Some(table_sector(es2)))) by {
        let all = data_writes(data, first).push(table_write(lba, es2));
        assert(all.drop_last() == data_writes(data, first));
        if data.len() == 0 {
            assert(data_writes(data, first) == Seq::<WriteView>::empty());
            assert(w == all);
        }
    }
    assert forall|u: Option<int>| #[trigger] is_table(d, u) implies !(e.start_lba <= table_lba(d, u)
        < e.start_lba + e.sector_count) by {
        if let Some(q) = u {
            assert(is_entry(d, None, q));
        }
    }
    assert forall|u: Option<int>| #[trigger] is_table(d, u) && u != t implies table_lba(d, u)
        != lba by {
        lemma_tables_differ(d, t, u);
    }
    (t, slot, e)
}

/// Writing a file keeps a drive well formed.
pub proof fn law_write_keeps_well_formed(
    d: DiskView,
    path: Seq<char>,
    data: Seq<u8>,
    w: Seq<WriteView>,
)
    requires
        well_formed(d),
        write_plan(d, path, data) == PlanView::Done(Ok(w)),
    ensures
        well_formed(apply_writes(d, w)),
{
    let (t, slot, e) = lemma_write_effect(d, path, data);
    lemma_slot_keeps_well_formed(d, apply_writes(d, w), t, slot, e);
}

/// A subdirectory stays where it is when a slot is replaced that is not a directory's,
/// neither before nor after.
proof fn lemma_dir_kept(
    d: DiskView,
    d2: DiskView,
    t: Option<int>,
    slot: int,
    e: EntryView,
    dir: Seq<char>,
)
    requires
        well_formed(d),
        is_table(d, t),
        0 <= slot < MAX_ENTRIES,
        is_entry(d, t, slot) ==> !entry_in(d, t, slot).is_dir,
        e.used ==> !e.is_dir,
        e.name.len() == NAME_LEN,
        table_replaced(d, d2, t, table_at(d, t).update(slot, e)),
        dir_lba(d, dir) matches Step::Done(Ok(_)),
        e.used ==> forall|j: int| #[trigger]
            is_entry(d, t, j) && j != slot ==> entry_in(d, t, j).name != e.name,
    ensures
        dir_lba(d2, dir) == dir_lba(d, dir),
{
    lemma_slot_replaced(d, d2, t, slot, e);
    assert(is_table(d, None) && is_table(d2, None));
    let root = table_at(d, None);
    let root2 = table_at(d2, None);
    let stored = stored_name(dir);
    lemma_first_where(root.len(), is_named(root, stored));
    let r = find_name(root, stored)->0;
    assert(is_named(root, stored)(r));
    assert(is_entry(d, None, r));
    assert(root2[r] == root[r]);
    assert forall|j: int| 0 <= j < r implies !(#[trigger] is_named(root2, stored)(j)) by {
        assert(!is_named(root, stored)(j));
    }
    assert(is_named(root2, stored)(r));
    lemma_first_where_is(root2.len(), is_named(root2, stored), Some(r));
}

/// The place of a path does not change when a slot is replaced that is not a
/// directory's, neither before nor after.
proof fn lemma_place_kept(
    d: DiskView,
    d2: DiskView,
    t: Option<int>,
    slot: int,
    e: EntryView,
    path: Seq<char>,
)
    requires
        well_formed(d),
        is_table(d, t),
        0 <= slot < MAX_ENTRIES,
        is_entry(d, t, slot) ==> !entry_in(d, t, slot).is_dir,
        e.used ==> !e.is_dir,
        e.name.len() == NAME_LEN,
        table_replaced(d, d2, t, table_at(d, t).update(slot, e)),
        place_of(d, path) matches Step::Done(Ok(_)),
        e.used ==> forall|j: int| #[trigger]
            is_entry(d, t, j) && j != slot ==> entry_in(d, t, j).name != e.name,
    ensures
        place_of(d2, path) == place_of(d, path),
{
    if let Some(k) = first_index(path, '/') {
        lemma_dir_kept(d, d2, t, slot, e, path.take(k));
    }
}

/// A name is found in the slot that holds it, where names are unique.
proof fn lemma_find_unique(es: Seq<EntryView>, name: Seq<u8>, slot: int)
    requires
        0 <= slot < es.len(),
        es[slot].used,
        es[slot].name == name,
        forall|j: int| 0 <= j < es.len() && j != slot && (#[trigger] es[j]).used ==> es[j].name != name,
    ensures
        find_name(es, name) == Some(slot),
{
    assert(is_named(es, name)(slot));
    lemma_first_where_is(es.len(), is_named(es, name), Some(slot));
}

/// An entry whose sectors hold the data describes the data.
proof fn lemma_stored_contents(d: DiskView, data: Seq<u8>, e: EntryView)
    requires
        data.len() <= MAX_FILE_BYTES,
        e.len == data.len(),
        e.sector_count == sectors_for(data.len()),
        e.start_lba + e.sector_count <= u32::MAX,
        forall|l: u32|
            e.start_lba <= l < e.start_lba + e.sector_count ==> d.contains_key(l) && #[trigger] d[l]
                == Some(data_sector(data, l - e.start_lba)),
    ensures
        entry_contents(d, e) == Step::<u32, Result<Seq<u8>, Seq<char>>>::Done(Ok(data)),
{
    let n = sectors_for(data.len());
    lemma_read_back(d, data, e.start_lba, n);
    let bytes = sectors_from(d, e.start_lba, n)->Done_0->Ok_0;
    assert(cut(bytes, data.len()) == data);
}

/// A file whose slot is found has the contents that its entry describes.
proof fn lemma_found_contents(d: DiskView, path: Seq<char>, slot: int)
    requires
        place_of(d, path) matches Step::Done(Ok(_)),
        ({
            let (lba, name) = place_of(d, path)->Done_0->Ok_0;
            let es = table_of(d[lba]);
            &&& d.contains_key(lba)
            &&& find_name(es, stored_name(name)) == Some(slot)
            &&& !es[slot].is_dir
        }),
    ensures
        file_contents(d, path) == entry_contents(
            d,
            table_of(d[(place_of(d, path)->Done_0->Ok_0).0])[slot],
        ),
{
}

/// After a write its entry is found under its name.
proof fn lemma_written_entry(d: DiskView, d2: DiskView, t: Option<int>, slot: int, e: EntryView)
    requires
        well_formed(d),
        is_table(d, t),
        0 <= slot < MAX_ENTRIES,
        is_entry(d, t, slot) ==> !entry_in(d, t, slot).is_dir,
        e.used,
        !e.is_dir,
        e.name.len() == NAME_LEN,
        table_replaced(d, d2, t, table_at(d, t).update(slot, e)),
        forall|j: int| #[trigger]
            is_entry(d, t, j) && j != slot ==> entry_in(d, t, j).name != e.name,
    ensures
        d2.contains_key(table_lba(d, t)),
        table_of(d2[table_lba(d, t)])[slot] == e,
        find_name(table_of(d2[table_lba(d, t)]), e.name) == Some(slot),
{
    let es2 = table_at(d, t).update(slot, e);
    lemma_table_names(d, table_lba(d, t));
    law_table_roundtrip(es2);
    assert forall|j: int| 0 <= j < es2.len() && j != slot && (#[trigger] es2[j]).used implies es2[j].name
        != e.name by {
        assert(is_entry(d, t, j));
    }
    lemma_find_unique(es2, e.name, slot);
}

/// A read of a file gives back what was written to it.
pub proof fn law_read_gives_back_write(
    d: DiskView,
    path: Seq<char>,
    data: Seq<u8>,
    w: Seq<WriteView>,
)
    requires
        well_formed(d),
        write_plan(d, path, data) == PlanView::Done(Ok(w)),
    ensures
        file_contents(apply_writes(d, w), path) == Step::<u32, Result<Seq<u8>, Seq<char>>>::Done(
            Ok(data),
        ),
{
    let d2 = apply_writes(d, w);
    let (t, slot, e) = lemma_write_effect(d, path, data);
    assert(place_of(d2, path) == place_of(d, path)) by {
        lemma_place_kept(d, d2, t, slot, e, path);
    }
    assert(file_contents(d2, path) == entry_contents(d2, e)) by {
        lemma_written_entry(d, d2, t, slot, e);
        lemma_found_contents(d2, path, slot);
    }
    lemma_stored_contents(d2, data, e);
}

/// A zero byte in UTF-8 stands for a zero character.
proof fn lemma_zero_byte(bytes: Seq<u8>, i: int)
    requires
        valid_utf8(bytes),
        0 <= i < bytes.len(),
        bytes[i] == 0,
    ensures
        decode_utf8(bytes).contains('\0'),
    decreases bytes.len(),
{
    let n = length_of_first_scalar(bytes);
    let rest = pop_first_scalar(bytes);
    let all = decode_utf8(bytes);
    if i < n {
        assert(i == 0);
        let b = bytes[0];
        assert(b & 0x7F == 0) by (bit_vector)
            requires
                b == 0,
        ;
        assert(decode_first_scalar(bytes) == 0);
        assert(all[0] == '\0');
    } else {
        assert(rest[i - n] == 0);
        lemma_zero_byte(rest, i - n);
        let sub = decode_utf8(rest);
        let j = choose|j: int| 0 <= j < sub.len() && sub[j] == '\0';
        assert(all[j + 1] == '\0');
    }
}

/// The bytes of a name that is stored whole.
pub proof fn lemma_used_bytes(name: Seq<char>)
    requires
        storable(name),
    ensures
        used_bytes(stored_name(name)) == encode_utf8(name),
{
    let b = encode_utf8(name);
    let raw = stored_name(name);
    encode_utf8_valid_utf8(name);
    encode_utf8_decode_utf8(name);
    assert forall|j: int| 0 <= j < b.len() implies raw[j] != 0 by {
        if b[j] == 0 {
            lemma_zero_byte(b, j);
        }
    }
    let found = if b.len() < 16 {
        Some(b.len() as int)
    } else {
        None
    };
    lemma_first_where_is(raw.len(), is_zero(raw), found);
    if b.len() < 16 {
        assert(raw.take(b.len() as int) == b);
    } else {
        assert(raw == b);
    }
}

/// A name that is stored whole is shown as it was given.
pub proof fn law_stored_name_is_shown(name: Seq<char>)
    requires
        storable(name),
    ensures
        shown_name(stored_name(name)) == name,
{
    lemma_used_bytes(name);
    encode_utf8_valid_utf8(name);
    encode_utf8_decode_utf8(name);
}

/// The line that lists an entry.
pub open spec fn line_of(e: EntryView) -> (Seq<char>, bool, u16) {
    (shown_name(e.name), e.is_dir, e.len)
}

/// Whether one line of a listing was replaced by another, in its place.
pub open spec fn line_replaced(
    old_lines: Seq<(Seq<char>, bool, u16)>,
    new_lines: Seq<(Seq<char>, bool, u16)>,
    old_line: (Seq<char>, bool, u16),
    new_line: (Seq<char>, bool, u16),
) -> bool {
    exists|m: int|
        0 <= m < old_lines.len() && #[trigger] old_lines[m] == old_line && new_lines
            == old_lines.update(m, new_line)
}

/// Whether a listing has one line more.
pub open spec fn line_added(
    old_lines: Seq<(Seq<char>, bool, u16)>,
    new_lines: Seq<(Seq<char>, bool, u16)>,
    line: (Seq<char>, bool, u16),
) -> bool {
    exists|m: int|
        0 <= m <= old_lines.len() && new_lines == #[trigger] old_lines.insert(m, line)
}

/// Whether a listing has one line less.
pub open spec fn line_removed(
    old_lines: Seq<(Seq<char>, bool, u16)>,
    new_lines: Seq<(Seq<char>, bool, u16)>,
    line: (Seq<char>, bool, u16),
) -> bool {
    exists|m: int|
        0 <= m < old_lines.len() && #[trigger] old_lines[m] == line && new_lines
            == old_lines.remove(m)
}

/// A listing does not depend on the slots behind it.
proof fn lemma_listing_before(es: Seq<EntryView>, slot: int, e: EntryView, k: nat)
    requires
        k <= slot < es.len(),
    ensures
        listing_of(es.update(slot, e), k) == listing_of(es, k),
    decreases k,
{
    if k > 0 {
        lemma_listing_before(es, slot, e, (k - 1) as nat);
    }
}

/// What a listing is after one slot was replaced: its line is replaced, or put in, or
/// taken out, and every other line stays as it was and where it was.
proof fn lemma_listing_changed(es: Seq<EntryView>, slot: int, e: EntryView, k: nat)
    requires
        0 <= slot < k <= es.len(),
    ensures
        ({
            let m = listing_of(es, slot as nat).len() as int;
            let old_lines = listing_of(es, k);
            let new_lines = listing_of(es.update(slot, e), k);
            &&& m <= old_lines.len()
            &&& es[slot].used ==> m < old_lines.len() && old_lines[m] == line_of(es[slot])
            &&& es[slot].used && e.used ==> new_lines == old_lines.update(m, line_of(e))
            &&& es[slot].used && !e.used ==> new_lines == old_lines.remove(m)
            &&& !es[slot].used && e.used ==> new_lines == old_lines.insert(m, line_of(e))
        }),
    decreases k,
{
    let m = listing_of(es, slot as nat).len() as int;
    let es2 = es.update(slot, e);
    let old_lines = listing_of(es, k);
    let new_lines = listing_of(es2, k);
    if k == slot + 1 {
        lemma_listing_before(es, slot, e, slot as nat);
    } else {
        lemma_listing_changed(es, slot, e, (k - 1) as nat);
    }
    if es[slot].used && e.used {
        assert(new_lines =~= old_lines.update(m, line_of(e)));
    } else if es[slot].used {
        assert(new_lines =~= old_lines.remove(m));
    } else if e.used {
        assert(new_lines =~= old_lines.insert(m, line_of(e)));
    }
}

/// The same, said of the lines alone.
proof fn lemma_lines_changed(es: Seq<EntryView>, slot: int, e: EntryView)
    requires
        0 <= slot < es.len(),
    ensures
        ({
            let old_lines = listing_of(es, es.len());
            let new_lines = listing_of(es.update(slot, e), es.len());
            &&& es[slot].used && e.used ==> line_replaced(
                old_lines,
                new_lines,
                line_of(es[slot]),
                line_of(e),
            )
            &&& es[slot].used && !e.used ==> line_removed(old_lines, new_lines, line_of(es[slot]))
            &&& !es[slot].used && e.used ==> line_added(old_lines, new_lines, line_of(e))
        }),
{
    lemma_listing_changed(es, slot, e, es.len());
    let m = listing_of(es, slot as nat).len() as int;
    let old_lines = listing_of(es, es.len());
    if es[slot].used {
        assert(old_lines[m] == line_of(es[slot]));
    } else if e.used {
        assert(listing_of(es.update(slot, e), es.len()) == old_lines.insert(m, line_of(e)));
    }
}

/// The directory that a path names a file in: the root, or a subdirectory.
pub open spec fn dir_of(path: Seq<char>) -> Option<Seq<char>> {
    match first_index(path, '/') {
        None => None,
        Some(i) => Some(path.take(i)),
    }
}

/// The name of a file within its directory.
pub open spec fn base_name(path: Seq<char>) -> Seq<char> {
    match first_index(path, '/') {
        None => path,
        Some(i) => path.skip(i + 1),
    }
}

/// The entry that a path names.
pub open spec fn entry_named(d: DiskView, path: Seq<char>) -> Option<EntryView> {
    match place_of(d, path) {
        Step::Done(Ok((lba, name))) => {
            let es = table_of(d[lba]);
            match find_name(es, stored_name(name)) {
                Some(i) => Some(es[i]),
                None => None,
            }
        },
        _ => None,
    }
}

/// The listing of the directory in which a path names a file.
proof fn lemma_listing_at(d: DiskView, path: Seq<char>)
    requires
        place_of(d, path) matches Step::Done(Ok(_)),
        d.contains_key((place_of(d, path)->Done_0->Ok_0).0),
    ensures
        ({
            let (lba, name) = place_of(d, path)->Done_0->Ok_0;
            let es = table_of(d[lba]);
            &&& name == base_name(path)
            &&& listing(d, dir_of(path)) == Step::<
                u32,
                Result<Seq<(Seq<char>, bool, u16)>, Seq<char>>,
            >::Done(Ok(listing_of(es, es.len())))
        }),
{
}

/// A path names the entry of its table that has its name, and no other.
proof fn lemma_entry_named(d: DiskView, path: Seq<char>, t: Option<int>, slot: int)
    requires
        well_formed(d),
        place_of(d, path) matches Step::Done(Ok(_)),
        is_table(d, t),
        table_lba(d, t) == (place_of(d, path)->Done_0->Ok_0).0,
        0 <= slot < MAX_ENTRIES,
        forall|j: int| #[trigger]
            is_entry(d, t, j) && j != slot ==> entry_in(d, t, j).name != stored_name(
                (place_of(d, path)->Done_0->Ok_0).1,
            ),
        is_entry(d, t, slot) ==> entry_in(d, t, slot).name == stored_name(
            (place_of(d, path)->Done_0->Ok_0).1,
        ),
    ensures
        entry_named(d, path) == (if entry_in(d, t, slot).used {
            Some(entry_in(d, t, slot))
        } else {
            None
        }),
{
    let es = table_at(d, t);
    let stored = stored_name((place_of(d, path)->Done_0->Ok_0).1);
    assert forall|j: int| 0 <= j < es.len() && j != slot && (#[trigger] es[j]).used implies es[j].name
        != stored by {
        assert(is_entry(d, t, j));
    }
    if es[slot].used {
        assert(is_entry(d, t, slot));
        lemma_find_unique(es, stored, slot);
    } else {
        assert forall|j: int| 0 <= j < es.len() implies !(#[trigger] is_named(es, stored)(j)) by {}
        lemma_first_where_is(es.len(), is_named(es, stored), None);
    }
}

/// What the two listings are before and after one slot was replaced.
proof fn lemma_listings(
    d: DiskView,
    d2: DiskView,
    t: Option<int>,
    slot: int,
    e: EntryView,
    path: Seq<char>,
)
    requires
        well_formed(d),
        is_table(d, t),
        0 <= slot < MAX_ENTRIES,
        is_entry(d, t, slot) ==> !entry_in(d, t, slot).is_dir,
        e.used ==> !e.is_dir,
        e.name.len() == NAME_LEN,
        table_replaced(d, d2, t, table_at(d, t).update(slot, e)),
        place_of(d, path) matches Step::Done(Ok(_)),
        table_lba(d, t) == (place_of(d, path)->Done_0->Ok_0).0,
        e.used ==> forall|j: int| #[trigger]
            is_entry(d, t, j) && j != slot ==> entry_in(d, t, j).name != e.name,
    ensures
        ({
            let es = table_at(d, t);
            let es2 = es.update(slot, e);
            &&& es.len() == MAX_ENTRIES
            &&& listing(d, dir_of(path)) == Step::<
                u32,
                Result<Seq<(Seq<char>, bool, u16)>, Seq<char>>,
            >::Done(Ok(listing_of(es, es.len())))
            &&& listing(d2, dir_of(path)) == Step::<
                u32,
                Result<Seq<(Seq<char>, bool, u16)>, Seq<char>>,
            >::Done(Ok(listing_of(es2, es.len())))
        }),
{
    lemma_place_kept(d, d2, t, slot, e, path);
    lemma_slot_replaced(d, d2, t, slot, e);
    assert(table_at(d2, t) == table_of(d2[table_lba(d, t)]));
    lemma_listing_at(d, path);
    lemma_listing_at(d2, path);
}

/// A file that was written is listed in its directory, with its length: in place of
/// its earlier line, where it was there before, and as one line more, where it was not.
/// All other lines stay as they were, in their order. It is listed under its own name,
/// where that is stored whole.
pub proof fn law_written_file_is_listed(
    d: DiskView,
    path: Seq<char>,
    data: Seq<u8>,
    w: Seq<WriteView>,
)
    requires
        well_formed(d),
        write_plan(d, path, data) == PlanView::Done(Ok(w)),
    ensures
        ({
            let line = (shown_name(stored_name(base_name(path))), false, data.len() as u16);
            match (listing(d, dir_of(path)), listing(apply_writes(d, w), dir_of(path))) {
                (Step::Done(Ok(old_lines)), Step::Done(Ok(new_lines))) => match entry_named(
                    d,
                    path,
                ) {
                    Some(e) => line_replaced(old_lines, new_lines, line_of(e), line),
                    None => line_added(old_lines, new_lines, line),
                },
                _ => false,
            }
        }),
        storable(base_name(path)) ==> shown_name(stored_name(base_name(path))) == base_name(path),
{
    if storable(base_name(path)) {
        law_stored_name_is_shown(base_name(path));
    }
    let (t, slot, e) = lemma_write_effect(d, path, data);
    let es = table_at(d, t);
    lemma_listings(d, apply_writes(d, w), t, slot, e, path);
    lemma_listing_at(d, path);
    lemma_entry_named(d, path, t, slot);
    lemma_lines_changed(es, slot, e);
    assert(line_of(e) == (shown_name(stored_name(base_name(path))), false, data.len() as u16));
}

/// The sector of a directory's table: the root's, or a subdirectory's.
pub open spec fn dir_sector(d: DiskView, dir: Option<Seq<char>>) -> Step<
    u32,
    Result<u32, Seq<char>>,
> {
    match dir {
        None => Step::Done(Ok(DIR_LBA)),
        Some(name) => dir_lba(d, name),
    }
}

/// Replacing one slot leaves the listings of other directories as they were.
proof fn lemma_listing_kept(
    d: DiskView,
    d2: DiskView,
    t: Option<int>,
    slot: int,
    e: EntryView,
    dir: Option<Seq<char>>,
)
    requires
        well_formed(d),
        is_table(d, t),
        0 <= slot < MAX_ENTRIES,
        is_entry(d, t, slot) ==> !entry_in(d, t, slot).is_dir,
        e.used ==> !e.is_dir,
        e.name.len() == NAME_LEN,
        table_replaced(d, d2, t, table_at(d, t).update(slot, e)),
        e.used ==> forall|j: int| #[trigger]
            is_entry(d, t, j) && j != slot ==> entry_in(d, t, j).name != e.name,
        dir_sector(d, dir) matches Step::Done(Ok(_)),
        dir_sector(d, dir)->Done_0->Ok_0 != table_lba(d, t),
    ensures
        listing(d2, dir) == listing(d, dir),
{
    let u = match dir {
        None => None,
        Some(name) => {
            lemma_dir_kept(d, d2, t, slot, e, name);
            lemma_dir_is_table(d, name)
        },
    };
    assert(is_table(d, u) && u != t);
}

/// Writing a file leaves the listings of other directories as they were.
pub proof fn law_write_keeps_other_listings(
    d: DiskView,
    path: Seq<char>,
    data: Seq<u8>,
    w: Seq<WriteView>,
    dir: Option<Seq<char>>,
)
    requires
        well_formed(d),
        write_plan(d, path, data) == PlanView::Done(Ok(w)),
        dir_sector(d, dir) matches Step::Done(Ok(_)),
        dir_sector(d, dir) != dir_sector(d, dir_of(path)),
    ensures
        listing(apply_writes(d, w), dir) == listing(d, dir),
{
    let (t, slot, e) = lemma_write_effect(d, path, data);
    lemma_listing_kept(d, apply_writes(d, w), t, slot, e, dir);
}

/// Whether two paths name the same slot: the same table, and names that are
/// stored alike.
pub open spec fn same_file(d: DiskView, p: Seq<char>, q: Seq<char>) -> bool {
    match (place_of(d, p), place_of(d, q)) {
        (Step::Done(Ok((l, a))), Step::Done(Ok((m, b)))) => l == m && stored_name(a) == stored_name(
            b,
        ),
        _ => false,
    }
}

/// Sectors that did not change read as before.
proof fn lemma_sectors_kept(d: DiskView, d2: DiskView, start: u32, k: nat)
    requires
        start + k <= u32::MAX,
        forall|l: u32|
            start <= l < start + k ==> #[trigger] same_at(d, d2, l),
    ensures
        sectors_from(d2, start, k) == sectors_from(d, start, k),
    decreases k,
{
    if k > 0 {
        lemma_sectors_kept(d, d2, start, (k - 1) as nat);
        assert(same_at(d, d2, (start + (k - 1)) as u32));
    }
}

/// The table and the slot of a file that can be read.
proof fn lemma_readable_entry(d: DiskView, q: Seq<char>) -> (r: (Option<int>, int))
    requires
        well_formed(d),
        file_contents(d, q) matches Step::Done(Ok(_)),
    ensures
        ({
            let (u, j) = r;
            let place = place_of(d, q)->Done_0->Ok_0;
            &&& place_of(d, q) matches Step::Done(Ok(_))
            &&& is_entry(d, u, j)
            &&& table_lba(d, u) == place.0
            &&& !entry_in(d, u, j).is_dir
            &&& entry_in(d, u, j).name == stored_name(place.1)
            &&& find_name(table_at(d, u), stored_name(place.1)) == Some(j)
            &&& file_contents(d, q) == entry_contents(d, entry_in(d, u, j))
        }),
{
    let u = lemma_place_is_table(d, q);
    let (lba, name) = place_of(d, q)->Done_0->Ok_0;
    let es = table_at(d, u);
    lemma_table_names(d, lba);
    lemma_first_where(es.len(), is_named(es, stored_name(name)));
    let j = find_name(es, stored_name(name))->0;
    assert(is_named(es, stored_name(name))(j));
    (u, j)
}

/// Replacing one slot leaves every other file as it was.
proof fn lemma_slot_keeps_others(
    d: DiskView,
    d2: DiskView,
    t: Option<int>,
    slot: int,
    e: EntryView,
    q: Seq<char>,
)
    requires
        well_formed(d),
        is_table(d, t),
        0 <= slot < MAX_ENTRIES,
        is_entry(d, t, slot) ==> !entry_in(d, t, slot).is_dir,
        e.used ==> !e.is_dir,
        e.name.len() == NAME_LEN,
        table_replaced(d, d2, t, table_at(d, t).update(slot, e)),
        forall|u: Option<int>, j: int| #[trigger]
            is_entry(d, u, j) && !(u == t && j == slot) ==> apart(entry_in(d, u, j), e),
        e.used ==> forall|j: int| #[trigger]
            is_entry(d, t, j) && j != slot ==> entry_in(d, t, j).name != e.name,
        forall|l: u32|
            !(e.start_lba <= l < e.start_lba + e.sector_count) && l != table_lba(d, t)
                ==> #[trigger] same_at(d, d2, l),
        file_contents(d, q) matches Step::Done(Ok(_)),
        is_entry(d, t, slot) && table_lba(d, t) == (place_of(d, q)->Done_0->Ok_0).0 ==> entry_in(
            d,
            t,
            slot,
        ).name != stored_name((place_of(d, q)->Done_0->Ok_0).1),
    ensures
        file_contents(d2, q) == file_contents(d, q),
{
    let (u, j) = lemma_readable_entry(d, q);
    lemma_place_kept(d, d2, t, slot, e, q);
    lemma_slot_replaced(d, d2, t, slot, e);
    let stored = stored_name((place_of(d, q)->Done_0->Ok_0).1);
    let es2 = table_at(d2, u);
    let f = entry_in(d, u, j);
    assert(!(u == t && j == slot));
    assert(es2[j] == f);
    assert forall|k: int| 0 <= k < es2.len() && k != j && (#[trigger] es2[k]).used implies es2[k].name
        != stored by {
        if !(u == t && k == slot) {
            assert(is_entry(d, u, k));
        }
    }
    lemma_find_unique(es2, stored, j);
    assert(file_contents(d2, q) == entry_contents(d2, f));
    if f.sector_count > 0 {
        assert(apart(f, e));
        assert(!(f.start_lba <= table_lba(d, t) < f.start_lba + f.sector_count)) by {
            if let Some(r) = t {
                assert(is_entry(d, None, r));
                assert(apart(f, entry_in(d, None, r)));
            }
        }
        lemma_sectors_kept(d, d2, f.start_lba, f.sector_count as nat);
    }
}

/// Writing a file leaves every other file as it was.
pub proof fn law_write_keeps_other_files(
    d: DiskView,
    path: Seq<char>,
    data: Seq<u8>,
    w: Seq<WriteView>,
    q: Seq<char>,
    bytes: Seq<u8>,
)
    requires
        well_formed(d),
        write_plan(d, path, data) == PlanView::Done(Ok(w)),
        file_contents(d, q) == Step::<u32, Result<Seq<u8>, Seq<char>>>::Done(Ok(bytes)),
        !same_file(d, path, q),
    ensures
        file_contents(apply_writes(d, w), q) == Step::<u32, Result<Seq<u8>, Seq<char>>>::Done(
            Ok(bytes),
        ),
{
    let (t, slot, e) = lemma_write_effect(d, path, data);
    lemma_readable_entry(d, q);
    lemma_slot_keeps_others(d, apply_writes(d, w), t, slot, e, q);
}

/// What removing a file changes.
proof fn lemma_delete_effect(d: DiskView, path: Seq<char>) -> (r: (Option<int>, int))
    requires
        well_formed(d),
        delete_plan(d, path) matches Step::Done(Ok(_)),
    ensures
        ({
            let (t, slot) = r;
            let d2 = apply_writes(d, delete_plan(d, path)->Done_0->Ok_0);
            let place = place_of(d, path)->Done_0->Ok_0;
            &&& place_of(d, path) matches Step::Done(Ok(_))
            &&& is_entry(d, t, slot)
            &&& table_lba(d, t) == place.0
            &&& !entry_in(d, t, slot).is_dir
            &&& entry_in(d, t, slot).name == stored_name(place.1)
            &&& table_replaced(d, d2, t, table_at(d, t).update(slot, empty_entry()))
            &&& whole_sectors(d2)
            &&& forall|l: u32|
                l != place.0 ==> #[trigger] same_at(d, d2, l)
        }),
{
    let t = lemma_place_is_table(d, path);
    let (lba, name) = place_of(d, path)->Done_0->Ok_0;
    let es = table_at(d, t);
    lemma_table_names(d, lba);
    lemma_first_where(es.len(), is_named(es, stored_name(name)));
    let slot = find_name(es, stored_name(name))->0;
    assert(is_named(es, stored_name(name))(slot));
    let w = delete_plan(d, path)->Done_0->Ok_0;
    let d2 = apply_writes(d, w);
    assert(d2 == d.insert(lba, Some(table_sector(es.update(slot, empty_entry()))))) by {
        assert(w.drop_last() == Seq::<WriteView>::empty());
        assert(apply_writes(d, w.drop_last()) == d);
    }
    assert forall|u: Option<int>| #[trigger] is_table(d, u) && u != t implies table_lba(d, u)
        != lba by {
        lemma_tables_differ(d, t, u);
    }
    (t, slot)
}

/// Removing a file keeps a drive well formed.
pub proof fn law_delete_keeps_well_formed(d: DiskView, path: Seq<char>, w: Seq<WriteView>)
    requires
        well_formed(d),
        delete_plan(d, path) == PlanView::Done(Ok(w)),
    ensures
        well_formed(apply_writes(d, w)),
{
    let (t, slot) = lemma_delete_effect(d, path);
    lemma_slot_keeps_well_formed(d, apply_writes(d, w), t, slot, empty_entry());
}

/// A file that was removed is no longer there.
pub proof fn law_deleted_file_is_gone(d: DiskView, path: Seq<char>, w: Seq<WriteView>)
    requires
        well_formed(d),
        delete_plan(d, path) == PlanView::Done(Ok(w)),
    ensures
        place_of(d, path) matches Step::Done(Ok((lba, name))) && file_contents(
            apply_writes(d, w),
            path,
        ) == Step::<u32, Result<Seq<u8>, Seq<char>>>::Done(
            Err("no such file '"@ + name + "'"@),
        ),
{
    let (t, slot) = lemma_delete_effect(d, path);
    let d2 = apply_writes(d, w);
    lemma_place_kept(d, d2, t, slot, empty_entry(), path);
    lemma_slot_replaced(d, d2, t, slot, empty_entry());
    let es2 = table_at(d2, t);
    let stored = stored_name((place_of(d, path)->Done_0->Ok_0).1);
    assert forall|j: int| 0 <= j < es2.len() implies !(#[trigger] is_named(es2, stored)(j)) by {
        if es2[j].used {
            assert(is_entry(d, t, j));
        }
    }
    lemma_first_where_is(es2.len(), is_named(es2, stored), None);
}

/// A file that was removed is no longer listed: its line is gone, and all other lines
/// of its directory stay as they were, in their order.
pub proof fn law_deleted_file_is_unlisted(d: DiskView, path: Seq<char>, w: Seq<WriteView>)
    requires
        well_formed(d),
        delete_plan(d, path) == PlanView::Done(Ok(w)),
    ensures
        match (
            entry_named(d, path),
            listing(d, dir_of(path)),
            listing(apply_writes(d, w), dir_of(path)),
        ) {
            (
                Some(e),
                Step::Done(Ok(old_lines)),
                Step::Done(Ok(new_lines)),
            ) => line_of(e).0 == shown_name(stored_name(base_name(path))) && !line_of(e).1
                && line_removed(old_lines, new_lines, line_of(e)),
            _ => false,
        },
{
    let (t, slot) = lemma_delete_effect(d, path);
    let es = table_at(d, t);
    lemma_listings(d, apply_writes(d, w), t, slot, empty_entry(), path);
    lemma_listing_at(d, path);
    lemma_entry_named(d, path, t, slot);
    lemma_lines_changed(es, slot, empty_entry());
}

/// Removing a file leaves the listings of other directories as they were.
pub proof fn law_delete_keeps_other_listings(
    d: DiskView,
    path: Seq<char>,
    w: Seq<WriteView>,
    dir: Option<Seq<char>>,
)
    requires
        well_formed(d),
        delete_plan(d, path) == PlanView::Done(Ok(w)),
        dir_sector(d, dir) matches Step::Done(Ok(_)),
        dir_sector(d, dir) != dir_sector(d, dir_of(path)),
    ensures
        listing(apply_writes(d, w), dir) == listing(d, dir),
{
    let (t, slot) = lemma_delete_effect(d, path);
    lemma_listing_kept(d, apply_writes(d, w), t, slot, empty_entry(), dir);
}

/// Removing a file leaves every other file as it was.
pub proof fn law_delete_keeps_other_files(
    d: DiskView,
    path: Seq<char>,
    w: Seq<WriteView>,
    q: Seq<char>,
    bytes: Seq<u8>,
)
    requires
        well_formed(d),
        delete_plan(d, path) == PlanView::Done(Ok(w)),
        file_contents(d, q) == Step::<u32, Result<Seq<u8>, Seq<char>>>::Done(Ok(bytes)),
        !same_file(d, path, q),
    ensures
        file_contents(apply_writes(d, w), q) == Step::<u32, Result<Seq<u8>, Seq<char>>>::Done(
            Ok(bytes),
        ),
{
    let (t, slot) = lemma_delete_effect(d, path);
    lemma_readable_entry(d, q);
    lemma_slot_keeps_others(d, apply_writes(d, w), t, slot, empty_entry(), q);
}

/// What creating a directory changes: the root slot that it takes and the sector
/// of its table.
#[verifier::spinoff_prover]
#[verifier::rlimit(40)]
proof fn lemma_make_dir_effect(d: DiskView, name: Seq<char>) -> (r: (int, u32))
    requires
        well_formed(d),
        make_dir_plan(d, name) matches Step::Done(Ok(_)),
    ensures
        ({
            let (slot, lba) = r;
            let d2 = apply_writes(d, make_dir_plan(d, name)->Done_0->Ok_0);
            let e = dir_entry_for(stored_name(name), lba);
            let root = table_at(d, None);
            &&& 0 <= slot < MAX_ENTRIES
            &&& !root[slot].used
            &&& entry_ok(e)
            &&& whole_sectors(d2)
            &&& d2.contains_key(DIR_LBA)
            &&& d2.contains_key(lba)
            &&& table_at(d2, None) == root.update(slot, e)
            &&& table_at(d2, Some(slot)) == empty_table()
            &&& forall|u: Option<int>, j: int| #[trigger]
                is_entry(d, u, j) ==> apart(entry_in(d, u, j), e)
            &&& forall|j: int| #[trigger]
                is_entry(d, None, j) ==> entry_in(d, None, j).name != e.name
            &&& forall|l: u32| l != DIR_LBA && l != lba ==> #[trigger] same_at(d, d2, l)
            &&& forall|u: Option<int>| #[trigger]
                is_table(d2, u) == (is_table(d, u) || u == Some(slot))
            &&& forall|u: Option<int>| #[trigger]
                is_table(d, u) && u != None::<int> ==> table_at(d2, u) == table_at(d, u)
                    && table_lba(d2, u) == table_lba(d, u) && d2.contains_key(table_lba(d, u))
        }),
{
    assert(is_table(d, None));
    let root = table_at(d, None);
    let stored = stored_name(name);
    lemma_table_names(d, DIR_LBA);
    lemma_first_where(root.len(), is_named(root, stored));
    lemma_first_where(root.len(), is_unused(root));
    let slot = find_unused(root)->0;
    assert(is_unused(root)(slot));
    let runs = occupied_runs(d, None)->Done_0;
    lemma_first_where(NUM_DATA_SECTORS as nat, is_free(runs, 1));
    let start = free_span(runs, 1)->0;
    let lba = (FILE_DATA_START_LBA + start) as u32;
    let e = dir_entry_for(stored, lba);
    let root2 = root.update(slot, e);
    let w = make_dir_plan(d, name)->Done_0->Ok_0;
    let d2 = apply_writes(d, w);
    assert(w == seq![table_write(lba, empty_table()), table_write(DIR_LBA, root2)]);
    assert(d2 == d.insert(lba, Some(table_sector(empty_table()))).insert(
        DIR_LBA,
        Some(table_sector(root2)),
    )) by {
        let w1 = w.drop_last();
        assert(w1 == seq![table_write(lba, empty_table())]);
        assert(w1.drop_last() == Seq::<WriteView>::empty());
        assert(apply_writes(d, w1.drop_last()) == d);
        assert(apply_writes(d, w1) == d.insert(lba, Some(table_sector(empty_table()))));
    }
    law_table_roundtrip(empty_table());
    law_table_roundtrip(root2);
    assert forall|u: Option<int>, j: int| #[trigger] is_entry(d, u, j) implies apart(
        entry_in(d, u, j),
        e,
    ) by {
        if entry_in(d, u, j).sector_count > 0 {
            lemma_free_span_apart(d, None, 1, u, j);
        }
    }
    assert forall|j: int| #[trigger] is_entry(d, None, j) implies entry_in(d, None, j).name
        != e.name by {
        assert(!is_named(root, stored)(j));
    }
    assert forall|u: Option<int>| #[trigger] is_table(d, u) && u != None::<int> implies table_lba(
        d,
        u,
    ) != lba && table_lba(d, u) != DIR_LBA by {
        assert(is_entry(d, None, u->0));
    }
    (slot, lba)
}

/// Creating a directory keeps a drive well formed.
pub proof fn law_make_dir_keeps_well_formed(d: DiskView, name: Seq<char>, w: Seq<WriteView>)
    requires
        well_formed(d),
        make_dir_plan(d, name) == PlanView::Done(Ok(w)),
    ensures
        well_formed(apply_writes(d, w)),
{
    let (slot, lba) = lemma_make_dir_effect(d, name);
    let d2 = apply_writes(d, w);
    let e = dir_entry_for(stored_name(name), lba);
    assert(is_table(d, None));
    assert(is_table(d2, Some(slot)));
    assert forall|u: Option<int>, j: int|
        #![trigger is_entry(d2, u, j)]
        is_entry(d2, u, j) implies (if u == None::<int> && j == slot {
        entry_in(d2, u, j) == e
    } else {
        entry_in(d2, u, j) == entry_in(d, u, j) && is_entry(d, u, j)
    }) by {
        assert(is_table(d2, u));
    }
    assert forall|u: Option<int>| #[trigger] is_table(d2, u) implies d2.contains_key(
        table_lba(d2, u),
    ) by {
        assert(u == Some(slot) || is_table(d, u));
    }
    assert forall|u: Option<int>, i: int, v: Option<int>, j: int| #[trigger]
        is_entry(d2, u, i) && #[trigger] is_entry(d2, v, j) && !(u == v && i == j) implies apart(
        entry_in(d2, u, i),
        entry_in(d2, v, j),
    ) by {
        if u == None::<int> && i == slot {
            assert(apart(entry_in(d, v, j), e));
        } else if v == None::<int> && j == slot {
            assert(apart(entry_in(d, u, i), e));
        } else {
            assert(is_entry(d, u, i) && is_entry(d, v, j));
        }
    }
}

/// A new directory is there, is empty, and cannot be created again.
pub proof fn law_new_directory_is_empty(d: DiskView, name: Seq<char>, w: Seq<WriteView>)
    requires
        well_formed(d),
        make_dir_plan(d, name) == PlanView::Done(Ok(w)),
    ensures
        listing(apply_writes(d, w), Some(name)) == Step::<
            u32,
            Result<Seq<(Seq<char>, bool, u16)>, Seq<char>>,
        >::Done(Ok(Seq::empty())),
        make_dir_plan(apply_writes(d, w), name) == PlanView::Done(
            Err("'"@ + name + "' already exists"@),
        ),
{
    let (slot, lba) = lemma_make_dir_effect(d, name);
    let d2 = apply_writes(d, w);
    let root2 = table_at(d2, None);
    assert(is_table(d, None));
    assert forall|j: int| 0 <= j < root2.len() && j != slot && (#[trigger] root2[j]).used implies root2[j].name
        != stored_name(name) by {
        assert(is_entry(d, None, j));
    }
    lemma_find_unique(root2, stored_name(name), slot);
    lemma_listing_empty(empty_table(), MAX_ENTRIES as nat);
}

/// A new directory is listed in the root, as one line more; all other lines stay as
/// they were, in their order.
pub proof fn law_new_directory_is_listed(d: DiskView, name: Seq<char>, w: Seq<WriteView>)
    requires
        well_formed(d),
        make_dir_plan(d, name) == PlanView::Done(Ok(w)),
    ensures
        match (listing(d, None), listing(apply_writes(d, w), None)) {
            (Step::Done(Ok(old_lines)), Step::Done(Ok(new_lines))) => line_added(
                old_lines,
                new_lines,
                (shown_name(stored_name(name)), true, 0),
            ),
            _ => false,
        },
{
    let (slot, lba) = lemma_make_dir_effect(d, name);
    assert(is_table(d, None));
    lemma_table_names(d, DIR_LBA);
    lemma_lines_changed(table_at(d, None), slot, dir_entry_for(stored_name(name), lba));
}

/// Creating a directory leaves every file as it was.
pub proof fn law_make_dir_keeps_files(
    d: DiskView,
    name: Seq<char>,
    w: Seq<WriteView>,
    q: Seq<char>,
    bytes: Seq<u8>,
)
    requires
        well_formed(d),
        make_dir_plan(d, name) == PlanView::Done(Ok(w)),
        file_contents(d, q) == Step::<u32, Result<Seq<u8>, Seq<char>>>::Done(Ok(bytes)),
    ensures
        file_contents(apply_writes(d, w), q) == Step::<u32, Result<Seq<u8>, Seq<char>>>::Done(
            Ok(bytes),
        ),
{
    let (slot, lba) = lemma_make_dir_effect(d, name);
    let (u, j) = lemma_readable_entry(d, q);
    let d2 = apply_writes(d, w);
    let e = dir_entry_for(stored_name(name), lba);
    let root = table_at(d, None);
    let root2 = table_at(d2, None);
    assert(is_table(d, None));
    if let Some(k) = first_index(q, '/') {
        let stored = stored_name(q.take(k));
        lemma_first_where(root.len(), is_named(root, stored));
        let r = find_name(root, stored)->0;
        assert(is_named(root, stored)(r));
        assert(is_entry(d, None, r));
        assert forall|m: int| 0 <= m < root2.len() && m != r && (#[trigger] root2[m]).used implies root2[m].name
            != stored by {
            if m != slot {
                assert(is_entry(d, None, m));
            }
        }
        lemma_find_unique(root2, stored, r);
    }
    assert(place_of(d2, q) == place_of(d, q));
    let stored = stored_name((place_of(d, q)->Done_0->Ok_0).1);
    let es2 = table_at(d2, u);
    let f = entry_in(d, u, j);
    assert(es2[j] == f);
    assert forall|m: int| 0 <= m < es2.len() && m != j && (#[trigger] es2[m]).used implies es2[m].name
        != stored by {
        if !(u == None::<int> && m == slot) {
            assert(is_entry(d, u, m));
        }
    }
    lemma_find_unique(es2, stored, j);
    assert(file_contents(d2, q) == entry_contents(d2, f));
    if f.sector_count > 0 {
        assert(apart(f, e));
        lemma_sectors_kept(d, d2, f.start_lba, f.sector_count as nat);
    }
}

/// A file that can be read is as long as its entry says.
proof fn lemma_contents_length(d: DiskView, q: Seq<char>)
    requires
        well_formed(d),
        file_contents(d, q) matches Step::Done(Ok(_)),
    ensures
        ({
            let (lba, name) = place_of(d, q)->Done_0->Ok_0;
            let es = table_of(d[lba]);
            (file_contents(d, q)->Done_0->Ok_0).len() == es[find_name(
                es,
                stored_name(name),
            )->0].len
        }),
{
    let (u, j) = lemma_readable_entry(d, q);
    let f = entry_in(d, u, j);
    lemma_sectors_length(d, f.start_lba, f.sector_count as nat);
}

proof fn lemma_sectors_length(d: DiskView, start: u32, k: nat)
    requires
        whole_sectors(d),
        sectors_from(d, start, k) matches Step::Done(Ok(_)),
    ensures
        (sectors_from(d, start, k)->Done_0->Ok_0).len() == 512 * k,
    decreases k,
{
    if k > 0 {
        lemma_sectors_length(d, start, (k - 1) as nat);
        let lba = start.wrapping_add((k - 1) as u32);
        assert(d.contains_key(lba));
    }
}

/// After a file was removed every entry is left but its own.
proof fn lemma_entries_left(d: DiskView, path: Seq<char>)
    requires
        well_formed(d),
        delete_plan(d, path) matches Step::Done(Ok(_)),
    ensures
        ({
            let d2 = apply_writes(d, delete_plan(d, path)->Done_0->Ok_0);
            let place = place_of(d, path)->Done_0->Ok_0;
            forall|u: Option<int>, j: int|
                #![trigger is_entry(d2, u, j)]
                #![trigger is_entry(d, u, j)]
                is_entry(d2, u, j) == (is_entry(d, u, j) && !(table_lba(d, u) == place.0
                    && entry_in(d, u, j).name == stored_name(place.1))) && (is_entry(d2, u, j)
                    ==> entry_in(d2, u, j) == entry_in(d, u, j))
        }),
{
    let (t, slot) = lemma_delete_effect(d, path);
    let d2 = apply_writes(d, delete_plan(d, path)->Done_0->Ok_0);
    let place = place_of(d, path)->Done_0->Ok_0;
    lemma_slot_replaced(d, d2, t, slot, empty_entry());
    assert forall|u: Option<int>, j: int|
        #![trigger is_entry(d2, u, j)]
        #![trigger is_entry(d, u, j)]
        is_entry(d2, u, j) == (is_entry(d, u, j) && !(table_lba(d, u) == place.0 && entry_in(
            d,
            u,
            j,
        ).name == stored_name(place.1))) && (is_entry(d2, u, j) ==> entry_in(d2, u, j) == entry_in(
            d,
            u,
            j,
        )) by {
        assert(is_table(d2, u) == is_table(d, u));
        if is_table(d, u) && u != t {
            lemma_tables_differ(d, t, u);
        }
        assert(is_entry(d, t, slot));
    }
}

/// Sectors of an entry that is gone make a free span.
proof fn lemma_span_freed(
    d: DiskView,
    d2: DiskView,
    t: Option<int>,
    slot: int,
    n: nat,
    exclude: Option<Run>,
)
    requires
        well_formed(d),
        well_formed(d2),
        is_entry(d, t, slot),
        0 < n <= entry_in(d, t, slot).sector_count,
        forall|u: Option<int>, j: int| #[trigger]
            is_entry(d2, u, j) ==> is_entry(d, u, j) && entry_in(d2, u, j) == entry_in(d, u, j)
                && !(u == t && j == slot),
    ensures
        occupied_runs(d2, exclude) is Done,
        free_span(occupied_runs(d2, exclude)->Done_0, n) is Some,
{
    let e = entry_in(d, t, slot);
    lemma_root_runs_done(d2, MAX_ENTRIES as nat);
    assert(is_table(d2, None));
    let runs = occupied_runs(d2, exclude)->Done_0;
    let old_start = e.start_lba - FILE_DATA_START_LBA;
    assert(is_free(runs, n)(old_start)) by {
        assert forall|m: int| 0 <= m < runs.len() implies !overlaps(
            #[trigger] runs[m],
            FILE_DATA_START_LBA + old_start,
            FILE_DATA_START_LBA + old_start + n,
        ) by {
            let (u, j) = lemma_occupied_source(d2, exclude, m);
            assert(is_entry(d2, u, j));
            assert(apart(entry_in(d, u, j), e));
        }
    }
    lemma_first_where((NUM_DATA_SECTORS - n + 1) as nat, is_free(runs, n));
}

/// A write is accepted where its slot is a file's or unused, and a span is free beside
/// what the slot has at present.
proof fn lemma_write_fits(d: DiskView, path: Seq<char>, data: Seq<u8>, es: Seq<EntryView>)
    requires
        data.len() <= MAX_FILE_BYTES,
        place_of(d, path) matches Step::Done(Ok(_)),
        load_dir(d, (place_of(d, path)->Done_0->Ok_0).0) == Step::<u32, Seq<EntryView>>::Done(es),
        match find_name(es, stored_name((place_of(d, path)->Done_0->Ok_0).1)) {
            Some(i) => !es[i].is_dir,
            None => find_unused(es) is Some,
        },
        data.len() > 0 ==> forall|exclude: Option<Run>| #[trigger]
            occupied_runs(d, exclude) is Done && free_span(
                occupied_runs(d, exclude)->Done_0,
                sectors_for(data.len()),
            ) is Some,
    ensures
        write_plan(d, path, data) matches Step::Done(Ok(_)),
{
}

/// Whether a table has a slot for the file at `q` once the file at `path` is gone: it
/// has the file already, or an unused slot, or the slot that becomes unused.
pub open spec fn has_slot(d: DiskView, path: Seq<char>, q: Seq<char>) -> bool {
    match place_of(d, q) {
        Step::Done(Ok((lba, name))) => match entry_named(d, q) {
            Some(e) => !e.is_dir,
            None => find_unused(table_of(d[lba])) is Some || (place_of(d, path) matches Step::Done(
                Ok(place),
            ) && place.0 == lba),
        },
        _ => false,
    }
}

/// After a file was removed, a table that has a slot for another has it still.
proof fn lemma_slot_left(d: DiskView, path: Seq<char>, q: Seq<char>)
    requires
        well_formed(d),
        delete_plan(d, path) matches Step::Done(Ok(_)),
        has_slot(d, path, q),
    ensures
        ({
            let d2 = apply_writes(d, delete_plan(d, path)->Done_0->Ok_0);
            let (lba, name) = place_of(d, q)->Done_0->Ok_0;
            let es2 = table_of(d2[lba]);
            &&& place_of(d2, q) == place_of(d, q)
            &&& d2.contains_key(lba)
            &&& match find_name(es2, stored_name(name)) {
                Some(i) => !es2[i].is_dir,
                None => find_unused(es2) is Some,
            }
        }),
{
    let (t, slot) = lemma_delete_effect(d, path);
    let d2 = apply_writes(d, delete_plan(d, path)->Done_0->Ok_0);
    let stored = stored_name((place_of(d, q)->Done_0->Ok_0).1);
    lemma_place_kept(d, d2, t, slot, empty_entry(), q);
    lemma_slot_replaced(d, d2, t, slot, empty_entry());
    let u = lemma_place_is_table(d, q);
    let es = table_at(d, u);
    let es2 = table_at(d2, u);
    assert(is_table(d, u) && is_table(d2, u));
    assert(es2 == table_of(d2[table_lba(d, u)]));
    lemma_first_where(es2.len(), is_named(es2, stored));
    lemma_first_where(es2.len(), is_unused(es2));
    if u == t {
        assert(is_unused(es2)(slot));
    } else {
        lemma_tables_differ(d, t, u);
    }
    if let Some(i) = find_name(es2, stored) {
        assert(is_named(es2, stored)(i));
        assert(es[i] == es2[i]);
        assert(is_entry(d, u, i));
        assert forall|j: int| #[trigger] is_entry(d, u, j) && j != i implies entry_in(d, u, j).name
            != stored by {}
        lemma_entry_named(d, q, u, i);
    } else if u != t {
        assert(entry_named(d, q) is None);
    }
}

/// A file's sectors are free for a later file once it was removed: a write to any path
/// that has a slot is accepted as long as it takes no more sectors.
pub proof fn law_delete_frees_space(
    d: DiskView,
    path: Seq<char>,
    w: Seq<WriteView>,
    bytes: Seq<u8>,
    q: Seq<char>,
    data: Seq<u8>,
)
    requires
        well_formed(d),
        delete_plan(d, path) == PlanView::Done(Ok(w)),
        file_contents(d, path) == Step::<u32, Result<Seq<u8>, Seq<char>>>::Done(Ok(bytes)),
        sectors_for(data.len()) <= sectors_for(bytes.len()),
        has_slot(d, path, q),
    ensures
        write_plan(apply_writes(d, w), q, data) matches Step::Done(Ok(_)),
{
    let (t, slot) = lemma_delete_effect(d, path);
    let d2 = apply_writes(d, w);
    let n = sectors_for(data.len());
    assert(n <= entry_in(d, t, slot).sector_count && data.len() <= MAX_FILE_BYTES) by {
        let (u, j) = lemma_readable_entry(d, path);
        lemma_contents_length(d, path);
        if u != t {
            lemma_tables_differ(d, t, u);
        }
        assert(is_entry(d, t, slot) && is_entry(d, u, j));
    }
    if data.len() > 0 {
        law_delete_keeps_well_formed(d, path, w);
        lemma_entries_left(d, path);
        assert forall|exclude: Option<Run>| #[trigger]
            occupied_runs(d2, exclude) is Done && free_span(
                occupied_runs(d2, exclude)->Done_0,
                n,
            ) is Some by {
            lemma_span_freed(d, d2, t, slot, n, exclude);
        }
    }
    lemma_slot_left(d, path, q);
    lemma_write_fits(d2, q, data, table_of(d2[(place_of(d, q)->Done_0->Ok_0).0]));
}

/// Whether a run has sector `l`.
pub open spec fn has_sector(r: Run, l: u32) -> bool {
    r.0 <= l < r.0 + r.1
}

/// Whether sector `l` belongs to a file or a directory.
pub open spec fn is_taken(d: DiskView, l: u32) -> bool {
    occupied_runs(d, None) matches Step::Done(runs) && exists|m: int|
        0 <= m < runs.len() && has_sector(#[trigger] runs[m], l)
}

/// A sector is taken where an entry has it.
proof fn lemma_taken(d: DiskView, l: u32, t: Option<int>, i: int)
    requires
        well_formed(d),
        is_entry(d, t, i),
        has_sector(run_of(entry_in(d, t, i)), l),
    ensures
        is_taken(d, l),
{
    lemma_occupied_cover(d, None, t, i);
    let runs = occupied_runs(d, None)->Done_0;
    let m = choose|m: int| 0 <= m < runs.len() && runs[m] == run_of(entry_in(d, t, i));
    assert(has_sector(runs[m], l));
}

/// The entry that has a taken sector.
proof fn lemma_taken_by(d: DiskView, l: u32) -> (r: (Option<int>, int))
    requires
        well_formed(d),
        is_taken(d, l),
    ensures
        is_entry(d, r.0, r.1),
        has_sector(run_of(entry_in(d, r.0, r.1)), l),
{
    let runs = occupied_runs(d, None)->Done_0;
    let m = choose|m: int| 0 <= m < runs.len() && has_sector(#[trigger] runs[m], l);
    lemma_occupied_source(d, None, m)
}

/// Removing a file frees its sectors, and no others.
#[verifier::spinoff_prover]
#[verifier::rlimit(40)]
pub proof fn law_delete_frees_the_sectors(d: DiskView, path: Seq<char>, w: Seq<WriteView>)
    requires
        well_formed(d),
        delete_plan(d, path) == PlanView::Done(Ok(w)),
    ensures
        entry_named(d, path) matches Some(e) && forall|l: u32| #[trigger]
            is_taken(apply_writes(d, w), l) == (is_taken(d, l) && !has_sector(run_of(e), l)),
{
    let (t, slot) = lemma_delete_effect(d, path);
    let d2 = apply_writes(d, w);
    let e = entry_in(d, t, slot);
    lemma_entry_named(d, path, t, slot);
    law_delete_keeps_well_formed(d, path, w);
    lemma_entries_left(d, path);
    assert forall|l: u32| #[trigger] is_taken(d2, l) == (is_taken(d, l) && !has_sector(
        run_of(e),
        l,
    )) by {
        if is_taken(d2, l) {
            let (u, j) = lemma_taken_by(d2, l);
            assert(is_entry(d, u, j));
            assert(apart(entry_in(d, u, j), e));
            lemma_taken(d, l, u, j);
        }
        if is_taken(d, l) && !has_sector(run_of(e), l) {
            let (u, j) = lemma_taken_by(d, l);
            assert(is_entry(d2, u, j));
            lemma_taken(d2, l, u, j);
        }
    }
}

/// A file can always be overwritten with data that takes no more sectors.
pub proof fn law_rewrite_fits(d: DiskView, path: Seq<char>, bytes: Seq<u8>, data: Seq<u8>)
    requires
        well_formed(d),
        file_contents(d, path) == Step::<u32, Result<Seq<u8>, Seq<char>>>::Done(Ok(bytes)),
        sectors_for(data.len()) <= sectors_for(bytes.len()),
    ensures
        write_plan(d, path, data) matches Step::Done(Ok(_)),
{
    let (t, slot) = lemma_readable_entry(d, path);
    lemma_contents_length(d, path);
    let e = entry_in(d, t, slot);
    assert(is_table(d, t));
    if data.len() > 0 {
        let n = sectors_for(data.len());
        let exclude = slot_run(e);
        lemma_root_runs_done(d, MAX_ENTRIES as nat);
        assert(is_table(d, None));
        let runs = occupied_runs(d, exclude)->Done_0;
        let old_start = e.start_lba - FILE_DATA_START_LBA;
        assert(is_free(runs, n)(old_start)) by {
            assert forall|m: int| 0 <= m < runs.len() implies !overlaps(
                #[trigger] runs[m],
                FILE_DATA_START_LBA + old_start,
                FILE_DATA_START_LBA + old_start + n,
            ) by {
                let (u, j) = lemma_occupied_source(d, exclude, m);
                assert(apart(entry_in(d, u, j), e));
            }
        }
        lemma_first_where((NUM_DATA_SECTORS - n + 1) as nat, is_free(runs, n));
    }
}

proof fn lemma_root_runs_asks(d: DiskView, root: Seq<EntryView>, k: nat)
    ensures
        root_runs(d, root, k) matches Step::Need(l) ==> !d.contains_key(l),
    decreases k,
{
    if k > 0 {
        lemma_root_runs_asks(d, root, (k - 1) as nat);
    }
}

proof fn lemma_sectors_asks(d: DiskView, start: u32, k: nat)
    ensures
        sectors_from(d, start, k) matches Step::Need(l) ==> !d.contains_key(l),
    decreases k,
{
    if k > 0 {
        lemma_sectors_asks(d, start, (k - 1) as nat);
    }
}

proof fn lemma_occupied_asks(d: DiskView, exclude: Option<Run>)
    ensures
        occupied_runs(d, exclude) matches Step::Need(l) ==> !d.contains_key(l),
{
    lemma_root_runs_asks(d, table_of(d[DIR_LBA]), MAX_ENTRIES as nat);
}

/// No operation asks for a sector that is already known, so that answering its
/// questions one by one brings every operation to an end.
pub proof fn law_questions_are_new(
    d: DiskView,
    path: Seq<char>,
    data: Seq<u8>,
    dir: Option<Seq<char>>,
)
    ensures
        make_dir_plan(d, path) matches Step::Need(l) ==> !d.contains_key(l),
        write_plan(d, path, data) matches Step::Need(l) ==> !d.contains_key(l),
        delete_plan(d, path) matches Step::Need(l) ==> !d.contains_key(l),
        file_contents(d, path) matches Step::Need(l) ==> !d.contains_key(l),
        listing(d, dir) matches Step::Need(l) ==> !d.contains_key(l),
{
    lemma_occupied_asks(d, None);
    if let Step::Done(Ok((lba, name))) = place_of(d, path) {
        let es = table_of(d[lba]);
        let stored = stored_name(name);
        if let Some(i) = find_name(es, stored) {
            lemma_sectors_asks(d, es[i].start_lba, es[i].sector_count as nat);
            lemma_occupied_asks(d, slot_run(es[i]));
        }
        if let Some(i) = find_unused(es) {
            lemma_occupied_asks(d, slot_run(es[i]));
        }
    }
}

/// Whether `d2` knows all that `d` knows.
pub open spec fn extends(d: DiskView, d2: DiskView) -> bool {
    forall|l: u32| #[trigger] d.contains_key(l) ==> d2.contains_key(l) && d2[l] == d[l]
}

proof fn lemma_root_runs_extend(d: DiskView, d2: DiskView, root: Seq<EntryView>, k: nat)
    requires
        extends(d, d2),
        root_runs(d, root, k) is Done,
    ensures
        root_runs(d2, root, k) == root_runs(d, root, k),
    decreases k,
{
    if k > 0 {
        lemma_root_runs_extend(d, d2, root, (k - 1) as nat);
    }
}

proof fn lemma_sectors_extend(d: DiskView, d2: DiskView, start: u32, k: nat)
    requires
        extends(d, d2),
        sectors_from(d, start, k) is Done,
    ensures
        sectors_from(d2, start, k) == sectors_from(d, start, k),
    decreases k,
{
    if k > 0 {
        lemma_sectors_extend(d, d2, start, (k - 1) as nat);
    }
}

proof fn lemma_occupied_extend(d: DiskView, d2: DiskView, exclude: Option<Run>)
    requires
        extends(d, d2),
        occupied_runs(d, exclude) is Done,
    ensures
        occupied_runs(d2, exclude) == occupied_runs(d, exclude),
{
    lemma_root_runs_extend(d, d2, table_of(d[DIR_LBA]), MAX_ENTRIES as nat);
}

proof fn lemma_place_extend(d: DiskView, d2: DiskView, path: Seq<char>)
    requires
        extends(d, d2),
        place_of(d, path) is Done,
    ensures
        place_of(d2, path) == place_of(d, path),
{
}

proof fn lemma_store_extend(
    d: DiskView,
    d2: DiskView,
    lba: u32,
    es: Seq<EntryView>,
    slot: int,
    name: Seq<u8>,
    data: Seq<u8>,
)
    requires
        extends(d, d2),
        store_plan(d, lba, es, slot, name, data) is Done,
    ensures
        store_plan(d2, lba, es, slot, name, data) == store_plan(d, lba, es, slot, name, data),
{
    if data.len() > 0 {
        lemma_occupied_extend(d, d2, slot_run(es[slot]));
    }
}

proof fn lemma_write_extend(d: DiskView, d2: DiskView, path: Seq<char>, data: Seq<u8>)
    requires
        extends(d, d2),
        write_plan(d, path, data) is Done,
    ensures
        write_plan(d2, path, data) == write_plan(d, path, data),
{
    if data.len() <= MAX_FILE_BYTES {
        lemma_place_extend(d, d2, path);
        if let Step::Done(Ok((lba, name))) = place_of(d, path) {
            let es = table_of(d[lba]);
            let stored = stored_name(name);
            match find_name(es, stored) {
                Some(i) => {
                    if !es[i].is_dir {
                        lemma_store_extend(d, d2, lba, es, i, stored, data);
                    }
                },
                None => {
                    if let Some(i) = find_unused(es) {
                        lemma_store_extend(d, d2, lba, es, i, stored, data);
                    }
                },
            }
        }
    }
}

/// An answer does not change when more of the drive becomes known.
pub proof fn law_answers_are_final(
    d: DiskView,
    d2: DiskView,
    path: Seq<char>,
    data: Seq<u8>,
    dir: Option<Seq<char>>,
)
    requires
        extends(d, d2),
    ensures
        make_dir_plan(d, path) is Done ==> make_dir_plan(d2, path) == make_dir_plan(d, path),
        write_plan(d, path, data) is Done ==> write_plan(d2, path, data) == write_plan(
            d,
            path,
            data,
        ),
        delete_plan(d, path) is Done ==> delete_plan(d2, path) == delete_plan(d, path),
        file_contents(d, path) is Done ==> file_contents(d2, path) == file_contents(d, path),
        listing(d, dir) is Done ==> listing(d2, dir) == listing(d, dir),
{
    if make_dir_plan(d, path) is Done && occupied_runs(d, None) is Done {
        lemma_occupied_extend(d, d2, None);
    }
    if write_plan(d, path, data) is Done {
        lemma_write_extend(d, d2, path, data);
    }
    if place_of(d, path) is Done {
        lemma_place_extend(d, d2, path);
        if let Step::Done(Ok((lba, name))) = place_of(d, path) {
            let es = table_of(d[lba]);
            if file_contents(d, path) is Done {
                if let Some(i) = find_name(es, stored_name(name)) {
                    if !es[i].is_dir {
                        lemma_sectors_extend(d, d2, es[i].start_lba, es[i].sector_count as nat);
                    }
                }
            }
        }
    }
}

} // verus!
