use spikeling_os::disk::{SectorCache, SectorWrite};
use spikeling_os::fs::{
    collect_occupied, delete_file, find_free_span, list, load_dir_at, make_dir, name_bytes, read_file,
    resolve_dir_lba, resolve_table, save_dir_at, write_file, DirEntry,
};
use spikeling_os::step::Step;
use std::collections::HashMap;

/// A drive whose sectors read as zeros until they are written, but for those that
/// cannot be read.
struct Drive {
    sectors: HashMap<u32, [u8; 512]>,
    broken: Vec<u32>,
}

impl Drive {
    fn blank() -> Drive {
        Drive { sectors: HashMap::new(), broken: Vec::new() }
    }

    fn read(&self, lba: u32) -> Option<[u8; 512]> {
        if self.broken.contains(&lba) {
            None
        } else {
            Some(*self.sectors.get(&lba).unwrap_or(&[0u8; 512]))
        }
    }

    fn ask<T>(&self, f: impl Fn(&SectorCache) -> Step<u32, T>) -> T {
        let mut cache = SectorCache::new();
        loop {
            match f(&cache) {
                Step::Need(lba) => {
                    assert!(cache.lookup(lba).is_none());
                    cache.learn(lba, self.read(lba));
                }
                Step::Done(r) => return r,
            }
        }
    }

    fn perform(&mut self, plan: Result<Vec<SectorWrite>, String>) -> Result<(), String> {
        for w in plan? {
            self.sectors.insert(w.lba, w.data);
        }
        Ok(())
    }

    fn write(&mut self, path: &str, data: &[u8]) -> Result<(), String> {
        let plan = self.ask(|c| write_file(c, path, data));
        self.perform(plan)
    }

    fn remove(&mut self, path: &str) -> Result<(), String> {
        let plan = self.ask(|c| delete_file(c, path));
        self.perform(plan)
    }

    fn mkdir(&mut self, name: &str) -> Result<(), String> {
        let plan = self.ask(|c| make_dir(c, name));
        self.perform(plan)
    }

    fn cat(&self, path: &str) -> Result<Vec<u8>, String> {
        self.ask(|c| read_file(c, path))
    }

    fn ls(&self, dir: Option<&str>) -> Result<Vec<(String, bool, u16)>, String> {
        self.ask(|c| list(c, dir))
    }
}

fn err(s: &str) -> Result<(), String> {
    Err(s.to_string())
}

#[test]
fn a_blank_drive_is_empty() {
    let d = Drive::blank();
    assert_eq!(d.ls(None), Ok(vec![]));
    assert_eq!(d.cat("x"), Err("no such file 'x'".to_string()));
}

#[test]
fn a_file_reads_back() {
    let mut d = Drive::blank();
    assert_eq!(d.write("hello", b"hello, drive"), Ok(()));
    assert_eq!(d.cat("hello"), Ok(b"hello, drive".to_vec()));
    assert_eq!(d.ls(None), Ok(vec![("hello".to_string(), false, 12)]));
    // one table at sector 1, the data right behind it
    let data = d.sectors.get(&2).unwrap();
    assert_eq!(&data[..12], b"hello, drive");
    assert!(data[12..].iter().all(|b| *b == 0));
    let table = d.sectors.get(&1).unwrap();
    assert_eq!(&table[..4], &[0x46, 0x4B, 0x50, 0x53]);
    assert_eq!(&table[4..6], &[1, 0]);
    assert_eq!(&table[6..12], b"hello\0");
    assert_eq!(&table[22..29], &[12, 0, 2, 0, 0, 0, 1]);
}

#[test]
fn an_empty_file_reads_back() {
    let mut d = Drive::blank();
    assert_eq!(d.write("e", b""), Ok(()));
    assert_eq!(d.cat("e"), Ok(vec![]));
    assert_eq!(d.ls(None), Ok(vec![("e".to_string(), false, 0)]));
}

#[test]
fn the_largest_file_reads_back_and_a_larger_one_is_refused() {
    let mut d = Drive::blank();
    let big: Vec<u8> = (0..4096u32).map(|i| (i % 251) as u8).collect();
    assert_eq!(d.write("big", &big), Ok(()));
    assert_eq!(d.cat("big"), Ok(big.clone()));
    assert_eq!(
        d.write("bigger", &vec![0u8; 4097]),
        err("file too large -- max 4096 bytes (8 sectors per file, no bigger files yet)")
    );
    assert_eq!(d.cat("big"), Ok(big));
}

#[test]
fn a_write_keeps_other_files() {
    let mut d = Drive::blank();
    d.write("a", &[1u8; 700]).unwrap();
    d.write("b", &[2u8; 300]).unwrap();
    d.write("a", &[3u8; 1500]).unwrap();
    assert_eq!(d.cat("a"), Ok(vec![3u8; 1500]));
    assert_eq!(d.cat("b"), Ok(vec![2u8; 300]));
    d.write("b", b"").unwrap();
    assert_eq!(d.cat("a"), Ok(vec![3u8; 1500]));
}

#[test]
fn a_removed_file_is_gone_and_its_space_is_free() {
    let mut d = Drive::blank();
    for i in 0..8 {
        d.write(&format!("f{}", i), &[i as u8; 4096]).unwrap();
    }
    assert_eq!(d.write("more", b"x"), err("directory full (max 8 entries)"));
    assert_eq!(d.remove("f3"), Ok(()));
    assert_eq!(d.cat("f3"), Err("no such file 'f3'".to_string()));
    assert_eq!(d.write("more", &[9u8; 4096]), Ok(()));
    assert_eq!(d.cat("more"), Ok(vec![9u8; 4096]));
    for i in [0usize, 1, 2, 4, 5, 6, 7] {
        assert_eq!(d.cat(&format!("f{}", i)), Ok(vec![i as u8; 4096]));
    }
    assert_eq!(d.remove("f3"), err("no such file 'f3'"));
}

fn line(name: &str, is_dir: bool, len: u16) -> (String, bool, u16) {
    (name.to_string(), is_dir, len)
}

#[test]
fn listings_follow_writes_and_removals() {
    let mut d = Drive::blank();
    d.write("a", &[1u8; 10]).unwrap();
    d.mkdir("dir").unwrap();
    d.write("b", &[1u8; 20]).unwrap();
    d.write("dir/x", &[1u8; 30]).unwrap();
    let root = vec![line("a", false, 10), line("dir", true, 0), line("b", false, 20)];
    assert_eq!(d.ls(None), Ok(root.clone()));
    assert_eq!(d.ls(Some("dir")), Ok(vec![line("x", false, 30)]));
    // a file that is written again keeps its line's place
    d.write("a", &[1u8; 700]).unwrap();
    assert_eq!(d.ls(None), Ok(vec![line("a", false, 700), root[1].clone(), root[2].clone()]));
    // a removed file's line is gone, and its place is taken by the next file
    d.remove("a").unwrap();
    assert_eq!(d.ls(None), Ok(vec![root[1].clone(), root[2].clone()]));
    d.write("c", b"").unwrap();
    assert_eq!(d.ls(None), Ok(vec![line("c", false, 0), root[1].clone(), root[2].clone()]));
    assert_eq!(d.ls(Some("dir")), Ok(vec![line("x", false, 30)]));
    d.remove("dir/x").unwrap();
    assert_eq!(d.ls(Some("dir")), Ok(vec![]));
    assert_eq!(d.ls(None).unwrap().len(), 3);
}

#[test]
fn a_removed_file_frees_its_sectors_and_no_others() {
    let mut d = Drive::blank();
    d.mkdir("dir").unwrap();
    for i in 0..7 {
        d.write(&format!("f{}", i), &[i as u8; 4096]).unwrap();
    }
    let taken = |d: &Drive| {
        let mut sectors = vec![];
        for (start, count) in d.ask(|c| collect_occupied(c, None)) {
            sectors.extend(start..start + count as u32);
        }
        sectors.sort();
        sectors
    };
    let before = taken(&d);
    assert_eq!(before, (2..59).collect::<Vec<u32>>());
    d.remove("f2").unwrap();
    let freed: Vec<u32> = before.iter().copied().filter(|s| !taken(&d).contains(s)).collect();
    assert_eq!(freed, (19..27).collect::<Vec<u32>>());
    assert_eq!(taken(&d).len(), before.len() - 8);
    // a file of that size fits again, in another directory
    assert_eq!(d.write("dir/big", &[9u8; 4096]), Ok(()));
    assert_eq!(d.cat("dir/big"), Ok(vec![9u8; 4096]));
    assert_eq!(taken(&d), before);
}

#[test]
fn a_full_drive_refuses_more() {
    let mut d = Drive::blank();
    d.mkdir("d").unwrap();
    for i in 0..7 {
        d.write(&format!("f{}", i), &[i as u8; 4096]).unwrap();
    }
    // 1 + 7 * 8 sectors of 64 are in use
    assert_eq!(d.write("d/x", &[1u8; 4096]), err("not enough free disk space (fragmented or full)"));
    assert_eq!(d.write("d/x", &[1u8; 3584]), Ok(()));
    assert_eq!(d.write("d/y", b"1"), err("not enough free disk space (fragmented or full)"));
    // the file's own space may be used again when it is written anew
    assert_eq!(d.write("d/x", &[2u8; 3000]), Ok(()));
    assert_eq!(d.cat("d/x"), Ok(vec![2u8; 3000]));
}

#[test]
fn directories_hold_files() {
    let mut d = Drive::blank();
    assert_eq!(d.mkdir("docs"), Ok(()));
    assert_eq!(d.ls(Some("docs")), Ok(vec![]));
    assert_eq!(d.write("docs/a", b"inside"), Ok(()));
    assert_eq!(d.write("a", b"outside"), Ok(()));
    assert_eq!(d.cat("docs/a"), Ok(b"inside".to_vec()));
    assert_eq!(d.cat("a"), Ok(b"outside".to_vec()));
    assert_eq!(d.ls(Some("docs")), Ok(vec![("a".to_string(), false, 6)]));
    assert_eq!(
        d.ls(None),
        Ok(vec![("docs".to_string(), true, 0), ("a".to_string(), false, 7)])
    );
    assert_eq!(d.remove("docs/a"), Ok(()));
    assert_eq!(d.ls(Some("docs")), Ok(vec![]));
    assert_eq!(d.cat("a"), Ok(b"outside".to_vec()));
}

#[test]
fn directory_errors() {
    let mut d = Drive::blank();
    d.mkdir("docs").unwrap();
    d.write("file", b"x").unwrap();
    assert_eq!(d.mkdir("docs"), err("'docs' already exists"));
    assert_eq!(d.mkdir("file"), err("'file' already exists"));
    assert_eq!(
        d.mkdir("a/b"),
        err("mkdir only supports creating a directory directly under the root (no 'mkdir a/b')")
    );
    assert_eq!(d.write("none/x", b"1"), err("no such directory 'none'"));
    assert_eq!(d.write("file/x", b"1"), err("'file' is a file, not a directory"));
    assert_eq!(
        d.write("docs/x/y", b"1"),
        err("'docs/x/y' -- only one level of subdirectory nesting is supported (DIR/NAME, not DIR/SUB/NAME)")
    );
    assert_eq!(
        d.write("docs/", b"1"),
        err("'docs/' -- only one level of subdirectory nesting is supported (DIR/NAME, not DIR/SUB/NAME)")
    );
    assert_eq!(d.write("docs", b"1"), err("'docs' is a directory"));
    assert_eq!(d.cat("docs"), Err("'docs' is a directory, not a file".to_string()));
    assert_eq!(
        d.remove("docs"),
        err("'docs' is a directory -- rm does not remove directories (no rmdir yet)")
    );
    assert_eq!(d.ls(Some("none")), Err("no such directory 'none'".to_string()));
    assert_eq!(d.ls(Some("file")), Err("'file' is a file, not a directory".to_string()));
    for i in 0..6 {
        d.mkdir(&format!("d{}", i)).unwrap();
    }
    assert_eq!(d.mkdir("one_more"), err("directory full (max 8 entries)"));
}

#[test]
fn an_unreadable_sector_is_an_error() {
    let mut d = Drive::blank();
    d.write("f", &[5u8; 1000]).unwrap();
    d.broken.push(3);
    assert_eq!(d.cat("f"), Err("ATA error bit set".to_string()));
    d.broken = vec![1];
    assert_eq!(d.ls(None), Ok(vec![]));
}

#[test]
fn names_are_cut_at_sixteen_bytes() {
    assert_eq!(&name_bytes("abc")[..4], &[b'a', b'b', b'c', 0]);
    assert_eq!(&name_bytes("0123456789abcdefXYZ"), b"0123456789abcdef");
    let mut d = Drive::blank();
    d.write("0123456789abcdefXYZ", b"long").unwrap();
    assert_eq!(d.ls(None), Ok(vec![("0123456789abcdef".to_string(), false, 4)]));
    assert_eq!(d.cat("0123456789abcdef"), Ok(b"long".to_vec()));
}

#[test]
fn a_name_cut_inside_a_character_is_shown_with_a_replacement() {
    let mut d = Drive::blank();
    let name = "0123456789abcde\u{e9}";
    d.write(name, b"1").unwrap();
    assert_eq!(d.ls(None), Ok(vec![("0123456789abcde\u{fffd}".to_string(), false, 1)]));
}

#[test]
fn tables_roundtrip() {
    let mut entries: Vec<DirEntry> = Vec::new();
    for i in 0..8u8 {
        let mut e = DirEntry::empty();
        assert!(!e.used);
        if i % 2 == 0 {
            e.used = true;
            e.is_dir = i == 4;
            e.name[0] = b'a' + i;
            e.len = 300 + i as u16;
            e.start_lba = 0x01020304 + i as u32;
            e.sector_count = i;
        }
        entries.push(e);
    }
    let w = save_dir_at(7, &entries);
    assert_eq!(w.lba, 7);
    let mut cache = SectorCache::new();
    cache.learn(7, Some(w.data));
    match load_dir_at(&cache, 7) {
        Step::Done(es) => {
            assert_eq!(es.len(), 8);
            for i in 0..8 {
                assert_eq!(es[i].used, entries[i].used);
                if es[i].used {
                    assert_eq!(es[i].is_dir, entries[i].is_dir);
                    assert_eq!(es[i].name, entries[i].name);
                    assert_eq!(es[i].len, entries[i].len);
                    assert_eq!(es[i].start_lba, entries[i].start_lba);
                    assert_eq!(es[i].sector_count, entries[i].sector_count);
                    assert_eq!(es[i].name_str(), ((b'a' + i as u8) as char).to_string());
                }
            }
        }
        Step::Need(_) => panic!("the table is known"),
    }
    assert!(matches!(load_dir_at(&cache, 8), Step::Need(8)));
}

#[test]
fn free_space_is_found_first_fit() {
    assert_eq!(find_free_span(&vec![], 64), Some(0));
    assert_eq!(find_free_span(&vec![(2, 3), (6, 2)], 1), Some(3));
    assert_eq!(find_free_span(&vec![(2, 3), (6, 2)], 2), Some(6));
    assert_eq!(find_free_span(&vec![(2, 60)], 5), None);
    assert_eq!(find_free_span(&vec![(2, 60)], 4), Some(60));
}

#[test]
fn paths_lead_to_tables() {
    let mut d = Drive::blank();
    d.mkdir("docs").unwrap();
    assert_eq!(d.ask(|c| resolve_dir_lba(c, "docs")), Ok(2));
    let place = d.ask(|c| match resolve_table(c, "docs/x") {
        Step::Need(l) => Step::Need(l),
        Step::Done(Ok((lba, name))) => Step::Done(Ok((lba, name.to_string()))),
        Step::Done(Err(e)) => Step::Done(Err(e)),
    });
    assert_eq!(place, Ok((2, "x".to_string())));
    assert_eq!(d.ask(|c| collect_occupied(c, None)), vec![(2u32, 1u8)]);
    assert_eq!(d.ask(|c| collect_occupied(c, Some((2, 1)))), vec![]);
}

#[test]
fn the_cache_answers_what_it_learned() {
    let mut c = SectorCache::new();
    assert!(c.lookup(4).is_none());
    c.learn(4, Some([7u8; 512]));
    assert_eq!(c.lookup(4), Some(Some([7u8; 512])));
    c.learn(4, None);
    assert_eq!(c.lookup(4), Some(None));
    assert!(c.lookup(5).is_none());
}
