//! A structural parser for static x86_64 ELF64 executables.
//!
//! Only the file header and the program header table are read. Little-endian
//! `ET_EXEC` files are accepted; every other class, byte order and type is
//! refused. Program headers other than `PT_LOAD` are skipped.

use crate::bytes::{le16, le32, le64, read_u16, read_u32, read_u64};
use vstd::prelude::*;

verus! {

/// `e_ident[EI_CLASS]` of a 64-bit file.
pub const ELFCLASS64: u8 = 2;

/// `e_ident[EI_DATA]` of a little-endian file.
pub const ELFDATA2LSB: u8 = 1;

/// `e_type` of a static executable.
pub const ET_EXEC: u16 = 2;

/// `e_machine` of an x86_64 file.
pub const EM_X86_64: u16 = 0x3E;

/// `p_type` of a loadable segment.
pub const PT_LOAD: u32 = 1;

/// Size of an `Elf64_Ehdr`.
pub const EHDR_SIZE: usize = 64;

/// Size of an `Elf64_Phdr`.
pub const PHDR_SIZE: u16 = 56;

/// The most `PT_LOAD` segments a file may have.
pub const MAX_LOAD_SEGMENTS: usize = 8;

/// The fields of one `PT_LOAD` program header that a loader needs.
#[derive(Clone, Copy, Debug)]
pub struct ProgramSegment {
    pub p_vaddr: u64,
    pub p_offset: u64,
    pub p_filesz: u64,
    pub p_memsz: u64,
    pub p_flags: u32,
}

/// A parsed executable: its entry point and its loadable segments in program
/// header order.
#[derive(Debug)]
pub struct ElfImage {
    pub entry: u64,
    pub segments: Vec<ProgramSegment>,
}

/// What is wrong with the fixed-size file header, if anything: the first
/// failing condition decides.
pub open spec fn header_error(s: Seq<u8>) -> Option<Seq<char>> {
    if s.len() < EHDR_SIZE {
        Some("elf: file smaller than a 64-byte ELF64 header"@)
    } else if s.subrange(0, 4) != seq![0x7Fu8, 0x45u8, 0x4Cu8, 0x46u8] {
        Some("elf: bad magic -- not 0x7F 'E' 'L' 'F'"@)
    } else if s[4] != ELFCLASS64 {
        Some("elf: not ELFCLASS64 (32-bit ELF is not supported)"@)
    } else if s[5] != ELFDATA2LSB {
        Some("elf: not ELFDATA2LSB (big-endian ELF is not supported)"@)
    } else if le16(s, 16) != ET_EXEC {
        Some("elf: e_type is not ET_EXEC (only static, non-PIE executables are supported)"@)
    } else if le16(s, 18) != EM_X86_64 {
        Some("elf: e_machine is not EM_X86_64"@)
    } else if le16(s, 56) == 0 {
        Some("elf: e_phnum == 0 (no program headers -- nothing to load)"@)
    } else if le16(s, 54) != PHDR_SIZE {
        Some("elf: e_phentsize is not 56 bytes -- not a standard Elf64_Phdr, refusing to guess field offsets"@)
    } else if le64(s, 32) + PHDR_SIZE * le16(s, 56) > u64::MAX {
        Some("elf: e_phoff + program header table size overflows"@)
    } else if le64(s, 32) + PHDR_SIZE * le16(s, 56) > s.len() {
        Some("elf: program header table runs past the end of the file"@)
    } else {
        None
    }
}

/// Where program header `i` starts.
pub open spec fn phdr_offset(s: Seq<u8>, i: int) -> int {
    le64(s, 32) + PHDR_SIZE * i
}

/// The segment that the program header at `off` describes.
pub open spec fn segment_at(s: Seq<u8>, off: int) -> ProgramSegment {
    ProgramSegment {
        p_flags: le32(s, off + 4),
        p_offset: le64(s, off + 8),
        p_vaddr: le64(s, off + 16),
        p_filesz: le64(s, off + 32),
        p_memsz: le64(s, off + 40),
    }
}

/// What is wrong with a segment that is the `n`-th loadable one of a file of
/// `len` bytes, if anything.
pub open spec fn segment_error(seg: ProgramSegment, n: nat, len: nat) -> Option<Seq<char>> {
    if seg.p_memsz < seg.p_filesz {
        Some("elf: PT_LOAD segment has p_memsz < p_filesz (invalid per the ELF spec)"@)
    } else if seg.p_offset + seg.p_filesz > u64::MAX {
        Some("elf: PT_LOAD p_offset + p_filesz overflows"@)
    } else if seg.p_offset + seg.p_filesz > len {
        Some("elf: PT_LOAD segment's file range runs past the end of the file"@)
    } else if n >= MAX_LOAD_SEGMENTS {
        Some("elf: more PT_LOAD segments than this parser's fixed MAX_LOAD_SEGMENTS cap"@)
    } else {
        None
    }
}

/// The loadable segments among the first `k` program headers, or the complaint
/// about the first faulty one.
pub open spec fn load_segments(s: Seq<u8>, k: nat) -> Result<Seq<ProgramSegment>, Seq<char>>
    decreases k,
{
    if k == 0 {
        Ok(Seq::empty())
    } else {
        let off = phdr_offset(s, k - 1);
        match load_segments(s, (k - 1) as nat) {
            Err(e) => Err(e),
            Ok(found) => if le32(s, off) != PT_LOAD {
                Ok(found)
            } else {
                match segment_error(segment_at(s, off), found.len(), s.len()) {
                    Some(e) => Err(e),
                    None => Ok(found.push(segment_at(s, off))),
                }
            },
        }
    }
}

/// The meaning of a file: its entry point and loadable segments, or the reason
/// why it is refused.
pub open spec fn parsed(s: Seq<u8>) -> Result<(u64, Seq<ProgramSegment>), Seq<char>> {
    match header_error(s) {
        Some(e) => Err(e),
        None => match load_segments(s, le16(s, 56) as nat) {
            Err(e) => Err(e),
            Ok(segments) => if segments.len() == 0 {
                Err("elf: no PT_LOAD segments found in the program header table -- nothing to load"@)
            } else {
                Ok((le64(s, 24), segments))
            },
        },
    }
}

/// A complaint about a program header stands whatever headers follow it.
proof fn lemma_error_is_final(s: Seq<u8>, j: nat, k: nat)
    requires
        j <= k,
        load_segments(s, j) is Err,
    ensures
        load_segments(s, k) == load_segments(s, j),
    decreases k,
{
    if j < k {
        lemma_error_is_final(s, j, (k - 1) as nat);
    }
}

/// Every segment among the first `k` headers lies inside the file.
proof fn lemma_segments_in_file(s: Seq<u8>, k: nat)
    ensures
        load_segments(s, k) matches Ok(found) ==> {
            &&& found.len() <= MAX_LOAD_SEGMENTS
            &&& forall|i: int|
                0 <= i < found.len() ==> {
                    &&& (#[trigger] found[i]).p_filesz <= found[i].p_memsz
                    &&& found[i].p_offset + found[i].p_filesz <= s.len()
                }
        },
    decreases k,
{
    if k > 0 {
        lemma_segments_in_file(s, (k - 1) as nat);
    }
}

/// The segments of a parsed file are between one and the cap in number, no
/// segment holds more file bytes than memory, and the file range of each lies
/// inside the file: a loader may copy them without a further check.
pub proof fn law_parsed_segments_fit(s: Seq<u8>)
    ensures
        parsed(s) matches Ok((_, segments)) ==> {
            &&& 0 < segments.len() <= MAX_LOAD_SEGMENTS
            &&& forall|i: int|
                0 <= i < segments.len() ==> {
                    &&& (#[trigger] segments[i]).p_filesz <= segments[i].p_memsz
                    &&& segments[i].p_offset + segments[i].p_filesz <= s.len()
                }
        },
{
    lemma_segments_in_file(s, le16(s, 56) as nat);
}

/// Whether program header `i` of a file describes a loadable segment: its type, the
/// first of its 56 bytes, is 1.
pub open spec fn is_load_header(s: Seq<u8>, i: int) -> bool {
    le32(s, le64(s, 32) + 56 * i) == 1
}

/// Whether a segment has the fields of program header `i`.
pub open spec fn has_fields_of(seg: ProgramSegment, s: Seq<u8>, i: int) -> bool {
    &&& seg.p_flags == le32(s, le64(s, 32) + 56 * i + 4)
    &&& seg.p_offset == le64(s, le64(s, 32) + 56 * i + 8)
    &&& seg.p_vaddr == le64(s, le64(s, 32) + 56 * i + 16)
    &&& seg.p_filesz == le64(s, le64(s, 32) + 56 * i + 32)
    &&& seg.p_memsz == le64(s, le64(s, 32) + 56 * i + 40)
}

/// Whether `headers` are the loadable ones among the first `k` program headers, in
/// their order, and `segs` have their fields.
pub open spec fn lists_load_headers(
    s: Seq<u8>,
    k: int,
    segs: Seq<ProgramSegment>,
    headers: Seq<int>,
) -> bool {
    &&& headers.len() == segs.len()
    &&& forall|n: int|
        0 <= n < headers.len() ==> 0 <= #[trigger] headers[n] < k && is_load_header(s, headers[n])
            && has_fields_of(segs[n], s, headers[n])
    &&& forall|m: int, n: int|
        0 <= m < n < headers.len() ==> #[trigger] headers[m] < #[trigger] headers[n]
    &&& forall|i: int| 0 <= i < k && #[trigger] is_load_header(s, i) ==> headers.contains(i)
}

proof fn lemma_load_headers(s: Seq<u8>, k: nat) -> (headers: Seq<int>)
    requires
        load_segments(s, k) is Ok,
    ensures
        lists_load_headers(s, k as int, load_segments(s, k)->Ok_0, headers),
    decreases k,
{
    if k == 0 {
        Seq::empty()
    } else {
        let before = lemma_load_headers(s, (k - 1) as nat);
        let i = k - 1;
        if is_load_header(s, i) {
            let headers = before.push(i);
            let segs = load_segments(s, k)->Ok_0;
            let old_segs = load_segments(s, (k - 1) as nat)->Ok_0;
            assert(segs == old_segs.push(segment_at(s, phdr_offset(s, i))));
            assert forall|n: int| 0 <= n < headers.len() implies 0 <= #[trigger] headers[n] < k
                && is_load_header(s, headers[n]) && has_fields_of(segs[n], s, headers[n]) by {
                if n < before.len() {
                    assert(headers[n] == before[n]);
                    assert(segs[n] == old_segs[n]);
                }
            }
            assert forall|j: int| 0 <= j < k && #[trigger] is_load_header(
                s,
                j,
            ) implies headers.contains(j) by {
                if j == i {
                    assert(headers[before.len() as int] == i);
                } else {
                    let n = choose|n: int| 0 <= n < before.len() && before[n] == j;
                    assert(headers[n] == j);
                }
            }
            headers
        } else {
            before
        }
    }
}

/// The segments of an accepted file are those of its loadable program headers, each
/// once and in their order. Header `i` is the 56 bytes from `e_phoff + 56 * i` on, and
/// there are `e_phnum` of them.
pub proof fn law_every_load_header_is_a_segment(s: Seq<u8>)
    ensures
        parsed(s) matches Ok((entry, segs)) ==> {
            &&& entry == le64(s, 24)
            &&& le64(s, 32) + 56 * le16(s, 56) <= s.len()
            &&& exists|headers: Seq<int>|
                #[trigger] lists_load_headers(s, le16(s, 56) as int, segs, headers)
        },
{
    if parsed(s) is Ok {
        let n = le16(s, 56);
        let headers = lemma_load_headers(s, n as nat);
        assert(lists_load_headers(s, n as int, (parsed(s)->Ok_0).1, headers));
    }
}

/// Two loadable headers that differ in a field give two segments that differ.
pub proof fn law_headers_that_differ_give_other_segments(s: Seq<u8>, i: int, j: int)
    requires
        parsed(s) is Ok,
        0 <= i < j < le16(s, 56),
        is_load_header(s, i),
        is_load_header(s, j),
    ensures
        ({
            let segs = (parsed(s)->Ok_0).1;
            exists|m: int, n: int|
                0 <= m < n < segs.len() && has_fields_of(#[trigger] segs[m], s, i) && has_fields_of(
                    #[trigger] segs[n],
                    s,
                    j,
                )
        }),
{
    let segs = (parsed(s)->Ok_0).1;
    let headers = lemma_load_headers(s, le16(s, 56) as nat);
    let m = choose|m: int| 0 <= m < headers.len() && headers[m] == i;
    let n = choose|n: int| 0 <= n < headers.len() && headers[n] == j;
    if n < m {
        assert(headers[n] < headers[m]);
    }
    assert(has_fields_of(segs[m], s, i) && has_fields_of(segs[n], s, j));
}

/// Whether a file's header is that of a 64-bit, little-endian, static x86_64 executable
/// with program headers of 56 bytes that lie within the file.
pub open spec fn has_good_header(s: Seq<u8>) -> bool {
    &&& s.len() >= 64
    &&& s[0] == 0x7F && s[1] == 0x45 && s[2] == 0x4C && s[3] == 0x46
    &&& s[4] == 2
    &&& s[5] == 1
    &&& le16(s, 16) == 2
    &&& le16(s, 18) == 62
    &&& le16(s, 54) == 56
    &&& le16(s, 56) > 0
    &&& le64(s, 32) + 56 * le16(s, 56) <= s.len()
}

/// Whether program header `i` asks for no more file bytes than memory, all of them
/// within the file.
pub open spec fn is_sound_header(s: Seq<u8>, i: int) -> bool {
    let off = le64(s, 32) + 56 * i;
    &&& le64(s, off + 32) <= le64(s, off + 40)
    &&& le64(s, off + 8) + le64(s, off + 32) <= s.len()
}

proof fn lemma_accepted_headers(s: Seq<u8>, k: nat)
    requires
        s.len() <= u64::MAX,
    ensures
        load_segments(s, k) is Ok ==> forall|i: int|
            0 <= i < k && #[trigger] is_load_header(s, i) ==> is_sound_header(s, i),
        load_segments(s, k) is Err ==> (exists|i: int|
            0 <= i < k && #[trigger] is_load_header(s, i) && !is_sound_header(s, i)) || exists|
            headers: Seq<int>,
        |
            #[trigger] lists_too_many(s, k as int, headers),
    decreases k,
{
    if k > 0 {
        lemma_accepted_headers(s, (k - 1) as nat);
        let i = k - 1;
        if load_segments(s, (k - 1) as nat) is Err {
            if !(exists|j: int| 0 <= j < k - 1 && #[trigger] is_load_header(s, j)
                && !is_sound_header(s, j)) {
                let headers = choose|headers: Seq<int>| #[trigger]
                    lists_too_many(s, k - 1, headers);
                assert(lists_too_many(s, k as int, headers));
            }
        } else if load_segments(s, k) is Err {
            assert(is_load_header(s, i));
            if is_sound_header(s, i) {
                let before = lemma_load_headers(s, (k - 1) as nat);
                let headers = before.push(i);
                assert forall|n: int| 0 <= n < headers.len() implies 0 <= #[trigger] headers[n] < k
                    && is_load_header(s, headers[n]) by {
                    if n < before.len() {
                        assert(headers[n] == before[n]);
                    }
                }
                assert(lists_too_many(s, k as int, headers));
            }
        }
    }
}

/// Whether more than eight of the first `k` program headers are loadable: `headers`
/// are that many of them.
pub open spec fn lists_too_many(s: Seq<u8>, k: int, headers: Seq<int>) -> bool {
    &&& headers.len() > 8
    &&& forall|n: int|
        0 <= n < headers.len() ==> 0 <= #[trigger] headers[n] < k && is_load_header(s, headers[n])
    &&& forall|m: int, n: int|
        0 <= m < n < headers.len() ==> #[trigger] headers[m] < #[trigger] headers[n]
}

/// A list of different numbers below a bound that are all in another list is no longer
/// than the other.
proof fn lemma_not_longer(a: Seq<int>, b: Seq<int>)
    requires
        forall|m: int, n: int| 0 <= m < n < a.len() ==> #[trigger] a[m] < #[trigger] a[n],
        forall|m: int, n: int| 0 <= m < n < b.len() ==> #[trigger] b[m] < #[trigger] b[n],
        forall|n: int| 0 <= n < a.len() ==> b.contains(#[trigger] a[n]),
    ensures
        a.len() <= b.len(),
    decreases a.len(),
{
    if a.len() > 0 {
        let last = a[a.len() - 1];
        let p = choose|p: int| 0 <= p < b.len() && b[p] == last;
        let c = a.drop_last();
        let d = b.take(p);
        assert forall|n: int| 0 <= n < c.len() implies d.contains(#[trigger] c[n]) by {
            assert(b.contains(a[n]));
            let q = choose|q: int| 0 <= q < b.len() && b[q] == a[n];
            assert(a[n] < a[a.len() - 1]);
            if q >= p {
                if q > p {
                    assert(b[p] < b[q]);
                }
            }
            assert(d[q] == c[n]);
        }
        assert forall|m: int, n: int| 0 <= m < n < c.len() implies #[trigger] c[m] < #[trigger] c[n] by {
            assert(a[m] < a[n]);
        }
        assert forall|m: int, n: int| 0 <= m < n < d.len() implies #[trigger] d[m] < #[trigger] d[n] by {
            assert(b[m] < b[n]);
        }
        lemma_not_longer(c, d);
    }
}

/// Which files are accepted: those with a good header, at least one loadable program
/// header and at most eight, and nothing unsound in any of those.
pub proof fn law_good_files_are_accepted(s: Seq<u8>)
    requires
        s.len() <= u64::MAX,
    ensures
        parsed(s) is Ok <==> {
            &&& has_good_header(s)
            &&& exists|i: int| 0 <= i < le16(s, 56) && #[trigger] is_load_header(s, i)
            &&& forall|i: int|
                0 <= i < le16(s, 56) && #[trigger] is_load_header(s, i) ==> is_sound_header(s, i)
            &&& !exists|headers: Seq<int>| #[trigger] lists_too_many(s, le16(s, 56) as int, headers)
        },
{
    let n = le16(s, 56) as nat;
    if s.len() >= 64 {
        let sub = s.subrange(0, 4);
        let magic = seq![0x7Fu8, 0x45u8, 0x4Cu8, 0x46u8];
        assert(sub[0] == s[0] && sub[1] == s[1] && sub[2] == s[2] && sub[3] == s[3]);
        if s[0] == 0x7F && s[1] == 0x45 && s[2] == 0x4C && s[3] == 0x46 {
            assert(sub =~= magic);
        }
        if sub == magic {
            assert(s[0] == magic[0] && s[1] == magic[1] && s[2] == magic[2] && s[3] == magic[3]);
        }
    }
    assert(has_good_header(s) <==> header_error(s) is None);
    lemma_accepted_headers(s, n);
    lemma_segments_in_file(s, n);
    if load_segments(s, n) is Ok {
        let segs = load_segments(s, n)->Ok_0;
        let all = lemma_load_headers(s, n);
        if exists|headers: Seq<int>| #[trigger] lists_too_many(s, n as int, headers) {
            let headers = choose|headers: Seq<int>| #[trigger] lists_too_many(s, n as int, headers);
            assert forall|m: int| 0 <= m < headers.len() implies all.contains(
                #[trigger] headers[m],
            ) by {
                assert(is_load_header(s, headers[m]));
            }
            lemma_not_longer(headers, all);
        }
        if segs.len() > 0 {
            assert(is_load_header(s, all[0]));
        }
    }
}

/// Reads the file header and the program header table of `image`. A malformed
/// or truncated file gives an error that names the first fault.
pub fn parse(image: &[u8]) -> (r: Result<ElfImage, &'static str>)
    ensures
        match r {
            Ok(elf) => parsed(image@) == Ok::<(u64, Seq<ProgramSegment>), Seq<char>>(
                (elf.entry, elf.segments@),
            ),
            Err(e) => parsed(image@) == Err::<(u64, Seq<ProgramSegment>), Seq<char>>(e@),
        },
        r matches Ok(elf) ==> forall|i: int|
            0 <= i < elf.segments@.len() ==> (#[trigger] elf.segments@[i]).p_offset
                + elf.segments@[i].p_filesz <= image@.len(),
{
    if image.len() < EHDR_SIZE {
        return Err("elf: file smaller than a 64-byte ELF64 header");
    }
    proof {
        assert(image@.subrange(0, 4) == seq![0x7Fu8, 0x45u8, 0x4Cu8, 0x46u8] <==> (image[0] == 0x7F
            && image[1] == 0x45 && image[2] == 0x4C && image[3] == 0x46)) by {
            let sub = image@.subrange(0, 4);
            assert(sub[0] == image[0] && sub[1] == image[1] && sub[2] == image[2] && sub[3]
                == image[3]);
            if image[0] == 0x7F && image[1] == 0x45 && image[2] == 0x4C && image[3] == 0x46 {
                assert(sub =~= seq![0x7Fu8, 0x45u8, 0x4Cu8, 0x46u8]);
            }
        }
    }
    if !(image[0] == 0x7F && image[1] == 0x45 && image[2] == 0x4C && image[3] == 0x46) {
        return Err("elf: bad magic -- not 0x7F 'E' 'L' 'F'");
    }
    if image[4] != ELFCLASS64 {
        return Err("elf: not ELFCLASS64 (32-bit ELF is not supported)");
    }
    if image[5] != ELFDATA2LSB {
        return Err("elf: not ELFDATA2LSB (big-endian ELF is not supported)");
    }
    let e_type: u16 = read_u16(image, 16);
    let e_machine: u16 = read_u16(image, 18);
    let e_entry: u64 = read_u64(image, 24);
    let e_phoff: u64 = read_u64(image, 32);
    let e_phentsize: u16 = read_u16(image, 54);
    let e_phnum: u16 = read_u16(image, 56);
    if e_type != ET_EXEC {
        return Err(
            "elf: e_type is not ET_EXEC (only static, non-PIE executables are supported)",
        );
    }
    if e_machine != EM_X86_64 {
        return Err("elf: e_machine is not EM_X86_64");
    }
    if e_phnum == 0 {
        return Err("elf: e_phnum == 0 (no program headers -- nothing to load)");
    }
    if e_phentsize != PHDR_SIZE {
        return Err(
            "elf: e_phentsize is not 56 bytes -- not a standard Elf64_Phdr, refusing to guess field offsets",
        );
    }
    let phentsize: usize = PHDR_SIZE as usize;
    let phnum: usize = e_phnum as usize;
    let phtable_end: u64 = match e_phoff.checked_add(PHDR_SIZE as u64 * e_phnum as u64) {
        Some(end) => end,
        None => {
            return Err("elf: e_phoff + program header table size overflows");
        },
    };
    if phtable_end > image.len() as u64 {
        return Err("elf: program header table runs past the end of the file");
    }
    let phoff: usize = e_phoff as usize;
    let mut segments: Vec<ProgramSegment> = Vec::new();
    let mut i: usize = 0;
    while i < phnum
        invariant
            i <= phnum,
            header_error(image@) is None,
            phoff == le64(image@, 32),
            phentsize == 56,
            phnum == le16(image@, 56),
            phoff + phentsize * phnum <= image.len(),
            load_segments(image@, i as nat) == Ok::<Seq<ProgramSegment>, Seq<char>>(segments@),
        decreases phnum - i,
    {
        let off: usize = phoff + i * phentsize;
        proof {
            assert(off + 56 <= image.len());
            assert(off == phdr_offset(image@, i as int));
            if load_segments(image@, (i + 1) as nat) is Err {
                lemma_error_is_final(image@, (i + 1) as nat, phnum as nat);
            }
        }
        let p_type: u32 = read_u32(image, off);
        if p_type == PT_LOAD {
            let p_flags: u32 = read_u32(image, off + 4);
            let p_offset: u64 = read_u64(image, off + 8);
            let p_vaddr: u64 = read_u64(image, off + 16);
            let p_filesz: u64 = read_u64(image, off + 32);
            let p_memsz: u64 = read_u64(image, off + 40);
            if p_memsz < p_filesz {
                return Err(
                    "elf: PT_LOAD segment has p_memsz < p_filesz (invalid per the ELF spec)",
                );
            }
            let seg_file_end: u64 = match p_offset.checked_add(p_filesz) {
                Some(end) => end,
                None => {
                    return Err("elf: PT_LOAD p_offset + p_filesz overflows");
                },
            };
            if seg_file_end > image.len() as u64 {
                return Err("elf: PT_LOAD segment's file range runs past the end of the file");
            }
            if segments.len() >= MAX_LOAD_SEGMENTS {
                return Err(
                    "elf: more PT_LOAD segments than this parser's fixed MAX_LOAD_SEGMENTS cap",
                );
            }
            segments.push(ProgramSegment { p_vaddr, p_offset, p_filesz, p_memsz, p_flags });
        }
        i += 1;
    }
    if segments.len() == 0 {
        return Err(
            "elf: no PT_LOAD segments found in the program header table -- nothing to load",
        );
    }
    proof {
        law_parsed_segments_fit(image@);
    }
    Ok(ElfImage { entry: e_entry, segments })
}

} // verus!
