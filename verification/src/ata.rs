//! The persistence drive: how its sectors are accessed, and how learned weights
//! are stored in its first sector.
//!
//! The sector begins with a magic number, a format version, the number of entries
//! and the number of trits per weight. Each entry has the names of the two neurons
//! that a synapse joins, 16 bytes each, and its packed weight in two bytes.

use crate::bytes::{le32, read_u32};
use crate::disk::{SectorWrite, WriteView, SECTOR_SIZE};
use crate::fs::{is_zero, name_bytes, storable, stored_name, used_bytes};
use crate::fs_laws::lemma_used_bytes;
use crate::search::lemma_first_where_is;
use crate::text::utf8_text;
use vstd::prelude::*;
use vstd::utf8::{decode_utf8, encode_utf8_decode_utf8, encode_utf8_valid_utf8, valid_utf8};

verus! {

/// Port of the drive's data words.
pub const DATA: u16 = 0x170;

pub const SECTOR_COUNT: u16 = 0x172;

pub const LBA_LOW: u16 = 0x173;

pub const LBA_MID: u16 = 0x174;

pub const LBA_HIGH: u16 = 0x175;

pub const DRIVE_HEAD: u16 = 0x176;

pub const STATUS_OR_COMMAND: u16 = 0x177;

pub const STATUS_ERR: u8 = 0x01;

pub const STATUS_DRQ: u8 = 0x08;

pub const STATUS_BSY: u8 = 0x80;

pub const CMD_READ_SECTORS: u8 = 0x20;

pub const CMD_WRITE_SECTORS: u8 = 0x30;

pub const CMD_CACHE_FLUSH: u8 = 0xE7;

/// One register write.
#[derive(Clone, Copy)]
pub struct PortWrite {
    pub port: u16,
    pub value: u8,
}

/// The register writes that select a sector.
pub open spec fn selection(lba: u32) -> Seq<PortWrite> {
    seq![
        PortWrite { port: DRIVE_HEAD, value: 0xE0 | ((lba >> 24) & 0x0F) as u8 },
        PortWrite { port: SECTOR_COUNT, value: 1 },
        PortWrite { port: LBA_LOW, value: (lba % 0x100) as u8 },
        PortWrite { port: LBA_MID, value: (lba / 0x100 % 0x100) as u8 },
        PortWrite { port: LBA_HIGH, value: (lba / 0x1_0000 % 0x100) as u8 },
    ]
}

/// The register writes that select a sector.
pub fn select_and_setup(lba: u32) -> (r: Vec<PortWrite>)
    ensures
        r@ == selection(lba),
{
    let r: Vec<PortWrite> = vec![
        PortWrite { port: DRIVE_HEAD, value: 0xE0 | ((lba >> 24) & 0x0F) as u8 },
        PortWrite { port: SECTOR_COUNT, value: 1 },
        PortWrite { port: LBA_LOW, value: (lba % 0x100) as u8 },
        PortWrite { port: LBA_MID, value: (lba / 0x100 % 0x100) as u8 },
        PortWrite { port: LBA_HIGH, value: (lba / 0x1_0000 % 0x100) as u8 },
    ];
    assert(r@ == selection(lba));
    r
}

/// The four registers together name the sector, as far as 28 bits go.
pub proof fn law_registers_name_the_sector(lba: u32)
    requires
        lba < 0x1000_0000,
    ensures
        selection(lba)[2].value + 0x100 * selection(lba)[3].value + 0x1_0000 * selection(
            lba,
        )[4].value + 0x100_0000 * (selection(lba)[0].value % 0x10) == lba,
        selection(lba)[0].value / 0x10 == 0xE,
{
    let head = 0xE0u8 | ((lba >> 24) & 0x0F) as u8;
    assert(head % 0x10 == lba / 0x100_0000 && head / 0x10 == 0xE) by (bit_vector)
        requires
            lba < 0x1000_0000,
            head == 0xE0u8 | ((lba >> 24) & 0x0F) as u8,
    ;
}

/// Whether the drive is busy, by its status.
pub fn is_busy(status: u8) -> (r: bool)
    ensures
        r == (status & STATUS_BSY != 0),
        r == (status >= 0x80),
{
    assert((status & 0x80 != 0) == (status >= 0x80)) by (bit_vector);
    status & STATUS_BSY != 0
}

/// Whether the drive is ready for data, by its status: an answer once there is one.
/// An error comes before readiness.
pub fn wait_drq(status: u8) -> (r: Option<Result<(), &'static str>>)
    ensures
        match r {
            Some(Err(e)) => status & STATUS_ERR != 0 && e@ == "ATA error bit set"@,
            Some(Ok(())) => status & STATUS_ERR == 0 && status & STATUS_DRQ != 0,
            None => status & STATUS_ERR == 0 && status & STATUS_DRQ == 0,
        },
        r matches Some(Err(_)) <==> status % 2 == 1,
        r matches Some(Ok(())) <==> status % 2 == 0 && status / 8 % 2 == 1,
{
    assert((status & 1 != 0) == (status % 2 == 1)) by (bit_vector);
    assert((status & 8 != 0) == (status / 8 % 2 == 1)) by (bit_vector);
    if status & STATUS_ERR != 0 {
        return Some(Err("ATA error bit set"));
    }
    if status & STATUS_DRQ != 0 {
        return Some(Ok(()));
    }
    None
}

/// One action of a transfer.
#[derive(Clone, Copy)]
pub enum DriveAction {
    /// Poll the status until the drive is not busy.
    WaitIdle,
    /// Write a register.
    Out(PortWrite),
    /// Poll the status until `wait_drq` has an answer. An error ends the transfer.
    WaitData,
    /// Read 256 words from the data port.
    ReadWords,
    /// Write 256 words to the data port.
    WriteWords,
}

/// The actions that select a sector and give a command for it, up to the point where
/// data can flow.
pub open spec fn command_actions(lba: u32, command: u8) -> Seq<DriveAction> {
    seq![
        DriveAction::WaitIdle,
        DriveAction::Out(selection(lba)[0]),
        DriveAction::Out(selection(lba)[1]),
        DriveAction::Out(selection(lba)[2]),
        DriveAction::Out(selection(lba)[3]),
        DriveAction::Out(selection(lba)[4]),
        DriveAction::Out(PortWrite { port: STATUS_OR_COMMAND, value: command }),
        DriveAction::WaitIdle,
        DriveAction::WaitData,
    ]
}

/// The actions that read a sector.
pub open spec fn read_actions(lba: u32) -> Seq<DriveAction> {
    command_actions(lba, CMD_READ_SECTORS).push(DriveAction::ReadWords)
}

/// The actions that write a sector, up to and including that it has reached the disk.
pub open spec fn write_actions(lba: u32) -> Seq<DriveAction> {
    command_actions(lba, CMD_WRITE_SECTORS).push(DriveAction::WriteWords).push(
        DriveAction::Out(PortWrite { port: STATUS_OR_COMMAND, value: CMD_CACHE_FLUSH }),
    ).push(DriveAction::WaitIdle)
}

fn begin_transfer(lba: u32, command: u8) -> (r: Vec<DriveAction>)
    ensures
        r@ == command_actions(lba, command),
{
    let setup = select_and_setup(lba);
    let r: Vec<DriveAction> = vec![
        DriveAction::WaitIdle,
        DriveAction::Out(setup[0]),
        DriveAction::Out(setup[1]),
        DriveAction::Out(setup[2]),
        DriveAction::Out(setup[3]),
        DriveAction::Out(setup[4]),
        DriveAction::Out(PortWrite { port: STATUS_OR_COMMAND, value: command }),
        DriveAction::WaitIdle,
        DriveAction::WaitData,
    ];
    assert(r@ == command_actions(lba, command));
    r
}

/// The actions that read a sector.
pub fn read_sector(lba: u32) -> (r: Vec<DriveAction>)
    ensures
        r@ == read_actions(lba),
{
    let mut r = begin_transfer(lba, CMD_READ_SECTORS);
    r.push(DriveAction::ReadWords);
    r
}

/// The actions that write a sector.
pub fn write_sector(lba: u32) -> (r: Vec<DriveAction>)
    ensures
        r@ == write_actions(lba),
{
    let mut r = begin_transfer(lba, CMD_WRITE_SECTORS);
    r.push(DriveAction::WriteWords);
    r.push(DriveAction::Out(PortWrite { port: STATUS_OR_COMMAND, value: CMD_CACHE_FLUSH }));
    r.push(DriveAction::WaitIdle);
    r
}

/// The bytes that data words carry, low byte first.
pub open spec fn bytes_of(words: Seq<u16>) -> Seq<u8> {
    Seq::new(
        2 * words.len(),
        |i: int|
            if i % 2 == 0 {
                (words[i / 2] % 0x100) as u8
            } else {
                (words[i / 2] / 0x100) as u8
            },
    )
}

/// The data words that carry bytes.
pub open spec fn words_of(bytes: Seq<u8>) -> Seq<u16> {
    Seq::new(
        bytes.len() / 2,
        |i: int| (bytes[2 * i] + 0x100 * bytes[2 * i + 1]) as u16,
    )
}

/// A sector from the 256 words that the drive gives.
pub fn sector_from_words(words: &[u16; 256]) -> (r: [u8; 512])
    ensures
        r@ == bytes_of(words@),
{
    let mut buf = [0u8; 512];
    let mut i: usize = 0;
    while i < 256
        invariant
            i <= 256,
            forall|k: int| 0 <= k < 2 * i ==> #[trigger] buf@[k] == bytes_of(words@)[k],
        decreases 256 - i,
    {
        let w: u16 = words[i];
        buf[2 * i] = (w % 0x100) as u8;
        buf[2 * i + 1] = (w / 0x100) as u8;
        i += 1;
    }
    assert(buf@ == bytes_of(words@));
    buf
}

/// The words that the drive takes for a sector.
pub fn words_from_sector(buf: &[u8; 512]) -> (r: [u16; 256])
    ensures
        r@ == words_of(buf@),
{
    let mut words = [0u16; 256];
    let mut i: usize = 0;
    while i < 256
        invariant
            i <= 256,
            forall|k: int| 0 <= k < i ==> #[trigger] words@[k] == words_of(buf@)[k],
        decreases 256 - i,
    {
        words[i] = buf[2 * i] as u16 + 0x100 * (buf[2 * i + 1] as u16);
        i += 1;
    }
    assert(words@ == words_of(buf@));
    words
}

/// A sector that was written word by word reads back as it was.
pub proof fn law_words_carry_the_bytes(bytes: Seq<u8>)
    requires
        bytes.len() == SECTOR_SIZE,
    ensures
        bytes_of(words_of(bytes)) == bytes,
{
    assert(bytes_of(words_of(bytes)) == bytes);
}

/// Marks the sector of stored weights.
pub const MAGIC: u32 = 0x53504B32;

/// The sector of stored weights.
pub const PERSIST_LBA: u32 = 0;

pub const FORMAT_VERSION: u8 = 1;

pub const NAME_LEN: usize = 16;

/// Trits that a packed weight consists of.
pub const TRITS_PER_WEIGHT: u8 = 10;

/// Bytes of an entry.
pub const ENTRY_LEN: usize = 34;

pub const HEADER_LEN: usize = 8;

/// Entries that fit in the sector.
pub const MAX_SYNAPSES: usize = 14;

/// A synapse by the names of its neurons, and its packed weight.
pub struct SynapseWeight {
    pub from: String,
    pub to: String,
    pub weight: [u8; 2],
}

/// A synapse as a mathematical value.
#[verifier::ext_equal]
pub struct SynapseView {
    pub from: Seq<char>,
    pub to: Seq<char>,
    pub weight: Seq<u8>,
}

impl SynapseWeight {
    pub open spec fn view(self) -> SynapseView {
        SynapseView { from: self.from@, to: self.to@, weight: self.weight@ }
    }
}

pub open spec fn synapses_view(s: Seq<SynapseWeight>) -> Seq<SynapseView> {
    Seq::new(s.len(), |i: int| s[i]@)
}

/// How many of `n` entries are stored.
pub open spec fn stored_count(n: nat) -> nat {
    if n <= MAX_SYNAPSES {
        n
    } else {
        MAX_SYNAPSES as nat
    }
}

/// Byte `j` of a stored entry.
pub open spec fn synapse_byte(e: SynapseView, j: int) -> u8 {
    if j < 16 {
        stored_name(e.from)[j]
    } else if j < 32 {
        stored_name(e.to)[j - 16]
    } else {
        e.weight[j - 32]
    }
}

/// The sector that stores entries: as many as fit.
pub open spec fn weights_sector(es: Seq<SynapseView>) -> Seq<u8> {
    Seq::new(
        SECTOR_SIZE as nat,
        |k: int|
            if k == 0 {
                0x32u8
            } else if k == 1 {
                0x4Bu8
            } else if k == 2 {
                0x50u8
            } else if k == 3 {
                0x53u8
            } else if k == 4 {
                FORMAT_VERSION
            } else if k == 5 {
                stored_count(es.len()) as u8
            } else if k == 6 {
                TRITS_PER_WEIGHT
            } else if k == 7 {
                0u8
            } else if k < HEADER_LEN + ENTRY_LEN * stored_count(es.len()) {
                synapse_byte(es[(k - 8) / 34], (k - 8) % 34)
            } else {
                0u8
            },
    )
}

/// The text that a stored name holds up to its first zero byte, or none where that
/// is not valid UTF-8.
pub open spec fn name_text(raw: Seq<u8>) -> Seq<char> {
    if valid_utf8(used_bytes(raw)) {
        decode_utf8(used_bytes(raw))
    } else {
        Seq::empty()
    }
}

/// The entry that starts at byte `off`.
pub open spec fn synapse_at(s: Seq<u8>, off: int) -> SynapseView {
    SynapseView {
        from: name_text(s.subrange(off, off + 16)),
        to: name_text(s.subrange(off + 16, off + 32)),
        weight: s.subrange(off + 32, off + 34),
    }
}

/// The entries that a sector holds, if it could be read and is in this format.
pub open spec fn weights_in(sector: Option<Seq<u8>>) -> Option<Seq<SynapseView>> {
    match sector {
        None => None,
        Some(s) => if le32(s, 0) != MAGIC {
            None
        } else {
            Some(Seq::new(stored_count(s[5] as nat), |i: int| synapse_at(s, 8 + i * 34)))
        },
    }
}

/// Writes a name into a sector that is still zero there.
fn write_name(buf: &mut [u8; 512], off: usize, name: &str)
    requires
        off + NAME_LEN <= 512,
    ensures
        forall|k: int|
            0 <= k < 512 ==> #[trigger] final(buf)@[k] == (if off <= k < off + NAME_LEN {
                stored_name(name@)[k - off]
            } else {
                old(buf)@[k]
            }),
{
    let bytes = name_bytes(name);
    let ghost before = buf@;
    let mut i: usize = 0;
    while i < NAME_LEN
        invariant
            i <= NAME_LEN,
            off + NAME_LEN <= 512,
            bytes@ == stored_name(name@),
            before.len() == 512,
            forall|k: int|
                0 <= k < 512 ==> #[trigger] buf@[k] == (if off <= k < off + i {
                    stored_name(name@)[k - off]
                } else {
                    before[k]
                }),
        decreases NAME_LEN - i,
    {
        buf[off + i] = bytes[i];
        i += 1;
    }
}

/// The name at byte `off` of a sector.
fn read_name(buf: &[u8; 512], off: usize) -> (r: String)
    requires
        off + NAME_LEN <= 512,
    ensures
        r@ == name_text(buf@.subrange(off as int, off + 16)),
{
    let ghost raw = buf@.subrange(off as int, off + 16);
    let mut bytes: Vec<u8> = Vec::new();
    while bytes.len() < NAME_LEN && buf[off + bytes.len()] != 0
        invariant
            off + NAME_LEN <= 512,
            raw == buf@.subrange(off as int, off + 16),
            bytes@.len() <= NAME_LEN,
            bytes@ == raw.take(bytes@.len() as int),
            forall|j: int| 0 <= j < bytes@.len() ==> raw[j] != 0,
        decreases NAME_LEN - bytes@.len(),
    {
        let b: u8 = buf[off + bytes.len()];
        bytes.push(b);
    }
    proof {
        let n = bytes@.len() as int;
        let found = if n < NAME_LEN {
            Some(n)
        } else {
            None
        };
        lemma_first_where_is(raw.len(), is_zero(raw), found);
        assert(raw.take(16) == raw);
    }
    match utf8_text(bytes.as_slice()) {
        Some(s) => s.to_owned(),
        None => String::new(),
    }
}

/// The write that stores weights. Entries beyond those that fit are dropped.
pub fn save_weights(entries: &Vec<SynapseWeight>) -> (r: Result<SectorWrite, &'static str>)
    ensures
        match r {
            Ok(w) => entries@.len() > 0 && w@ == (WriteView {
                lba: PERSIST_LBA,
                data: weights_sector(synapses_view(entries@)),
            }),
            Err(e) => entries@.len() == 0 && e@ == "no synapses to save"@,
        },
{
    if entries.len() == 0 {
        return Err("no synapses to save");
    }
    let count: usize = if entries.len() <= MAX_SYNAPSES {
        entries.len()
    } else {
        MAX_SYNAPSES
    };
    let ghost es = synapses_view(entries@);
    let mut buf = [0u8; 512];
    buf[0] = 0x32;
    buf[1] = 0x4B;
    buf[2] = 0x50;
    buf[3] = 0x53;
    buf[4] = FORMAT_VERSION;
    buf[5] = count as u8;
    buf[6] = TRITS_PER_WEIGHT;
    let mut i: usize = 0;
    while i < count
        invariant
            i <= count <= MAX_SYNAPSES,
            count <= entries@.len(),
            count == stored_count(es.len()),
            es == synapses_view(entries@),
            forall|k: int|
                0 <= k < HEADER_LEN + ENTRY_LEN * i ==> #[trigger] buf@[k] == weights_sector(es)[k],
            forall|k: int| HEADER_LEN + ENTRY_LEN * i <= k < 512 ==> #[trigger] buf@[k] == 0,
        decreases count - i,
    {
        let off: usize = HEADER_LEN + ENTRY_LEN * i;
        write_name(&mut buf, off, entries[i].from.as_str());
        write_name(&mut buf, off + NAME_LEN, entries[i].to.as_str());
        buf[off + 32] = entries[i].weight[0];
        buf[off + 33] = entries[i].weight[1];
        assert forall|k: int| off <= k < off + 34 implies #[trigger] buf@[k] == weights_sector(
            es,
        )[k] by {
            assert((k - 8) / 34 == i && (k - 8) % 34 == k - off);
            assert(es[i as int] == entries@[i as int]@);
        }
        i += 1;
    }
    assert(buf@ == weights_sector(es));
    Ok(SectorWrite { lba: PERSIST_LBA, data: buf })
}

/// The weights that the first sector holds, if there are any.
pub fn load_weights(sector: Option<[u8; 512]>) -> (r: Option<Vec<SynapseWeight>>)
    ensures
        match r {
            Some(es) => weights_in(crate::disk::sector_bytes(sector)) == Some(synapses_view(es@)),
            None => weights_in(crate::disk::sector_bytes(sector)) is None,
        },
{
    let buf = match sector {
        Some(b) => b,
        None => return None,
    };
    if read_u32(buf.as_slice(), 0) != MAGIC {
        return None;
    }
    let count: usize = if buf[5] as usize <= MAX_SYNAPSES {
        buf[5] as usize
    } else {
        MAX_SYNAPSES
    };
    let mut out: Vec<SynapseWeight> = Vec::new();
    let mut i: usize = 0;
    while i < count
        invariant
            i <= count <= MAX_SYNAPSES,
            out@.len() == i,
            forall|k: int| 0 <= k < i ==> (#[trigger] out@[k])@ == synapse_at(buf@, 8 + k * 34),
        decreases count - i,
    {
        let off: usize = HEADER_LEN + ENTRY_LEN * i;
        let from = read_name(&buf, off);
        let to = read_name(&buf, off + NAME_LEN);
        let weight = [buf[off + 32], buf[off + 33]];
        assert(weight@ == buf@.subrange(off + 32, off + 34));
        out.push(SynapseWeight { from, to, weight });
        i += 1;
    }
    assert(synapses_view(out@) == weights_in(Some(buf@))->0);
    Some(out)
}

/// A name that is stored whole reads back as it was.
proof fn lemma_name_roundtrip(name: Seq<char>)
    requires
        storable(name),
    ensures
        name_text(stored_name(name)) == name,
{
    lemma_used_bytes(name);
    encode_utf8_valid_utf8(name);
    encode_utf8_decode_utf8(name);
}

/// Weights that were stored are found again by their names, as many as fit.
pub proof fn law_weights_read_back(es: Seq<SynapseView>)
    requires
        forall|i: int|
            0 <= i < es.len() ==> storable((#[trigger] es[i]).from) && storable(es[i].to)
                && es[i].weight.len() == 2,
    ensures
        weights_in(Some(weights_sector(es))) == Some(es.take(stored_count(es.len()) as int)),
{
    let s = weights_sector(es);
    let n = stored_count(es.len()) as int;
    assert(le32(s, 0) == MAGIC);
    assert forall|i: int| 0 <= i < n implies synapse_at(s, 8 + i * 34) == #[trigger] es[i] by {
        let off = 8 + i * 34;
        assert forall|j: int| 0 <= j < 34 implies s[#[trigger] (off + j)] == synapse_byte(
            es[i],
            j,
        ) by {
            assert((off + j - 8) / 34 == i && (off + j - 8) % 34 == j);
        }
        lemma_name_roundtrip(es[i].from);
        lemma_name_roundtrip(es[i].to);
        assert forall|j: int| 0 <= j < 16 implies s.subrange(off, off + 16)[j] == stored_name(
            es[i].from,
        )[j] by {
            assert(s[off + j] == synapse_byte(es[i], j));
        }
        assert(s.subrange(off, off + 16) == stored_name(es[i].from));
        assert forall|j: int| 0 <= j < 16 implies s.subrange(off + 16, off + 32)[j] == stored_name(
            es[i].to,
        )[j] by {
            assert(s[off + (16 + j)] == synapse_byte(es[i], 16 + j));
        }
        assert(s.subrange(off + 16, off + 32) == stored_name(es[i].to));
        assert(s[off + 32] == synapse_byte(es[i], 32));
        assert(s[off + 33] == synapse_byte(es[i], 33));
        assert(s.subrange(off + 32, off + 34) == es[i].weight);
    }
    assert(weights_in(Some(s))->0 == es.take(n));
}

/// A transfer of one sector: the drive is idle, its registers are told the sector's
/// number and a count of one, then the command goes out, and the data is waited for.
pub open spec fn asks_for_sector(a: Seq<DriveAction>, lba: u32, command: u8) -> bool {
    &&& a.len() >= 9
    &&& a[0] == DriveAction::WaitIdle
    &&& a[6] == DriveAction::Out(PortWrite { port: 0x177, value: command })
    &&& a[7] == DriveAction::WaitIdle
    &&& a[8] == DriveAction::WaitData
    &&& a.take(6).contains(DriveAction::Out(PortWrite { port: 0x172, value: 1 }))
    &&& a.take(6).contains(
        DriveAction::Out(PortWrite { port: 0x173, value: (lba % 0x100) as u8 }),
    )
    &&& a.take(6).contains(
        DriveAction::Out(PortWrite { port: 0x174, value: (lba / 0x100 % 0x100) as u8 }),
    )
    &&& a.take(6).contains(
        DriveAction::Out(PortWrite { port: 0x175, value: (lba / 0x1_0000 % 0x100) as u8 }),
    )
    &&& a.take(6).contains(
        DriveAction::Out(
            PortWrite { port: 0x176, value: (0xE0 + lba / 0x100_0000 % 0x10) as u8 },
        ),
    )
}

proof fn lemma_asks_for_sector(a: Seq<DriveAction>, lba: u32, command: u8)
    requires
        a.len() >= 9,
        a.take(9) == command_actions(lba, command),
    ensures
        asks_for_sector(a, lba, command),
{
    let b = command_actions(lba, command);
    assert forall|i: int| 0 <= i < 9 implies a[i] == #[trigger] b[i] by {
        assert(a.take(9)[i] == a[i]);
    }
    let head = 0xE0u8 | ((lba >> 24) & 0x0F) as u8;
    assert(head == 0xE0 + lba / 0x100_0000 % 0x10) by (bit_vector)
        requires
            head == 0xE0u8 | ((lba >> 24) & 0x0F) as u8,
    ;
    assert(a.take(6)[1] == b[1]);
    assert(a.take(6)[2] == b[2]);
    assert(a.take(6)[3] == b[3]);
    assert(a.take(6)[4] == b[4]);
    assert(a.take(6)[5] == b[5]);
}

/// Reading and writing a sector ask the drive for that sector, with the command for
/// each. A read then takes the words; a write gives them and has the drive's cache
/// flushed before it is over.
pub proof fn law_transfers_ask_for_their_sector(lba: u32)
    ensures
        asks_for_sector(read_actions(lba), lba, 0x20),
        read_actions(lba).skip(9) == seq![DriveAction::ReadWords],
        asks_for_sector(write_actions(lba), lba, 0x30),
        write_actions(lba).skip(9) == seq![
            DriveAction::WriteWords,
            DriveAction::Out(PortWrite { port: 0x177, value: 0xE7 }),
            DriveAction::WaitIdle,
        ],
{
    assert(read_actions(lba).take(9) == command_actions(lba, 0x20));
    assert(write_actions(lba).take(9) == command_actions(lba, 0x30));
    lemma_asks_for_sector(read_actions(lba), lba, 0x20);
    lemma_asks_for_sector(write_actions(lba), lba, 0x30);
    assert(read_actions(lba).skip(9) == seq![DriveAction::ReadWords]);
    assert(write_actions(lba).skip(9) == seq![
        DriveAction::WriteWords,
        DriveAction::Out(PortWrite { port: 0x177, value: 0xE7 }),
        DriveAction::WaitIdle,
    ]);
}

/// A word carries two bytes, the first in its low half.
pub proof fn law_words_hold_the_low_byte_first(words: Seq<u16>, bytes: Seq<u8>, i: int)
    requires
        0 <= i < words.len(),
        2 * words.len() == bytes.len(),
    ensures
        bytes_of(words).len() == bytes.len(),
        words_of(bytes).len() == words.len(),
        bytes_of(words)[2 * i] + 0x100 * bytes_of(words)[2 * i + 1] == words[i],
        bytes[2 * i] + 0x100 * bytes[2 * i + 1] == words_of(bytes)[i],
{
}

/// Up to 14 synapses are stored, and each comes back in its place; of more the first
/// 14 are.
pub proof fn law_weights_of_fourteen_are_kept(es: Seq<SynapseView>)
    requires
        forall|i: int|
            0 <= i < es.len() ==> storable((#[trigger] es[i]).from) && storable(es[i].to)
                && es[i].weight.len() == 2,
    ensures
        weights_in(Some(weights_sector(es))) == Some(
            if es.len() <= 14 {
                es
            } else {
                es.take(14)
            },
        ),
        weights_sector(es).len() == 512,
{
    law_weights_read_back(es);
    if es.len() <= 14 {
        assert(es.take(es.len() as int) == es);
    }
}

/// Where the stored weights of a synapse lie: behind a header of eight bytes, 34 bytes
/// for each, the names first and then the weight.
pub proof fn law_weights_have_their_places(es: Seq<SynapseView>, i: int, j: int)
    requires
        0 <= i < es.len(),
        i < 14,
        0 <= j < 34,
    ensures
        le32(weights_sector(es), 0) == 0x53504B32,
        weights_sector(es)[4] == 1,
        weights_sector(es)[5] == (if es.len() <= 14 {
            es.len()
        } else {
            14
        }),
        weights_sector(es)[6] == 10,
        weights_sector(es)[8 + 34 * i + j] == (if j < 16 {
            stored_name(es[i].from)[j]
        } else if j < 32 {
            stored_name(es[i].to)[j - 16]
        } else {
            es[i].weight[j - 32]
        }),
{
    let k = 8 + 34 * i + j;
    assert((k - 8) / 34 == i && (k - 8) % 34 == j);
}

/// A sector that could not be read or is not marked as one of weights holds none.
pub proof fn law_other_sectors_hold_no_weights(s: Seq<u8>)
    ensures
        weights_in(None) is None,
        weights_in(Some(s)) is None <==> le32(s, 0) != 0x53504B32,
{
}

} // verus!
