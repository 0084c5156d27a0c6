//! What the shell's commands print.

use crate::fs::{lines_view, ListingLine, ListingView};
use crate::mouse::MouseState;
use crate::numbers::{
    decimal, decimal_text, hex, hex_text, law_decimal_has_digits_alone, law_decimal_reads_back,
    law_hexadecimal_reads_back, law_padded_number_reads_back, law_sign_tells_negative_numbers,
    padded_decimal, parsed_number, signed_decimal, signed_text, zero_padded,
};
use crate::pci::PciDevice;
use crate::tasks::TaskReport;
use crate::text::{left_aligned, lemma_same_middle, owned, pad_right};
use vstd::prelude::*;
use vstd::string::StringExecFns;

verus! {

/// The list of commands.
pub open spec fn help_text() -> Seq<char> {
    "commands: help, about, tasks, spawn, kill, neurons, train, save, net, addneuron, addsynapse, stim, beep, silence, date, mouse, ls, mkdir, write, read, rm, clear, lspci, nic, nicinfo, sendpacket, recvpacket, pixel, line, rect, fillrect, draw, stopdraw, usertest, runproc\n"@
}

/// The fire counts of tasks.
pub open spec fn counts_text(ts: Seq<TaskReport>, k: nat) -> Seq<char>
    decreases k,
{
    if k == 0 {
        "live task fire counts: "@
    } else {
        counts_text(ts, (k - 1) as nat) + "task"@ + decimal_text(ts[k - 1].id as nat) + "="@
            + decimal_text(ts[k - 1].counter as nat) + " "@
    }
}

/// The report on the live tasks.
pub open spec fn tasks_text(ts: Seq<TaskReport>) -> Seq<char> {
    if ts.len() == 0 {
        "(no live tasks)\n"@
    } else {
        counts_text(ts, ts.len()) + "\n"@
    }
}

pub open spec fn bool_text(b: bool) -> Seq<char> {
    if b {
        "true"@
    } else {
        "false"@
    }
}

/// The report on the mouse.
pub open spec fn mouse_text(m: MouseState) -> Seq<char> {
    "x="@ + signed_text(m.x as int) + " y="@ + signed_text(m.y as int) + " left="@ + bool_text(
        m.left,
    ) + " right="@ + bool_text(m.right) + " middle="@ + bool_text(m.middle) + " packets="@
        + decimal_text(m.packet_count as nat) + "\n"@
}

/// One line of the device list: bus, device and function, the two ids, the class.
pub open spec fn device_text(d: PciDevice) -> Seq<char> {
    hex_text(d.bus as nat, 2) + ":"@ + hex_text(d.device as nat, 2) + "."@ + decimal_text(
        d.function as nat,
    ) + " "@ + hex_text(d.vendor_id as nat, 4) + ":"@ + hex_text(d.device_id as nat, 4)
        + " class "@ + hex_text(d.class_code as nat, 2) + hex_text(d.subclass as nat, 2) + "\n"@
}

/// The first `k` lines of the device list.
pub open spec fn devices_text(ds: Seq<PciDevice>, k: nat) -> Seq<char>
    decreases k,
{
    if k == 0 {
        ""@
    } else {
        devices_text(ds, (k - 1) as nat) + device_text(ds[k - 1])
    }
}

/// The device list.
pub open spec fn lspci_text(ds: Seq<PciDevice>) -> Seq<char> {
    if ds.len() == 0 {
        "(no PCI devices found)\n"@
    } else {
        devices_text(ds, ds.len())
    }
}

/// The report on the network controller.
pub open spec fn nic_text(nic: Option<PciDevice>) -> Seq<char> {
    match nic {
        Some(d) => "network controller found -- vendor="@ + hex_text(d.vendor_id as nat, 4)
            + " device="@ + hex_text(d.device_id as nat, 4) + "\n"@,
        None => "no network controller found on PCI bus 0\n"@,
    }
}

/// One line of a listing.
pub open spec fn line_text(l: ListingView) -> Seq<char> {
    if l.1 {
        l.0 + "/\n"@
    } else {
        left_aligned(l.0, 16) + " "@ + decimal_text(l.2 as nat) + " bytes\n"@
    }
}

/// The first `k` lines of a listing.
pub open spec fn lines_text(ls: Seq<ListingView>, k: nat) -> Seq<char>
    decreases k,
{
    if k == 0 {
        ""@
    } else {
        lines_text(ls, (k - 1) as nat) + line_text(ls[k - 1])
    }
}

/// A listing.
pub open spec fn listing_text(r: Result<Seq<ListingView>, Seq<char>>) -> Seq<char> {
    match r {
        Ok(ls) => if ls.len() == 0 {
            "(empty)\n"@
        } else {
            lines_text(ls, ls.len())
        },
        Err(e) => "ls FAILED: "@ + e + "\n"@,
    }
}

/// A point in brackets.
pub open spec fn point_text(x: usize, y: usize) -> Seq<char> {
    "("@ + decimal_text(x as nat) + ","@ + decimal_text(y as nat) + ")"@
}

/// A width and a height.
pub open spec fn size_text(w: usize, h: usize) -> Seq<char> {
    " "@ + decimal_text(w as nat) + "x"@ + decimal_text(h as nat) + "\n"@
}

/// Prints the list of commands.
pub fn help_reply() -> (r: String)
    ensures
        r@ == help_text(),
{
    owned(
        "commands: help, about, tasks, spawn, kill, neurons, train, save, net, addneuron, addsynapse, stim, beep, silence, date, mouse, ls, mkdir, write, read, rm, clear, lspci, nic, nicinfo, sendpacket, recvpacket, pixel, line, rect, fillrect, draw, stopdraw, usertest, runproc\n",
    )
}

/// A line made of a label and a text.
pub fn labelled(label: &str, text: &str) -> (r: String)
    ensures
        r@ == label@ + text@ + "\n"@,
{
    let mut out = owned(label);
    out.append(text);
    out.append("\n");
    out
}

/// What a command says once the drive took its writes, or did not.
pub fn store_reply(result: Result<(), &str>, done: &str, failed: &str) -> (r: String)
    ensures
        r@ == (match result {
            Ok(_) => done@,
            Err(e) => failed@ + e@ + "\n"@,
        }),
{
    match result {
        Ok(_) => owned(done),
        Err(e) => labelled(failed, e),
    }
}

/// Reports on the live tasks.
pub fn tasks_reply(live: &Vec<TaskReport>) -> (r: String)
    ensures
        r@ == tasks_text(live@),
{
    if live.len() == 0 {
        return owned("(no live tasks)\n");
    }
    let mut out = owned("live task fire counts: ");
    let mut i: usize = 0;
    while i < live.len()
        invariant
            i <= live@.len(),
            out@ == counts_text(live@, i as nat),
        decreases live@.len() - i,
    {
        out.append("task");
        out.append(decimal(live[i].id as u64).as_str());
        out.append("=");
        out.append(decimal(live[i].counter).as_str());
        out.append(" ");
        i += 1;
    }
    out.append("\n");
    out
}

fn bool_str(b: bool) -> (r: &'static str)
    ensures
        r@ == bool_text(b),
{
    if b {
        "true"
    } else {
        "false"
    }
}

/// Reports on the mouse.
pub fn mouse_reply(m: &MouseState) -> (r: String)
    ensures
        r@ == mouse_text(*m),
{
    let mut out = owned("x=");
    out.append(signed_decimal(m.x).as_str());
    out.append(" y=");
    out.append(signed_decimal(m.y).as_str());
    out.append(" left=");
    out.append(bool_str(m.left));
    out.append(" right=");
    out.append(bool_str(m.right));
    out.append(" middle=");
    out.append(bool_str(m.middle));
    out.append(" packets=");
    out.append(decimal(m.packet_count as u64).as_str());
    out.append("\n");
    out
}

fn device_reply(d: &PciDevice) -> (r: String)
    ensures
        r@ == device_text(*d),
{
    let mut out = hex(d.bus as u64, 2);
    out.append(":");
    out.append(hex(d.device as u64, 2).as_str());
    out.append(".");
    out.append(decimal(d.function as u64).as_str());
    out.append(" ");
    out.append(hex(d.vendor_id as u64, 4).as_str());
    out.append(":");
    out.append(hex(d.device_id as u64, 4).as_str());
    out.append(" class ");
    out.append(hex(d.class_code as u64, 2).as_str());
    out.append(hex(d.subclass as u64, 2).as_str());
    out.append("\n");
    out
}

/// Lists devices.
pub fn lspci_reply(devices: &Vec<PciDevice>) -> (r: String)
    ensures
        r@ == lspci_text(devices@),
{
    if devices.len() == 0 {
        return owned("(no PCI devices found)\n");
    }
    let mut out = owned("");
    let mut i: usize = 0;
    while i < devices.len()
        invariant
            i <= devices@.len(),
            out@ == devices_text(devices@, i as nat),
        decreases devices@.len() - i,
    {
        out.append(device_reply(&devices[i]).as_str());
        i += 1;
    }
    out
}

/// Reports on the network controller.
pub fn nic_reply(nic: Option<PciDevice>) -> (r: String)
    ensures
        r@ == nic_text(nic),
{
    match nic {
        Some(d) => {
            let mut out = owned("network controller found -- vendor=");
            out.append(hex(d.vendor_id as u64, 4).as_str());
            out.append(" device=");
            out.append(hex(d.device_id as u64, 4).as_str());
            out.append("\n");
            out
        },
        None => owned("no network controller found on PCI bus 0\n"),
    }
}

fn line_reply(l: &ListingLine) -> (r: String)
    ensures
        r@ == line_text((l.0@, l.1, l.2)),
{
    if l.1 {
        let mut out = owned(l.0.as_str());
        out.append("/\n");
        out
    } else {
        let mut out = pad_right(l.0.as_str(), 16);
        out.append(" ");
        out.append(decimal(l.2 as u64).as_str());
        out.append(" bytes\n");
        out
    }
}

/// Prints a listing.
pub fn print_listing(result: &Result<Vec<ListingLine>, String>) -> (r: String)
    ensures
        r@ == listing_text(
            match *result {
                Ok(lines) => Ok(lines_view(lines@)),
                Err(e) => Err(e@),
            },
        ),
{
    match result {
        Ok(lines) => {
            if lines.len() == 0 {
                return owned("(empty)\n");
            }
            let mut out = owned("");
            let mut i: usize = 0;
            while i < lines.len()
                invariant
                    i <= lines@.len(),
                    out@ == lines_text(lines_view(lines@), i as nat),
                decreases lines@.len() - i,
            {
                out.append(line_reply(&lines[i]).as_str());
                i += 1;
            }
            out
        },
        Err(e) => labelled("ls FAILED: ", e.as_str()),
    }
}

/// A point in brackets.
pub fn point_reply(x: usize, y: usize) -> (r: String)
    ensures
        r@ == point_text(x, y),
{
    let mut out = owned("(");
    out.append(decimal(x as u64).as_str());
    out.append(",");
    out.append(decimal(y as u64).as_str());
    out.append(")");
    out
}

/// A width and a height.
pub fn size_reply(w: usize, h: usize) -> (r: String)
    ensures
        r@ == size_text(w, h),
{
    let mut out = owned(" ");
    out.append(decimal(w as u64).as_str());
    out.append("x");
    out.append(decimal(h as u64).as_str());
    out.append("\n");
    out
}

/// Says that the user program ran.
pub fn usertest_reply() -> (r: String)
    ensures
        r@
            == "usertest: entered ring 3, ran the print + exit syscalls, returned cleanly -- see serial log for the hardware-recorded CPL confirmation\n"@,
{
    owned(
        "usertest: entered ring 3, ran the print + exit syscalls, returned cleanly -- see serial log for the hardware-recorded CPL confirmation\n",
    )
}

/// Says that a process ran.
pub fn runproc_reply(id: u8) -> (r: String)
    ensures
        r@ == "runproc "@ + decimal_text(id as nat)
            + ": entered ring 3 under its own private page table, ran print+exit syscalls, returned cleanly -- see serial log for its message + hardware CPL confirmation\n"@,
{
    let mut out = owned("runproc ");
    out.append(decimal(id as u64).as_str());
    out.append(
        ": entered ring 3 under its own private page table, ran print+exit syscalls, returned cleanly -- see serial log for its message + hardware CPL confirmation\n",
    );
    out
}

/// Says what starting a task came to.
pub fn spawn_reply(id: Option<usize>) -> (r: String)
    ensures
        r@ == (match id {
            Some(n) => "spawned task"@ + decimal_text(n as nat) + "\n"@,
            None => "spawn FAILED -- scheduler not running yet or task capacity reached\n"@,
        }),
{
    match id {
        Some(n) => {
            let mut out = owned("spawned task");
            out.append(decimal(n as u64).as_str());
            out.append("\n");
            out
        },
        None => owned("spawn FAILED -- scheduler not running yet or task capacity reached\n"),
    }
}

/// Says how training changed a weight, from its readings to four places before,
/// between and after the two phases.
pub fn train_reply(before: &str, after_ltp: &str, after_ltd: &str) -> (r: String)
    ensures
        r@ == "LeftKey->Motor weight: "@ + before@ + " -> (5x LTP) -> "@ + after_ltp@
            + " -> (5x LTD) -> "@ + after_ltd@ + "\n"@,
{
    let mut out = owned("LeftKey->Motor weight: ");
    out.append(before);
    out.append(" -> (5x LTP) -> ");
    out.append(after_ltp);
    out.append(" -> (5x LTD) -> ");
    out.append(after_ltd);
    out.append("\n");
    out
}

/// Says what storing the weights came to.
pub fn save_reply(result: Result<(), &str>) -> (r: String)
    ensures
        r@ == (match result {
            Ok(_) => "weights saved to disk\n"@,
            Err(e) => "save FAILED: "@ + e@ + "\n"@,
        }),
{
    match result {
        Ok(_) => owned("weights saved to disk\n"),
        Err(e) => labelled("save FAILED: ", e),
    }
}

/// A reading of the clock.
#[derive(Clone, Copy)]
pub struct DateTime {
    pub year: u16,
    pub month: u8,
    pub day: u8,
    pub hour: u8,
    pub minute: u8,
    pub second: u8,
}

/// A reading of the clock as text.
pub open spec fn date_text(t: DateTime) -> Seq<char> {
    zero_padded(t.year as nat, 4) + "-"@ + zero_padded(t.month as nat, 2) + "-"@ + zero_padded(
        t.day as nat,
        2,
    ) + " "@ + zero_padded(t.hour as nat, 2) + ":"@ + zero_padded(t.minute as nat, 2) + ":"@
        + zero_padded(t.second as nat, 2) + " (real CMOS RTC, not the PIT tick count)\n"@
}

/// Prints the date and the time.
pub fn date_reply(t: DateTime) -> (r: String)
    ensures
        r@ == date_text(t),
{
    let mut out = padded_decimal(t.year as u64, 4);
    out.append("-");
    out.append(padded_decimal(t.month as u64, 2).as_str());
    out.append("-");
    out.append(padded_decimal(t.day as u64, 2).as_str());
    out.append(" ");
    out.append(padded_decimal(t.hour as u64, 2).as_str());
    out.append(":");
    out.append(padded_decimal(t.minute as u64, 2).as_str());
    out.append(":");
    out.append(padded_decimal(t.second as u64, 2).as_str());
    out.append(" (real CMOS RTC, not the PIT tick count)\n");
    out
}

/// Reports on the speaker's gate.
pub fn speaker_status_reply(enabled: bool) -> (r: String)
    ensures
        r@ == "speaker gate register enabled="@ + bool_text(enabled) + "\n"@,
{
    labelled("speaker gate register enabled=", bool_str(enabled))
}

/// Says that the speaker was turned off.
pub fn silence_reply(enabled: bool) -> (r: String)
    ensures
        r@ == "silenced -- speaker gate register enabled="@ + bool_text(enabled) + "\n"@,
{
    labelled("silenced -- speaker gate register enabled=", bool_str(enabled))
}

/// Says that a tone plays.
pub fn beep_reply(freq: u32, enabled: bool) -> (r: String)
    ensures
        r@ == "beeping at "@ + decimal_text(freq as nat) + "Hz -- speaker gate register enabled="@
            + bool_text(enabled) + " (use 'silence' to stop)\n"@,
{
    let mut out = owned("beeping at ");
    out.append(decimal(freq as u64).as_str());
    out.append("Hz -- speaker gate register enabled=");
    out.append(bool_str(enabled));
    out.append(" (use 'silence' to stop)\n");
    out
}

/// What the network card's registers say: its address as text, whether the address
/// is marked valid, and whether the link is up, where they could be read.
pub struct NicStatus {
    pub mac: String,
    pub valid: Option<bool>,
    pub link_up: Option<bool>,
}

pub open spec fn link_text(up: Option<bool>) -> Seq<char> {
    match up {
        Some(true) => "up"@,
        Some(false) => "down"@,
        None => "unknown"@,
    }
}

/// Reports on the network card.
pub fn nic_info_reply(nic: &Option<NicStatus>) -> (r: String)
    ensures
        r@ == (match *nic {
            Some(n) => "e1000 NIC -- MAC "@ + n.mac@ + " (address-valid bit: "@ + bool_text(
                n.valid == Some(true),
            ) + "), link: "@ + link_text(n.link_up) + "\n"@,
            None => "no e1000 NIC initialized (see boot log for why)\n"@,
        }),
{
    match nic {
        Some(n) => {
            let valid = match n.valid {
                Some(v) => v,
                None => false,
            };
            let link = match n.link_up {
                Some(true) => "up",
                Some(false) => "down",
                None => "unknown",
            };
            let mut out = owned("e1000 NIC -- MAC ");
            out.append(n.mac.as_str());
            out.append(" (address-valid bit: ");
            out.append(bool_str(valid));
            out.append("), link: ");
            out.append(link);
            out.append("\n");
            out
        },
        None => owned("no e1000 NIC initialized (see boot log for why)\n"),
    }
}

/// Says what sending a packet came to: whether the card confirmed it.
pub fn send_reply(result: Result<bool, &str>) -> (r: String)
    ensures
        r@ == (match result {
            Ok(true) =>
                "packet transmitted -- descriptor DD (descriptor done) bit confirmed set by hardware\n"@,
            Ok(false) =>
                "packet queued and TDT advanced, but DD bit never set within timeout -- transmission NOT confirmed\n"@,
            Err(e) => "sendpacket FAILED: "@ + e@ + "\n"@,
        }),
{
    match result {
        Ok(true) => owned(
            "packet transmitted -- descriptor DD (descriptor done) bit confirmed set by hardware\n",
        ),
        Ok(false) => owned(
            "packet queued and TDT advanced, but DD bit never set within timeout -- transmission NOT confirmed\n",
        ),
        Err(e) => labelled("sendpacket FAILED: ", e),
    }
}

/// A packet that arrived, with its addresses as text.
pub struct Frame {
    pub src: String,
    pub dest: String,
    pub ethertype: u16,
    pub length: usize,
    pub payload_matches_test: bool,
}

/// Says what polling for a packet came to.
pub fn recv_reply(result: &Result<Option<Frame>, String>) -> (r: String)
    ensures
        r@ == (match *result {
            Ok(Some(f)) => "packet received -- src "@ + f.src@ + " dst "@ + f.dest@
                + " ethertype 0x"@ + hex_text(f.ethertype as nat, 4) + " length "@ + decimal_text(
                f.length as nat,
            ) + " bytes, payload matches test packet: "@ + bool_text(f.payload_matches_test)
                + "\n"@,
            Ok(None) => "no packet received within timeout\n"@,
            Err(e) => "recvpacket FAILED: "@ + e@ + "\n"@,
        }),
{
    match result {
        Ok(Some(f)) => {
            let mut out = owned("packet received -- src ");
            out.append(f.src.as_str());
            out.append(" dst ");
            out.append(f.dest.as_str());
            out.append(" ethertype 0x");
            out.append(hex(f.ethertype as u64, 4).as_str());
            out.append(" length ");
            out.append(decimal(f.length as u64).as_str());
            out.append(" bytes, payload matches test packet: ");
            out.append(bool_str(f.payload_matches_test));
            out.append("\n");
            out
        },
        Ok(None) => owned("no packet received within timeout\n"),
        Err(e) => labelled("recvpacket FAILED: ", e.as_str()),
    }
}

proof fn lemma_lines_run_on(a: Seq<ListingView>, b: Seq<ListingView>, k: nat)
    requires
        k <= b.len(),
    ensures
        lines_text(a + b, a.len() + k) == lines_text(a, a.len()) + lines_text(b, k),
    decreases k,
{
    reveal_strlit("");
    if k == 0 {
        lemma_lines_prefix(a, b, a.len());
        assert(lines_text(a, a.len()) + ""@ == lines_text(a, a.len()));
    } else {
        lemma_lines_run_on(a, b, (k - 1) as nat);
        assert((a + b)[a.len() + k - 1] == b[k - 1]);
        let (x, y, z) = (lines_text(a, a.len()), lines_text(b, (k - 1) as nat), line_text(b[k - 1]));
        assert((x + y) + z == x + (y + z));
    }
}

proof fn lemma_lines_prefix(a: Seq<ListingView>, b: Seq<ListingView>, k: nat)
    requires
        k <= a.len(),
    ensures
        lines_text(a + b, k) == lines_text(a, k),
    decreases k,
{
    if k > 0 {
        lemma_lines_prefix(a, b, (k - 1) as nat);
    }
}

/// A listing prints its lines one after another, and every one: a directory by its name
/// and a slash, a file by its name in sixteen columns and its length.
pub proof fn law_every_line_is_printed(
    a: Seq<ListingView>,
    b: Seq<ListingView>,
    name: Seq<char>,
    len: u16,
)
    requires
        a.len() > 0,
        b.len() > 0,
    ensures
        listing_text(Ok(a + b)) == listing_text(Ok(a)) + listing_text(Ok(b)),
        listing_text(Ok(seq![(name, true, len)])) == name + "/\n"@,
        name.len() == 16 ==> listing_text(Ok(seq![(name, false, len)])) == name + " "@
            + decimal_text(len as nat) + " bytes\n"@,
        listing_text(Ok(seq![(name, false, len)])) == listing_text(
            Ok(seq![(left_aligned(name, 16), false, len)]),
        ),
{
    lemma_lines_run_on(a, b, b.len());
    reveal_strlit("");
    reveal_with_fuel(lines_text, 2);
    let dir = seq![(name, true, len)];
    let file = seq![(name, false, len)];
    let filled = seq![(left_aligned(name, 16), false, len)];
    assert(""@ + line_text(dir[0]) == line_text(dir[0]));
    assert(""@ + line_text(file[0]) == line_text(file[0]));
    assert(""@ + line_text(filled[0]) == line_text(filled[0]));
}

proof fn lemma_devices_run_on(a: Seq<PciDevice>, b: Seq<PciDevice>, k: nat)
    requires
        k <= b.len(),
    ensures
        devices_text(a + b, a.len() + k) == devices_text(a, a.len()) + devices_text(b, k),
    decreases k,
{
    reveal_strlit("");
    if k == 0 {
        lemma_devices_prefix(a, b, a.len());
        assert(devices_text(a, a.len()) + ""@ == devices_text(a, a.len()));
    } else {
        lemma_devices_run_on(a, b, (k - 1) as nat);
        assert((a + b)[a.len() + k - 1] == b[k - 1]);
        let (x, y, z) = (
            devices_text(a, a.len()),
            devices_text(b, (k - 1) as nat),
            device_text(b[k - 1]),
        );
        assert((x + y) + z == x + (y + z));
    }
}

proof fn lemma_devices_prefix(a: Seq<PciDevice>, b: Seq<PciDevice>, k: nat)
    requires
        k <= a.len(),
    ensures
        devices_text(a + b, k) == devices_text(a, k),
    decreases k,
{
    if k > 0 {
        lemma_devices_prefix(a, b, (k - 1) as nat);
    }
}

/// The list of devices prints one after another, and every one, with its place, its
/// numbers and its class in hexadecimal digits.
pub proof fn law_every_device_is_printed(a: Seq<PciDevice>, b: Seq<PciDevice>, d: PciDevice)
    requires
        a.len() > 0,
        b.len() > 0,
    ensures
        lspci_text(a + b) == lspci_text(a) + lspci_text(b),
        ({
            let t = lspci_text(seq![d]);
            &&& t.subrange(0, 2) == hex_text(d.bus as nat, 2)
            &&& t.subrange(3, 5) == hex_text(d.device as nat, 2)
            &&& d.function < 10 ==> {
                &&& t.len() == 29
                &&& t.subrange(6, 7) == decimal_text(d.function as nat)
                &&& t.subrange(8, 12) == hex_text(d.vendor_id as nat, 4)
                &&& t.subrange(13, 17) == hex_text(d.device_id as nat, 4)
                &&& t.subrange(24, 26) == hex_text(d.class_code as nat, 2)
                &&& t.subrange(26, 28) == hex_text(d.subclass as nat, 2)
            }
        }),
{
    lemma_devices_run_on(a, b, b.len());
    reveal_strlit("");
    reveal_strlit(":");
    reveal_strlit(".");
    reveal_strlit(" ");
    reveal_strlit(" class ");
    reveal_strlit("\n");
    reveal_with_fuel(devices_text, 2);
    law_hexadecimal_reads_back(d.bus as nat, 2);
    law_hexadecimal_reads_back(d.device as nat, 2);
    law_hexadecimal_reads_back(d.vendor_id as nat, 4);
    law_hexadecimal_reads_back(d.device_id as nat, 4);
    law_hexadecimal_reads_back(d.class_code as nat, 2);
    law_hexadecimal_reads_back(d.subclass as nat, 2);
    law_decimal_has_digits_alone(d.function as nat);
    let t = lspci_text(seq![d]);
    assert(t == device_text(d)) by {
        assert(""@ + device_text(d) == device_text(d));
    }
    assert(t.subrange(0, 2) == hex_text(d.bus as nat, 2));
    assert(t.subrange(3, 5) == hex_text(d.device as nat, 2));
    if d.function < 10 {
        assert(t.subrange(6, 7) == decimal_text(d.function as nat));
        assert(t.subrange(8, 12) == hex_text(d.vendor_id as nat, 4));
        assert(t.subrange(13, 17) == hex_text(d.device_id as nat, 4));
        assert(t.subrange(24, 26) == hex_text(d.class_code as nat, 2));
        assert(t.subrange(26, 28) == hex_text(d.subclass as nat, 2));
    }
}

proof fn lemma_counts_prefix(ts: Seq<TaskReport>, r: TaskReport, k: nat)
    requires
        k <= ts.len(),
    ensures
        counts_text(ts.push(r), k) == counts_text(ts, k),
    decreases k,
{
    if k > 0 {
        lemma_counts_prefix(ts, r, (k - 1) as nat);
    }
}

/// The list of tasks has an item for each, with its number and its count, in order.
pub proof fn law_every_task_is_printed(ts: Seq<TaskReport>, r: TaskReport)
    ensures
        ({
            let item = "task"@ + decimal_text(r.id as nat) + "="@ + decimal_text(r.counter as nat)
                + " "@;
            let before = if ts.len() == 0 {
                "live task fire counts: "@
            } else {
                tasks_text(ts).drop_last()
            };
            tasks_text(ts.push(r)) == before + item + "\n"@
        }),
{
    reveal_strlit("\n");
    lemma_counts_prefix(ts, r, ts.len());
    let item = "task"@ + decimal_text(r.id as nat) + "="@ + decimal_text(r.counter as nat) + " "@;
    let before = counts_text(ts, ts.len());
    assert(tasks_text(ts.push(r)) == before + item + "\n"@);
    if ts.len() > 0 {
        assert(tasks_text(ts).drop_last() == before);
    }
}

proof fn lemma_signed_tells(a: int, b: int)
    requires
        signed_text(a) == signed_text(b),
    ensures
        a == b,
{
    law_sign_tells_negative_numbers(a);
    law_sign_tells_negative_numbers(b);
    let max = (if a < 0 {
        -a
    } else {
        a
    }) + (if b < 0 {
        -b
    } else {
        b
    });
    if a < 0 {
        law_decimal_reads_back((-a) as nat, max as nat);
        law_decimal_reads_back((-b) as nat, max as nat);
    } else {
        law_decimal_reads_back(a as nat, max as nat);
        law_decimal_reads_back(b as nat, max as nat);
    }
}

proof fn lemma_flag_tells(a: bool, b: bool)
    requires
        bool_text(a) == bool_text(b),
    ensures
        a == b,
{
    reveal_strlit("true");
    reveal_strlit("false");
    assert("true"@.len() == 4);
    assert("false"@.len() == 5);
    if a != b {
        assert(bool_text(a).len() != bool_text(b).len());
    }
}

/// Texts that go on alike have begun alike where they are the same.
proof fn lemma_same_front(a: Seq<char>, b: Seq<char>, s: Seq<char>)
    requires
        a + s == b + s,
    ensures
        a == b,
{
    let none = Seq::<char>::empty();
    assert(none + a + s == a + s);
    assert(none + b + s == b + s);
    lemma_same_middle(none, a, b, s);
}

proof fn lemma_mouse_x(m: MouseState, n: MouseState)
    requires
        mouse_text(m) == mouse_text(MouseState { x: n.x, ..m }),
    ensures
        m.x == n.x,
{
    let front = "x="@;
    let u0 = front + signed_text(m.x as int);
    let v0 = front + signed_text(n.x as int);
    let u1 = u0 + " y="@;
    let v1 = v0 + " y="@;
    let u2 = u1 + signed_text(m.y as int);
    let v2 = v1 + signed_text(m.y as int);
    let u3 = u2 + " left="@;
    let v3 = v2 + " left="@;
    let u4 = u3 + bool_text(m.left);
    let v4 = v3 + bool_text(m.left);
    let u5 = u4 + " right="@;
    let v5 = v4 + " right="@;
    let u6 = u5 + bool_text(m.right);
    let v6 = v5 + bool_text(m.right);
    let u7 = u6 + " middle="@;
    let v7 = v6 + " middle="@;
    let u8 = u7 + bool_text(m.middle);
    let v8 = v7 + bool_text(m.middle);
    let u9 = u8 + " packets="@;
    let v9 = v8 + " packets="@;
    let u10 = u9 + decimal_text(m.packet_count as nat);
    let v10 = v9 + decimal_text(m.packet_count as nat);
    let u11 = u10 + "\n"@;
    let v11 = v10 + "\n"@;
    lemma_same_front(u10, v10, "\n"@);
    lemma_same_front(u9, v9, decimal_text(m.packet_count as nat));
    lemma_same_front(u8, v8, " packets="@);
    lemma_same_front(u7, v7, bool_text(m.middle));
    lemma_same_front(u6, v6, " middle="@);
    lemma_same_front(u5, v5, bool_text(m.right));
    lemma_same_front(u4, v4, " right="@);
    lemma_same_front(u3, v3, bool_text(m.left));
    lemma_same_front(u2, v2, " left="@);
    lemma_same_front(u1, v1, signed_text(m.y as int));
    lemma_same_front(u0, v0, " y="@);
    let none = Seq::<char>::empty();
    assert(u0 + none == u0);
    assert(v0 + none == v0);
    lemma_same_middle(front, signed_text(m.x as int), signed_text(n.x as int), none);
    lemma_signed_tells(m.x as int, n.x as int);
}

proof fn lemma_mouse_y(m: MouseState, n: MouseState)
    requires
        mouse_text(m) == mouse_text(MouseState { y: n.y, ..m }),
    ensures
        m.y == n.y,
{
    let front = "x="@ + signed_text(m.x as int) + " y="@;
    let u0 = front + signed_text(m.y as int);
    let v0 = front + signed_text(n.y as int);
    let u1 = u0 + " left="@;
    let v1 = v0 + " left="@;
    let u2 = u1 + bool_text(m.left);
    let v2 = v1 + bool_text(m.left);
    let u3 = u2 + " right="@;
    let v3 = v2 + " right="@;
    let u4 = u3 + bool_text(m.right);
    let v4 = v3 + bool_text(m.right);
    let u5 = u4 + " middle="@;
    let v5 = v4 + " middle="@;
    let u6 = u5 + bool_text(m.middle);
    let v6 = v5 + bool_text(m.middle);
    let u7 = u6 + " packets="@;
    let v7 = v6 + " packets="@;
    let u8 = u7 + decimal_text(m.packet_count as nat);
    let v8 = v7 + decimal_text(m.packet_count as nat);
    let u9 = u8 + "\n"@;
    let v9 = v8 + "\n"@;
    lemma_same_front(u8, v8, "\n"@);
    lemma_same_front(u7, v7, decimal_text(m.packet_count as nat));
    lemma_same_front(u6, v6, " packets="@);
    lemma_same_front(u5, v5, bool_text(m.middle));
    lemma_same_front(u4, v4, " middle="@);
    lemma_same_front(u3, v3, bool_text(m.right));
    lemma_same_front(u2, v2, " right="@);
    lemma_same_front(u1, v1, bool_text(m.left));
    lemma_same_front(u0, v0, " left="@);
    let none = Seq::<char>::empty();
    assert(u0 + none == u0);
    assert(v0 + none == v0);
    lemma_same_middle(front, signed_text(m.y as int), signed_text(n.y as int), none);
    lemma_signed_tells(m.y as int, n.y as int);
}

proof fn lemma_mouse_left(m: MouseState, n: MouseState)
    requires
        mouse_text(m) == mouse_text(MouseState { left: n.left, ..m }),
    ensures
        m.left == n.left,
{
    let front = "x="@ + signed_text(m.x as int) + " y="@ + signed_text(m.y as int) + " left="@;
    let u0 = front + bool_text(m.left);
    let v0 = front + bool_text(n.left);
    let u1 = u0 + " right="@;
    let v1 = v0 + " right="@;
    let u2 = u1 + bool_text(m.right);
    let v2 = v1 + bool_text(m.right);
    let u3 = u2 + " middle="@;
    let v3 = v2 + " middle="@;
    let u4 = u3 + bool_text(m.middle);
    let v4 = v3 + bool_text(m.middle);
    let u5 = u4 + " packets="@;
    let v5 = v4 + " packets="@;
    let u6 = u5 + decimal_text(m.packet_count as nat);
    let v6 = v5 + decimal_text(m.packet_count as nat);
    let u7 = u6 + "\n"@;
    let v7 = v6 + "\n"@;
    lemma_same_front(u6, v6, "\n"@);
    lemma_same_front(u5, v5, decimal_text(m.packet_count as nat));
    lemma_same_front(u4, v4, " packets="@);
    lemma_same_front(u3, v3, bool_text(m.middle));
    lemma_same_front(u2, v2, " middle="@);
    lemma_same_front(u1, v1, bool_text(m.right));
    lemma_same_front(u0, v0, " right="@);
    let none = Seq::<char>::empty();
    assert(u0 + none == u0);
    assert(v0 + none == v0);
    lemma_same_middle(front, bool_text(m.left), bool_text(n.left), none);
    lemma_flag_tells(m.left, n.left);
}

proof fn lemma_mouse_right(m: MouseState, n: MouseState)
    requires
        mouse_text(m) == mouse_text(MouseState { right: n.right, ..m }),
    ensures
        m.right == n.right,
{
    let front = "x="@ + signed_text(m.x as int) + " y="@ + signed_text(m.y as int) + " left="@
        + bool_text(m.left) + " right="@;
    let u0 = front + bool_text(m.right);
    let v0 = front + bool_text(n.right);
    let u1 = u0 + " middle="@;
    let v1 = v0 + " middle="@;
    let u2 = u1 + bool_text(m.middle);
    let v2 = v1 + bool_text(m.middle);
    let u3 = u2 + " packets="@;
    let v3 = v2 + " packets="@;
    let u4 = u3 + decimal_text(m.packet_count as nat);
    let v4 = v3 + decimal_text(m.packet_count as nat);
    let u5 = u4 + "\n"@;
    let v5 = v4 + "\n"@;
    lemma_same_front(u4, v4, "\n"@);
    lemma_same_front(u3, v3, decimal_text(m.packet_count as nat));
    lemma_same_front(u2, v2, " packets="@);
    lemma_same_front(u1, v1, bool_text(m.middle));
    lemma_same_front(u0, v0, " middle="@);
    let none = Seq::<char>::empty();
    assert(u0 + none == u0);
    assert(v0 + none == v0);
    lemma_same_middle(front, bool_text(m.right), bool_text(n.right), none);
    lemma_flag_tells(m.right, n.right);
}

proof fn lemma_mouse_middle(m: MouseState, n: MouseState)
    requires
        mouse_text(m) == mouse_text(MouseState { middle: n.middle, ..m }),
    ensures
        m.middle == n.middle,
{
    let front = "x="@ + signed_text(m.x as int) + " y="@ + signed_text(m.y as int) + " left="@
        + bool_text(m.left) + " right="@ + bool_text(m.right) + " middle="@;
    let u0 = front + bool_text(m.middle);
    let v0 = front + bool_text(n.middle);
    let u1 = u0 + " packets="@;
    let v1 = v0 + " packets="@;
    let u2 = u1 + decimal_text(m.packet_count as nat);
    let v2 = v1 + decimal_text(m.packet_count as nat);
    let u3 = u2 + "\n"@;
    let v3 = v2 + "\n"@;
    lemma_same_front(u2, v2, "\n"@);
    lemma_same_front(u1, v1, decimal_text(m.packet_count as nat));
    lemma_same_front(u0, v0, " packets="@);
    let none = Seq::<char>::empty();
    assert(u0 + none == u0);
    assert(v0 + none == v0);
    lemma_same_middle(front, bool_text(m.middle), bool_text(n.middle), none);
    lemma_flag_tells(m.middle, n.middle);
}

proof fn lemma_mouse_packet_count(m: MouseState, n: MouseState)
    requires
        mouse_text(m) == mouse_text(MouseState { packet_count: n.packet_count, ..m }),
    ensures
        m.packet_count == n.packet_count,
{
    let front = "x="@ + signed_text(m.x as int) + " y="@ + signed_text(m.y as int) + " left="@
        + bool_text(m.left) + " right="@ + bool_text(m.right) + " middle="@ + bool_text(m.middle)
        + " packets="@;
    let u0 = front + decimal_text(m.packet_count as nat);
    let v0 = front + decimal_text(n.packet_count as nat);
    let u1 = u0 + "\n"@;
    let v1 = v0 + "\n"@;
    lemma_same_front(u0, v0, "\n"@);
    let none = Seq::<char>::empty();
    assert(u0 + none == u0);
    assert(v0 + none == v0);
    lemma_same_middle(
        front,
        decimal_text(m.packet_count as nat),
        decimal_text(n.packet_count as nat),
        none,
    );
    law_decimal_reads_back(m.packet_count as nat, u32::MAX as nat);
    law_decimal_reads_back(n.packet_count as nat, u32::MAX as nat);
}

/// The report on the mouse tells its coordinates, its buttons and its packets apart: where
/// one of them differs, so does the report.
pub proof fn law_mouse_report_tells_states_apart(m: MouseState, n: MouseState)
    ensures
        mouse_text(m) == mouse_text(MouseState { x: n.x, ..m }) ==> m.x == n.x,
        mouse_text(m) == mouse_text(MouseState { y: n.y, ..m }) ==> m.y == n.y,
        mouse_text(m) == mouse_text(MouseState { left: n.left, ..m }) ==> m.left == n.left,
        mouse_text(m) == mouse_text(MouseState { right: n.right, ..m }) ==> m.right == n.right,
        mouse_text(m) == mouse_text(MouseState { middle: n.middle, ..m }) ==> m.middle == n.middle,
        mouse_text(m) == mouse_text(MouseState { packet_count: n.packet_count, ..m }) ==> m.packet_count == n.packet_count,
{
    if mouse_text(m) == mouse_text(MouseState { x: n.x, ..m }) {
        lemma_mouse_x(m, n);
    }
    if mouse_text(m) == mouse_text(MouseState { y: n.y, ..m }) {
        lemma_mouse_y(m, n);
    }
    if mouse_text(m) == mouse_text(MouseState { left: n.left, ..m }) {
        lemma_mouse_left(m, n);
    }
    if mouse_text(m) == mouse_text(MouseState { right: n.right, ..m }) {
        lemma_mouse_right(m, n);
    }
    if mouse_text(m) == mouse_text(MouseState { middle: n.middle, ..m }) {
        lemma_mouse_middle(m, n);
    }
    if mouse_text(m) == mouse_text(MouseState { packet_count: n.packet_count, ..m }) {
        lemma_mouse_packet_count(m, n);
    }
}

/// The date has each of its parts in its columns.
pub proof fn law_date_has_its_columns(t: DateTime)
    requires
        t.year < 10_000,
        t.month < 100,
        t.day < 100,
        t.hour < 100,
        t.minute < 100,
        t.second < 100,
    ensures
        ({
            let s = date_text(t);
            &&& parsed_number(s.subrange(0, 4), 9999) == Some(t.year as nat)
            &&& s[4] == '-'
            &&& parsed_number(s.subrange(5, 7), 99) == Some(t.month as nat)
            &&& s[7] == '-'
            &&& parsed_number(s.subrange(8, 10), 99) == Some(t.day as nat)
            &&& s[10] == ' '
            &&& parsed_number(s.subrange(11, 13), 99) == Some(t.hour as nat)
            &&& s[13] == ':'
            &&& parsed_number(s.subrange(14, 16), 99) == Some(t.minute as nat)
            &&& s[16] == ':'
            &&& parsed_number(s.subrange(17, 19), 99) == Some(t.second as nat)
        }),
{
    lemma_two_columns(t.month as nat);
    lemma_two_columns(t.day as nat);
    lemma_two_columns(t.hour as nat);
    lemma_two_columns(t.minute as nat);
    lemma_two_columns(t.second as nat);
    law_padded_number_reads_back(t.year as nat, 4, 9999);
    law_decimal_has_digits_alone(t.year as nat);
    law_decimal_has_digits_alone(t.year as nat / 10);
    law_decimal_has_digits_alone(t.year as nat / 100);
    law_decimal_has_digits_alone(t.year as nat / 1000);
    lemma_columns(
        zero_padded(t.year as nat, 4),
        zero_padded(t.month as nat, 2),
        zero_padded(t.day as nat, 2),
        zero_padded(t.hour as nat, 2),
        zero_padded(t.minute as nat, 2),
        zero_padded(t.second as nat, 2),
        " (real CMOS RTC, not the PIT tick count)\n"@,
    );
}

/// The columns of a date and a time.
proof fn lemma_columns(
    a: Seq<char>,
    b: Seq<char>,
    c: Seq<char>,
    d: Seq<char>,
    e: Seq<char>,
    f: Seq<char>,
    rest: Seq<char>,
)
    requires
        a.len() == 4,
        b.len() == 2,
        c.len() == 2,
        d.len() == 2,
        e.len() == 2,
        f.len() == 2,
    ensures
        ({
            let s = a + "-"@ + b + "-"@ + c + " "@ + d + ":"@ + e + ":"@ + f + rest;
            &&& s.subrange(0, 4) == a
            &&& s[4] == '-'
            &&& s.subrange(5, 7) == b
            &&& s[7] == '-'
            &&& s.subrange(8, 10) == c
            &&& s[10] == ' '
            &&& s.subrange(11, 13) == d
            &&& s[13] == ':'
            &&& s.subrange(14, 16) == e
            &&& s[16] == ':'
            &&& s.subrange(17, 19) == f
        }),
{
    reveal_strlit("-");
    reveal_strlit(" ");
    reveal_strlit(":");
    let s = a + "-"@ + b + "-"@ + c + " "@ + d + ":"@ + e + ":"@ + f + rest;
    assert(s.subrange(0, 4) == a);
    assert(s.subrange(5, 7) == b);
    assert(s.subrange(8, 10) == c);
    assert(s.subrange(11, 13) == d);
    assert(s.subrange(14, 16) == e);
    assert(s.subrange(17, 19) == f);
}

proof fn lemma_two_columns(n: nat)
    requires
        n < 100,
    ensures
        zero_padded(n, 2).len() == 2,
        parsed_number(zero_padded(n, 2), 99) == Some(n),
{
    law_padded_number_reads_back(n, 2, 99);
    law_decimal_has_digits_alone(n);
    law_decimal_has_digits_alone(n / 10);
}

/// The report on the network card has its vendor and its device in four hexadecimal
/// digits each.
pub proof fn law_network_card_report_has_its_numbers(d: PciDevice)
    ensures
        ({
            let s = nic_text(Some(d));
            let n = s.len();
            &&& n == 52
            &&& s.subrange(35, 39) == hex_text(d.vendor_id as nat, 4)
            &&& s.subrange(47, 51) == hex_text(d.device_id as nat, 4)
        }),
{
    reveal_strlit("network controller found -- vendor=");
    reveal_strlit(" device=");
    reveal_strlit("\n");
    law_hexadecimal_reads_back(d.vendor_id as nat, 4);
    law_hexadecimal_reads_back(d.device_id as nat, 4);
    let s = nic_text(Some(d));
    assert(s.subrange(35, 39) == hex_text(d.vendor_id as nat, 4));
    assert(s.subrange(47, 51) == hex_text(d.device_id as nat, 4));
}

} // verus!
