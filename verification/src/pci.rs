//! The devices on the first PCI bus.

use crate::search::{first_where, lemma_first_where_is};
use crate::step::Step;
use vstd::prelude::*;

verus! {

/// The class of network controllers.
pub const NETWORK_CONTROLLER_CLASS: u8 = 0x02;

/// One function of a device.
#[derive(Clone, Copy)]
pub struct PciDevice {
    pub bus: u8,
    pub device: u8,
    pub function: u8,
    pub vendor_id: u16,
    pub device_id: u16,
    pub class_code: u8,
    pub subclass: u8,
}

/// The address of a configuration register: an enable bit, then bus, device,
/// function, and the register's offset rounded down to four bytes.
pub open spec fn register_address(bus: u8, device: u8, function: u8, offset: u8) -> u32 {
    0x8000_0000 | (bus as u32) << 16 | (device as u32) << 11 | (function as u32) << 8 | (
    offset as u32 & 0xFC)
}

/// The address of a configuration register.
pub fn config_address(bus: u8, device: u8, function: u8, offset: u8) -> (r: u32)
    ensures
        r == register_address(bus, device, function, offset),
{
    0x8000_0000 | (bus as u32) << 16 | (device as u32) << 11 | (function as u32) << 8 | (
    offset as u32 & 0xFC)
}

/// Different registers of the devices that a bus can have lie at different
/// addresses.
pub proof fn law_registers_are_apart(
    b1: u8,
    d1: u8,
    f1: u8,
    o1: u8,
    b2: u8,
    d2: u8,
    f2: u8,
    o2: u8,
)
    requires
        d1 < 32,
        d2 < 32,
        f1 < 8,
        f2 < 8,
        register_address(b1, d1, f1, o1) == register_address(b2, d2, f2, o2),
    ensures
        b1 == b2,
        d1 == d2,
        f1 == f2,
        o1 / 4 == o2 / 4,
{
    assert(b1 == b2 && d1 == d2 && f1 == f2 && o1 / 4 == o2 / 4) by (bit_vector)
        requires
            d1 < 32,
            d2 < 32,
            f1 < 8,
            f2 < 8,
            0x8000_0000u32 | (b1 as u32) << 16 | (d1 as u32) << 11 | (f1 as u32) << 8 | (o1 as u32
                & 0xFC) == 0x8000_0000u32 | (b2 as u32) << 16 | (d2 as u32) << 11 | (f2 as u32) << 8
                | (o2 as u32 & 0xFC),
    ;
}

/// The configuration registers that have been read so far.
pub type ConfigView = Map<u32, u32>;

/// The configuration registers that have been read so far, by their addresses. A
/// later read takes the place of an earlier one.
pub struct ConfigCache {
    entries: Vec<(u32, u32)>,
}

spec fn known(entries: Seq<(u32, u32)>) -> ConfigView
    decreases entries.len(),
{
    if entries.len() == 0 {
        Map::empty()
    } else {
        known(entries.drop_last()).insert(entries.last().0, entries.last().1)
    }
}

impl ConfigCache {
    pub closed spec fn view(&self) -> ConfigView {
        known(self.entries@)
    }

    /// Nothing has been read yet.
    pub fn new() -> (r: ConfigCache)
        ensures
            r@ == Map::<u32, u32>::empty(),
    {
        ConfigCache { entries: Vec::new() }
    }

    /// Records the value of a register.
    pub fn learn(&mut self, address: u32, value: u32)
        ensures
            final(self)@ == old(self)@.insert(address, value),
    {
        let ghost before = self.entries@;
        self.entries.push((address, value));
        assert(self.entries@.drop_last() == before);
    }

    /// The value of a register, if it was read.
    pub fn lookup(&self, address: u32) -> (r: Option<u32>)
        ensures
            match r {
                Some(v) => self@.contains_key(address) && self@[address] == v,
                None => !self@.contains_key(address),
            },
    {
        let mut i: usize = self.entries.len();
        assert(self.entries@.take(i as int) == self.entries@);
        while i > 0
            invariant
                i <= self.entries.len(),
                known(self.entries@.take(i as int)).contains_key(address) == self@.contains_key(
                    address,
                ),
                known(self.entries@.take(i as int)).contains_key(address) ==> known(
                    self.entries@.take(i as int),
                )[address] == self@[address],
            decreases i,
        {
            assert(self.entries@.take(i as int).drop_last() == self.entries@.take(i - 1));
            i -= 1;
            if self.entries[i].0 == address {
                return Some(self.entries[i].1);
            }
        }
        None
    }
}

/// The value of a register of a function on bus 0.
pub open spec fn register(c: ConfigView, device: u8, function: u8, offset: u8) -> Step<u32, u32> {
    let address = register_address(0, device, function, offset);
    if c.contains_key(address) {
        Step::Done(c[address])
    } else {
        Step::Need(address)
    }
}

/// The function that a device has under this number, if it has one.
pub open spec fn function_at(c: ConfigView, device: u8, function: u8) -> Step<
    u32,
    Option<PciDevice>,
> {
    match register(c, device, function, 0) {
        Step::Need(a) => Step::Need(a),
        Step::Done(id) => if id % 0x1_0000 == 0xFFFF {
            Step::Done(None)
        } else {
            match register(c, device, function, 8) {
                Step::Need(a) => Step::Need(a),
                Step::Done(class) => Step::Done(
                    Some(
                        PciDevice {
                            bus: 0,
                            device,
                            function,
                            vendor_id: (id % 0x1_0000) as u16,
                            device_id: (id / 0x1_0000) as u16,
                            class_code: (class / 0x100_0000) as u8,
                            subclass: (class / 0x1_0000 % 0x100) as u8,
                        },
                    ),
                ),
            }
        },
    }
}

/// The first `k` functions of a device that are there.
pub open spec fn functions_of(c: ConfigView, device: u8, k: nat) -> Step<u32, Seq<PciDevice>>
    decreases k,
{
    if k == 0 {
        Step::Done(Seq::empty())
    } else {
        match functions_of(c, device, (k - 1) as nat) {
            Step::Need(a) => Step::Need(a),
            Step::Done(before) => match function_at(c, device, (k - 1) as u8) {
                Step::Need(a) => Step::Need(a),
                Step::Done(None) => Step::Done(before),
                Step::Done(Some(f)) => Step::Done(before.push(f)),
            },
        }
    }
}

/// Functions that a device may have, by the top bit of its header type.
pub open spec fn function_count(header: u32) -> nat {
    if header / 0x80_0000 % 2 == 1 {
        8
    } else {
        1
    }
}

/// All functions of a device. A device without its first function is not there.
pub open spec fn device_at(c: ConfigView, device: u8) -> Step<u32, Seq<PciDevice>> {
    match register(c, device, 0, 0) {
        Step::Need(a) => Step::Need(a),
        Step::Done(id) => if id % 0x1_0000 == 0xFFFF {
            Step::Done(Seq::empty())
        } else {
            match register(c, device, 0, 0x0C) {
                Step::Need(a) => Step::Need(a),
                Step::Done(header) => functions_of(c, device, function_count(header)),
            }
        },
    }
}

/// All functions of the first `k` devices.
pub open spec fn devices_of(c: ConfigView, k: nat) -> Step<u32, Seq<PciDevice>>
    decreases k,
{
    if k == 0 {
        Step::Done(Seq::empty())
    } else {
        match devices_of(c, (k - 1) as nat) {
            Step::Need(a) => Step::Need(a),
            Step::Done(before) => match device_at(c, (k - 1) as u8) {
                Step::Need(a) => Step::Need(a),
                Step::Done(fs) => Step::Done(before + fs),
            },
        }
    }
}

fn read_config(c: &ConfigCache, device: u8, function: u8, offset: u8) -> (r: Step<u32, u32>)
    ensures
        r == register(c@, device, function, offset),
{
    let address: u32 = config_address(0, device, function, offset);
    match c.lookup(address) {
        Some(v) => Step::Done(v),
        None => Step::Need(address),
    }
}

fn read_function(c: &ConfigCache, device: u8, function: u8) -> (r: Step<u32, Option<PciDevice>>)
    ensures
        r == function_at(c@, device, function),
{
    let id: u32 = match read_config(c, device, function, 0) {
        Step::Need(a) => return Step::Need(a),
        Step::Done(v) => v,
    };
    if id % 0x1_0000 == 0xFFFF {
        return Step::Done(None);
    }
    let class: u32 = match read_config(c, device, function, 8) {
        Step::Need(a) => return Step::Need(a),
        Step::Done(v) => v,
    };
    Step::Done(
        Some(
            PciDevice {
                bus: 0,
                device,
                function,
                vendor_id: (id % 0x1_0000) as u16,
                device_id: (id / 0x1_0000) as u16,
                class_code: (class / 0x100_0000) as u8,
                subclass: (class / 0x1_0000 % 0x100) as u8,
            },
        ),
    )
}

proof fn lemma_functions_need(c: ConfigView, device: u8, k: nat, n: nat)
    requires
        k <= n,
        functions_of(c, device, k) is Need,
    ensures
        functions_of(c, device, n) == functions_of(c, device, k),
    decreases n,
{
    if k < n {
        lemma_functions_need(c, device, k, (n - 1) as nat);
    }
}

proof fn lemma_devices_need(c: ConfigView, k: nat, n: nat)
    requires
        k <= n,
        devices_of(c, k) is Need,
    ensures
        devices_of(c, n) == devices_of(c, k),
    decreases n,
{
    if k < n {
        lemma_devices_need(c, k, (n - 1) as nat);
    }
}

fn push_functions(c: &ConfigCache, device: u8, count: u8, found: &mut Vec<PciDevice>) -> (r: Option<
    u32,
>)
    ensures
        match functions_of(c@, device, count as nat) {
            Step::Need(a) => r == Some(a),
            Step::Done(fs) => r is None && final(found)@ == old(found)@ + fs,
        },
{
    let ghost before = found@;
    let mut function: u8 = 0;
    assert(before + Seq::<PciDevice>::empty() == before);
    while function < count
        invariant
            function <= count,
            functions_of(c@, device, function as nat) is Done,
            found@ == before + functions_of(c@, device, function as nat)->Done_0,
        decreases count - function,
    {
        match read_function(c, device, function) {
            Step::Need(a) => {
                proof {
                    lemma_functions_need(c@, device, (function + 1) as nat, count as nat);
                }
                return Some(a);
            },
            Step::Done(None) => {},
            Step::Done(Some(f)) => {
                found.push(f);
            },
        }
        function = function + 1;
    }
    None
}

/// The devices that were found.
pub struct PciBus {
    pub found: Vec<PciDevice>,
}

/// Which devices are network controllers.
pub open spec fn is_nic(ds: Seq<PciDevice>) -> spec_fn(int) -> bool {
    |i: int| ds[i].class_code == NETWORK_CONTROLLER_CLASS
}

/// The first network controller among devices.
pub open spec fn nic_of(ds: Seq<PciDevice>) -> Option<PciDevice> {
    match first_where(ds.len(), is_nic(ds)) {
        Some(i) => Some(ds[i]),
        None => None,
    }
}

impl PciBus {
    pub fn new() -> (r: PciBus)
        ensures
            r.found@ == Seq::<PciDevice>::empty(),
    {
        PciBus { found: Vec::new() }
    }

    /// Scans the 32 devices of bus 0. Asks for the next register that has to be
    /// read, or is done.
    pub fn init(&mut self, c: &ConfigCache) -> (r: Step<u32, ()>)
        ensures
            match devices_of(c@, 32) {
                Step::Need(a) => r == Step::<u32, ()>::Need(a) && final(self).found@ == old(
                    self).found@,
                Step::Done(fs) => r is Done && final(self).found@ == fs,
            },
    {
        let mut found: Vec<PciDevice> = Vec::new();
        let mut device: u8 = 0;
        while device < 32
            invariant
                device <= 32,
                self.found@ == old(self).found@,
                devices_of(c@, device as nat) == Step::<u32, Seq<PciDevice>>::Done(found@),
            decreases 32 - device,
        {
            let ghost before = found@;
            let id: u32 = match read_config(c, device, 0, 0) {
                Step::Need(a) => {
                    proof {
                        lemma_devices_need(c@, (device + 1) as nat, 32);
                    }
                    return Step::Need(a);
                },
                Step::Done(v) => v,
            };
            if id % 0x1_0000 != 0xFFFF {
                let header: u32 = match read_config(c, device, 0, 0x0C) {
                    Step::Need(a) => {
                        proof {
                            lemma_devices_need(c@, (device + 1) as nat, 32);
                        }
                        return Step::Need(a);
                    },
                    Step::Done(v) => v,
                };
                let count: u8 = if header / 0x80_0000 % 2 == 1 {
                    8
                } else {
                    1
                };
                match push_functions(c, device, count, &mut found) {
                    Some(a) => {
                        proof {
                            lemma_devices_need(c@, (device + 1) as nat, 32);
                        }
                        return Step::Need(a);
                    },
                    None => {},
                }
            } else {
                assert(before + Seq::<PciDevice>::empty() == before);
            }
            device = device + 1;
        }
        self.found = found;
        Step::Done(())
    }

    /// All devices that were found.
    pub fn devices(&self) -> (r: Vec<PciDevice>)
        ensures
            r@ == self.found@,
    {
        let mut out: Vec<PciDevice> = Vec::new();
        let mut i: usize = 0;
        while i < self.found.len()
            invariant
                i <= self.found@.len(),
                out@ == self.found@.take(i as int),
            decreases self.found@.len() - i,
        {
            out.push(self.found[i]);
            i += 1;
        }
        assert(self.found@.take(self.found@.len() as int) == self.found@);
        out
    }

    /// The first network controller.
    pub fn find_nic(&self) -> (r: Option<PciDevice>)
        ensures
            r == nic_of(self.found@),
    {
        let mut i: usize = 0;
        while i < self.found.len()
            invariant
                i <= self.found@.len(),
                forall|j: int| 0 <= j < i ==> !(#[trigger] is_nic(self.found@)(j)),
            decreases self.found@.len() - i,
        {
            if self.found[i].class_code == NETWORK_CONTROLLER_CLASS {
                proof {
                    lemma_first_where_is(
                        self.found@.len(),
                        is_nic(self.found@),
                        Some(i as int),
                    );
                }
                return Some(self.found[i]);
            }
            i += 1;
        }
        proof {
            lemma_first_where_is(self.found@.len(), is_nic(self.found@), None);
        }
        None
    }
}

/// The address to read a device's configuration register at.
pub fn read_config_register(dev: &PciDevice, offset: u8) -> (r: u32)
    ensures
        r == register_address(dev.bus, dev.device, dev.function, offset),
{
    config_address(dev.bus, dev.device, dev.function, offset)
}

/// The address and the value to write to a device's configuration register.
pub fn write_config_register(dev: &PciDevice, offset: u8, value: u32) -> (r: (u32, u32))
    ensures
        r == (register_address(dev.bus, dev.device, dev.function, offset), value),
{
    (config_address(dev.bus, dev.device, dev.function, offset), value)
}

proof fn lemma_functions_found(c: ConfigView, device: u8, k: nat)
    requires
        k <= 8,
    ensures
        functions_of(c, device, k) matches Step::Need(a) ==> !c.contains_key(a),
        functions_of(c, device, k) matches Step::Done(fs) ==> forall|i: int|
            0 <= i < fs.len() ==> {
                let f = #[trigger] fs[i];
                f.bus == 0 && f.device == device && f.function < k && f.vendor_id != 0xFFFF
            },
    decreases k,
{
    if k > 0 {
        lemma_functions_found(c, device, (k - 1) as nat);
    }
}

/// Every device that a scan finds is there: its slot and function exist and its
/// vendor is not the mark of an empty slot. A scan asks only for registers that were
/// not read.
pub proof fn law_scan_finds_real_devices(c: ConfigView, k: nat)
    requires
        k <= 32,
    ensures
        devices_of(c, k) matches Step::Need(a) ==> !c.contains_key(a),
        devices_of(c, k) matches Step::Done(fs) ==> forall|i: int|
            0 <= i < fs.len() ==> {
                let f = #[trigger] fs[i];
                f.bus == 0 && f.device < k && f.function < 8 && f.vendor_id != 0xFFFF
            },
    decreases k,
{
    if k > 0 {
        law_scan_finds_real_devices(c, (k - 1) as nat);
        lemma_functions_found(c, (k - 1) as u8, 1);
        lemma_functions_found(c, (k - 1) as u8, 8);
    }
}

proof fn lemma_functions_complete(c: ConfigView, device: u8, k: nat, function: u8)
    requires
        functions_of(c, device, k) is Done,
        function < k <= 8,
        function_at(c, device, function) matches Step::Done(Some(_)),
    ensures
        functions_of(c, device, k)->Done_0.contains(function_at(c, device, function)->Done_0->0),
    decreases k,
{
    let before = functions_of(c, device, (k - 1) as nat)->Done_0;
    let all = functions_of(c, device, k)->Done_0;
    let f = function_at(c, device, function)->Done_0->0;
    if function == k - 1 {
        assert(all[all.len() - 1] == f);
    } else {
        lemma_functions_complete(c, device, (k - 1) as nat, function);
        let j = choose|j: int| 0 <= j < before.len() && before[j] == f;
        assert(all[j] == f);
    }
}

/// A complete scan misses no function of a device that is there.
pub proof fn law_scan_misses_nothing(c: ConfigView, k: nat, device: u8, function: u8)
    requires
        devices_of(c, k) is Done,
        device < k <= 32,
        register(c, device, 0, 0) matches Step::Done(id) && id % 0x1_0000 != 0xFFFF,
        register(c, device, 0, 0x0C) matches Step::Done(header) && function < function_count(
            header,
        ),
        function_at(c, device, function) matches Step::Done(Some(_)),
    ensures
        devices_of(c, k)->Done_0.contains(function_at(c, device, function)->Done_0->0),
    decreases k,
{
    let before = devices_of(c, (k - 1) as nat)->Done_0;
    let last = device_at(c, (k - 1) as u8)->Done_0;
    let all = devices_of(c, k)->Done_0;
    let f = function_at(c, device, function)->Done_0->0;
    if device == k - 1 {
        let header = register(c, device, 0, 0x0C)->Done_0;
        lemma_functions_complete(c, device, function_count(header), function);
        let j = choose|j: int| 0 <= j < last.len() && last[j] == f;
        assert(all[before.len() + j] == f);
    } else {
        law_scan_misses_nothing(c, (k - 1) as nat, device, function);
        let j = choose|j: int| 0 <= j < before.len() && before[j] == f;
        assert(all[j] == f);
    }
}

/// A register's address is made of the bus, the slot, the function and the offset of
/// the word, each in its place, and the enabling bit.
pub proof fn law_register_addresses_are_laid_out(bus: u8, device: u8, function: u8, offset: u8)
    requires
        device < 32,
        function < 8,
    ensures
        register_address(bus, device, function, offset) == 0x8000_0000 + 0x1_0000 * bus + 0x800
            * device + 0x100 * function + 4 * (offset / 4),
{
    let a = register_address(bus, device, function, offset);
    assert(a == 0x8000_0000 + 0x1_0000 * bus + 0x800 * device + 0x100 * function + 4 * (offset / 4))
        by (bit_vector)
        requires
            device < 32,
            function < 8,
            a == 0x8000_0000u32 | (bus as u32) << 16 | (device as u32) << 11 | (function as u32)
                << 8 | (offset as u32 & 0xFC),
    ;
}

/// The word at an offset of a function's registers on the first bus.
pub open spec fn config_word(c: ConfigView, device: int, function: int, offset: int) -> u32 {
    c[(0x8000_0000 + 0x800 * device + 0x100 * function + offset) as u32]
}

/// Whether there is such a function: its slot is not empty, the function is the first
/// or the slot's header says that there are more, and a vendor answers for it.
pub open spec fn is_there(c: ConfigView, device: int, function: int) -> bool {
    &&& config_word(c, device, 0, 0) % 0x1_0000 != 0xFFFF
    &&& function > 0 ==> config_word(c, device, 0, 12) / 0x80_0000 % 2 == 1
    &&& config_word(c, device, function, 0) % 0x1_0000 != 0xFFFF
}

/// What a function's registers say.
pub open spec fn said_by(c: ConfigView, f: PciDevice) -> bool {
    let id = config_word(c, f.device as int, f.function as int, 0);
    let class = config_word(c, f.device as int, f.function as int, 8);
    &&& f.bus == 0
    &&& id == f.vendor_id + 0x1_0000 * f.device_id
    &&& class / 0x1_0000 == f.subclass + 0x100 * f.class_code
}

/// Whether a list has the functions below `functions` of the slots below `devices`, and
/// those below `functions` of slot `devices`, in their order.
spec fn lists_functions(c: ConfigView, fs: Seq<PciDevice>, devices: int, functions: int) -> bool {
    &&& forall|i: int|
        #![trigger fs[i]]
        0 <= i < fs.len() ==> said_by(c, fs[i]) && fs[i].function < 8 && is_there(
            c,
            fs[i].device as int,
            fs[i].function as int,
        ) && (fs[i].device < devices || fs[i].device == devices && fs[i].function < functions)
    &&& forall|i: int, j: int|
        #![trigger fs[i], fs[j]]
        0 <= i < j < fs.len() ==> fs[i].device < fs[j].device || fs[i].device == fs[j].device
            && fs[i].function < fs[j].function
    &&& forall|d: int, f: int| #[trigger]
        is_there(c, d, f) && 0 <= d && 0 <= f < 8 && (d < devices || d == devices && f < functions)
            ==> is_listed(fs, d, f)
}

/// Whether a list has a function.
pub open spec fn is_listed(fs: Seq<PciDevice>, device: int, function: int) -> bool {
    exists|i: int|
        0 <= i < fs.len() && (#[trigger] fs[i]).device == device && fs[i].function == function
}

proof fn lemma_function_said(c: ConfigView, device: u8, function: u8)
    requires
        device < 32,
        function < 8,
        function_at(c, device, function) is Done,
    ensures
        match function_at(c, device, function)->Done_0 {
            Some(f) => said_by(c, f) && f.device == device && f.function == function && config_word(
                c,
                device as int,
                function as int,
                0,
            ) % 0x1_0000 != 0xFFFF,
            None => config_word(c, device as int, function as int, 0) % 0x1_0000 == 0xFFFF,
        },
{
    law_register_addresses_are_laid_out(0, device, function, 0);
    law_register_addresses_are_laid_out(0, device, function, 8);
    assert(0u8 / 4 == 0 && 8u8 / 4 == 2);
}

proof fn lemma_functions_listed(
    c: ConfigView,
    before: Seq<PciDevice>,
    device: u8,
    k: nat,
    count: nat,
)
    requires
        device < 32,
        k <= count <= 8,
        functions_of(c, device, k) is Done,
        lists_functions(c, before, device as int, 0),
        config_word(c, device as int, 0, 0) % 0x1_0000 != 0xFFFF,
        count > 1 ==> config_word(c, device as int, 0, 12) / 0x80_0000 % 2 == 1,
    ensures
        lists_functions(
            c,
            before + functions_of(c, device, k)->Done_0,
            device as int,
            k as int,
        ),
    decreases k,
{
    if k == 0 {
        assert(before + Seq::<PciDevice>::empty() == before);
    } else {
        let f = (k - 1) as u8;
        lemma_functions_listed(c, before, device, (k - 1) as nat, count);
        lemma_function_said(c, device, f);
        let old_fs = before + functions_of(c, device, (k - 1) as nat)->Done_0;
        let fs = before + functions_of(c, device, k)->Done_0;
        if let Some(g) = function_at(c, device, f)->Done_0 {
            assert(fs == old_fs.push(g));
            assert forall|d: int, n: int| #[trigger]
                is_there(c, d, n) && 0 <= d && 0 <= n < 8 && (d < device || d == device && n
                    < k) implies is_listed(fs, d, n) by {
                if d == device && n == f {
                    assert(fs[old_fs.len() as int] == g);
                } else {
                    assert(is_listed(old_fs, d, n));
                    let i = choose|i: int|
                        0 <= i < old_fs.len() && (#[trigger] old_fs[i]).device == d
                            && old_fs[i].function == n;
                    assert(fs[i] == old_fs[i]);
                }
            }
        } else {
            assert(fs == old_fs);
            assert(!is_there(c, device as int, f as int));
        }
    }
}

proof fn lemma_scan_lists(c: ConfigView, k: nat)
    requires
        k <= 32,
        devices_of(c, k) is Done,
    ensures
        lists_functions(c, devices_of(c, k)->Done_0, k as int, 0),
    decreases k,
{
    if k > 0 {
        let device = (k - 1) as u8;
        lemma_scan_lists(c, (k - 1) as nat);
        let before = devices_of(c, (k - 1) as nat)->Done_0;
        let fs = devices_of(c, k)->Done_0;
        law_register_addresses_are_laid_out(0, device, 0, 0);
        law_register_addresses_are_laid_out(0, device, 0, 12);
        assert(0u8 / 4 == 0 && 12u8 / 4 == 3);
        if config_word(c, device as int, 0, 0) % 0x1_0000 == 0xFFFF {
            assert(before + Seq::<PciDevice>::empty() == before);
            assert forall|d: int, f: int| #[trigger]
                is_there(c, d, f) && 0 <= d && 0 <= f < 8 && (d < k || d == k && f
                    < 0) implies is_listed(fs, d, f) by {
                assert(d != device);
            }
        } else {
            let count = function_count(config_word(c, device as int, 0, 12));
            lemma_functions_listed(c, before, device, count, count);
            assert forall|d: int, f: int| #[trigger]
                is_there(c, d, f) && 0 <= d && 0 <= f < 8 && (d < k || d == k && f
                    < 0) implies is_listed(fs, d, f) by {
                if d == device {
                    assert(f < count);
                }
            }
        }
    }
}

/// A complete scan lists what the registers say is there, each function once, by slot
/// and within a slot by function, as its registers describe it.
pub proof fn law_scan_lists_what_is_there(c: ConfigView, fs: Seq<PciDevice>)
    requires
        devices_of(c, 32) == Step::<u32, Seq<PciDevice>>::Done(fs),
    ensures
        forall|d: int, f: int|
            0 <= d < 32 && 0 <= f < 8 ==> (#[trigger] is_listed(fs, d, f) <==> is_there(c, d, f)),
        forall|i: int| 0 <= i < fs.len() ==> said_by(c, #[trigger] fs[i]),
        forall|i: int, j: int|
            #![trigger fs[i], fs[j]]
            0 <= i < j < fs.len() ==> fs[i].device < fs[j].device || fs[i].device == fs[j].device
                && fs[i].function < fs[j].function,
{
    lemma_scan_lists(c, 32);
}

/// The network card is the first device of class 2, if there is one.
pub proof fn law_network_card_is_the_first_of_its_class(ds: Seq<PciDevice>, i: int)
    requires
        0 <= i <= ds.len(),
        forall|j: int| 0 <= j < i ==> (#[trigger] ds[j]).class_code != 2,
        i < ds.len() ==> ds[i].class_code == 2,
    ensures
        nic_of(ds) == (if i < ds.len() {
            Some(ds[i])
        } else {
            None
        }),
{
    let r = if i < ds.len() {
        Some(i)
    } else {
        None
    };
    lemma_first_where_is(ds.len(), is_nic(ds), r);
}

} // verus!
