use spikeling_os::allocator::init_heap;
use spikeling_os::ata::{
    is_busy, load_weights, read_sector, save_weights, sector_from_words, select_and_setup, wait_drq,
    words_from_sector, write_sector, DriveAction, SynapseWeight,
};
use spikeling_os::interrupts::{init_idt, Handler, InterruptIndex};
use spikeling_os::memory::{BootInfoFrameAllocator, MemoryRegion, PhysicalMemory};
use spikeling_os::neurons;
use spikeling_os::neurons::{
    on_key_stimulus, parameters, report, run_training_trial, save_weights_to_disk, Neuron, Reading, StartWeight,
    KEY_STIM_AMOUNT_BITS,
};
use spikeling_os::pci::{
    config_address, read_config_register, write_config_register, ConfigCache, PciBus,
};
use spikeling_os::speaker::{beep, gate_on, is_enabled, stop};
use spikeling_os::step::Step;

#[test]
fn tones_are_timer_divisors() {
    let t = beep(440);
    assert_eq!((t.command, t.low as u32 + 256 * t.high as u32), (0xB6, 1_193_182 / 440));
    let t = beep(0);
    assert_eq!(t.low as u32 + 256 * t.high as u32, 1_193_182 / 20);
    let t = beep(u32::MAX);
    assert_eq!((t.low, t.high), (0, 0));
}

#[test]
fn the_speaker_is_turned_on_and_off() {
    assert_eq!(gate_on(0xA0), 0xA3);
    assert_eq!(stop(0xA3), 0xA0);
    assert!(is_enabled(3) && is_enabled(0xFF));
    assert!(!is_enabled(1) && !is_enabled(2) && !is_enabled(0xFC));
}

#[test]
fn interrupts_have_their_vectors() {
    assert_eq!(InterruptIndex::Timer.as_u8(), 32);
    assert_eq!(InterruptIndex::Keyboard.as_u8(), 33);
    assert_eq!(InterruptIndex::Mouse.as_u8(), 44);
    let gates = init_idt();
    assert_eq!(gates.len(), 7);
    let double_fault = gates.iter().find(|g| g.vector == 8).unwrap();
    assert!(matches!(double_fault.handler, Handler::DoubleFault));
    assert_eq!(double_fault.stack_index, Some(0));
    let from_ring3: Vec<u8> = gates.iter().filter(|g| g.from_ring3).map(|g| g.vector).collect();
    assert_eq!(from_ring3, vec![0x80]);
}

#[test]
fn the_heap_is_mapped_page_by_page() {
    let pages = init_heap();
    assert_eq!(pages.len(), 25);
    assert_eq!(pages[0], 0x4444_4444_0000);
    assert_eq!(pages[24], 0x4444_4444_0000 + 24 * 4096);
}

fn region(start: u64, end: u64, usable: bool) -> MemoryRegion {
    MemoryRegion { start, end, usable }
}

#[test]
fn frames_come_from_usable_regions_in_order() {
    let mut a = BootInfoFrameAllocator::init(vec![
        region(0x1000, 0x3000, true),
        region(0x3000, 0x8000, false),
        region(0x8000, 0x8001, true),
        region(0x9000, 0x9000, true),
        region(0xA800, 0xB800, true),
    ]);
    let frames: Vec<Option<u64>> = (0..6).map(|_| a.allocate_frame()).collect();
    assert_eq!(
        frames,
        vec![Some(0x1000), Some(0x2000), Some(0x8000), Some(0xA000), None, None]
    );
}

#[test]
fn memory_is_shared_once_installed() {
    let mut m = PhysicalMemory::new();
    assert_eq!(m.with_frame_allocator(), None);
    m.set_phys_mem_offset(0x1_0000_0000);
    assert_eq!(m.phys_mem_offset(), 0x1_0000_0000);
    m.install_frame_allocator(BootInfoFrameAllocator::init(vec![region(0x5000, 0x6000, true)]));
    assert_eq!(m.with_frame_allocator(), Some(Some(0x5000)));
    assert_eq!(m.with_frame_allocator(), Some(None));
    assert_eq!(m.phys_mem_offset(), 0x1_0000_0000);
}

#[test]
fn configuration_addresses() {
    assert_eq!(config_address(0, 0, 0, 0), 0x8000_0000);
    assert_eq!(config_address(1, 2, 3, 0x0E), 0x8001_130C);
    assert_eq!(config_address(0xFF, 31, 7, 0xFF), 0x80FF_FFFC);
}

/// Scans a bus on which `f` answers every register read.
fn scan(f: impl Fn(u32) -> u32) -> PciBus {
    let mut bus = PciBus::new();
    let mut c = ConfigCache::new();
    loop {
        match bus.init(&c) {
            Step::Need(a) => c.learn(a, f(a)),
            Step::Done(()) => return bus,
        }
    }
}

#[test]
fn a_bus_is_scanned() {
    let bus = scan(|a| match a {
        // device 0, a bridge
        0x8000_0000 => 0x1237_8086,
        0x8000_0008 => 0x0600_0002,
        0x8000_000C => 0,
        // device 1 with functions 0 and 2
        0x8000_0800 => 0x7000_8086,
        0x8000_0808 => 0x0601_0000,
        0x8000_080C => 0x0080_0000,
        0x8000_0A00 => 0x7113_8086,
        0x8000_0A08 => 0x0680_0003,
        // device 3, a network card
        0x8000_1800 => 0x100E_8086,
        0x8000_1808 => 0x0200_0003,
        0x8000_180C => 0,
        _ => 0xFFFF_FFFF,
    });
    let found: Vec<(u8, u8, u16, u16, u8, u8)> = bus
        .devices()
        .iter()
        .map(|d| (d.device, d.function, d.vendor_id, d.device_id, d.class_code, d.subclass))
        .collect();
    assert_eq!(
        found,
        vec![
            (0, 0, 0x8086, 0x1237, 6, 0),
            (1, 0, 0x8086, 0x7000, 6, 1),
            (1, 2, 0x8086, 0x7113, 6, 0x80),
            (3, 0, 0x8086, 0x100E, 2, 0),
        ]
    );
    let nic = bus.find_nic().unwrap();
    assert_eq!(nic.device, 3);
    assert_eq!(read_config_register(&nic, 0x10), 0x8000_1810);
    assert_eq!(write_config_register(&nic, 4, 7), (0x8000_1804, 7));
}

#[test]
fn an_empty_bus_has_no_network_card() {
    let bus = scan(|_| 0xFFFF_FFFF);
    assert!(bus.devices().is_empty());
    assert!(bus.find_nic().is_none());
}

#[test]
fn sectors_are_selected() {
    let regs: Vec<(u16, u8)> = select_and_setup(0x0A_BB_CC_DD).iter().map(|w| (w.port, w.value)).collect();
    assert_eq!(
        regs,
        vec![(0x176, 0xEA), (0x172, 1), (0x173, 0xDD), (0x174, 0xCC), (0x175, 0xBB)]
    );
}

fn actions(v: Vec<DriveAction>) -> Vec<String> {
    v.iter()
        .map(|a| match a {
            DriveAction::WaitIdle => "idle".to_string(),
            DriveAction::Out(w) => format!("{:x}={:x}", w.port, w.value),
            DriveAction::WaitData => "data".to_string(),
            DriveAction::ReadWords => "read".to_string(),
            DriveAction::WriteWords => "write".to_string(),
        })
        .collect()
}

#[test]
fn transfers_are_sequences_of_actions() {
    assert_eq!(
        actions(read_sector(1)),
        vec!["idle", "176=e0", "172=1", "173=1", "174=0", "175=0", "177=20", "idle", "data", "read"]
    );
    assert_eq!(
        actions(write_sector(2)),
        vec![
            "idle", "176=e0", "172=1", "173=2", "174=0", "175=0", "177=30", "idle", "data", "write",
            "177=e7", "idle"
        ]
    );
}

#[test]
fn drive_status() {
    assert!(is_busy(0x80) && !is_busy(0x7F));
    assert!(matches!(wait_drq(0x09), Some(Err("ATA error bit set"))));
    assert!(matches!(wait_drq(0x08), Some(Ok(()))));
    assert!(wait_drq(0x50).is_none());
}

#[test]
fn words_carry_bytes() {
    let mut b = [0u8; 512];
    for i in 0..512 {
        b[i] = (i % 253) as u8;
    }
    let w = words_from_sector(&b);
    assert_eq!(w[1], 2 + 256 * 3);
    assert_eq!(sector_from_words(&w), b);
}

fn syn(from: &str, to: &str, w: [u8; 2]) -> SynapseWeight {
    SynapseWeight { from: from.to_string(), to: to.to_string(), weight: w }
}

#[test]
fn weights_read_back() {
    let w = save_weights(&vec![syn("LeftKey", "Motor", [1, 2]), syn("a", "b", [3, 4])])
        .unwrap_or_else(|e| panic!("{}", e));
    assert_eq!(w.lba, 0);
    assert_eq!(&w.data[..8], &[0x32, 0x4B, 0x50, 0x53, 1, 2, 10, 0]);
    assert_eq!(&w.data[8..15], b"LeftKey");
    let es = load_weights(Some(w.data)).unwrap();
    let got: Vec<(&str, &str, [u8; 2])> =
        es.iter().map(|e| (e.from.as_str(), e.to.as_str(), e.weight)).collect();
    assert_eq!(got, vec![("LeftKey", "Motor", [1, 2]), ("a", "b", [3, 4])]);
}

#[test]
fn only_as_many_weights_as_fit_are_stored() {
    let many: Vec<SynapseWeight> = (0..20).map(|i| syn(&format!("n{}", i), "m", [i, 0])).collect();
    let w = save_weights(&many).unwrap_or_else(|e| panic!("{}", e));
    assert_eq!(load_weights(Some(w.data)).unwrap().len(), 14);
}

#[test]
fn weights_that_cannot_be_used() {
    assert_eq!(save_weights(&vec![]).err(), Some("no synapses to save"));
    assert!(load_weights(None).is_none());
    assert!(load_weights(Some([0u8; 512])).is_none());
    let mut bad = save_weights(&vec![syn("x", "y", [1, 1])]).unwrap_or_else(|e| panic!("{}", e)).data;
    bad[8] = 0xFF;
    assert_eq!(load_weights(Some(bad)).unwrap()[0].from, "");
}

#[test]
fn keys_stimulate_their_neurons() {
    assert!(matches!(on_key_stimulus('a'), Some((Neuron::LeftKey, KEY_STIM_AMOUNT_BITS))));
    assert!(matches!(on_key_stimulus('d'), Some((Neuron::RightKey, KEY_STIM_AMOUNT_BITS))));
    assert!(on_key_stimulus('s').is_none());
    assert_eq!(f32::from_bits(KEY_STIM_AMOUNT_BITS), 120.0);
}

#[test]
fn saved_weights_are_the_ones_to_start_from() {
    let w = save_weights_to_disk(Some([1, 2]), Some([3, 4])).unwrap_or_else(|e| panic!("{}", e));
    let start = neurons::init(&load_weights(Some(w.data)));
    assert!(start.loaded);
    assert!(matches!(start.left, StartWeight::Stored([1, 2])));
    assert!(matches!(start.right, StartWeight::Stored([3, 4])));
    let start = neurons::init(&None);
    assert!(!start.loaded);
    assert!(matches!(start.left, StartWeight::Initial));
    assert!(matches!(start.right, StartWeight::Initial));
    assert_eq!(save_weights_to_disk(None, Some([1, 1])).err(), Some("network not initialized"));
}

#[test]
fn the_network_starts_with_fixed_parameters() {
    let numbers = |p: (u32, u32, u32)| (f32::from_bits(p.0), f32::from_bits(p.1), p.2);
    assert_eq!(numbers(parameters(Neuron::LeftKey)), (100.0, 5.0, 7));
    assert_eq!(numbers(parameters(Neuron::RightKey)), (100.0, 5.0, 7));
    assert_eq!(numbers(parameters(Neuron::Motor)), (80.0, 3.0, 7));
    let start = neurons::init(&None);
    assert_eq!(numbers(start.left_key), (100.0, 5.0, 7));
    assert_eq!(numbers(start.right_key), (100.0, 5.0, 7));
    assert_eq!(numbers(start.motor), (80.0, 3.0, 7));
    assert_eq!(start.left.initial_bits().map(f32::from_bits), Some(0.5));
    assert_eq!(start.right.initial_bits().map(f32::from_bits), Some(0.5));
    assert_eq!(StartWeight::Stored([1, 2]).initial_bits(), None);
}

#[test]
fn a_trial_trains_the_left_key() {
    let t = run_training_trial(true, 2);
    assert!(t.ltp && t.gap_ticks == 2);
    assert!(matches!((t.from, t.to), (Neuron::LeftKey, Neuron::Motor)));
}

#[test]
fn the_network_report() {
    let r = report(
        &Some(Reading { voltage: format!("{:5.1}", 12.5f32), fires: 3 }),
        &None,
        &Some(Reading { voltage: format!("{:5.1}", -1.0f32), fires: 0 }),
        &Some(format!("{:.4}", 0.5f32)),
        &None,
    );
    let (lv, lf, rv, rf, mv, mf, lw, rw) = (12.5f32, 3, 0.0f32, 0, -1.0f32, 0, 0.5f32, 0.0f32);
    let expected = format!(
        "LeftKey  V={lv:5.1} fires={lf}\nRightKey V={rv:5.1} fires={rf}\nMotor    V={mv:5.1} fires={mf}  (threshold=80; MILESTONE 21: firing now propagates to Motor on the NEXT tick, via network.rs's shared one-tick synaptic delay, not the same tick)\nweights: LeftKey->Motor={lw:.4}  RightKey->Motor={rw:.4}\n"
    );
    assert_eq!(r, expected);
}
