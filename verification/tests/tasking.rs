use spikeling_os::scheduler::{Bond, TopologicalScheduler};
use spikeling_os::tasks::{spin_count, Task, TaskTable, TickAction, STACK_SIZE};

const ONE: u32 = 0x3F80_0000;
const HALF: u32 = 0x3F00_0000;
const TWO: u32 = 0x4000_0000;
const NAN: u32 = 0x7FC0_0000;

fn bits(v: &[f32]) -> Vec<u32> {
    v.iter().map(|x| x.to_bits()).collect()
}

#[test]
fn the_highest_ready_slot_fires() {
    let mut s = TopologicalScheduler::new(4);
    assert_eq!(s.step(&bits(&[0.5, 1.0, 2.5, 1.5])), Some(2));
    assert_eq!(s.slots[2].potential, 0);
    assert_eq!(s.slots[2].fire_count, 1);
    assert_eq!(s.slots[3].potential, 1.5f32.to_bits());
    assert_eq!(s.slots[0].fire_count, 0);
}

#[test]
fn of_equal_slots_the_last_fires() {
    let mut s = TopologicalScheduler::new(3);
    assert_eq!(s.step(&vec![ONE, TWO, TWO]), Some(2));
}

#[test]
fn below_the_threshold_nothing_fires() {
    let mut s = TopologicalScheduler::new(3);
    assert_eq!(s.step(&vec![HALF, 0, 0x8000_0000 | TWO]), None);
    assert_eq!(s.slots[0].potential, HALF);
    assert_eq!(s.step(&vec![ONE - 1, NAN, NAN]), None);
    assert_eq!(s.step(&vec![f32::INFINITY.to_bits(), TWO, NAN]), Some(0));
}

#[test]
fn dead_slots_do_not_fire_until_revived() {
    let mut s = TopologicalScheduler::new(3);
    s.kill(1);
    assert_eq!(s.step(&vec![ONE, TWO, HALF]), Some(0));
    assert_eq!(s.slots[1].potential, 0);
    assert_eq!(s.step(&vec![HALF, TWO, HALF]), None);
    s.revive(1);
    assert_eq!(s.step(&vec![ONE, TWO, HALF]), Some(1));
    s.kill(7);
    s.revive(7);
    assert_eq!(s.slots.len(), 3);
}

#[test]
fn bonds_alternate_and_couple_live_neighbours() {
    let mut s = TopologicalScheduler::new(3);
    assert!(matches!(s.bonds[..], [Bond::V, Bond::W]));
    assert_eq!(s.add_slot(), 3);
    assert!(matches!(s.bonds[..], [Bond::V, Bond::W, Bond::V]));
    s.slots[0].potential = HALF;
    s.slots[2].potential = TWO;
    let c = s.coupling(1);
    assert!(matches!(c.left, Some((Bond::V, HALF))));
    assert!(matches!(c.right, Some((Bond::W, TWO))));
    s.kill(2);
    assert!(s.coupling(1).right.is_none());
    assert!(s.coupling(0).left.is_none());
    assert!(s.coupling(3).right.is_none());
    assert!(TopologicalScheduler::new(0).bonds.is_empty());
}

fn task(entry: u64, base: u64) -> Task {
    Task::new(entry, vec![0xAA; STACK_SIZE], base)
}

#[test]
fn a_new_task_returns_into_its_entry() {
    let t = task(0x1122_3344_5566_7788, 0x10_0000);
    assert_eq!(t.rsp, 0x10_0000 + 0x4000 - 56);
    assert_eq!(&t.stack[0x4000 - 8..], &0x1122_3344_5566_7788u64.to_le_bytes());
    assert!(t.stack[0x4000 - 56..0x4000 - 8].iter().all(|b| *b == 0));
    assert_eq!(t.stack[0x4000 - 57], 0xAA);
}

#[test]
fn later_odd_tasks_spin_longer() {
    assert_eq!((spin_count(0), spin_count(1), spin_count(2)), (2000, 2000, 2000));
    assert_eq!((spin_count(3), spin_count(4), spin_count(5)), (6000, 2000, 6000));
}

fn demo() -> TaskTable {
    let mut t = TaskTable::new();
    let a = t.run_preemption_demo(task(1, 0x10_0000), task(2, 0x20_0000), task(3, 0x30_0000));
    assert!(matches!(a, TickAction::Switch { save: None, load } if load == 0x10_0000 + 0x4000 - 56));
    t
}

#[test]
fn ticks_switch_to_the_winner() {
    let mut t = demo();
    assert_eq!(t.current, Some(0));
    let a = t.timer_tick_switch(&vec![HALF, TWO, HALF]);
    assert!(matches!(a, TickAction::Switch { save: Some(0), load } if load == 0x20_0000 + 0x4000 - 56));
    assert_eq!(t.current, Some(1));
    assert!(matches!(t.timer_tick_switch(&vec![HALF, TWO, HALF]), TickAction::Stay));
    assert!(matches!(t.timer_tick_switch(&vec![HALF, HALF, HALF]), TickAction::Stay));
    assert_eq!(t.total_switches, 3);
    t.ring3_excursion_active = true;
    assert!(matches!(t.timer_tick_switch(&vec![TWO, HALF, HALF]), TickAction::Stay));
    assert_eq!(t.total_switches, 3);
}

#[test]
fn the_demo_ends_after_sixty_ticks() {
    let mut t = demo();
    t.kernel_rsp = 0x7777;
    for _ in 0..59 {
        assert!(matches!(t.timer_tick_switch(&vec![HALF, HALF, HALF]), TickAction::Stay));
    }
    let a = t.timer_tick_switch(&vec![TWO, HALF, HALF]);
    assert!(matches!(a, TickAction::Switch { save: Some(0), load: 0x7777 }));
    assert!(!t.demo_active);
    assert_eq!(t.current, None);
    // nothing happens until background scheduling is enabled
    assert!(matches!(t.timer_tick_switch(&vec![TWO, HALF, HALF]), TickAction::Stay));
    t.enable_background_scheduling();
    assert!(matches!(
        t.timer_tick_switch(&vec![TWO, HALF, HALF]),
        TickAction::Switch { save: None, .. }
    ));
}

#[test]
fn tasks_are_spawned_killed_and_reaped() {
    let entries = [100u64, 101, 102, 103, 104, 105, 106, 107];
    let mut t = TaskTable::new();
    assert_eq!(t.spawn(&entries, vec![0; STACK_SIZE], 0x40_0000), None);
    let mut t = demo();
    for id in 3..8 {
        assert_eq!(t.spawn(&entries, vec![0; STACK_SIZE], 0x40_0000), Some(id));
    }
    assert_eq!(t.spawn(&entries, vec![0; STACK_SIZE], 0x40_0000), None);
    t.count_up(4);
    t.count_up(4);
    assert!(t.kill(2));
    assert!(!t.kill(2));
    assert!(!t.kill(99));
    assert!(t.tasks[2].is_none());
    let live: Vec<(usize, u64)> = t.live_tasks().iter().map(|r| (r.id, r.counter)).collect();
    assert_eq!(live, vec![(0, 0), (1, 0), (3, 0), (4, 2), (5, 0), (6, 0), (7, 0)]);
    // the running task keeps its stack until it was switched away from
    assert!(t.kill(0));
    assert!(t.tasks[0].is_some());
    assert_eq!(t.zombies, vec![0]);
    t.reap_zombies();
    assert!(t.tasks[0].is_some());
    let a = t.timer_tick_switch(&vec![TWO; 8]);
    assert!(matches!(a, TickAction::Switch { save: Some(0), .. }));
    assert_eq!(t.current, Some(7));
    t.reap_zombies();
    assert!(t.tasks[0].is_none());
    assert!(t.zombies.is_empty());
    assert_eq!(t.spawn(&entries, vec![0; STACK_SIZE], 0x50_0000), Some(0));
    let stack = &t.tasks[0].as_ref().unwrap().stack;
    assert_eq!(&stack[0x4000 - 8..], &100u64.to_le_bytes());
    assert_eq!(t.spawn(&entries, vec![0; STACK_SIZE], 0x60_0000), Some(2));
}
