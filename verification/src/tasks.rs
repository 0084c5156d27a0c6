//! Preemptive tasks: each has a stack of its own, and a timer tick may switch from
//! one to another.

use crate::bytes::{law_least_significant_byte_first, le64};
use crate::scheduler::{
    bond_pattern, charged, fired, fresh_slot, grown, has_highest, is_ready, is_winner, killed,
    law_highest_potential_fires, law_winner_is_unique, revived, SchedView, TaskSlot, TopologicalScheduler,
};
use crate::search::{lemma_first_where, lemma_first_where_is};
use vstd::prelude::*;

verus! {

/// Bytes of a task's stack.
pub const STACK_SIZE: usize = 0x4000;

/// Tasks that the demo starts with.
pub const N_TASKS: usize = 3;

/// Tasks that there can be at a time.
pub const MAX_TASKS: usize = 8;

/// Ticks after which the demo ends.
pub const MAX_TICKS: u64 = 60;

pub type TaskId = usize;

/// A task: its stack, and its saved stack pointer.
pub struct Task {
    pub rsp: u64,
    pub stack: Vec<u8>,
}

/// A task as a mathematical value.
#[verifier::ext_equal]
pub struct TaskView {
    pub rsp: u64,
    pub stack: Seq<u8>,
}

/// Byte `k` of a little-endian 64-bit integer.
pub open spec fn le64_byte(v: u64, k: int) -> u8 {
    if k == 0 {
        (v % 0x100) as u8
    } else if k == 1 {
        (v / 0x100 % 0x100) as u8
    } else if k == 2 {
        (v / 0x1_0000 % 0x100) as u8
    } else if k == 3 {
        (v / 0x100_0000 % 0x100) as u8
    } else if k == 4 {
        (v / 0x1_0000_0000 % 0x100) as u8
    } else if k == 5 {
        (v / 0x100_0000_0000 % 0x100) as u8
    } else if k == 6 {
        (v / 0x1_0000_0000_0000 % 0x100) as u8
    } else {
        (v / 0x100_0000_0000_0000) as u8
    }
}

/// A stack as a task leaves it that was switched away from just before its first
/// instruction: six saved registers, all zero, and the address to return to.
pub open spec fn primed_stack(entry: u64, stack: Seq<u8>) -> Seq<u8> {
    Seq::new(
        stack.len(),
        |i: int|
            if i >= stack.len() - 8 {
                le64_byte(entry, i - (stack.len() - 8))
            } else if i >= stack.len() - 56 {
                0u8
            } else {
                stack[i]
            },
    )
}

/// A new task on a stack at address `base`.
pub open spec fn new_task(entry: u64, stack: Seq<u8>, base: u64) -> TaskView {
    TaskView { rsp: (base + STACK_SIZE - 56) as u64, stack: primed_stack(entry, stack) }
}

impl Task {
    pub open spec fn view(self) -> TaskView {
        TaskView { rsp: self.rsp, stack: self.stack@ }
    }

    /// Prepares a stack so that the first switch to the task enters it at `entry`.
    /// `base` is the address of the stack's first byte.
    pub fn new(entry: u64, stack: Vec<u8>, base: u64) -> (r: Task)
        requires
            stack@.len() == STACK_SIZE,
            base + STACK_SIZE <= u64::MAX,
        ensures
            r@ == new_task(entry, stack@, base),
    {
        let mut primed = stack;
        let ghost before = primed@;
        let mut i: usize = STACK_SIZE - 56;
        while i < STACK_SIZE - 8
            invariant
                STACK_SIZE - 56 <= i <= STACK_SIZE - 8,
                primed@.len() == STACK_SIZE == before.len(),
                forall|k: int|
                    0 <= k < STACK_SIZE ==> primed@[k] == (if STACK_SIZE - 56 <= k < i {
                        0u8
                    } else {
                        before[k]
                    }),
            decreases STACK_SIZE - i,
        {
            primed.set(i, 0);
            i += 1;
        }
        primed.set(STACK_SIZE - 8, (entry % 0x100) as u8);
        primed.set(STACK_SIZE - 7, (entry / 0x100 % 0x100) as u8);
        primed.set(STACK_SIZE - 6, (entry / 0x1_0000 % 0x100) as u8);
        primed.set(STACK_SIZE - 5, (entry / 0x100_0000 % 0x100) as u8);
        primed.set(STACK_SIZE - 4, (entry / 0x1_0000_0000 % 0x100) as u8);
        primed.set(STACK_SIZE - 3, (entry / 0x100_0000_0000 % 0x100) as u8);
        primed.set(STACK_SIZE - 2, (entry / 0x1_0000_0000_0000 % 0x100) as u8);
        primed.set(STACK_SIZE - 1, (entry / 0x100_0000_0000_0000) as u8);
        assert(primed@ == primed_stack(entry, before));
        Task { rsp: base + STACK_SIZE as u64 - 56, stack: primed }
    }
}

/// How long a worker spins between two counts. Tasks of the demo spin alike; of
/// those started later every other one is slower.
pub fn spin_count(id: usize) -> (r: u32)
    ensures
        r == (if id < N_TASKS || id % 2 == 0 {
            2000u32
        } else {
            6000u32
        }),
        r == 6000 <==> id >= 3 && id % 2 == 1,
        r == 2000 || r == 6000,
{
    if id < N_TASKS || id % 2 == 0 {
        2000
    } else {
        6000
    }
}

/// A live task and how far it has counted.
pub struct TaskReport {
    pub id: TaskId,
    pub counter: u64,
}

/// What a tick asks for.
pub enum TickAction {
    /// Go on with whatever was interrupted.
    Stay,
    /// Save the stack pointer of a context and load another one.
    Switch { save: Option<TaskId>, load: u64 },
}

/// All tasks and the state of their scheduling.
pub struct TaskTable {
    pub tasks: Vec<Option<Task>>,
    /// Tasks that were killed while they were running, and whose stacks are still
    /// in use.
    pub zombies: Vec<TaskId>,
    /// The task that runs, or `None` for the kernel itself.
    pub current: Option<TaskId>,
    pub sched: Option<TopologicalScheduler>,
    pub total_switches: u64,
    pub demo_active: bool,
    pub background: bool,
    /// Whether ring 3 was entered and not left yet: no switch may happen then.
    pub ring3_excursion_active: bool,
    pub kernel_rsp: u64,
    pub counters: Vec<u64>,
}

/// All tasks and the state of their scheduling, as a mathematical value.
#[verifier::ext_equal]
pub struct TasksView {
    pub tasks: Seq<Option<TaskView>>,
    pub zombies: Seq<TaskId>,
    pub current: Option<TaskId>,
    pub sched: Option<SchedView>,
    pub total_switches: u64,
    pub demo_active: bool,
    pub background: bool,
    pub ring3_excursion_active: bool,
    pub kernel_rsp: u64,
    pub counters: Seq<u64>,
}

pub open spec fn task_view(t: Option<Task>) -> Option<TaskView> {
    match t {
        Some(x) => Some(x@),
        None => None,
    }
}

pub open spec fn all_tasks_view(ts: Seq<Option<Task>>) -> Seq<Option<TaskView>> {
    Seq::new(ts.len(), |i: int| task_view(ts[i]))
}

pub open spec fn sched_view(s: Option<TopologicalScheduler>) -> Option<SchedView> {
    match s {
        Some(x) => Some(x@),
        None => None,
    }
}

/// Whether task `id` is alive in the scheduler's eyes.
pub open spec fn is_alive(t: TasksView, id: int) -> bool {
    t.sched matches Some(s) && 0 <= id < s.slots.len() && s.slots[id].alive
}

/// Whether the table is sound. Every live task has its stack, and so has the task
/// that runs; a dead task has one exactly while it waits to be reaped.
pub open spec fn tasks_ok(t: TasksView) -> bool {
    &&& t.counters.len() == MAX_TASKS
    &&& t.tasks.len() <= MAX_TASKS
    &&& match t.sched {
        Some(s) => s.slots.len() == t.tasks.len() && s.bonds == bond_pattern(s.slots.len()),
        None => t.tasks.len() == 0,
    }
    &&& forall|i: int|
        0 <= i < t.tasks.len() ==> (#[trigger] t.tasks[i] is Some <==> is_alive(t, i)
            || t.zombies.contains(i as usize))
    &&& forall|k: int|
        0 <= k < t.zombies.len() ==> (#[trigger] t.zombies[k]) < t.tasks.len() && !is_alive(
            t,
            t.zombies[k] as int,
        )
    &&& t.zombies.no_duplicates()
    &&& t.current matches Some(c) ==> c < t.tasks.len() && t.tasks[c as int] is Some
}

/// What spawning a task comes to.
pub open spec fn spawned(
    t: TasksView,
    entries: Seq<u64>,
    stack: Seq<u8>,
    base: u64,
) -> (TasksView, Option<TaskId>) {
    match t.sched {
        None => (t, None),
        Some(s) => match first_free(t.tasks) {
            Some(id) => (
                TasksView {
                    tasks: t.tasks.update(id, Some(new_task(entries[id], stack, base))),
                    sched: Some(revived(s, id)),
                    counters: t.counters.update(id, 0),
                    ..t
                },
                Some(id as usize),
            ),
            None => {
                let id = t.tasks.len() as int;
                if id >= MAX_TASKS {
                    (t, None)
                } else {
                    (
                        TasksView {
                            tasks: t.tasks.push(Some(new_task(entries[id], stack, base))),
                            sched: Some(grown(s)),
                            counters: t.counters.update(id, 0),
                            ..t
                        },
                        Some(id as usize),
                    )
                }
            },
        },
    }
}

/// What starting the demo with three tasks comes to.
pub open spec fn demo_started(t: TasksView, t0: TaskView, t1: TaskView, t2: TaskView) -> (
    TasksView,
    TickAction,
) {
    (
        TasksView {
            tasks: seq![Some(t0), Some(t1), Some(t2)],
            sched: Some(
                SchedView {
                    slots: seq![fresh_slot(), fresh_slot(), fresh_slot()],
                    bonds: bond_pattern(3),
                },
            ),
            total_switches: 0,
            current: Some(0),
            demo_active: true,
            ..t
        },
        TickAction::Switch { save: None, load: t0.rsp },
    )
}

/// The table after task `id` counted one more round.
pub open spec fn counted_up(t: TasksView, id: TaskId) -> TasksView {
    TasksView {
        counters: t.counters.update(id as int, t.counters[id as int].wrapping_add(1)),
        ..t
    }
}

pub open spec fn has_no_task(ts: Seq<Option<TaskView>>) -> spec_fn(int) -> bool {
    |i: int| ts[i] is None
}

/// The first id whose task is gone.
pub open spec fn first_free(ts: Seq<Option<TaskView>>) -> Option<int> {
    crate::search::first_where(ts.len(), has_no_task(ts))
}

/// What killing a task comes to.
pub open spec fn task_killed(t: TasksView, id: TaskId) -> (TasksView, bool) {
    if !is_alive(t, id as int) {
        (t, false)
    } else {
        let dead = TasksView { sched: Some(killed(t.sched->0, id as int)), ..t };
        if t.current == Some(id) {
            (TasksView { zombies: t.zombies.push(id), ..dead }, true)
        } else {
            (TasksView { tasks: t.tasks.update(id as int, None), ..dead }, true)
        }
    }
}

/// The zombies that are not the task that runs lose their stacks.
pub open spec fn reaped(t: TasksView) -> TasksView {
    TasksView {
        tasks: Seq::new(
            t.tasks.len(),
            |i: int|
                if t.zombies.contains(i as usize) && t.current != Some(i as usize) {
                    None
                } else {
                    t.tasks[i]
                },
        ),
        zombies: match t.current {
            Some(c) => if t.zombies.contains(c) {
                seq![c]
            } else {
                Seq::empty()
            },
            None => Seq::empty(),
        },
        ..t
    }
}

/// The slot that fires, if one is ready.
pub open spec fn winner_of(slots: Seq<TaskSlot>) -> Option<int> {
    if exists|i: int| is_winner(slots, i) {
        Some(choose|i: int| is_winner(slots, i))
    } else {
        None
    }
}

/// What the scheduler makes of a tick.
pub open spec fn scheduled(t: TasksView, potentials: Seq<u32>) -> (TasksView, TickAction) {
    match t.sched {
        None => (t, TickAction::Stay),
        Some(s) => {
            let slots = charged(s.slots, potentials);
            match winner_of(slots) {
                None => (
                    TasksView { sched: Some(SchedView { slots, ..s }), ..t },
                    TickAction::Stay,
                ),
                Some(w) => {
                    let next = TasksView {
                        sched: Some(SchedView { slots: fired(slots, w), ..s }),
                        ..t
                    };
                    if t.current == Some(w as usize) {
                        (next, TickAction::Stay)
                    } else {
                        (
                            TasksView { current: Some(w as usize), ..next },
                            TickAction::Switch { save: t.current, load: t.tasks[w]->0.rsp },
                        )
                    }
                },
            }
        },
    }
}

/// What a timer tick comes to.
pub open spec fn ticked(t: TasksView, potentials: Seq<u32>) -> (TasksView, TickAction) {
    let r = reaped(t);
    if r.ring3_excursion_active {
        (r, TickAction::Stay)
    } else if r.demo_active {
        let counted = TasksView { total_switches: r.total_switches.wrapping_add(1), ..r };
        if r.total_switches + 1 >= MAX_TICKS {
            (
                TasksView { demo_active: false, current: None, ..counted },
                TickAction::Switch { save: r.current, load: r.kernel_rsp },
            )
        } else {
            scheduled(counted, potentials)
        }
    } else if !r.background {
        (r, TickAction::Stay)
    } else {
        scheduled(r, potentials)
    }
}

/// The live tasks among the first `k`, with their counts.
pub open spec fn live_reports(t: TasksView, k: nat) -> Seq<TaskReport>
    decreases k,
{
    if k == 0 {
        Seq::empty()
    } else {
        let before = live_reports(t, (k - 1) as nat);
        if t.tasks[k - 1] is Some && is_alive(t, k - 1) {
            before.push(TaskReport { id: (k - 1) as usize, counter: t.counters[k - 1] })
        } else {
            before
        }
    }
}

impl TaskTable {
    pub open spec fn view(self) -> TasksView {
        TasksView {
            tasks: all_tasks_view(self.tasks@),
            zombies: self.zombies@,
            current: self.current,
            sched: sched_view(self.sched),
            total_switches: self.total_switches,
            demo_active: self.demo_active,
            background: self.background,
            ring3_excursion_active: self.ring3_excursion_active,
            kernel_rsp: self.kernel_rsp,
            counters: self.counters@,
        }
    }

    pub open spec fn wf(self) -> bool {
        tasks_ok(self@)
    }

    /// No task yet: the kernel runs.
    pub fn new() -> (r: TaskTable)
        ensures
            r.wf(),
            r@ == (TasksView {
                tasks: Seq::empty(),
                zombies: Seq::empty(),
                current: None,
                sched: None,
                total_switches: 0,
                demo_active: false,
                background: false,
                ring3_excursion_active: false,
                kernel_rsp: 0,
                counters: seq![0, 0, 0, 0, 0, 0, 0, 0],
            }),
    {
        let counters: Vec<u64> = vec![0, 0, 0, 0, 0, 0, 0, 0];
        let r = TaskTable {
            tasks: Vec::new(),
            zombies: Vec::new(),
            current: None,
            sched: None,
            total_switches: 0,
            demo_active: false,
            background: false,
            ring3_excursion_active: false,
            kernel_rsp: 0,
            counters,
        };
        assert(r@.tasks == Seq::<Option<TaskView>>::empty());
        assert(r@.counters == seq![0u64, 0, 0, 0, 0, 0, 0, 0]);
        r
    }

    /// Starts the demo with three tasks. Says which stack pointer to load; the
    /// kernel's own is to be saved.
    pub fn run_preemption_demo(&mut self, t0: Task, t1: Task, t2: Task) -> (r: TickAction)
        requires
            old(self).wf(),
            old(self).sched is None,
        ensures
            final(self).wf(),
            final(self)@ == (TasksView {
                tasks: seq![Some(t0@), Some(t1@), Some(t2@)],
                sched: Some(
                    SchedView {
                        slots: seq![fresh_slot(), fresh_slot(), fresh_slot()],
                        bonds: bond_pattern(3),
                    },
                ),
                total_switches: 0,
                current: Some(0),
                demo_active: true,
                ..old(self)@
            }),
            r == (TickAction::Switch { save: None, load: t0.rsp }),
            (final(self)@, r) == demo_started(old(self)@, t0@, t1@, t2@),
    {
        let ghost before = self@;
        assert(self.zombies@.len() == 0) by {
            if self.zombies@.len() > 0 {
                assert(before.zombies[0] < before.tasks.len());
            }
        }
        let load: u64 = t0.rsp;
        self.tasks.push(Some(t0));
        self.tasks.push(Some(t1));
        self.tasks.push(Some(t2));
        self.sched = Some(TopologicalScheduler::new(N_TASKS));
        self.total_switches = 0;
        self.current = Some(0);
        self.demo_active = true;
        assert(self@.tasks == seq![Some(t0@), Some(t1@), Some(t2@)]);
        assert(self@.sched->0.slots == seq![fresh_slot(), fresh_slot(), fresh_slot()]);
        TickAction::Switch { save: None, load }
    }

    /// From now on ticks schedule tasks without end.
    pub fn enable_background_scheduling(&mut self)
        requires
            old(self).wf(),
        ensures
            final(self).wf(),
            final(self)@ == (TasksView { background: true, ..old(self)@ }),
    {
        self.background = true;
    }

    /// Counts for a worker.
    pub fn count_up(&mut self, id: TaskId)
        requires
            old(self).wf(),
            id < MAX_TASKS,
        ensures
            final(self).wf(),
            final(self)@ == (TasksView {
                counters: old(self)@.counters.update(
                    id as int,
                    old(self)@.counters[id as int].wrapping_add(1),
                ),
                ..old(self)@
            }),
            final(self)@ == counted_up(old(self)@, id),
    {
        let n: u64 = self.counters[id].wrapping_add(1);
        self.counters.set(id, n);
    }

    /// Starts a task on a stack at address `base`, under the first free id. The
    /// code that runs under an id begins at the address listed for it.
    pub fn spawn(&mut self, entries: &[u64; 8], stack: Vec<u8>, base: u64) -> (r: Option<TaskId>)
        requires
            old(self).wf(),
            stack@.len() == STACK_SIZE,
            base + STACK_SIZE <= u64::MAX,
        ensures
            final(self).wf(),
            (final(self)@, r) == spawned(old(self)@, entries@, stack@, base),
    {
        let ghost before = self@;
        let ghost bytes = stack@;
        if self.sched.is_none() {
            return None;
        }
        let mut id: usize = 0;
        while id < self.tasks.len() && self.tasks[id].is_some()
            invariant
                id <= self.tasks.len(),
                self@ == before,
                forall|j: int| 0 <= j < id ==> !(#[trigger] has_no_task(before.tasks)(j)),
            decreases self.tasks.len() - id,
        {
            assert(before.tasks[id as int] == task_view(self.tasks@[id as int]));
            id += 1;
        }
        if id < self.tasks.len() {
            proof {
                assert(before.tasks[id as int] == task_view(self.tasks@[id as int]));
                lemma_first_where_is(
                    before.tasks.len(),
                    has_no_task(before.tasks),
                    Some(id as int),
                );
            }
            match &mut self.sched {
                Some(s) => s.revive(id),
                None => {},
            }
            self.tasks.set(id, Some(Task::new(entries[id], stack, base)));
        } else {
            proof {
                lemma_first_where_is(before.tasks.len(), has_no_task(before.tasks), None);
            }
            if id >= MAX_TASKS {
                return None;
            }
            match &mut self.sched {
                Some(s) => {
                    s.add_slot();
                },
                None => {},
            }
            self.tasks.push(Some(Task::new(entries[id], stack, base)));
        }
        self.counters.set(id, 0);
        let ghost after = spawned(before, entries@, bytes, base).0;
        assert(self@.tasks == after.tasks);
        assert(self@ == after);
        proof {
            lemma_spawn_keeps_ok(before, entries@, bytes, base);
        }
        Some(id)
    }

    /// Kills a live task. Its stack is freed at once, unless the task is the one
    /// that runs.
    pub fn kill(&mut self, id: TaskId) -> (r: bool)
        requires
            old(self).wf(),
        ensures
            final(self).wf(),
            (final(self)@, r) == task_killed(old(self)@, id),
    {
        let ghost before = self@;
        let alive = match &self.sched {
            Some(s) => id < s.slots.len() && s.slots[id].alive,
            None => false,
        };
        if !alive {
            return false;
        }
        match &mut self.sched {
            Some(s) => s.kill(id),
            None => {},
        }
        let running = match self.current {
            Some(c) => c == id,
            None => false,
        };
        if running {
            self.zombies.push(id);
        } else {
            self.tasks.set(id, None);
        }
        assert(self@.tasks == task_killed(before, id).0.tasks);
        assert(self@ == task_killed(before, id).0);
        proof {
            lemma_kill_keeps_ok(before, id);
        }
        true
    }

    /// Frees the stacks of killed tasks that no longer run.
    pub fn reap_zombies(&mut self)
        requires
            old(self).wf(),
        ensures
            final(self).wf(),
            final(self)@ == reaped(old(self)@),
    {
        let ghost before = self@;
        let current = self.current;
        let mut kept: Vec<TaskId> = Vec::new();
        let mut k: usize = 0;
        while k < self.zombies.len()
            invariant
                k <= self.zombies@.len(),
                tasks_ok(before),
                current == before.current,
                self.zombies@ == before.zombies,
                self.tasks@.len() == before.tasks.len(),
                self@ == (TasksView { tasks: self@.tasks, ..before }),
                forall|i: int|
                    0 <= i < before.tasks.len() ==> #[trigger] self@.tasks[i] == (if (exists|j: int|
                        0 <= j < k && #[trigger] before.zombies[j] == i) && current != Some(
                        i as usize,
                    ) {
                        None
                    } else {
                        before.tasks[i]
                    }),
                kept@ == (match current {
                    Some(c) => if exists|j: int| 0 <= j < k && #[trigger] before.zombies[j] == c {
                        seq![c]
                    } else {
                        Seq::empty()
                    },
                    None => Seq::empty(),
                }),
            decreases self.zombies@.len() - k,
        {
            let id: TaskId = self.zombies[k];
            assert(before.zombies[k as int] == id);
            let running = match current {
                Some(c) => c == id,
                None => false,
            };
            let ghost prev = self@.tasks;
            if running {
                kept.push(id);
            } else {
                self.tasks.set(id, None);
                assert(self@.tasks == prev.update(id as int, None));
            }
            k += 1;
        }
        self.zombies = kept;
        assert(self@.tasks == reaped(before).tasks);
        assert(self@ == reaped(before));
        proof {
            lemma_reap_keeps_ok(before);
        }
    }

    /// Every live task, with how far it has counted.
    pub fn live_tasks(&self) -> (r: Vec<TaskReport>)
        requires
            self.wf(),
        ensures
            r@ == live_reports(self@, self@.tasks.len()),
    {
        let mut out: Vec<TaskReport> = Vec::new();
        let mut id: usize = 0;
        while id < self.tasks.len()
            invariant
                id <= self.tasks@.len(),
                self.wf(),
                out@ == live_reports(self@, id as nat),
            decreases self.tasks@.len() - id,
        {
            assert(self@.tasks[id as int] == task_view(self.tasks@[id as int]));
            let alive = match &self.sched {
                Some(s) => s.slots[id].alive,
                None => false,
            };
            if self.tasks[id].is_some() && alive {
                out.push(TaskReport { id, counter: self.counters[id] });
            }
            id += 1;
        }
        out
    }

    /// A timer tick: frees stacks that are no longer in use, and decides whether to
    /// switch. `potentials` are the slots' potentials after this tick.
    pub fn timer_tick_switch(&mut self, potentials: &Vec<u32>) -> (r: TickAction)
        requires
            old(self).wf(),
            old(self)@.sched matches Some(s) ==> potentials@.len() == s.slots.len(),
        ensures
            final(self).wf(),
            (final(self)@, r) == ticked(old(self)@, potentials@),
    {
        self.reap_zombies();
        if self.ring3_excursion_active {
            return TickAction::Stay;
        }
        if self.demo_active {
            let ticks: u64 = self.total_switches;
            self.total_switches = ticks.wrapping_add(1);
            if ticks >= MAX_TICKS - 1 {
                let save = self.current;
                self.demo_active = false;
                self.current = None;
                return TickAction::Switch { save, load: self.kernel_rsp };
            }
        } else if !self.background {
            return TickAction::Stay;
        }
        self.schedule(potentials)
    }

    fn schedule(&mut self, potentials: &Vec<u32>) -> (r: TickAction)
        requires
            old(self).wf(),
            old(self)@.sched matches Some(s) ==> potentials@.len() == s.slots.len(),
        ensures
            final(self).wf(),
            (final(self)@, r) == scheduled(old(self)@, potentials@),
    {
        let ghost before = self@;
        let next = match &mut self.sched {
            Some(s) => s.step(potentials),
            None => None,
        };
        proof {
            if let Some(s) = before.sched {
                let slots = charged(s.slots, potentials@);
                lemma_winner(slots, next);
            }
            lemma_schedule_keeps_ok(before, potentials@);
        }
        match next {
            None => {
                assert(self@ == scheduled(before, potentials@).0);
                TickAction::Stay
            },
            Some(w) => {
                let running = match self.current {
                    Some(c) => c == w,
                    None => false,
                };
                if running {
                    assert(self@ == scheduled(before, potentials@).0);
                    return TickAction::Stay;
                }
                let save = self.current;
                assert(before.tasks[w as int] == task_view(self.tasks@[w as int]));
                assert(is_alive(before, w as int));
                let load: u64 = match &self.tasks[w] {
                    Some(t) => t.rsp,
                    None => 0,
                };
                self.current = Some(w);
                assert(self@ == scheduled(before, potentials@).0);
                TickAction::Switch { save, load }
            },
        }
    }
}

/// The winner that a step finds is the one that is meant.
proof fn lemma_winner(slots: Seq<TaskSlot>, r: Option<usize>)
    requires
        match r {
            Some(i) => is_winner(slots, i as int),
            None => forall|j: int| 0 <= j < slots.len() ==> !is_ready(#[trigger] slots[j]),
        },
    ensures
        winner_of(slots) == (match r {
            Some(i) => Some(i as int),
            None => None,
        }),
{
    if let Some(i) = r {
        law_winner_is_unique(slots, i as int, winner_of(slots)->0);
    } else if winner_of(slots) is Some {
        let i = winner_of(slots)->0;
        assert(is_ready(slots[i]));
    }
}

proof fn lemma_spawn_keeps_ok(t: TasksView, entries: Seq<u64>, stack: Seq<u8>, base: u64)
    requires
        tasks_ok(t),
    ensures
        tasks_ok(spawned(t, entries, stack, base).0),
{
    let (u, r) = spawned(t, entries, stack, base);
    lemma_first_where(t.tasks.len(), has_no_task(t.tasks));
    if let Some(id) = r {
        if first_free(t.tasks) is Some {
            assert(has_no_task(t.tasks)(id as int));
            assert(t.tasks[id as int] is None);
        }
        assert forall|i: int| 0 <= i < u.tasks.len() implies (#[trigger] u.tasks[i] is Some
            <==> is_alive(u, i) || u.zombies.contains(i as usize)) by {
            if i != id {
                assert(u.tasks[i] == t.tasks[i]);
            }
        }
        assert forall|k: int| 0 <= k < u.zombies.len() implies (#[trigger] u.zombies[k])
            < u.tasks.len() && !is_alive(u, u.zombies[k] as int) by {
            let z = t.zombies[k];
            assert(t.zombies.contains(z));
            assert(t.tasks[z as int] is Some);
        }
    }
}

proof fn lemma_kill_keeps_ok(t: TasksView, id: TaskId)
    requires
        tasks_ok(t),
    ensures
        tasks_ok(task_killed(t, id).0),
{
    let (u, r) = task_killed(t, id);
    if r {
        assert(t.tasks[id as int] is Some);
        assert(!t.zombies.contains(id)) by {
            if t.zombies.contains(id) {
                let k = choose|k: int| 0 <= k < t.zombies.len() && t.zombies[k] == id;
                assert(!is_alive(t, t.zombies[k] as int));
            }
        }
        if t.current == Some(id) {
            assert forall|z: TaskId| #[trigger] u.zombies.contains(z) == (t.zombies.contains(z)
                || z == id) by {
                if t.zombies.contains(z) {
                    let k = choose|k: int| 0 <= k < t.zombies.len() && t.zombies[k] == z;
                    assert(u.zombies[k] == z);
                }
                if z == id {
                    assert(u.zombies[t.zombies.len() as int] == id);
                }
            }
        }
        assert forall|i: int| 0 <= i < u.tasks.len() implies (#[trigger] u.tasks[i] is Some
            <==> is_alive(u, i) || u.zombies.contains(i as usize)) by {
            assert(t.tasks[i] is Some <==> is_alive(t, i) || t.zombies.contains(i as usize));
        }
        assert forall|k: int| 0 <= k < u.zombies.len() implies (#[trigger] u.zombies[k])
            < u.tasks.len() && !is_alive(u, u.zombies[k] as int) by {
            if k < t.zombies.len() {
                assert(u.zombies[k] == t.zombies[k]);
            }
        }
    }
}

proof fn lemma_reap_keeps_ok(t: TasksView)
    requires
        tasks_ok(t),
    ensures
        tasks_ok(reaped(t)),
{
    let u = reaped(t);
    assert forall|i: int| 0 <= i < u.tasks.len() implies (#[trigger] u.tasks[i] is Some
        <==> is_alive(u, i) || u.zombies.contains(i as usize)) by {
        assert(t.tasks[i] is Some <==> is_alive(t, i) || t.zombies.contains(i as usize));
        if t.zombies.contains(i as usize) {
            let k = choose|k: int| 0 <= k < t.zombies.len() && t.zombies[k] == i as usize;
            assert(!is_alive(t, t.zombies[k] as int));
            if t.current == Some(i as usize) {
                assert(u.zombies[0] == i as usize);
            }
        }
    }
    assert forall|k: int| 0 <= k < u.zombies.len() implies (#[trigger] u.zombies[k])
        < u.tasks.len() && !is_alive(u, u.zombies[k] as int) by {
        let c = t.current->0;
        let j = choose|j: int| 0 <= j < t.zombies.len() && t.zombies[j] == c;
        assert(!is_alive(t, t.zombies[j] as int));
    }
}

proof fn lemma_schedule_keeps_ok(t: TasksView, potentials: Seq<u32>)
    requires
        tasks_ok(t),
        t.sched matches Some(s) ==> potentials.len() == s.slots.len(),
    ensures
        tasks_ok(scheduled(t, potentials).0),
{
    let u = scheduled(t, potentials).0;
    if let Some(s) = t.sched {
        assert forall|i: int| is_alive(u, i) == #[trigger] is_alive(t, i) by {}
        assert forall|i: int| 0 <= i < u.tasks.len() implies (#[trigger] u.tasks[i] is Some
            <==> is_alive(u, i) || u.zombies.contains(i as usize)) by {
            assert(t.tasks[i] is Some <==> is_alive(t, i) || t.zombies.contains(i as usize));
        }
        if let Some(w) = winner_of(charged(s.slots, potentials)) {
            assert(is_winner(charged(s.slots, potentials), w));
            assert(is_alive(t, w));
            assert(t.tasks[w] is Some);
        }
    }
}

/// After a tick only the task that runs can be dead and still have its stack.
pub proof fn law_tick_frees_dead_stacks(t: TasksView, potentials: Seq<u32>, i: int)
    requires
        tasks_ok(t),
        t.sched matches Some(s) ==> potentials.len() == s.slots.len(),
        0 <= i < t.tasks.len(),
        !is_alive(t, i),
        t.current != Some(i as usize),
    ensures
        ticked(t, potentials).0.tasks[i] is None,
{
    assert(t.tasks[i] is Some <==> is_alive(t, i) || t.zombies.contains(i as usize));
}

/// Killing a task and ticking never free the stack that execution is on.
pub proof fn law_running_stack_is_kept(t: TasksView, id: TaskId, c: TaskId)
    requires
        tasks_ok(t),
        t.current == Some(c),
    ensures
        task_killed(t, id).0.tasks[c as int] == t.tasks[c as int],
        reaped(t).tasks[c as int] == t.tasks[c as int],
        t.tasks[c as int] is Some,
{
}

/// A tick switches only to a task that is alive and has its stack, or back to the
/// kernel.
pub proof fn law_switch_target_is_live(t: TasksView, potentials: Seq<u32>)
    requires
        tasks_ok(t),
        t.sched matches Some(s) ==> potentials.len() == s.slots.len(),
    ensures
        ({
            let (u, action) = ticked(t, potentials);
            action matches TickAction::Switch { save, load } ==> {
                &&& save == t.current
                &&& match u.current {
                    Some(w) => is_alive(u, w as int) && u.tasks[w as int] is Some
                        && u.tasks[w as int]->0.rsp == load,
                    None => load == t.kernel_rsp,
                }
            }
        }),
{
    lemma_reap_keeps_ok(t);
    let r = reaped(t);
    let counted = TasksView { total_switches: r.total_switches.wrapping_add(1), ..r };
    assert(tasks_ok(counted)) by {
        assert forall|i: int| 0 <= i < counted.tasks.len() implies (
        #[trigger] counted.tasks[i] is Some <==> is_alive(counted, i) || counted.zombies.contains(
            i as usize,
        )) by {
            assert(r.tasks[i] is Some <==> is_alive(r, i) || r.zombies.contains(i as usize));
        }
        assert forall|k: int| 0 <= k < counted.zombies.len() implies (#[trigger] counted.zombies[k])
            < counted.tasks.len() && !is_alive(counted, counted.zombies[k] as int) by {
            assert(!is_alive(r, r.zombies[k] as int));
        }
    }
    lemma_schedule_keeps_ok(r, potentials);
    lemma_schedule_keeps_ok(counted, potentials);
    if let Some(s) = r.sched {
        let slots = charged(s.slots, potentials);
        if let Some(w) = winner_of(slots) {
            assert(is_winner(slots, w));
            assert(is_alive(r, w));
            assert(r.tasks[w] is Some);
        }
    }
}

/// While ring 3 has been entered, a tick switches nothing.
pub proof fn law_no_switch_in_ring3(t: TasksView, potentials: Seq<u32>)
    requires
        t.ring3_excursion_active,
    ensures
        ticked(t, potentials).1 == TickAction::Stay,
        ticked(t, potentials).0.current == t.current,
{
}

/// A task that was started is live, counts from zero, and was not there before;
/// killing it makes its id free again at the latest with the next tick.
pub proof fn law_spawned_task_is_live(
    t: TasksView,
    entries: Seq<u64>,
    stack: Seq<u8>,
    base: u64,
    id: TaskId,
)
    requires
        tasks_ok(t),
        spawned(t, entries, stack, base).1 == Some(id),
    ensures
        ({
            let u = spawned(t, entries, stack, base).0;
            &&& !is_alive(t, id as int)
            &&& is_alive(u, id as int)
            &&& u.tasks[id as int] is Some
            &&& u.counters[id as int] == 0
            &&& reaped(task_killed(u, id).0).tasks[id as int] is None
        }),
{
    let u = spawned(t, entries, stack, base).0;
    lemma_first_where(t.tasks.len(), has_no_task(t.tasks));
    if first_free(t.tasks) is Some {
        assert(has_no_task(t.tasks)(id as int));
        assert(t.tasks[id as int] is None);
    }
    assert(t.current != Some(id));
}

/// Another task can be started unless all ids are taken by tasks that have their
/// stacks.
pub proof fn law_spawn_succeeds_while_ids_last(
    t: TasksView,
    entries: Seq<u64>,
    stack: Seq<u8>,
    base: u64,
)
    requires
        tasks_ok(t),
        t.sched is Some,
    ensures
        spawned(t, entries, stack, base).1 is None <==> (t.tasks.len() == MAX_TASKS && forall|
            i: int,
        |
            0 <= i < MAX_TASKS ==> (#[trigger] t.tasks[i]) is Some),
{
    lemma_first_where(t.tasks.len(), has_no_task(t.tasks));
    if let Some(i) = first_free(t.tasks) {
        assert(has_no_task(t.tasks)(i));
    } else {
        assert forall|i: int| 0 <= i < t.tasks.len() implies (#[trigger] t.tasks[i]) is Some by {
            assert(!has_no_task(t.tasks)(i));
        }
    }
}

/// Whether a tick schedules: not while ring 3 has been entered, and then in the demo
/// until it ends, or once background scheduling is on.
pub open spec fn may_schedule(t: TasksView) -> bool {
    !t.ring3_excursion_active && (if t.demo_active {
        t.total_switches + 1 < 60
    } else {
        t.background
    })
}

/// A tick that schedules runs the task with the highest potential, whatever ran before.
/// Where that is another one, the old context is saved and the task's stack loaded.
pub proof fn law_tick_runs_the_highest(t: TasksView, potentials: Seq<u32>, w: int)
    requires
        tasks_ok(t),
        may_schedule(t),
        t.sched matches Some(s) && potentials.len() == s.slots.len() && has_highest(
            s.slots,
            potentials,
            w,
        ),
    ensures
        ({
            let (u, action) = ticked(t, potentials);
            &&& u.current == Some(w as usize)
            &&& t.current == Some(w as usize) ==> action == TickAction::Stay
            &&& t.current != Some(w as usize) ==> t.tasks[w] is Some && action
                == (TickAction::Switch { save: t.current, load: t.tasks[w]->0.rsp })
            &&& u.sched matches Some(v) && v.bonds == t.sched->0.bonds && v.slots == fired(
                charged(t.sched->0.slots, potentials),
                w,
            )
        }),
{
    let s = t.sched->0;
    let slots = charged(s.slots, potentials);
    law_highest_potential_fires(s.slots, potentials, w);
    assert(is_winner(slots, w));
    law_winner_is_unique(slots, w, winner_of(slots)->0);
    assert(is_alive(t, w));
    assert(t.tasks[w] is Some);
    let r = reaped(t);
    if t.zombies.contains(w as usize) {
        let k = choose|k: int| 0 <= k < t.zombies.len() && t.zombies[k] == w as usize;
        assert(!is_alive(t, t.zombies[k] as int));
    }
    assert(r.tasks[w] == t.tasks[w]);
}

/// A tick on which no live slot has reached the threshold leaves what runs.
pub proof fn law_tick_waits_for_the_threshold(t: TasksView, potentials: Seq<u32>)
    requires
        may_schedule(t),
        t.sched matches Some(s) && forall|j: int|
            0 <= j < s.slots.len() && s.slots[j].alive ==> !(0x3F80_0000 <= #[trigger] potentials[j]
                <= 0x7F80_0000),
    ensures
        ({
            let (u, action) = ticked(t, potentials);
            &&& u.current == t.current
            &&& action == TickAction::Stay
            &&& u.sched matches Some(v) && v.bonds == t.sched->0.bonds && v.slots == charged(
                t.sched->0.slots,
                potentials,
            )
        }),
{
    let s = t.sched->0;
    let slots = charged(s.slots, potentials);
    if exists|i: int| is_winner(slots, i) {
        let w = choose|i: int| is_winner(slots, i);
        law_highest_potential_fires(s.slots, potentials, w);
    }
}

/// The sixtieth tick of the demo ends it: the kernel runs again where it was left.
pub proof fn law_demo_ends(t: TasksView, potentials: Seq<u32>)
    requires
        !t.ring3_excursion_active,
        t.demo_active,
    ensures
        ({
            let (u, action) = ticked(t, potentials);
            &&& u.total_switches == t.total_switches.wrapping_add(1)
            &&& u.demo_active == (t.total_switches + 1 < 60)
            &&& t.total_switches + 1 >= 60 ==> u.current is None && u.sched == t.sched && action
                == (TickAction::Switch { save: t.current, load: t.kernel_rsp })
        }),
{
}

/// A tick that does not schedule, outside the demo, leaves what runs and every slot; no
/// tick touches the counters, the kernel's stack pointer or the two settings.
pub proof fn law_tick_keeps_the_rest(t: TasksView, potentials: Seq<u32>)
    ensures
        ({
            let (u, action) = ticked(t, potentials);
            &&& u.counters == t.counters
            &&& u.kernel_rsp == t.kernel_rsp
            &&& u.background == t.background
            &&& u.ring3_excursion_active == t.ring3_excursion_active
            &&& u.tasks.len() == t.tasks.len()
            &&& !t.demo_active || t.ring3_excursion_active ==> u.total_switches == t.total_switches
                && u.demo_active == t.demo_active
            &&& !may_schedule(t) && !t.demo_active ==> action == TickAction::Stay && u.current
                == t.current && u.sched == t.sched
            &&& forall|i: int|
                0 <= i < t.tasks.len() && !t.zombies.contains(i as usize) ==> u.tasks[i]
                    == #[trigger] t.tasks[i]
        }),
{
}

/// A new task starts with a stack from which a switch takes six zero registers and then
/// returns to its first instruction.
pub proof fn law_new_task_starts_at_its_entry(entry: u64, stack: Seq<u8>, base: u64)
    requires
        stack.len() == 0x4000,
        base + 0x4000 <= u64::MAX,
    ensures
        ({
            let t = new_task(entry, stack, base);
            let at = t.rsp - base;
            &&& at + 56 == 0x4000
            &&& t.stack.len() == 0x4000
            &&& forall|i: int| at <= i < at + 48 ==> #[trigger] t.stack[i] == 0
            &&& le64(t.stack, at + 48) == entry
            &&& forall|i: int| 0 <= i < at ==> #[trigger] t.stack[i] == stack[i]
        }),
{
    let t = new_task(entry, stack, base);
    let o = 0x4000 - 8;
    law_least_significant_byte_first(t.stack, o);
    lemma_bytes_of(entry);
    assert(le64(t.stack, o) == le64_byte(entry, 0) + 0x100 * le64_byte(entry, 1) + 0x1_0000
        * le64_byte(entry, 2) + 0x100_0000 * le64_byte(entry, 3) + 0x1_0000_0000 * le64_byte(
        entry,
        4,
    ) + 0x100_0000_0000 * le64_byte(entry, 5) + 0x1_0000_0000_0000 * le64_byte(entry, 6)
        + 0x100_0000_0000_0000 * le64_byte(entry, 7));
}

/// The bytes of an integer make it up.
proof fn lemma_bytes_of(v: u64)
    ensures
        v == le64_byte(v, 0) + 0x100 * le64_byte(v, 1) + 0x1_0000 * le64_byte(v, 2) + 0x100_0000
            * le64_byte(v, 3) + 0x1_0000_0000 * le64_byte(v, 4) + 0x100_0000_0000 * le64_byte(v, 5)
            + 0x1_0000_0000_0000 * le64_byte(v, 6) + 0x100_0000_0000_0000 * le64_byte(v, 7),
{
    let q1 = v / 0x100;
    let q2 = q1 / 0x100;
    let q3 = q2 / 0x100;
    let q4 = q3 / 0x100;
    let q5 = q4 / 0x100;
    let q6 = q5 / 0x100;
    let q7 = q6 / 0x100;
    assert(q2 == v / 0x1_0000);
    assert(q3 == v / 0x100_0000);
    assert(q4 == v / 0x1_0000_0000);
    assert(q5 == v / 0x100_0000_0000);
    assert(q6 == v / 0x1_0000_0000_0000);
    assert(q7 == v / 0x100_0000_0000_0000);
}

/// A task is started under the least id that has no stack, with the code listed for
/// that id, and nothing is changed for any other id.
pub proof fn law_spawn_takes_the_first_free_id(
    t: TasksView,
    entries: Seq<u64>,
    stack: Seq<u8>,
    base: u64,
    id: TaskId,
)
    requires
        tasks_ok(t),
        spawned(t, entries, stack, base).1 == Some(id),
    ensures
        ({
            let u = spawned(t, entries, stack, base).0;
            &&& id < 8
            &&& id <= t.tasks.len()
            &&& id < t.tasks.len() ==> t.tasks[id as int] is None
            &&& forall|j: int| 0 <= j < id ==> (#[trigger] t.tasks[j]) is Some
            &&& u.tasks[id as int] == Some(new_task(entries[id as int], stack, base))
            &&& forall|j: int|
                0 <= j < t.tasks.len() && j != id ==> u.tasks[j] == #[trigger] t.tasks[j]
            &&& forall|j: int|
                0 <= j < 8 && j != id ==> u.counters[j] == #[trigger] t.counters[j]
            &&& u.counters[id as int] == 0
            &&& u.current == t.current
            &&& u.zombies == t.zombies
            &&& forall|j: int|
                0 <= j < t.tasks.len() && j != id ==> u.sched->0.slots[j]
                    == #[trigger] t.sched->0.slots[j]
            &&& u.sched->0.slots[id as int] == fresh_slot()
        }),
{
    lemma_first_where(t.tasks.len(), has_no_task(t.tasks));
    match first_free(t.tasks) {
        Some(i) => {
            assert(has_no_task(t.tasks)(i));
            assert forall|j: int| 0 <= j < id implies (#[trigger] t.tasks[j]) is Some by {
                assert(!has_no_task(t.tasks)(j));
            }
        },
        None => {
            assert forall|j: int| 0 <= j < id implies (#[trigger] t.tasks[j]) is Some by {
                assert(!has_no_task(t.tasks)(j));
            }
        },
    }
}

/// A task can be killed exactly while it is alive. It is dead from then on, and no other
/// task changes. Its stack is gone at once, but for the task that runs, which keeps it
/// until a later tick.
pub proof fn law_kill_ends_one_task(t: TasksView, id: TaskId, j: int)
    requires
        tasks_ok(t),
        0 <= j < t.tasks.len(),
    ensures
        ({
            let (u, r) = task_killed(t, id);
            &&& r == is_alive(t, id as int)
            &&& !is_alive(u, id as int)
            &&& !r ==> u == t
            &&& u.current == t.current
            &&& u.counters == t.counters
            &&& j != id ==> u.tasks[j] == t.tasks[j] && is_alive(u, j) == is_alive(t, j)
            &&& r && j == id && t.current != Some(id) ==> u.tasks[j] is None
            &&& r && j == id && t.current == Some(id) ==> u.tasks[j] == t.tasks[j]
                && u.zombies.contains(id)
        }),
{
    if is_alive(t, id as int) && t.current == Some(id) {
        let u = task_killed(t, id).0;
        assert(u.zombies[t.zombies.len() as int] == id);
    }
}

/// A killed task that runs loses the processor as soon as another one wins a tick.
pub proof fn law_killed_task_is_switched_away(
    t: TasksView,
    id: TaskId,
    potentials: Seq<u32>,
    w: int,
)
    requires
        tasks_ok(t),
        is_alive(t, id as int),
        t.current == Some(id),
        may_schedule(t),
        ({
            let s = task_killed(t, id).0.sched->0;
            potentials.len() == s.slots.len() && has_highest(s.slots, potentials, w)
        }),
    ensures
        ({
            let (u, action) = ticked(task_killed(t, id).0, potentials);
            &&& w != id
            &&& u.current == Some(w as usize)
            &&& action == (TickAction::Switch { save: Some(id), load: t.tasks[w]->0.rsp })
        }),
{
    let k = task_killed(t, id).0;
    lemma_kill_keeps_ok(t, id);
    law_tick_runs_the_highest(k, potentials, w);
}

/// The live tasks are reported, each once, in the order of their ids and with its count.
pub proof fn law_every_live_task_is_reported(t: TasksView, k: nat)
    requires
        tasks_ok(t),
        k <= t.tasks.len(),
    ensures
        ({
            let rs = live_reports(t, k);
            &&& forall|n: int|
                0 <= n < rs.len() ==> (#[trigger] rs[n]).id < k && is_alive(t, rs[n].id as int)
                    && t.tasks[rs[n].id as int] is Some && rs[n].counter
                    == t.counters[rs[n].id as int]
            &&& forall|m: int, n: int|
                0 <= m < n < rs.len() ==> (#[trigger] rs[m]).id < (#[trigger] rs[n]).id
            &&& forall|i: int|
                0 <= i < k && #[trigger] is_alive(t, i) && t.tasks[i] is Some ==> exists|n: int|
                    0 <= n < rs.len() && (#[trigger] rs[n]).id == i
        }),
    decreases k,
{
    if k > 0 {
        law_every_live_task_is_reported(t, (k - 1) as nat);
        let before = live_reports(t, (k - 1) as nat);
        let rs = live_reports(t, k);
        assert forall|i: int|
            0 <= i < k && #[trigger] is_alive(t, i) && t.tasks[i] is Some implies exists|n: int|
            0 <= n < rs.len() && (#[trigger] rs[n]).id == i by {
            if i == k - 1 {
                assert(rs[before.len() as int].id == i);
            } else {
                let n = choose|n: int| 0 <= n < before.len() && (#[trigger] before[n]).id == i;
                assert(rs[n].id == i);
            }
        }
    }
}

/// The demo starts with three live tasks and runs the first; the first tick finds the
/// count at zero, and nothing is saved of what was running before.
pub proof fn law_demo_starts_with_three_tasks(
    t: TasksView,
    t0: TaskView,
    t1: TaskView,
    t2: TaskView,
    i: int,
)
    requires
        tasks_ok(t),
        t.sched is None,
        0 <= i < 3,
    ensures
        ({
            let (u, action) = demo_started(t, t0, t1, t2);
            &&& u.tasks.len() == 3
            &&& is_alive(u, i)
            &&& u.tasks[i] == Some(
                if i == 0 {
                    t0
                } else if i == 1 {
                    t1
                } else {
                    t2
                },
            )
            &&& u.demo_active
            &&& u.total_switches == 0
            &&& u.current == Some(0usize)
            &&& u.background == t.background
            &&& u.kernel_rsp == t.kernel_rsp
            &&& u.counters == t.counters
            &&& u.sched->0.slots[i].potential == 0
            &&& u.sched->0.slots[i].fire_count == 0
            &&& action == (TickAction::Switch { save: None, load: t0.rsp })
        }),
{
}

/// A round counts for the task that made it, and for no other.
pub proof fn law_rounds_count_for_their_task(t: TasksView, id: TaskId, j: int)
    requires
        tasks_ok(t),
        id < 8,
        0 <= j < 8,
    ensures
        ({
            let u = counted_up(t, id);
            &&& u.counters.len() == t.counters.len()
            &&& j != id ==> u.counters[j] == t.counters[j]
            &&& t.counters[id as int] < u64::MAX ==> u.counters[id as int]
                == t.counters[id as int] + 1
            &&& u.tasks == t.tasks
            &&& u.sched == t.sched
            &&& u.current == t.current
        }),
{
}

} // verus!
