//! Which task runs next: a bank of slots with a potential each, coupled in a chain
//! by bonds of alternating strength.
//!
//! Potentials are single-precision numbers, kept by their bit patterns. They are
//! computed elsewhere, from the terms that `coupling` lists; here they are
//! compared. The slot with the highest potential fires once it has reached 1.0.

use vstd::prelude::*;

verus! {

/// The bit pattern of 1.0, at which a slot is ready to fire.
pub const THRESHOLD_BITS: u32 = 0x3F80_0000;

/// The bit pattern of infinity. Larger magnitudes are not numbers.
pub const INFINITY_BITS: u32 = 0x7F80_0000;

/// The strength of a bond: `V` is 1 - g and `W` is 1 + g for the bank's
/// dimerization g.
#[derive(Clone, Copy)]
pub enum Bond {
    V,
    W,
}

/// One task slot.
#[derive(Clone, Copy)]
pub struct TaskSlot {
    pub alive: bool,
    /// The bit pattern of the potential.
    pub potential: u32,
    pub fire_count: u32,
}

/// What a slot's neighbours add to its potential: for each one that is alive, the
/// bond to it and its potential.
pub struct Coupling {
    pub left: Option<(Bond, u32)>,
    pub right: Option<(Bond, u32)>,
}

/// A bank of coupled slots.
pub struct TopologicalScheduler {
    pub slots: Vec<TaskSlot>,
    pub bonds: Vec<Bond>,
}

/// A bank of coupled slots, as a mathematical value.
#[verifier::ext_equal]
pub struct SchedView {
    pub slots: Seq<TaskSlot>,
    pub bonds: Seq<Bond>,
}

/// The bonds of a bank of `n` slots: one per neighbouring pair, `V` and `W` in
/// turn.
pub open spec fn bond_pattern(n: nat) -> Seq<Bond> {
    Seq::new(
        if n == 0 {
            0
        } else {
            (n - 1) as nat
        },
        |i: int|
            if i % 2 == 0 {
                Bond::V
            } else {
                Bond::W
            },
    )
}

/// Orders the bit patterns of single-precision numbers as the numbers are ordered.
pub open spec fn order_key(bits: u32) -> int {
    if bits < 0x8000_0000 {
        bits as int
    } else {
        0x8000_0000 - bits
    }
}

/// Whether a bit pattern is that of a number.
pub open spec fn is_number(bits: u32) -> bool {
    -INFINITY_BITS <= order_key(bits) <= INFINITY_BITS
}

/// Whether a slot may fire.
pub open spec fn is_ready(s: TaskSlot) -> bool {
    s.alive && is_number(s.potential) && order_key(s.potential) >= THRESHOLD_BITS
}

/// Whether slot `i` fires: it is ready, and no other ready slot has a higher
/// potential, nor a later one the same.
pub open spec fn is_winner(slots: Seq<TaskSlot>, i: int) -> bool {
    &&& 0 <= i < slots.len()
    &&& is_ready(slots[i])
    &&& forall|j: int|
        0 <= j < slots.len() && is_ready(#[trigger] slots[j]) ==> if j <= i {
            order_key(slots[j].potential) <= order_key(slots[i].potential)
        } else {
            order_key(slots[j].potential) < order_key(slots[i].potential)
        }
}

/// The slots with new potentials. Dead slots keep theirs.
pub open spec fn charged(slots: Seq<TaskSlot>, potentials: Seq<u32>) -> Seq<TaskSlot> {
    Seq::new(
        slots.len(),
        |i: int|
            if slots[i].alive {
                TaskSlot { potential: potentials[i], ..slots[i] }
            } else {
                slots[i]
            },
    )
}

/// The slots after slot `i` fired.
pub open spec fn fired(slots: Seq<TaskSlot>, i: int) -> Seq<TaskSlot> {
    slots.update(
        i,
        TaskSlot {
            potential: 0,
            fire_count: slots[i].fire_count.wrapping_add(1),
            ..slots[i]
        },
    )
}

pub open spec fn fresh_slot() -> TaskSlot {
    TaskSlot { alive: true, potential: 0, fire_count: 0 }
}

/// The bank with slot `id` dead.
pub open spec fn killed(s: SchedView, id: int) -> SchedView {
    if 0 <= id < s.slots.len() {
        SchedView {
            slots: s.slots.update(
                id,
                TaskSlot { alive: false, potential: 0, fire_count: s.slots[id].fire_count },
            ),
            ..s
        }
    } else {
        s
    }
}

/// The bank with slot `id` alive and without a history.
pub open spec fn revived(s: SchedView, id: int) -> SchedView {
    if 0 <= id < s.slots.len() {
        SchedView { slots: s.slots.update(id, fresh_slot()), ..s }
    } else {
        s
    }
}

/// The bank with one more slot.
pub open spec fn grown(s: SchedView) -> SchedView {
    SchedView { slots: s.slots.push(fresh_slot()), bonds: bond_pattern(s.slots.len() + 1) }
}

/// What a neighbour adds.
pub open spec fn neighbour_term(s: SchedView, bond: int, slot: int) -> Option<(Bond, u32)> {
    if 0 <= slot < s.slots.len() && s.slots[slot].alive {
        Some((s.bonds[bond], s.slots[slot].potential))
    } else {
        None
    }
}

/// What the neighbours of slot `i` add to its potential.
pub open spec fn coupling_of(s: SchedView, i: int) -> Coupling {
    Coupling { left: neighbour_term(s, i - 1, i - 1), right: neighbour_term(s, i, i + 1) }
}

/// The bonds of a bank of `n` slots.
fn ssh_bonds(n: usize) -> (r: Vec<Bond>)
    ensures
        r@ == bond_pattern(n as nat),
{
    let mut r: Vec<Bond> = Vec::new();
    let mut i: usize = 1;
    while i < n
        invariant
            1 <= i,
            i <= n || n == 0 && i == 1,
            r@.len() == i - 1,
            forall|k: int| 0 <= k < i - 1 ==> #[trigger] r@[k] == bond_pattern(n as nat)[k],
        decreases n - i,
    {
        r.push(
            if (i - 1) % 2 == 0 {
                Bond::V
            } else {
                Bond::W
            },
        );
        i += 1;
    }
    r
}

fn key_of(bits: u32) -> (r: i64)
    ensures
        r == order_key(bits),
{
    if bits < 0x8000_0000 {
        bits as i64
    } else {
        0x8000_0000 - bits as i64
    }
}

fn ready(s: &TaskSlot) -> (r: bool)
    ensures
        r == is_ready(*s),
{
    let key: i64 = key_of(s.potential);
    s.alive && key <= INFINITY_BITS as i64 && key >= THRESHOLD_BITS as i64
}

impl TopologicalScheduler {
    pub open spec fn view(self) -> SchedView {
        SchedView { slots: self.slots@, bonds: self.bonds@ }
    }

    /// The bonds fit the slots.
    pub open spec fn wf(self) -> bool {
        self.bonds@ == bond_pattern(self.slots@.len())
    }

    /// A bank of `n` live slots.
    pub fn new(n: usize) -> (r: TopologicalScheduler)
        ensures
            r.wf(),
            r@ == (SchedView {
                slots: Seq::new(n as nat, |i: int| fresh_slot()),
                bonds: bond_pattern(n as nat),
            }),
    {
        let mut slots: Vec<TaskSlot> = Vec::new();
        let mut i: usize = 0;
        while i < n
            invariant
                i <= n,
                slots@.len() == i,
                forall|k: int| 0 <= k < i ==> slots@[k] == fresh_slot(),
            decreases n - i,
        {
            slots.push(TaskSlot { alive: true, potential: 0, fire_count: 0 });
            i += 1;
        }
        assert(slots@ == Seq::new(n as nat, |i: int| fresh_slot()));
        TopologicalScheduler { slots, bonds: ssh_bonds(n) }
    }

    /// Marks a slot as dead. It contributes nothing and is never selected.
    pub fn kill(&mut self, id: usize)
        requires
            old(self).wf(),
        ensures
            final(self).wf(),
            final(self)@ == killed(old(self)@, id as int),
    {
        if id < self.slots.len() {
            let fire_count: u32 = self.slots[id].fire_count;
            self.slots.set(id, TaskSlot { alive: false, potential: 0, fire_count });
        }
    }

    /// Grows the bank by one live slot. Says which one it is.
    pub fn add_slot(&mut self) -> (r: usize)
        requires
            old(self).wf(),
        ensures
            final(self).wf(),
            final(self)@ == grown(old(self)@),
            r == old(self).slots@.len(),
    {
        self.slots.push(TaskSlot { alive: true, potential: 0, fire_count: 0 });
        self.bonds = ssh_bonds(self.slots.len());
        self.slots.len() - 1
    }

    /// Brings a dead slot back to life, without its history.
    pub fn revive(&mut self, id: usize)
        requires
            old(self).wf(),
        ensures
            final(self).wf(),
            final(self)@ == revived(old(self)@, id as int),
    {
        if id < self.slots.len() {
            self.slots.set(id, TaskSlot { alive: true, potential: 0, fire_count: 0 });
        }
    }

    /// What the live neighbours of slot `i` add to its potential.
    pub fn coupling(&self, i: usize) -> (r: Coupling)
        requires
            self.wf(),
            i < self.slots@.len(),
        ensures
            r.left == neighbour_term(self@, i - 1, i - 1),
            r.right == neighbour_term(self@, i as int, i + 1),
            r == coupling_of(self@, i as int),
            r.left == (if i > 0 && self.slots@[i - 1].alive {
                Some(
                    (
                        if i % 2 == 1 {
                            Bond::V
                        } else {
                            Bond::W
                        },
                        self.slots@[i - 1].potential,
                    ),
                )
            } else {
                None
            }),
            r.right == (if i + 1 < self.slots@.len() && self.slots@[i + 1].alive {
                Some(
                    (
                        if i % 2 == 0 {
                            Bond::V
                        } else {
                            Bond::W
                        },
                        self.slots@[i + 1].potential,
                    ),
                )
            } else {
                None
            }),
    {
        let left = if i > 0 && self.slots[i - 1].alive {
            Some((self.bonds[i - 1], self.slots[i - 1].potential))
        } else {
            None
        };
        let right = if i < self.slots.len() - 1 && self.slots[i + 1].alive {
            Some((self.bonds[i], self.slots[i + 1].potential))
        } else {
            None
        };
        Coupling { left, right }
    }

    /// Advances one tick: takes in the slots' new potentials and selects the slot
    /// that fires, if one is ready.
    pub fn step(&mut self, potentials: &Vec<u32>) -> (r: Option<usize>)
        requires
            old(self).wf(),
            potentials@.len() == old(self).slots@.len(),
        ensures
            final(self).wf(),
            final(self)@.bonds == old(self)@.bonds,
            match r {
                Some(i) => {
                    &&& is_winner(charged(old(self).slots@, potentials@), i as int)
                    &&& final(self)@.slots == fired(
                        charged(old(self).slots@, potentials@),
                        i as int,
                    )
                },
                None => {
                    &&& forall|j: int|
                        0 <= j < old(self).slots@.len() ==> !is_ready(
                            #[trigger] charged(old(self).slots@, potentials@)[j],
                        )
                    &&& final(self)@.slots == charged(old(self).slots@, potentials@)
                },
            },
    {
        let ghost before = self.slots@;
        let ghost after = charged(before, potentials@);
        let n: usize = self.slots.len();
        let mut i: usize = 0;
        while i < n
            invariant
                i <= n,
                n == before.len(),
                self.slots@.len() == n,
                potentials@.len() == n,
                after == charged(before, potentials@),
                self.bonds@ == old(self).bonds@,
                forall|k: int| 0 <= k < i ==> self.slots@[k] == #[trigger] after[k],
                forall|k: int| i <= k < n ==> self.slots@[k] == before[k],
            decreases n - i,
        {
            let s = self.slots[i];
            if s.alive {
                self.slots.set(
                    i,
                    TaskSlot { alive: true, potential: potentials[i], fire_count: s.fire_count },
                );
            }
            i += 1;
        }
        assert(self.slots@ == after);
        let mut winner: Option<usize> = None;
        let mut i: usize = 0;
        while i < n
            invariant
                i <= n,
                n == after.len(),
                self.slots@ == after,
                match winner {
                    Some(w) => w < i && is_ready(after[w as int]) && forall|j: int|
                        0 <= j < i && is_ready(#[trigger] after[j]) ==> if j <= w {
                            order_key(after[j].potential) <= order_key(after[w as int].potential)
                        } else {
                            order_key(after[j].potential) < order_key(after[w as int].potential)
                        },
                    None => forall|j: int| 0 <= j < i ==> !is_ready(#[trigger] after[j]),
                },
            decreases n - i,
        {
            if ready(&self.slots[i]) {
                winner = match winner {
                    Some(w) => if key_of(self.slots[i].potential) >= key_of(
                        self.slots[w].potential,
                    ) {
                        Some(i)
                    } else {
                        Some(w)
                    },
                    None => Some(i),
                };
            }
            i += 1;
        }
        if let Some(w) = winner {
            let fire_count: u32 = self.slots[w].fire_count.wrapping_add(1);
            self.slots.set(w, TaskSlot { alive: true, potential: 0, fire_count });
            assert(self.slots@ == fired(after, w as int));
        }
        winner
    }
}

/// At most one slot fires in a tick.
pub proof fn law_winner_is_unique(slots: Seq<TaskSlot>, i: int, j: int)
    requires
        is_winner(slots, i),
        is_winner(slots, j),
    ensures
        i == j,
{
}

/// Where some slot is ready, one fires.
pub proof fn law_ready_slot_makes_a_winner(slots: Seq<TaskSlot>, k: int)
    requires
        0 <= k < slots.len(),
        is_ready(slots[k]),
    ensures
        exists|i: int| is_winner(slots, i),
{
    let w = lemma_best_of(slots, slots.len(), k);
    assert(is_winner(slots, w));
}

proof fn lemma_best_of(slots: Seq<TaskSlot>, n: nat, k: int) -> (w: int)
    requires
        n <= slots.len(),
        0 <= k < n,
        is_ready(slots[k]),
    ensures
        0 <= w < n,
        is_ready(slots[w]),
        forall|j: int|
            0 <= j < n && is_ready(#[trigger] slots[j]) ==> if j <= w {
                order_key(slots[j].potential) <= order_key(slots[w].potential)
            } else {
                order_key(slots[j].potential) < order_key(slots[w].potential)
            },
    decreases n,
{
    if exists|j: int| 0 <= j < n - 1 && is_ready(#[trigger] slots[j]) {
        let j = choose|j: int| 0 <= j < n - 1 && is_ready(#[trigger] slots[j]);
        let w = lemma_best_of(slots, (n - 1) as nat, j);
        if is_ready(slots[n - 1]) && order_key(slots[n - 1].potential) >= order_key(
            slots[w].potential,
        ) {
            n - 1
        } else {
            w
        }
    } else {
        k
    }
}

/// A dead slot adds nothing to its neighbours, keeps its state through a tick, and
/// does not fire.
pub proof fn law_dead_slot_is_inert(s: SchedView, id: int, bond: int, potentials: Seq<u32>)
    requires
        0 <= id < s.slots.len(),
    ensures
        ({
            let k = killed(s, id);
            &&& neighbour_term(k, bond, id) is None
            &&& charged(k.slots, potentials)[id] == k.slots[id]
            &&& !is_winner(charged(k.slots, potentials), id)
        }),
{
}

/// Reviving undoes killing but for the slot's history, and growing keeps the
/// existing slots.
pub proof fn law_killed_slot_can_return(s: SchedView, id: int)
    requires
        0 <= id < s.slots.len(),
    ensures
        revived(killed(s, id), id) == revived(s, id),
        revived(killed(s, id), id).slots[id] == fresh_slot(),
        grown(s).slots.take(s.slots.len() as int) == s.slots,
        grown(s).slots.last() == fresh_slot(),
{
    assert(revived(killed(s, id), id).slots == revived(s, id).slots);
    assert(grown(s).slots.take(s.slots.len() as int) == s.slots);
}

/// Two live neighbours see one bond between them, each with the other's potential
/// beside it, and the bonds along the chain are `V` and `W` in turn.
pub proof fn law_neighbours_share_a_bond(s: SchedView, i: int)
    requires
        s.bonds == bond_pattern(s.slots.len()),
        0 <= i,
        i + 1 < s.slots.len(),
    ensures
        ({
            let bond = if i % 2 == 0 {
                Bond::V
            } else {
                Bond::W
            };
            &&& s.slots[i + 1].alive ==> coupling_of(s, i).right == Some(
                (bond, s.slots[i + 1].potential),
            )
            &&& s.slots[i].alive ==> coupling_of(s, i + 1).left == Some(
                (bond, s.slots[i].potential),
            )
            &&& !s.slots[i + 1].alive ==> coupling_of(s, i).right is None
            &&& !s.slots[i].alive ==> coupling_of(s, i + 1).left is None
        }),
{
}

/// The ends of the chain have nothing beyond them.
pub proof fn law_chain_has_two_ends(s: SchedView)
    requires
        s.slots.len() > 0,
    ensures
        coupling_of(s, 0).left is None,
        coupling_of(s, s.slots.len() - 1).right is None,
{
}

/// A chain of `n` slots has a bond for each pair of neighbours, and two bonds that
/// follow each other differ.
pub proof fn law_bonds_alternate(n: nat, i: int)
    ensures
        n > 0 ==> bond_pattern(n).len() == n - 1,
        n == 0 ==> bond_pattern(n).len() == 0,
        n > 1 ==> bond_pattern(n)[0] == Bond::V,
        0 <= i && i + 2 < n ==> bond_pattern(n)[i] != bond_pattern(n)[i + 1],
        0 <= i && i + 1 < n ==> bond_pattern(n + 1)[i] == bond_pattern(n)[i],
{
}

/// Whether slot `w` has the highest of the new potentials that have reached 1.0, and of
/// equal ones the last. Numbers from 1.0 up to infinity are ordered as their bit
/// patterns are.
pub open spec fn has_highest(slots: Seq<TaskSlot>, potentials: Seq<u32>, w: int) -> bool {
    &&& 0 <= w < slots.len()
    &&& slots[w].alive
    &&& 0x3F80_0000 <= potentials[w] <= 0x7F80_0000
    &&& forall|j: int|
        0 <= j < slots.len() && slots[j].alive && 0x3F80_0000 <= #[trigger] potentials[j]
            <= 0x7F80_0000 ==> potentials[j] <= potentials[w] && (j > w ==> potentials[j]
            < potentials[w])
}

/// The slot that fires is the live one with the highest potential among those that have
/// reached the threshold.
pub proof fn law_highest_potential_fires(slots: Seq<TaskSlot>, potentials: Seq<u32>, w: int)
    ensures
        is_winner(charged(slots, potentials), w) <==> has_highest(slots, potentials, w),
{
    let after = charged(slots, potentials);
    if has_highest(slots, potentials, w) {
        assert forall|j: int| 0 <= j < after.len() && is_ready(#[trigger] after[j]) implies if j <= w {
            order_key(after[j].potential) <= order_key(after[w].potential)
        } else {
            order_key(after[j].potential) < order_key(after[w].potential)
        } by {
            assert(after[j].potential == potentials[j]);
        }
    }
    if is_winner(after, w) {
        assert forall|j: int|
            0 <= j < slots.len() && slots[j].alive && 0x3F80_0000 <= #[trigger] potentials[j]
                <= 0x7F80_0000 implies potentials[j] <= potentials[w] && (j > w ==> potentials[j]
            < potentials[w]) by {
            assert(is_ready(after[j]));
        }
    }
}

/// A slot that fires starts anew from zero with one more firing counted; every other
/// live slot takes its new potential, and dead ones keep everything.
pub proof fn law_firing_resets_one_slot(
    slots: Seq<TaskSlot>,
    potentials: Seq<u32>,
    w: int,
    j: int,
)
    requires
        0 <= w < slots.len(),
        slots[w].alive,
        0 <= j < slots.len(),
    ensures
        ({
            let after = fired(charged(slots, potentials), w);
            &&& after.len() == slots.len()
            &&& after[j].alive == slots[j].alive
            &&& after[w].potential == 0
            &&& after[w].fire_count == slots[w].fire_count.wrapping_add(1)
            &&& j != w && slots[j].alive ==> after[j].potential == potentials[j]
                && after[j].fire_count == slots[j].fire_count
            &&& !slots[j].alive ==> after[j] == slots[j]
        }),
{
}

/// Killing a slot leaves it dead and without potential, its count as it was, and every
/// other slot and all bonds untouched. A slot that is not there cannot be killed.
pub proof fn law_killing_touches_one_slot(s: SchedView, id: int, j: int)
    requires
        0 <= j < s.slots.len(),
    ensures
        ({
            let k = killed(s, id);
            &&& k.bonds == s.bonds
            &&& k.slots.len() == s.slots.len()
            &&& j != id ==> k.slots[j] == s.slots[j]
            &&& j == id ==> !k.slots[j].alive && k.slots[j].potential == 0 && k.slots[j].fire_count
                == s.slots[j].fire_count
        }),
        ({
            let r = revived(s, id);
            &&& r.bonds == s.bonds
            &&& r.slots.len() == s.slots.len()
            &&& j != id ==> r.slots[j] == s.slots[j]
            &&& j == id ==> r.slots[j].alive && r.slots[j].potential == 0 && r.slots[j].fire_count
                == 0
        }),
        grown(s).slots[j] == s.slots[j],
        grown(s).slots.len() == s.slots.len() + 1,
        grown(s).slots[s.slots.len() as int].alive,
        grown(s).slots[s.slots.len() as int].potential == 0,
        grown(s).slots[s.slots.len() as int].fire_count == 0,
{
}

/// The order of bit patterns is that of the numbers: positive ones by their pattern,
/// negative ones against it and below all others, and the two zeros alike.
pub proof fn law_order_is_that_of_the_numbers(a: u32, b: u32)
    ensures
        a < 0x8000_0000 && b < 0x8000_0000 ==> (order_key(a) < order_key(b) <==> a < b),
        a >= 0x8000_0000 && b >= 0x8000_0000 ==> (order_key(a) < order_key(b) <==> a > b),
        a > 0x8000_0000 && b < 0x8000_0000 ==> order_key(a) < order_key(b),
        order_key(0x8000_0000) == order_key(0),
        is_number(a) <==> (a <= 0x7F80_0000 || 0x8000_0000 <= a <= 0xFF80_0000),
{
}

/// A bank that grows has one live slot more, without a history, at its end; the others
/// stay as they were, and so do the bonds between them.
pub proof fn law_new_slot_joins_the_end(s: SchedView, j: int)
    requires
        s.bonds == bond_pattern(s.slots.len()),
        0 <= j < s.slots.len(),
    ensures
        ({
            let g = grown(s);
            &&& g.slots.len() == s.slots.len() + 1
            &&& g.slots[j] == s.slots[j]
            &&& g.slots.last().alive
            &&& g.slots.last().potential == 0
            &&& g.slots.last().fire_count == 0
            &&& g.bonds.len() == s.slots.len()
            &&& j < s.bonds.len() ==> g.bonds[j] == s.bonds[j]
            &&& j > 0 ==> g.bonds[j] != g.bonds[j - 1]
        }),
{
}

/// A slot that comes back is alive, without potential and without a count; the others
/// stay as they were.
pub proof fn law_returning_slot_is_fresh(s: SchedView, id: int, j: int)
    requires
        0 <= id < s.slots.len(),
        0 <= j < s.slots.len(),
    ensures
        ({
            let r = revived(s, id);
            &&& r.slots.len() == s.slots.len()
            &&& r.slots[id].alive
            &&& r.slots[id].potential == 0
            &&& r.slots[id].fire_count == 0
            &&& j != id ==> r.slots[j] == s.slots[j]
            &&& r.bonds == s.bonds
        }),
{
}

} // verus!
