//! The fixed part of the network: two keys and a motor.
//!
//! The network itself computes with single-precision numbers. What is decided here
//! is which neurons and synapses are meant, which stored weights they start from,
//! and what is reported of them. Numbers that are not whole appear by their bit
//! patterns, packed weights, or as text.

use crate::ata::{
    law_weights_read_back, save_weights, synapses_view, weights_in, weights_sector, SynapseView,
    SynapseWeight, PERSIST_LBA,
};
use crate::disk::{SectorWrite, WriteView};
use crate::fs::storable;
use crate::numbers::{decimal, decimal_text};
use crate::text::{owned, same_text};
use vstd::prelude::*;
use vstd::string::StringExecFns;
use vstd::utf8::is_ascii_chars_encode_utf8;

verus! {

/// The bit pattern of 100.0.
pub const KEY_THRESHOLD_BITS: u32 = 0x42C8_0000;

/// The bit pattern of 5.0.
pub const KEY_LEAK_BITS: u32 = 0x40A0_0000;

/// The bit pattern of 80.0.
pub const MOTOR_THRESHOLD_BITS: u32 = 0x42A0_0000;

/// The bit pattern of 3.0.
pub const MOTOR_LEAK_BITS: u32 = 0x4040_0000;

/// Ticks for which a neuron rests after it fired.
pub const REFRACTORY_TICKS: u32 = 7;

/// The bit pattern of 0.5, the weight of a synapse that has not learned.
pub const INITIAL_WEIGHT_BITS: u32 = 0x3F00_0000;

/// The bit pattern of 120.0, what a key press adds.
pub const KEY_STIM_AMOUNT_BITS: u32 = 0x42F0_0000;

/// A neuron of the fixed network.
#[derive(Clone, Copy)]
pub enum Neuron {
    LeftKey,
    RightKey,
    Motor,
}

impl Neuron {
    pub open spec fn text(self) -> Seq<char> {
        match self {
            Neuron::LeftKey => "LeftKey"@,
            Neuron::RightKey => "RightKey"@,
            Neuron::Motor => "Motor"@,
        }
    }

    /// The name that the network knows the neuron by.
    pub fn name(self) -> (r: &'static str)
        ensures
            r@ == self.text(),
    {
        match self {
            Neuron::LeftKey => "LeftKey",
            Neuron::RightKey => "RightKey",
            Neuron::Motor => "Motor",
        }
    }
}

/// The weight that a synapse starts with.
pub enum StartWeight {
    /// The weight of a synapse that has not learned.
    Initial,
    /// A weight that was stored, packed.
    Stored([u8; 2]),
}

/// The weight that a synapse starts with, as a mathematical value.
pub enum StartView {
    Initial,
    Stored(Seq<u8>),
}

impl StartWeight {
    pub open spec fn view(self) -> StartView {
        match self {
            StartWeight::Initial => StartView::Initial,
            StartWeight::Stored(w) => StartView::Stored(w@),
        }
    }
}

impl StartWeight {
    /// The bit pattern of the weight of a synapse that has not learned. A stored weight
    /// is unpacked by the network.
    pub fn initial_bits(&self) -> (r: Option<u32>)
        ensures
            r == (match self@ {
                StartView::Initial => Some(INITIAL_WEIGHT_BITS),
                StartView::Stored(_) => None,
            }),
    {
        match self {
            StartWeight::Initial => Some(INITIAL_WEIGHT_BITS),
            StartWeight::Stored(_) => None,
        }
    }
}

/// The bit patterns of a neuron's threshold and leak, and the ticks for which it rests
/// after it fired.
pub open spec fn parameters_of(n: Neuron) -> (u32, u32, u32) {
    match n {
        Neuron::LeftKey => (KEY_THRESHOLD_BITS, KEY_LEAK_BITS, REFRACTORY_TICKS),
        Neuron::RightKey => (KEY_THRESHOLD_BITS, KEY_LEAK_BITS, REFRACTORY_TICKS),
        Neuron::Motor => (MOTOR_THRESHOLD_BITS, MOTOR_LEAK_BITS, REFRACTORY_TICKS),
    }
}

/// The bit patterns of a neuron's threshold and leak, and the ticks for which it rests
/// after it fired.
pub fn parameters(n: Neuron) -> (r: (u32, u32, u32))
    ensures
        r == parameters_of(n),
{
    match n {
        Neuron::LeftKey | Neuron::RightKey => (KEY_THRESHOLD_BITS, KEY_LEAK_BITS, REFRACTORY_TICKS),
        Neuron::Motor => (MOTOR_THRESHOLD_BITS, MOTOR_LEAK_BITS, REFRACTORY_TICKS),
    }
}

/// How the network starts: the parameters of its three neurons, the weights of its two
/// synapses, and whether stored weights were found.
pub struct NetworkStart {
    pub left_key: (u32, u32, u32),
    pub right_key: (u32, u32, u32),
    pub motor: (u32, u32, u32),
    pub left: StartWeight,
    pub right: StartWeight,
    pub loaded: bool,
}

/// The weight of the first entry for a synapse among the first `k`.
pub open spec fn weight_for(es: Seq<SynapseView>, from: Seq<char>, to: Seq<char>, k: nat) -> StartView
    decreases k,
{
    if k == 0 {
        StartView::Initial
    } else {
        match weight_for(es, from, to, (k - 1) as nat) {
            StartView::Stored(w) => StartView::Stored(w),
            StartView::Initial => if es[k - 1].from == from && es[k - 1].to == to {
                StartView::Stored(es[k - 1].weight)
            } else {
                StartView::Initial
            },
        }
    }
}

fn find_weight(es: &Vec<SynapseWeight>, from: Neuron, to: Neuron) -> (r: StartWeight)
    ensures
        r@ == weight_for(synapses_view(es@), from.text(), to.text(), es@.len()),
{
    let ghost v = synapses_view(es@);
    let mut found = StartWeight::Initial;
    let mut k: usize = 0;
    while k < es.len()
        invariant
            k <= es@.len(),
            v == synapses_view(es@),
            found@ == weight_for(v, from.text(), to.text(), k as nat),
        decreases es@.len() - k,
    {
        let fresh = match found {
            StartWeight::Initial => true,
            StartWeight::Stored(_) => false,
        };
        if fresh && same_text(es[k].from.as_str(), from.name()) && same_text(
            es[k].to.as_str(),
            to.name(),
        ) {
            found = StartWeight::Stored(es[k].weight);
        }
        k += 1;
    }
    found
}

/// How the network starts from the weights that were found on the drive, if any
/// were.
pub fn init(stored: &Option<Vec<SynapseWeight>>) -> (r: NetworkStart)
    ensures
        r.left_key == parameters_of(Neuron::LeftKey),
        r.right_key == parameters_of(Neuron::RightKey),
        r.motor == parameters_of(Neuron::Motor),
        match stored {
            Some(es) => {
                let v = synapses_view(es@);
                &&& r.left@ == weight_for(v, "LeftKey"@, "Motor"@, v.len())
                &&& r.right@ == weight_for(v, "RightKey"@, "Motor"@, v.len())
                &&& r.loaded
            },
            None => r.left@ == StartView::Initial && r.right@ == StartView::Initial && !r.loaded,
        },
{
    let (left, right, loaded) = match stored {
        Some(es) => (
            find_weight(es, Neuron::LeftKey, Neuron::Motor),
            find_weight(es, Neuron::RightKey, Neuron::Motor),
            true,
        ),
        None => (StartWeight::Initial, StartWeight::Initial, false),
    };
    NetworkStart {
        left_key: parameters(Neuron::LeftKey),
        right_key: parameters(Neuron::RightKey),
        motor: parameters(Neuron::Motor),
        left,
        right,
        loaded,
    }
}

/// The neuron that a character stimulates, and by how much.
pub open spec fn stimulus_of(c: char) -> Option<(Neuron, u32)> {
    if c == 'a' {
        Some((Neuron::LeftKey, KEY_STIM_AMOUNT_BITS))
    } else if c == 'd' {
        Some((Neuron::RightKey, KEY_STIM_AMOUNT_BITS))
    } else {
        None
    }
}

/// The neuron that a key press stimulates, and by how much.
pub fn on_key_stimulus(c: char) -> (r: Option<(Neuron, u32)>)
    ensures
        r == stimulus_of(c),
{
    if c == 'a' {
        Some((Neuron::LeftKey, KEY_STIM_AMOUNT_BITS))
    } else if c == 'd' {
        Some((Neuron::RightKey, KEY_STIM_AMOUNT_BITS))
    } else {
        None
    }
}

/// What the two synapses are stored as.
pub open spec fn fixed_synapses(left: Seq<u8>, right: Seq<u8>) -> Seq<SynapseView> {
    seq![
        SynapseView { from: "LeftKey"@, to: "Motor"@, weight: left },
        SynapseView { from: "RightKey"@, to: "Motor"@, weight: right },
    ]
}

/// The write that stores the weights of the two synapses, where both are known.
pub fn save_weights_to_disk(left: Option<[u8; 2]>, right: Option<[u8; 2]>) -> (r: Result<
    SectorWrite,
    &'static str,
>)
    ensures
        match r {
            Ok(w) => left is Some && right is Some && w@ == (WriteView {
                lba: PERSIST_LBA,
                data: weights_sector(fixed_synapses(left->0@, right->0@)),
            }),
            Err(e) => (left is None || right is None) && e@ == "network not initialized"@,
        },
{
    let l = match left {
        Some(w) => w,
        None => return Err("network not initialized"),
    };
    let r = match right {
        Some(w) => w,
        None => return Err("network not initialized"),
    };
    let mut entries: Vec<SynapseWeight> = Vec::new();
    entries.push(SynapseWeight { from: owned("LeftKey"), to: owned("Motor"), weight: l });
    entries.push(SynapseWeight { from: owned("RightKey"), to: owned("Motor"), weight: r });
    assert(synapses_view(entries@) == fixed_synapses(l@, r@));
    save_weights(&entries)
}

/// A training trial: the two neurons fire `gap_ticks` apart, the first one first
/// where the synapse is to grow stronger.
pub struct Trial {
    pub from: Neuron,
    pub to: Neuron,
    pub gap_ticks: u64,
    pub ltp: bool,
}

/// A trial on the left key's synapse.
pub fn run_training_trial(ltp: bool, gap_ticks: u64) -> (r: Trial)
    ensures
        r == (Trial { from: Neuron::LeftKey, to: Neuron::Motor, gap_ticks, ltp }),
{
    Trial { from: Neuron::LeftKey, to: Neuron::Motor, gap_ticks, ltp }
}

/// What is known of a neuron: its potential with one decimal place and at least five
/// characters, and how often it fired.
pub struct Reading {
    pub voltage: String,
    pub fires: u64,
}

pub open spec fn reading_text(r: Option<Reading>) -> Seq<char> {
    match r {
        Some(x) => x.voltage@ + " fires="@ + decimal_text(x.fires as nat),
        None => "  0.0 fires=0"@,
    }
}

pub open spec fn weight_text(w: Option<String>) -> Seq<char> {
    match w {
        Some(x) => x@,
        None => "0.0000"@,
    }
}

/// The report on the fixed network.
pub open spec fn report_text(
    left: Option<Reading>,
    right: Option<Reading>,
    motor: Option<Reading>,
    left_weight: Option<String>,
    right_weight: Option<String>,
) -> Seq<char> {
    "LeftKey  V="@ + reading_text(left) + "\nRightKey V="@ + reading_text(right)
        + "\nMotor    V="@ + reading_text(motor)
        + "  (threshold=80; MILESTONE 21: firing now propagates to Motor on the NEXT tick, via network.rs's shared one-tick synaptic delay, not the same tick)\nweights: LeftKey->Motor="@
        + weight_text(left_weight) + "  RightKey->Motor="@ + weight_text(right_weight) + "\n"@
}

fn reading(r: &Option<Reading>) -> (s: String)
    ensures
        s@ == reading_text(*r),
{
    match r {
        Some(x) => {
            let mut s = owned(x.voltage.as_str());
            s.append(" fires=");
            s.append(decimal(x.fires).as_str());
            s
        },
        None => owned("  0.0 fires=0"),
    }
}

fn weight(w: &Option<String>) -> (s: String)
    ensures
        s@ == weight_text(*w),
{
    match w {
        Some(x) => owned(x.as_str()),
        None => owned("0.0000"),
    }
}

/// The report on the fixed network. Weights are given with four decimal places.
pub fn report(
    left: &Option<Reading>,
    right: &Option<Reading>,
    motor: &Option<Reading>,
    left_weight: &Option<String>,
    right_weight: &Option<String>,
) -> (r: String)
    ensures
        r@ == report_text(*left, *right, *motor, *left_weight, *right_weight),
{
    let mut out = owned("LeftKey  V=");
    out.append(reading(left).as_str());
    out.append("\nRightKey V=");
    out.append(reading(right).as_str());
    out.append("\nMotor    V=");
    out.append(reading(motor).as_str());
    out.append(
        "  (threshold=80; MILESTONE 21: firing now propagates to Motor on the NEXT tick, via network.rs's shared one-tick synaptic delay, not the same tick)\nweights: LeftKey->Motor=",
    );
    out.append(weight(left_weight).as_str());
    out.append("  RightKey->Motor=");
    out.append(weight(right_weight).as_str());
    out.append("\n");
    out
}

/// Weights that were saved are the ones that the network starts from after they were
/// loaded again.
pub proof fn law_saved_weights_are_restored(left: Seq<u8>, right: Seq<u8>)
    requires
        left.len() == 2,
        right.len() == 2,
    ensures
        ({
            let es = weights_in(Some(weights_sector(fixed_synapses(left, right))));
            &&& es == Some(fixed_synapses(left, right))
            &&& weight_for(es->0, "LeftKey"@, "Motor"@, es->0.len()) == StartView::Stored(left)
            &&& weight_for(es->0, "RightKey"@, "Motor"@, es->0.len()) == StartView::Stored(right)
        }),
{
    let es = fixed_synapses(left, right);
    reveal_strlit("LeftKey");
    reveal_strlit("RightKey");
    reveal_strlit("Motor");
    lemma_ascii_name("LeftKey"@);
    lemma_ascii_name("RightKey"@);
    lemma_ascii_name("Motor"@);
    law_weights_read_back(es);
    assert(es.take(2) == es);
    assert("LeftKey"@.len() != "RightKey"@.len());
    reveal_with_fuel(weight_for, 3);
}

/// A short ASCII name is stored whole.
proof fn lemma_ascii_name(name: Seq<char>)
    requires
        name.len() <= 16,
        forall|i: int| 0 <= i < name.len() ==> '\0' < #[trigger] name[i] && name[i] <= '\u{7f}',
    ensures
        storable(name),
{
    is_ascii_chars_encode_utf8(name);
}

/// A connection starts with the weight that was stored first for it, and with the
/// initial one where none was.
pub proof fn law_first_stored_weight_counts(
    es: Seq<SynapseView>,
    from: Seq<char>,
    to: Seq<char>,
    i: int,
)
    requires
        0 <= i <= es.len(),
        forall|j: int| 0 <= j < i ==> !((#[trigger] es[j]).from == from && es[j].to == to),
        i < es.len() ==> es[i].from == from && es[i].to == to,
    ensures
        weight_for(es, from, to, es.len()) == (if i < es.len() {
            StartView::Stored(es[i].weight)
        } else {
            StartView::Initial
        }),
{
    lemma_weight_for(es, from, to, i, es.len());
}

proof fn lemma_weight_for(
    es: Seq<SynapseView>,
    from: Seq<char>,
    to: Seq<char>,
    i: int,
    k: nat,
)
    requires
        0 <= i <= es.len(),
        k <= es.len(),
        forall|j: int| 0 <= j < i ==> !((#[trigger] es[j]).from == from && es[j].to == to),
        i < es.len() ==> es[i].from == from && es[i].to == to,
    ensures
        weight_for(es, from, to, k) == (if i < k {
            StartView::Stored(es[i].weight)
        } else {
            StartView::Initial
        }),
    decreases k,
{
    if k > 0 {
        lemma_weight_for(es, from, to, i, (k - 1) as nat);
        assert(es[k - 1].from == from && es[k - 1].to == to ==> k - 1 >= i);
    }
}

/// The two key neurons are alike: a threshold of 100 and a leak of 5. That of the motor
/// is lower, at 80 and 3. All three rest for seven ticks. (Thresholds and leaks are
/// given by their single-precision bits.)
pub proof fn law_neurons_have_their_parameters(n: Neuron)
    ensures
        parameters_of(n) == (if n is Motor {
            (0x42A0_0000u32, 0x4040_0000u32, 7u32)
        } else {
            (0x42C8_0000u32, 0x40A0_0000u32, 7u32)
        }),
{
}

/// The `a` key stimulates the left neuron and the `d` key the right one, each by 120
/// (given by its single-precision bits); no other key stimulates any.
pub proof fn law_two_keys_stimulate(c: char)
    ensures
        stimulus_of(c) is Some <==> c == 'a' || c == 'd',
        stimulus_of(c) matches Some((n, amount)) ==> amount == 0x42F0_0000 && (n is LeftKey <==> c
            == 'a') && (n is RightKey <==> c == 'd'),
{
}

} // verus!
