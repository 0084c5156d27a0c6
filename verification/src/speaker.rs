//! The PC speaker: which register values make it sound.

use vstd::prelude::*;

verus! {

/// Ticks per second of the timer that drives the speaker.
pub const PIT_BASE_HZ: u32 = 1_193_182;

/// The lowest frequency that is played.
pub const MIN_FREQ_HZ: u32 = 20;

/// Selects channel 2, low byte then high byte, square wave.
pub const PIT_SQUARE_WAVE: u8 = 0xB6;

/// What a beep writes: a timer command, and the timer's divisor in two bytes.
pub struct Tone {
    pub command: u8,
    pub low: u8,
    pub high: u8,
}

/// The timer divisor for a frequency.
pub open spec fn divisor_of(freq_hz: u32) -> int {
    PIT_BASE_HZ as int / (if freq_hz < MIN_FREQ_HZ {
        MIN_FREQ_HZ as int
    } else {
        freq_hz as int
    })
}

/// The timer values for a tone. Very low frequencies are raised to the lowest that
/// the timer can play.
pub fn beep(freq_hz: u32) -> (r: Tone)
    ensures
        r.command == PIT_SQUARE_WAVE,
        r.command == 0xB6,
        r.low + 0x100 * r.high == divisor_of(freq_hz),
{
    let freq: u32 = if freq_hz < MIN_FREQ_HZ {
        MIN_FREQ_HZ
    } else {
        freq_hz
    };
    let divisor: u32 = PIT_BASE_HZ / freq;
    assert(divisor <= 59659) by (nonlinear_arith)
        requires
            divisor == 1_193_182u32 / freq,
            freq >= 20,
    ;
    Tone { command: PIT_SQUARE_WAVE, low: (divisor % 0x100) as u8, high: (divisor / 0x100) as u8 }
}

/// Whether a gate register value lets the speaker sound.
pub open spec fn gate_open(gate: u8) -> bool {
    gate & 3 == 3
}

/// The value of the control register that turns the speaker on.
pub fn gate_on(current: u8) -> (r: u8)
    ensures
        r == current | 3,
        r == current - current % 4 + 3,
        gate_open(r),
{
    assert((current | 3) & 3 == 3 && (current | 3) == current - current % 4 + 3) by (bit_vector);
    current | 3
}

/// The value of the control register that turns the speaker off.
pub fn stop(current: u8) -> (r: u8)
    ensures
        r == current & 0xFC,
        r == current - current % 4,
        !gate_open(r),
{
    assert((current & 0xFC) & 3 == 0 && current & 0xFC == current - current % 4) by (bit_vector);
    current & 0xFC
}

/// Whether the speaker is on.
pub fn is_enabled(gate: u8) -> (r: bool)
    ensures
        r == gate_open(gate),
        r == (gate % 4 == 3),
{
    assert((gate & 3 == 3) == (gate % 4 == 3)) by (bit_vector);
    gate & 3 == 3
}

/// Turning the speaker on and off again leaves the other bits of the register as
/// they were.
pub proof fn law_gate_keeps_other_bits(current: u8)
    ensures
        (current | 3) & 0xFC == current & 0xFC,
{
    assert((current | 3) & 0xFC == current & 0xFC) by (bit_vector);
}

/// The tone sounds at the frequency asked for, or at 20 Hz where that is higher: the
/// timer's 1193182 Hz hold as many periods of it as the divisor says, rounded down.
pub proof fn law_tone_has_the_frequency(freq_hz: u32)
    ensures
        ({
            let f = if freq_hz < 20 {
                20
            } else {
                freq_hz as int
            };
            let d = divisor_of(freq_hz);
            0 <= d <= 0xFFFF && d * f <= 1_193_182 < (d + 1) * f
        }),
{
    let f = if freq_hz < 20 {
        20
    } else {
        freq_hz as int
    };
    let d = divisor_of(freq_hz);
    assert(d * f <= 1_193_182 < (d + 1) * f && 0 <= d <= 0xFFFF) by (nonlinear_arith)
        requires
            d == 1_193_182int / f,
            20 <= f,
    ;
}

} // verus!
