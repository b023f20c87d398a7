//! PC speaker tones, on PIT channel 2.
//!
//! Each tone is a list of steps to play. Machines without a speaker
//! simply stay silent.

use vstd::prelude::*;

verus! {

pub const BASE_FREQUENCY: u32 = 1_193_182;

/// One step of a sound: a tone for some milliseconds, or silence.
#[derive(Clone, Copy, Debug, PartialEq, Eq, Structural)]
pub enum Step {
    Tone(u32, u64),
    Rest(u64),
}

/// The PIT divisor for `frequency`, or `None` outside the audible range
/// (20 Hz to 20 kHz), where the speaker is left alone.
pub fn start(frequency: u32) -> (r: Option<u16>)
    ensures
        (20 <= frequency <= 20_000) <==> r is Some,
        r matches Some(d) ==> d == BASE_FREQUENCY / frequency,
{
    if frequency < 20 || frequency > 20_000 {
        return None;
    }
    proof {
        vstd::arithmetic::div_mod::lemma_div_is_ordered_by_denominator(BASE_FREQUENCY as int, 20, frequency as int);
    }
    Some((BASE_FREQUENCY / frequency) as u16)
}

/// A blocking tone.
pub fn beep(frequency: u32, milliseconds: u64) -> (r: Vec<Step>)
    ensures
        r@ == seq![Step::Tone(frequency, milliseconds)],
{
    let mut r: Vec<Step> = Vec::new();
    r.push(Step::Tone(frequency, milliseconds));
    proof {
        assert(r@ =~= seq![Step::Tone(frequency, milliseconds)]);
    }
    r
}

/// The rising three-note figure played once the desktop is up.
pub fn boot_chime() -> (r: Vec<Step>)
    ensures
        r@ == seq![Step::Tone(523, 90), Step::Rest(20), Step::Tone(659, 90), Step::Rest(20),
            Step::Tone(988, 140), Step::Rest(20)],
{
    let mut r: Vec<Step> = Vec::new();
    r.push(Step::Tone(523, 90));
    r.push(Step::Rest(20));
    r.push(Step::Tone(659, 90));
    r.push(Step::Rest(20));
    r.push(Step::Tone(988, 140));
    r.push(Step::Rest(20));
    proof {
        assert(r@ =~= seq![Step::Tone(523, 90), Step::Rest(20), Step::Tone(659, 90), Step::Rest(20),
            Step::Tone(988, 140), Step::Rest(20)]);
    }
    r
}

pub fn blip() -> (r: Vec<Step>)
    ensures
        r@ == seq![Step::Tone(1400, 12)],
{
    beep(1400, 12)
}

pub fn error_tone() -> (r: Vec<Step>)
    ensures
        r@ == seq![Step::Tone(220, 90)],
{
    beep(220, 90)
}

} // verus!
