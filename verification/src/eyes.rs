//! The blinking of a dango's eyes: open for a while, then a single or a double blink.

use vstd::prelude::*;

verus! {

/// Where the eyes are in their blink cycle.
#[derive(Clone, Copy, Debug, PartialEq, Eq, Structural)]
pub enum EyeState {
    Open,
    BlinkClosedFirst,
    BlinkOpen,
    BlinkClosedSecond,
}

/// How long a blink state lasts.
#[derive(Clone, Copy, Debug, PartialEq, Eq, Structural)]
pub enum EyeStateDuration {
    /// The short duration of one phase of a blink.
    Blink,
    /// A random stretch of open eyes.
    RandomOpen,
}

/// The state after `state` when its time is up; `double_blink` is the coin that decides
/// whether open eyes blink twice.
pub open spec fn next_eye_state(state: EyeState, double_blink: bool) -> EyeState {
    match state {
        EyeState::Open => if double_blink { EyeState::BlinkClosedFirst } else { EyeState::BlinkClosedSecond },
        EyeState::BlinkClosedFirst => EyeState::BlinkOpen,
        EyeState::BlinkOpen => EyeState::BlinkClosedSecond,
        EyeState::BlinkClosedSecond => EyeState::Open,
    }
}

impl EyeState {
    /// The eyes' first state: just closing, so that they open at once.
    pub fn initial() -> (state: EyeState)
        ensures
            state == EyeState::BlinkClosedSecond,
    {
        EyeState::BlinkClosedSecond
    }

    /// The next state and how long it lasts: open eyes close for a single blink, or for a
    /// double one when the coin says so; a blink's phases follow each other, and after the
    /// last one the eyes stay open for a random while.
    pub fn next(&self, double_blink: bool) -> (next: (EyeState, EyeStateDuration))
        ensures
            next.0 == next_eye_state(*self, double_blink),
            next.1 == (if next.0 == EyeState::Open { EyeStateDuration::RandomOpen } else { EyeStateDuration::Blink }),
    {
        match self {
            EyeState::Open => {
                if double_blink {
                    (EyeState::BlinkClosedFirst, EyeStateDuration::Blink)
                } else {
                    (EyeState::BlinkClosedSecond, EyeStateDuration::Blink)
                }
            },
            EyeState::BlinkClosedFirst => (EyeState::BlinkOpen, EyeStateDuration::Blink),
            EyeState::BlinkOpen => (EyeState::BlinkClosedSecond, EyeStateDuration::Blink),
            EyeState::BlinkClosedSecond => (EyeState::Open, EyeStateDuration::RandomOpen),
        }
    }

    /// Whether the eyes are drawn open (a vertical stroke) rather than closed (a curve).
    pub fn looks_open(&self) -> (open: bool)
        ensures
            open == (*self == EyeState::Open || *self == EyeState::BlinkOpen),
    {
        match self {
            EyeState::Open | EyeState::BlinkOpen => true,
            _ => false,
        }
    }
}

/// Law: closed eyes open again within three state changes, whatever the coins say.
pub proof fn lemma_eyes_reopen(state: EyeState, c1: bool, c2: bool, c3: bool)
    requires
        state != EyeState::Open,
    ensures
        next_eye_state(state, c1) == EyeState::Open
            || next_eye_state(next_eye_state(state, c1), c2) == EyeState::Open
            || next_eye_state(next_eye_state(next_eye_state(state, c1), c2), c3) == EyeState::Open,
{
}

} // verus!
