//! The base-out state machine: which bases are occupied and how many outs have
//! occurred, together with the pure transition function for each plate-appearance
//! outcome and the closed-form runs-scored computation between two states.

use vstd::prelude::*;

use crate::errors::SimError;

verus! {

/// A fully resolved plate-appearance result, the unit the state machine
/// consumes. `X1B` carries `(take home, take third)`: how far the lead and
/// trailing runners advance on a single. `X2B` carries `take home`: whether a
/// runner from first scores on a double.
#[derive(Clone, Copy, Debug, PartialEq, Eq, Structural)]
pub enum Event {
    X1B(bool, bool),
    X2B(bool),
    X3B,
    X4B,
    BB,
    Out,
}

/// The state of a half-inning in progress: three binary occupancy flags
/// (first, second, third base) and the number of outs.
#[derive(Clone, Copy, Debug, PartialEq, Eq)]
pub struct BOState {
    pub bases: [i32; 3],
    pub outs: i32,
}

/// A trailing runner cannot take a base the lead runner does not also clear:
/// `X1B(false, true)` is the one combination the machine refuses.
pub open spec fn event_legal(ev: Event) -> bool {
    ev != Event::X1B(false, true)
}

/// Each occupancy flag is binary and the out count lies in `[0, 3]`.
pub open spec fn state_wf(s: BOState) -> bool {
    &&& 0 <= s.bases[0] <= 1
    &&& 0 <= s.bases[1] <= 1
    &&& 0 <= s.bases[2] <= 1
    &&& 0 <= s.outs <= 3
}

/// How many runners are on base.
pub open spec fn runners(s: BOState) -> int {
    s.bases[0] + s.bases[1] + s.bases[2]
}

/// The state every trial starts from: empty bases, no outs.
pub open spec fn init_state() -> BOState {
    BOState { bases: [0i32, 0i32, 0i32], outs: 0 }
}

/// The transition table of the state machine, one row per outcome event.
pub open spec fn spec_evolve(s: BOState, ev: Event) -> BOState {
    match ev {
        Event::Out => BOState { bases: s.bases, outs: (s.outs + 1) as i32 },
        Event::BB => BOState {
            bases: [
                1i32,
                if s.bases[0] == 1 { 1i32 } else { s.bases[1] },
                if s.bases[0] == 1 && s.bases[1] == 1 { 1i32 } else { s.bases[2] },
            ],
            outs: s.outs,
        },
        Event::X1B(true, true) => BOState { bases: [1i32, 0i32, s.bases[0]], outs: s.outs },
        Event::X1B(true, false) => BOState { bases: [1i32, s.bases[0], 0i32], outs: s.outs },
        Event::X1B(false, _) => BOState { bases: [1i32, s.bases[0], s.bases[1]], outs: s.outs },
        Event::X2B(true) => BOState { bases: [0i32, 1i32, 0i32], outs: s.outs },
        Event::X2B(false) => BOState { bases: [0i32, 1i32, s.bases[0]], outs: s.outs },
        Event::X3B => BOState { bases: [0i32, 0i32, 1i32], outs: s.outs },
        Event::X4B => BOState { bases: [0i32, 0i32, 0i32], outs: s.outs },
    }
}

/// Runs scored between two consecutive states, by base-runner conservation:
/// every runner (batter included) either stays on base, scores, or is put out,
/// so `runs = 1 - (change in outs) - (change in runners)`.
pub open spec fn spec_runs(new: BOState, old: BOState) -> int {
    1 - (new.outs - old.outs) - (runners(new) - runners(old))
}

impl BOState {
    /// Runs scored on the play that turned `last_state` into `self`.
    pub fn runs_scored(&self, last_state: BOState) -> (r: i32)
        requires
            state_wf(*self),
            state_wf(last_state),
        ensures
            r == spec_runs(*self, last_state),
    {
        let runners_end: i32 = self.bases[0] + self.bases[1] + self.bases[2];
        let runners_start: i32 = last_state.bases[0] + last_state.bases[1] + last_state.bases[2];
        let douts = self.outs - last_state.outs;
        -douts - (runners_end - runners_start) + 1
    }

    /// Apply one outcome event to a non-terminal state, producing the next
    /// state of the inning. The one illegal advancement combination is ruled
    /// out by precondition; `try_evolve` reports it as an error instead.
    pub fn evolve_state(&self, ev: Event) -> (next: BOState)
        requires
            state_wf(*self),
            self.outs < 3,
            event_legal(ev),
        ensures
            next == spec_evolve(*self, ev),
            state_wf(next),
    {
        match ev {
            Event::Out => BOState { bases: self.bases, outs: self.outs + 1 },
            Event::BB => {
                let b1: i32 = 1;
                let b2: i32 = if self.bases[0] == 1 { 1 } else { self.bases[1] };
                let b3: i32 = if self.bases[0] == 1 && self.bases[1] == 1 {
                    1
                } else {
                    self.bases[2]
                };
                BOState { bases: [b1, b2, b3], outs: self.outs }
            },
            Event::X1B(go_34, go_23) => {
                let b1: i32 = 1;
                let (b3, b2): (i32, i32) = match (go_34, go_23) {
                    (true, true) => (self.bases[0], 0),
                    (true, false) => (0, self.bases[0]),
                    (false, false) => (self.bases[1], self.bases[0]),
                    (false, true) => unreached(),
                };
                BOState { bases: [b1, b2, b3], outs: self.outs }
            },
            Event::X2B(go_34) => {
                let b3: i32 = if go_34 { 0 } else { self.bases[0] };
                BOState { bases: [0, 1, b3], outs: self.outs }
            },
            Event::X3B => BOState { bases: [0, 0, 1], outs: self.outs },
            Event::X4B => BOState { bases: [0, 0, 0], outs: self.outs },
        }
    }

    /// Like `evolve_state`, but reports the illegal advancement combination
    /// `X1B(false, true)` as `IllegalAdvancement` instead of ruling it out:
    /// it fails exactly on that event, whatever the input state.
    pub fn try_evolve(&self, ev: Event) -> (r: Result<BOState, SimError>)
        requires
            state_wf(*self),
            self.outs < 3,
        ensures
            r is Err <==> ev == Event::X1B(false, true),
            r matches Err(e) ==> e == SimError::IllegalAdvancement,
            r matches Ok(next) ==> next == spec_evolve(*self, ev) && state_wf(next),
    {
        match ev {
            Event::X1B(false, true) => Err(SimError::IllegalAdvancement),
            _ => Ok(self.evolve_state(ev)),
        }
    }
}

/// Every transition from a well-formed, non-terminal state yields a
/// well-formed state: occupancy flags stay binary and the out count stays in
/// `[0, 3]`, so all states reachable from the initial one are well-formed.
pub proof fn lemma_evolve_preserves_wf(s: BOState, ev: Event)
    requires
        state_wf(s),
        s.outs < 3,
        event_legal(ev),
    ensures
        state_wf(spec_evolve(s, ev)),
{
}

/// The runs-scored computation is conservative: one play never scores a
/// negative number of runs, and never more than one run per runner on base
/// plus one for the batter.
pub proof fn lemma_runs_conservative(s: BOState, ev: Event)
    requires
        state_wf(s),
        s.outs < 3,
        event_legal(ev),
    ensures
        0 <= spec_runs(spec_evolve(s, ev), s),
        spec_runs(spec_evolve(s, ev), s) <= 1 + runners(s),
{
}

/// The state after recording `k` outs in a row from `s`.
pub open spec fn apply_outs(s: BOState, k: nat) -> BOState
    decreases k,
{
    if k == 0 {
        s
    } else {
        spec_evolve(apply_outs(s, (k - 1) as nat), Event::Out)
    }
}

/// Applying `Out` repeatedly never changes the bases and raises the out count
/// one step at a time, so from out count `o` the terminal count of three is
/// reached after exactly `3 - o` outs and not before.
pub proof fn lemma_outs_progress(s: BOState, k: nat)
    requires
        state_wf(s),
        k <= 3 - s.outs,
    ensures
        apply_outs(s, k).bases == s.bases,
        apply_outs(s, k).outs == s.outs + k,
        k < 3 - s.outs ==> apply_outs(s, k).outs < 3,
    decreases k,
{
    if k > 0 {
        lemma_outs_progress(s, (k - 1) as nat);
    }
}

/// A home run clears the bases and scores one run for the batter plus one for
/// every runner that was on base.
pub proof fn lemma_home_run(s: BOState)
    requires
        state_wf(s),
        s.outs < 3,
    ensures
        runners(spec_evolve(s, Event::X4B)) == 0,
        spec_evolve(s, Event::X4B).outs == s.outs,
        spec_runs(spec_evolve(s, Event::X4B), s) == 1 + runners(s),
{
}

} // verus!
