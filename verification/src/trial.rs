//! The trial driver and the parallel runner. One trial plays a half-inning
//! from the initial state: it repeatedly samples an outcome event, evolves the
//! base-out state, and accumulates the runs scored on each play, stopping the
//! moment the third out is recorded. The contract speaks of the trace of
//! events the trial consumed: whatever the random draws were, the returned
//! total is the run total of some sampler-consistent trace. Many independent
//! trials run concurrently on rayon's worker pool, or sequentially.

use rayon::iter::IntoParallelIterator;
use rayon::iter::ParallelIterator;
use vstd::prelude::*;

use crate::sampler::WeightedOutcomeSampler;
use crate::state::BOState;
use crate::state::Event;
use crate::state::init_state;
use crate::state::lemma_runs_conservative;
use crate::state::runners;
use crate::state::spec_evolve;
use crate::state::spec_runs;
use crate::state::state_wf;

verus! {

/// A trial is cut off after this many plate appearances. Three outs arrive
/// long before this in any run that terminates at all, since the out outcome
/// always carries positive weight; the cap only makes termination of the
/// loop a theorem rather than a probability-one event.
pub const MAX_TRIAL_STEPS: u32 = 65535;

/// The state of the inning after the events of `t`, applied in order from the
/// initial state.
pub open spec fn run_state(t: Seq<Event>) -> BOState
    decreases t.len(),
{
    if t.len() == 0 {
        init_state()
    } else {
        spec_evolve(run_state(t.drop_last()), t.last())
    }
}

/// The total runs scored over the events of `t`, summed play by play from the
/// initial state.
pub open spec fn trace_runs(t: Seq<Event>) -> int
    decreases t.len(),
{
    if t.len() == 0 {
        0
    } else {
        trace_runs(t.drop_last()) + spec_runs(run_state(t), run_state(t.drop_last()))
    }
}

/// `t` is a trace the sampler could have produced for a trial: every event
/// stands in the table with positive weight, and every event was applied to a
/// state that still had fewer than three outs.
pub open spec fn trial_trace(s: WeightedOutcomeSampler, t: Seq<Event>) -> bool {
    forall|j: int|
        0 <= j < t.len() ==> s.samplable(#[trigger] t[j]) && run_state(t.take(j)).outs < 3
}

/// What a finished trial promises of its run total: some sampler-consistent
/// trace produced it, and that trace either reached the third out or ran to
/// the step cap; and if only the out carries weight, the total is zero.
pub open spec fn trial_post(s: WeightedOutcomeSampler, runs: u16) -> bool {
    &&& exists|t: Seq<Event>|
        #[trigger] trial_trace(s, t) && runs == trace_runs(t) && (run_state(t).outs == 3
            || t.len() == MAX_TRIAL_STEPS)
    &&& (s.out_only() ==> runs == 0)
}

/// Over any whole trace from the initial state, the play-by-play run total
/// collapses to the base-runner conservation closed form: one batter per
/// event, minus the outs recorded, minus the runners left on base.
pub proof fn lemma_trace_runs_closed_form(t: Seq<Event>)
    ensures
        trace_runs(t) == t.len() - run_state(t).outs - runners(run_state(t)),
    decreases t.len(),
{
    if t.len() > 0 {
        lemma_trace_runs_closed_form(t.drop_last());
    }
}

/// Appending one event to a trace evolves its final state by that event and
/// adds that play's runs to its total.
pub proof fn lemma_trace_push(t: Seq<Event>, ev: Event)
    ensures
        run_state(t.push(ev)) == spec_evolve(run_state(t), ev),
        trace_runs(t.push(ev)) == trace_runs(t) + spec_runs(
            spec_evolve(run_state(t), ev),
            run_state(t),
        ),
{
    assert(t.push(ev).drop_last() =~= t);
}

/// A sampler-consistent trace stays consistent when a samplable event is
/// applied to its non-terminal final state.
pub proof fn lemma_trial_trace_push(s: WeightedOutcomeSampler, t: Seq<Event>, ev: Event)
    requires
        trial_trace(s, t),
        s.samplable(ev),
        run_state(t).outs < 3,
    ensures
        trial_trace(s, t.push(ev)),
{
    let p = t.push(ev);
    assert forall|j: int| 0 <= j < p.len() implies s.samplable(p[j]) && run_state(
        p.take(j),
    ).outs < 3 by {
        if j < t.len() {
            assert(p[j] == t[j]);
            assert(p.take(j) =~= t.take(j));
        } else {
            assert(p[j] == ev);
            assert(p.take(j) =~= t);
        }
    }
}

/// Every prefix of a sampler-consistent trace is sampler-consistent.
pub proof fn lemma_trial_trace_prefix(s: WeightedOutcomeSampler, t: Seq<Event>, i: int)
    requires
        trial_trace(s, t),
        0 <= i <= t.len(),
    ensures
        trial_trace(s, t.take(i)),
{
    let p = t.take(i);
    assert forall|j: int| 0 <= j < p.len() implies s.samplable(p[j]) && run_state(
        p.take(j),
    ).outs < 3 by {
        assert(p[j] == t[j]);
        assert(p.take(j) =~= t.take(j));
    }
}

/// When only the out carries weight, every samplable event is the out.
pub proof fn lemma_out_only_event(s: WeightedOutcomeSampler, ev: Event)
    requires
        s.wf(),
        s.out_only(),
        s.samplable(ev),
    ensures
        ev == Event::Out,
{
    let i = choose|i: int|
        0 <= i < s.events@.len() && (#[trigger] s.weights@[i]) > 0 && s.events@[i] == ev;
    assert(s.weights@[i] > 0);
    assert(s.events@[i] == Event::Out);
}

/// Under a sampler in which only the out carries weight, a trace is nothing
/// but outs: the out count equals its length, no run is ever scored, and the
/// trace cannot go on past the third out — so a trace that reaches three outs
/// has exactly three events.
pub proof fn lemma_out_only_trace(s: WeightedOutcomeSampler, t: Seq<Event>)
    requires
        s.wf(),
        s.out_only(),
        trial_trace(s, t),
    ensures
        t.len() <= 3,
        run_state(t).outs == t.len(),
        run_state(t).bases == init_state().bases,
        trace_runs(t) == 0,
        forall|j: int| 0 <= j < t.len() ==> t[j] == Event::Out,
    decreases t.len(),
{
    if t.len() > 0 {
        let t0 = t.drop_last();
        assert(t0 =~= t.take(t.len() - 1));
        lemma_trial_trace_prefix(s, t, t.len() - 1);
        lemma_out_only_trace(s, t0);
        assert(s.samplable(t[t.len() - 1]));
        lemma_out_only_event(s, t[t.len() - 1]);
        assert(run_state(t.take(t.len() - 1)).outs < 3);
        assert forall|j: int| 0 <= j < t.len() implies t[j] == Event::Out by {
            if j < t.len() - 1 {
                assert(t0[j] == t[j]);
            }
        }
    }
}

/// Every state a trial passes through is well-formed — occupancy flags binary,
/// out count in `[0, 3]` — since the initial state is and every legal step
/// preserves it.
pub proof fn lemma_trace_states_wf(s: WeightedOutcomeSampler, t: Seq<Event>)
    requires
        s.wf(),
        trial_trace(s, t),
    ensures
        state_wf(run_state(t)),
    decreases t.len(),
{
    if t.len() > 0 {
        let t0 = t.drop_last();
        assert(t0 =~= t.take(t.len() - 1));
        lemma_trial_trace_prefix(s, t, t.len() - 1);
        lemma_trace_states_wf(s, t0);
        let ev = t[t.len() - 1];
        assert(s.samplable(ev));
        crate::sampler::lemma_samplable_legal(s, ev);
        assert(run_state(t.take(t.len() - 1)).outs < 3);
        crate::state::lemma_evolve_preserves_wf(run_state(t0), ev);
    }
}

/// Between any two consecutive states of a trial, the runs scored on the
/// play are non-negative and at most one more than the number of runners on
/// base before the play.
pub proof fn lemma_trace_runs_conservative(s: WeightedOutcomeSampler, t: Seq<Event>, j: int)
    requires
        s.wf(),
        trial_trace(s, t),
        0 <= j < t.len(),
    ensures
        0 <= spec_runs(run_state(t.take(j + 1)), run_state(t.take(j))),
        spec_runs(run_state(t.take(j + 1)), run_state(t.take(j))) <= 1 + runners(
            run_state(t.take(j)),
        ),
{
    lemma_trial_trace_prefix(s, t, j);
    lemma_trace_states_wf(s, t.take(j));
    crate::sampler::lemma_samplable_legal(s, t[j]);
    assert(t.take(j + 1).drop_last() =~= t.take(j));
    assert(t.take(j + 1).last() == t[j]);
    lemma_runs_conservative(run_state(t.take(j)), t[j]);
}

/// Three home runs in a row from the start of an inning score exactly three
/// runs — each finds the bases empty and scores the batter alone — and leave
/// the state with empty bases and no outs.
pub proof fn lemma_three_home_runs()
    ensures
        ({
            let t = seq![Event::X4B, Event::X4B, Event::X4B];
            trace_runs(t) == 3 && run_state(t).outs == 0 && runners(run_state(t)) == 0
        }),
{
    let t = seq![Event::X4B, Event::X4B, Event::X4B];
    let t0 = Seq::<Event>::empty();
    let t1 = t0.push(Event::X4B);
    let t2 = t1.push(Event::X4B);
    lemma_trace_push(t0, Event::X4B);
    lemma_trace_push(t1, Event::X4B);
    lemma_trace_push(t2, Event::X4B);
    assert(t2.push(Event::X4B) =~= t);
}

/// Play one inning to completion: sample an event, evolve the state, add the
/// runs scored on the play, until the third out (or the step cap, which no
/// terminating run ever nears). Returns the accumulated run total.
pub fn run_trial(s: &WeightedOutcomeSampler) -> (runs: u16)
    requires
        s.wf(),
    ensures
        trial_post(*s, runs),
{
    let mut state = BOState { bases: [0, 0, 0], outs: 0 };
    let mut runs: u16 = 0;
    let mut steps: u32 = 0;
    let ghost mut trace: Seq<Event> = Seq::empty();
    while state.outs < 3 && steps < MAX_TRIAL_STEPS
        invariant
            s.wf(),
            state_wf(state),
            steps <= MAX_TRIAL_STEPS,
            trace.len() == steps,
            trial_trace(*s, trace),
            state == run_state(trace),
            runs == trace_runs(trace),
            runs == trace.len() - state.outs - runners(state),
            s.out_only() ==> runs == 0,
        decreases MAX_TRIAL_STEPS - steps,
    {
        let ev = s.sample_event();
        let new_state = state.evolve_state(ev);
        let d = new_state.runs_scored(state);
        proof {
            lemma_runs_conservative(state, ev);
            lemma_trace_push(trace, ev);
            lemma_trial_trace_push(*s, trace, ev);
            if s.out_only() {
                lemma_out_only_event(*s, ev);
            }
        }
        runs = runs + (d as u16);
        steps = steps + 1;
        proof {
            trace = trace.push(ev);
        }
        state = new_state;
    }
    proof {
        assert(trial_trace(*s, trace) && runs == trace_runs(trace) && (run_state(trace).outs == 3
            || trace.len() == MAX_TRIAL_STEPS));
    }
    runs
}

/// Relies on rayon's `into_par_iter`, `map` and `collect` over the index
/// range: the collected vector holds exactly one closure result per requested
/// index, whatever the number of workers; the closure only calls the verified
/// trial driver, so each element satisfies that driver's contract.
#[verifier::external_body]
fn run_trials_parallel(s: &WeightedOutcomeSampler, n: usize) -> (r: Vec<u16>)
    requires
        s.wf(),
    ensures
        r@.len() == n,
        forall|i: int| 0 <= i < n ==> trial_post(*s, #[trigger] r@[i]),
{
    (0..n).into_par_iter().map(|_| run_trial(s)).collect()
}

/// Run `n` independent trials concurrently and collect one run total per
/// requested trial: the result holds exactly `n` totals, independent of how
/// the worker pool schedules them. Trials share only the read-only sampler;
/// each draws from its own thread's generator.
pub fn run_trials(s: &WeightedOutcomeSampler, n: usize) -> (r: Vec<u16>)
    requires
        s.wf(),
    ensures
        r@.len() == n,
        forall|i: int| 0 <= i < n ==> trial_post(*s, #[trigger] r@[i]),
{
    run_trials_parallel(s, n)
}

/// Run `n` independent trials one after another on the calling thread,
/// collecting exactly one run total per requested trial: the single-worker
/// schedule of the parallel runner, with the same contract.
pub fn run_trials_sequential(s: &WeightedOutcomeSampler, n: usize) -> (r: Vec<u16>)
    requires
        s.wf(),
    ensures
        r@.len() == n,
        forall|i: int| 0 <= i < n ==> trial_post(*s, #[trigger] r@[i]),
{
    let mut r: Vec<u16> = Vec::new();
    let mut i: usize = 0;
    while i < n
        invariant
            s.wf(),
            i <= n,
            r@.len() == i,
            forall|j: int| 0 <= j < i ==> trial_post(*s, #[trigger] r@[j]),
        decreases n - i,
    {
        let t = run_trial(s);
        r.push(t);
        i = i + 1;
    }
    r
}

} // verus!
