use inning_sim::errors::SimError;
use inning_sim::state::BOState;
use inning_sim::state::Event;

fn st(b1: i32, b2: i32, b3: i32, outs: i32) -> BOState {
    BOState { bases: [b1, b2, b3], outs }
}

#[test]
fn out_increments_outs_and_keeps_bases() {
    let mut s = st(1, 0, 1, 0);
    for expected_outs in 1..=3 {
        let next = s.evolve_state(Event::Out);
        assert_eq!(next.bases, [1, 0, 1]);
        assert_eq!(next.outs, expected_outs);
        assert_eq!(next.runs_scored(s), 0);
        s = next;
    }
    assert_eq!(s.outs, 3);
}

#[test]
fn out_reaches_three_in_exactly_remaining_steps() {
    for start_outs in 0..3 {
        let mut s = st(0, 1, 0, start_outs);
        let mut steps = 0;
        while s.outs < 3 {
            s = s.evolve_state(Event::Out);
            steps += 1;
        }
        assert_eq!(steps, 3 - start_outs);
        assert_eq!(s.bases, [0, 1, 0]);
    }
}

#[test]
fn walk_forces_runners() {
    // Empty bases: batter takes first.
    let next = st(0, 0, 0, 0).evolve_state(Event::BB);
    assert_eq!(next.bases, [1, 0, 0]);
    assert_eq!(next.runs_scored(st(0, 0, 0, 0)), 0);
    // Runner on first is forced to second.
    let next = st(1, 0, 0, 1).evolve_state(Event::BB);
    assert_eq!(next.bases, [1, 1, 0]);
    // Runner on second stays unless forced.
    let next = st(0, 1, 0, 0).evolve_state(Event::BB);
    assert_eq!(next.bases, [1, 1, 0]);
    // Bases loaded: every runner is forced and one run scores.
    let old = st(1, 1, 1, 2);
    let next = old.evolve_state(Event::BB);
    assert_eq!(next.bases, [1, 1, 1]);
    assert_eq!(next.runs_scored(old), 1);
}

#[test]
fn single_advancement_variants() {
    let old = st(1, 1, 0, 0);
    // Lead runner scores from second, trailing runner to third.
    let next = old.evolve_state(Event::X1B(true, true));
    assert_eq!(next.bases, [1, 0, 1]);
    assert_eq!(next.runs_scored(old), 1);
    // Lead runner scores from second, trailing runner holds at second.
    let next = old.evolve_state(Event::X1B(true, false));
    assert_eq!(next.bases, [1, 1, 0]);
    assert_eq!(next.runs_scored(old), 1);
    // Everyone advances one base.
    let next = old.evolve_state(Event::X1B(false, false));
    assert_eq!(next.bases, [1, 1, 1]);
    assert_eq!(next.runs_scored(old), 0);
    // A runner on third always scores on a station-to-station single.
    let old = st(0, 0, 1, 1);
    let next = old.evolve_state(Event::X1B(false, false));
    assert_eq!(next.bases, [1, 0, 0]);
    assert_eq!(next.runs_scored(old), 1);
}

#[test]
fn double_and_triple() {
    let old = st(1, 0, 1, 0);
    // Double, runner from first comes home: two runs.
    let next = old.evolve_state(Event::X2B(true));
    assert_eq!(next.bases, [0, 1, 0]);
    assert_eq!(next.runs_scored(old), 2);
    // Double, runner from first stops at third: one run (from third).
    let next = old.evolve_state(Event::X2B(false));
    assert_eq!(next.bases, [0, 1, 1]);
    assert_eq!(next.runs_scored(old), 1);
    // Triple clears everyone ahead of the batter.
    let next = old.evolve_state(Event::X3B);
    assert_eq!(next.bases, [0, 0, 1]);
    assert_eq!(next.runs_scored(old), 2);
}

#[test]
fn home_run_clears_bases_and_scores_all() {
    for &(b1, b2, b3) in
        &[(0, 0, 0), (1, 0, 0), (0, 1, 0), (0, 0, 1), (1, 1, 0), (1, 0, 1), (0, 1, 1), (1, 1, 1)]
    {
        let old = st(b1, b2, b3, 1);
        let next = old.evolve_state(Event::X4B);
        assert_eq!(next.bases, [0, 0, 0]);
        assert_eq!(next.outs, 1);
        assert_eq!(next.runs_scored(old), 1 + b1 + b2 + b3);
    }
}

#[test]
fn illegal_advancement_fails_on_every_state() {
    for &(b1, b2, b3) in
        &[(0, 0, 0), (1, 0, 0), (0, 1, 0), (0, 0, 1), (1, 1, 0), (1, 0, 1), (0, 1, 1), (1, 1, 1)]
    {
        for outs in 0..3 {
            let s = st(b1, b2, b3, outs);
            assert_eq!(s.try_evolve(Event::X1B(false, true)), Err(SimError::IllegalAdvancement));
        }
    }
}

#[test]
fn try_evolve_agrees_with_evolve_on_legal_events() {
    let s = st(1, 1, 0, 0);
    for ev in [
        Event::Out,
        Event::BB,
        Event::X1B(true, true),
        Event::X1B(true, false),
        Event::X1B(false, false),
        Event::X2B(true),
        Event::X2B(false),
        Event::X3B,
        Event::X4B,
    ] {
        assert_eq!(s.try_evolve(ev), Ok(s.evolve_state(ev)));
    }
}

#[test]
fn runs_scored_is_conservation_formula() {
    // runs = 1 - (change in outs) - (change in runners)
    let old = st(1, 1, 1, 0);
    let new = st(0, 0, 0, 1);
    assert_eq!(new.runs_scored(old), 3);
    let old = st(0, 0, 0, 0);
    let new = st(1, 0, 0, 0);
    assert_eq!(new.runs_scored(old), 0);
}
