use inning_sim::errors::SimError;
use inning_sim::sampler::EventProbs;
use inning_sim::sampler::TakeBaseProb;
use inning_sim::sampler::WeightedOutcomeSampler;
use inning_sim::state::Event;

fn default_take() -> TakeBaseProb {
    TakeBaseProb { X1B_3H: 5000, X1B_23: 2500, X2B_3H: 7500 }
}

fn probs(bb: u32, x1: u32, x2: u32, x3: u32, x4: u32) -> EventProbs {
    EventProbs { BB: bb, X1B: x1, X2B: x2, X3B: x3, X4B: x4 }
}

#[test]
fn sum_probs_adds_the_five_outcomes() {
    assert_eq!(probs(100, 200, 300, 400, 500).sum_probs(), 1500);
    assert_eq!(probs(0, 0, 0, 0, 0).sum_probs(), 0);
}

#[test]
fn compile_accepts_a_typical_model() {
    // Roughly league-average rates: walks plus hits leave most mass on the out.
    let s = WeightedOutcomeSampler::compile(probs(800, 1500, 500, 50, 300), default_take());
    assert!(s.is_ok());
}

#[test]
fn compile_rejects_oversubscribed_probabilities() {
    // The five outcomes sum to more than one whole.
    let r = WeightedOutcomeSampler::compile(probs(4000, 4000, 2000, 500, 500), default_take());
    assert_eq!(r.err(), Some(SimError::InvalidModel));
}

#[test]
fn compile_rejects_out_of_range_probability() {
    let r = WeightedOutcomeSampler::compile(probs(0, 10001, 0, 0, 0), default_take());
    assert_eq!(r.err(), Some(SimError::InvalidModel));
    let take = TakeBaseProb { X1B_3H: 10001, X1B_23: 2500, X2B_3H: 7500 };
    let r = WeightedOutcomeSampler::compile(probs(0, 0, 0, 0, 0), take);
    assert_eq!(r.err(), Some(SimError::InvalidModel));
}

#[test]
fn compile_rejects_a_model_with_no_out_mass() {
    // A certain home run leaves the out no weight, so no inning could ever
    // end: the model is refused rather than run forever.
    let r = WeightedOutcomeSampler::compile(probs(0, 0, 0, 0, 10000), default_take());
    assert_eq!(r.err(), Some(SimError::InvalidModel));
}

#[test]
fn out_only_sampler_always_draws_the_out() {
    let s = WeightedOutcomeSampler::compile(probs(0, 0, 0, 0, 0), default_take()).unwrap();
    for _ in 0..200 {
        assert_eq!(s.sample_event(), Event::Out);
    }
}

#[test]
fn sampler_draws_each_positive_weight_event() {
    // Half the mass on the home run, half on the out: two hundred draws miss
    // one side only with vanishing probability.
    let s = WeightedOutcomeSampler::compile(probs(0, 0, 0, 0, 5000), default_take()).unwrap();
    let mut saw_out = false;
    let mut saw_homer = false;
    for _ in 0..200 {
        match s.sample_event() {
            Event::Out => saw_out = true,
            Event::X4B => saw_homer = true,
            other => panic!("event with zero weight was drawn: {:?}", other),
        }
    }
    assert!(saw_out && saw_homer);
}

#[test]
fn sampler_never_draws_the_illegal_advancement() {
    let s = WeightedOutcomeSampler::compile(probs(1000, 3000, 1000, 500, 500), default_take())
        .unwrap();
    for _ in 0..500 {
        assert_ne!(s.sample_event(), Event::X1B(false, true));
    }
}
