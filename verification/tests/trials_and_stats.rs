use inning_sim::errors::SimError;
use inning_sim::sampler::EventProbs;
use inning_sim::sampler::TakeBaseProb;
use inning_sim::sampler::WeightedOutcomeSampler;
use inning_sim::stats::aggregate;
use inning_sim::trial::run_trial;
use inning_sim::trial::run_trials;
use inning_sim::trial::run_trials_sequential;

fn default_take() -> TakeBaseProb {
    TakeBaseProb { X1B_3H: 5000, X1B_23: 2500, X2B_3H: 7500 }
}

fn probs(bb: u32, x1: u32, x2: u32, x3: u32, x4: u32) -> EventProbs {
    EventProbs { BB: bb, X1B: x1, X2B: x2, X3B: x3, X4B: x4 }
}

#[test]
fn certain_out_trial_scores_zero() {
    // With every hit and walk probability zero the inning is three straight
    // outs: no run can ever score.
    let s = WeightedOutcomeSampler::compile(probs(0, 0, 0, 0, 0), default_take()).unwrap();
    for _ in 0..50 {
        assert_eq!(run_trial(&s), 0);
    }
    assert!(run_trials(&s, 25).iter().all(|&r| r == 0));
    assert!(run_trials_sequential(&s, 25).iter().all(|&r| r == 0));
}

#[test]
fn runner_collects_one_result_per_trial() {
    let s = WeightedOutcomeSampler::compile(probs(800, 1500, 500, 50, 300), default_take())
        .unwrap();
    assert_eq!(run_trials(&s, 0).len(), 0);
    assert_eq!(run_trials(&s, 1).len(), 1);
    assert_eq!(run_trials(&s, 137).len(), 137);
    assert_eq!(run_trials_sequential(&s, 0).len(), 0);
    assert_eq!(run_trials_sequential(&s, 137).len(), 137);
}

#[test]
fn half_home_run_model_scores_three_per_inning_on_average() {
    // Half the mass on the home run, half on the out: the number of home runs
    // before the third out averages three. Over ten thousand trials the mean
    // lies far inside (2.5, 3.5).
    let s = WeightedOutcomeSampler::compile(probs(0, 0, 0, 0, 5000), default_take()).unwrap();
    let results = run_trials(&s, 10000);
    assert_eq!(results.len(), 10000);
    let st = aggregate(&results).unwrap();
    assert!(st.mean_e4 > 25000 && st.mean_e4 < 35000, "mean_e4 = {}", st.mean_e4);
}

#[test]
fn aggregate_of_synthetic_results() {
    // For [0, 1, 2, 3]: mean 1.5, sample standard deviation sqrt(5/3) which
    // rounds to 1.2910 at four decimals, standard error 0.6455.
    let st = aggregate(&vec![0u16, 1, 2, 3]).unwrap();
    assert_eq!(st.mean_e4, 15000);
    assert_eq!(st.std_dev_e4, 12910);
    assert_eq!(st.std_err_e4, 6455);
}

#[test]
fn aggregate_of_two_results() {
    // For [1, 2]: mean 1.5, standard deviation 1/sqrt(2) = 0.7071, standard
    // error exactly 0.5.
    let st = aggregate(&vec![1u16, 2]).unwrap();
    assert_eq!(st.mean_e4, 15000);
    assert_eq!(st.std_dev_e4, 7071);
    assert_eq!(st.std_err_e4, 5000);
}

#[test]
fn aggregate_of_constant_results_has_no_spread() {
    let st = aggregate(&vec![2u16, 2, 2, 2]).unwrap();
    assert_eq!(st.mean_e4, 20000);
    assert_eq!(st.std_dev_e4, 0);
    assert_eq!(st.std_err_e4, 0);
}

#[test]
fn aggregate_of_a_single_result() {
    let st = aggregate(&vec![5u16]).unwrap();
    assert_eq!(st.mean_e4, 50000);
    assert_eq!(st.std_dev_e4, 0);
    assert_eq!(st.std_err_e4, 0);
}

#[test]
fn aggregate_of_nothing_is_an_empty_sample() {
    assert_eq!(aggregate(&Vec::new()), Err(SimError::EmptySample));
}

#[test]
fn aggregate_is_order_invariant() {
    let a = aggregate(&vec![0u16, 1, 2, 3]).unwrap();
    let b = aggregate(&vec![3u16, 1, 0, 2]).unwrap();
    assert_eq!(a, b);
}

#[test]
fn runner_count_is_independent_of_worker_count() {
    let s = WeightedOutcomeSampler::compile(probs(800, 1500, 500, 50, 300), default_take())
        .unwrap();
    let single = rayon::ThreadPoolBuilder::new().num_threads(1).build().unwrap();
    let on_one_worker = single.install(|| run_trials(&s, 64));
    assert_eq!(on_one_worker.len(), 64);
    let on_many = run_trials(&s, 64);
    assert_eq!(on_many.len(), 64);
}
