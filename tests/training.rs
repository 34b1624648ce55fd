use recsys::training::{after_error, after_update, before_training, Outcome, Step};

#[test]
fn no_observations_skips_training() {
    assert_eq!(before_training(0, 5000), Some(Outcome::NoObservations));
    assert_eq!(before_training(0, 0), Some(Outcome::NoObservations));
    assert_eq!(before_training(18, 0), Some(Outcome::ExhaustedIterations));
    assert_eq!(before_training(18, 5000), None);
}

#[test]
fn threshold_is_tested_before_stagnation() {
    assert_eq!(after_error(0, 10, true, true), Step::Finish(Outcome::Converged));
    assert_eq!(after_error(4, 10, true, true), Step::Finish(Outcome::Converged));
    assert_eq!(after_error(4, 10, false, true), Step::Finish(Outcome::Stalled));
    assert_eq!(after_error(4, 10, false, false), Step::Update);
}

#[test]
fn stagnation_is_not_tested_on_the_first_iteration() {
    assert_eq!(after_error(0, 10, false, true), Step::Update);
    assert_eq!(after_error(1, 10, false, true), Step::Finish(Outcome::Stalled));
}

#[test]
fn budget_runs_out_after_the_last_step() {
    assert_eq!(after_update(8, 10), None);
    assert_eq!(after_update(9, 10), Some(Outcome::ExhaustedIterations));
}
