use vstd::prelude::*;

verus! {

/// Why a factorization run stopped.
#[derive(Clone, Copy, Debug, PartialEq, Eq)]
pub enum Outcome {
    /// The regularized error fell below the threshold.
    Converged,
    /// The error changed by less than the stagnation bound between two iterations.
    Stalled,
    /// Every iteration allowed was spent.
    ExhaustedIterations,
    /// The rating matrix holds no rating, so no step was taken.
    NoObservations,
}

/// What the solver does next.
#[derive(Clone, Copy, Debug, PartialEq, Eq)]
pub enum Step {
    /// Apply one gradient step to the factors.
    Update,
    /// Hand back the current factors.
    Finish(Outcome),
}

/// The decision before any error is computed: a matrix with no rating is handed back untrained,
/// and a budget of zero iterations is spent at once.
pub fn before_training(observed: usize, num_iters: usize) -> (r: Option<Outcome>)
    ensures
        observed == 0 ==> r == Some(Outcome::NoObservations),
        observed > 0 && num_iters == 0 ==> r == Some(Outcome::ExhaustedIterations),
        observed > 0 && num_iters > 0 ==> r.is_none(),
{
    if observed == 0 {
        Some(Outcome::NoObservations)
    } else if num_iters == 0 {
        Some(Outcome::ExhaustedIterations)
    } else {
        None
    }
}

/// The decision once the error of iteration `iteration` (counted from 0) is known:
/// `below_threshold` tells whether it is below the convergence threshold, `small_change`
/// whether it differs from the previous iteration's error by less than the stagnation bound.
/// The threshold is tested first; stagnation only from the second iteration on.
pub fn after_error(iteration: usize, num_iters: usize, below_threshold: bool, small_change: bool) -> (r: Step)
    requires
        iteration < num_iters,
    ensures
        below_threshold ==> r == Step::Finish(Outcome::Converged),
        !below_threshold && iteration > 0 && small_change ==> r == Step::Finish(Outcome::Stalled),
        !below_threshold && (iteration == 0 || !small_change) ==> r == Step::Update,
{
    if below_threshold {
        Step::Finish(Outcome::Converged)
    } else if iteration > 0 && small_change {
        Step::Finish(Outcome::Stalled)
    } else {
        Step::Update
    }
}

/// The decision after the gradient step of iteration `iteration`: go on while iterations are
/// left, else stop with the budget spent.
pub fn after_update(iteration: usize, num_iters: usize) -> (r: Option<Outcome>)
    requires
        iteration < num_iters,
    ensures
        iteration + 1 == num_iters ==> r == Some(Outcome::ExhaustedIterations),
        iteration + 1 < num_iters ==> r.is_none(),
{
    if iteration + 1 == num_iters {
        Some(Outcome::ExhaustedIterations)
    } else {
        None
    }
}

} // verus!
