use autodiff_opt::optimizable::{optimize, Optimizable, SquaredNorm};

#[test]
fn zero_iterations_return_input() {
    let vars = [7, -3];
    assert_eq!(optimize(&SquaredNorm, vars, 0, 5), vars);
}

#[test]
fn squared_norm_value_and_gradient() {
    let l = SquaredNorm.loss([3, -4, 1]);
    assert_eq!(l.val, 26);
    assert_eq!(l.partial, [6, -8, 2]);
}

#[test]
fn one_step_against_gradient() {
    // Each variable x becomes x - 2x * 1.
    assert_eq!(optimize(&SquaredNorm, [3, -2], 1, 1), [-3, 2]);
}

#[test]
fn two_steps_against_gradient() {
    assert_eq!(optimize(&SquaredNorm, [3, -2], 2, 1), [3, -2]);
}

#[test]
fn zero_rate_keeps_variables() {
    assert_eq!(optimize(&SquaredNorm, [3, -2, 5], 10, 0), [3, -2, 5]);
}

#[test]
fn steps_with_larger_rate() {
    // x - 2x * 2 = -3x at each step.
    assert_eq!(optimize(&SquaredNorm, [1, -1], 3, 2), [-27, 27]);
}

#[test]
fn minimum_stays_put() {
    assert_eq!(optimize(&SquaredNorm, [0, 0], 100, 3), [0, 0]);
}
