use crate::lineararith::{fits_i64, Scalar};
use crate::partial_dual::{DualModel, PartialDual};
use vstd::prelude::*;

verus! {

/// The entries of `v` as integers.
pub open spec fn ints<const N: usize>(v: [i64; N]) -> Seq<int> {
    Seq::new(N as nat, |i: int| v[i] as int)
}

/// One step against the gradient: each variable less `rate` times its
/// partial derivative.
pub open spec fn descent_step(vars: Seq<int>, partial: Seq<int>, rate: int) -> Seq<int> {
    Seq::new(vars.len(), |i: int| vars[i] - partial[i] * rate)
}

/// Each product and difference of `descent_step(vars, partial, rate)` is
/// representable.
pub open spec fn step_ok(vars: Seq<int>, partial: Seq<int>, rate: int) -> bool {
    forall|i: int|
        0 <= i < vars.len() ==> fits_i64(#[trigger] partial[i] * rate) && fits_i64(
            vars[i] - partial[i] * rate,
        )
}

/// The variables after `iterations` steps of gradient descent from `vars`.
pub open spec fn descent<const N: usize, O: Optimizable<N>>(
    o: &O,
    vars: Seq<int>,
    iterations: nat,
    rate: int,
) -> Seq<int>
    decreases iterations,
{
    if iterations == 0 {
        vars
    } else {
        descent::<N, O>(
            o,
            descent_step(vars, o.loss_model(vars).partial, rate),
            (iterations - 1) as nat,
            rate,
        )
    }
}

/// Each loss that `descent(o, vars, iterations, rate)` evaluates, and each
/// step that it takes, is representable.
pub open spec fn descent_ok<const N: usize, O: Optimizable<N>>(
    o: &O,
    vars: Seq<int>,
    iterations: nat,
    rate: int,
) -> bool
    decreases iterations,
{
    iterations == 0 || {
        &&& o.loss_ok(vars)
        &&& step_ok(vars, o.loss_model(vars).partial, rate)
        &&& descent_ok::<N, O>(
            o,
            descent_step(vars, o.loss_model(vars).partial, rate),
            (iterations - 1) as nat,
            rate,
        )
    }
}

/// A differentiable loss over `N` variables, minimised by gradient descent.
pub trait Optimizable<const N: usize>: Sized {
    /// The loss and its gradient at `vars`.
    spec fn loss_model(&self, vars: Seq<int>) -> DualModel;

    /// The loss at `vars` is representable.
    spec fn loss_ok(&self, vars: Seq<int>) -> bool;

    fn loss(&self, vars: [i64; N]) -> (r: PartialDual<N>)
        requires
            self.loss_ok(ints(vars)),
        ensures
            r.model() == self.loss_model(ints(vars)),
    ;

    /// Observes iteration `i` before its loss is evaluated; does nothing
    /// unless an implementation says otherwise.
    fn report(&self, i: usize, vars: &[i64; N]) {
    }
}

/// `iterations` steps of gradient descent from `vars`: each step takes
/// from every variable `learning_rate` times its partial derivative.
pub fn optimize<const N: usize, O: Optimizable<N>>(
    o: &O,
    vars: [i64; N],
    iterations: usize,
    learning_rate: i64,
) -> (r: [i64; N])
    requires
        descent_ok::<N, O>(o, ints(vars), iterations as nat, learning_rate as int),
    ensures
        ints(r) == descent::<N, O>(o, ints(vars), iterations as nat, learning_rate as int),
        iterations == 0 ==> r == vars,
{
    let ghost rate = learning_rate as int;
    let mut cur = vars;
    let mut i: usize = 0;
    while i < iterations
        invariant
            0 <= i <= iterations,
            rate == learning_rate as int,
            descent::<N, O>(o, ints(vars), iterations as nat, rate) == descent::<N, O>(
                o,
                ints(cur),
                (iterations - i) as nat,
                rate,
            ),
            descent_ok::<N, O>(o, ints(cur), (iterations - i) as nat, rate),
            i == 0 ==> cur == vars,
        decreases iterations - i,
    {
        o.report(i, &cur);
        let l = o.loss(cur);
        assert(ints(l.partial) =~= l.model().partial);
        let next = step(cur, l.partial, learning_rate);
        proof {
            assert(ints(next) =~= descent_step(ints(cur), l.model().partial, rate));
        }
        cur = next;
        i = i + 1;
    }
    cur
}

fn step<const N: usize>(vars: [i64; N], partial: [i64; N], rate: i64) -> (r: [i64; N])
    requires
        step_ok(ints(vars), ints(partial), rate as int),
    ensures
        forall|k: int| 0 <= k < N ==> r[k] == vars[k] - partial[k] * rate,
{
    let mut r = vars;
    let mut k: usize = 0;
    while k < N
        invariant
            0 <= k <= N,
            step_ok(ints(vars), ints(partial), rate as int),
            forall|j: int| 0 <= j < k ==> r[j] == vars[j] - partial[j] * rate,
        decreases N - k,
    {
        assert(ints(partial)[k as int] == partial[k as int]);
        assert(fits_i64(partial[k as int] * rate) && fits_i64(
            vars[k as int] - partial[k as int] * rate,
        ));
        r[k] = vars[k] - partial[k] * rate;
        k = k + 1;
    }
    r
}

/// `vars[0]^2 + ... + vars[n - 1]^2`.
pub open spec fn sum_squares(vars: Seq<int>, n: nat) -> int
    decreases n,
{
    if n == 0 {
        0
    } else {
        sum_squares(vars, (n - 1) as nat) + vars[n - 1] * vars[n - 1]
    }
}

proof fn lemma_sum_squares_grows(vars: Seq<int>, m: nat, n: nat)
    requires
        m <= n,
    ensures
        0 <= sum_squares(vars, m) <= sum_squares(vars, n),
    decreases n,
{
    if n > 0 {
        assert(vars[n - 1] * vars[n - 1] >= 0) by (nonlinear_arith);
        if m < n {
            lemma_sum_squares_grows(vars, m, (n - 1) as nat);
        } else {
            lemma_sum_squares_grows(vars, (n - 1) as nat, (n - 1) as nat);
        }
    }
}

/// The sum of the squares of the variables, least where every variable is 0.
pub struct SquaredNorm;

impl<const N: usize> Optimizable<N> for SquaredNorm {
    /// Value: the sum of squares; partial derivative `k`: `2 * vars[k]`.
    open spec fn loss_model(&self, vars: Seq<int>) -> DualModel {
        DualModel { val: sum_squares(vars, N as nat), partial: Seq::new(N as nat, |k: int| 2 * vars[k]) }
    }

    open spec fn loss_ok(&self, vars: Seq<int>) -> bool {
        fits_i64(sum_squares(vars, N as nat)) && forall|k: int|
            0 <= k < N ==> fits_i64(2 * #[trigger] vars[k])
    }

    fn loss(&self, vars: [i64; N]) -> (r: PartialDual<N>) {
        let ghost v = ints(vars);
        let mut acc = PartialDual::<N>::constant(0);
        let mut i: usize = 0;
        while i < N
            invariant
                0 <= i <= N,
                v == ints(vars),
                <SquaredNorm as Optimizable<N>>::loss_ok(self, v),
                acc.val == sum_squares(v, i as nat),
                forall|k: int|
                    0 <= k < N ==> acc.partial[k] == (if k < i { 2 * vars[k] } else { 0 }),
            decreases N - i,
        {
            let x = PartialDual::select(vars, i);
            proof {
                let vi = vars[i as int] as int;
                assert(v[i as int] == vi);
                lemma_sum_squares_grows(v, i as nat, N as nat);
                lemma_sum_squares_grows(v, (i + 1) as nat, N as nat);
                assert(fits_i64(2 * v[i as int]));
                assert forall|k: int| 0 <= k < N implies {
                    &&& fits_i64(#[trigger] x.model().partial[k] * x.model().val)
                    &&& fits_i64(x.model().val * x.model().partial[k])
                    &&& fits_i64(
                        x.model().partial[k] * x.model().val + x.model().val * x.model().partial[k],
                    )
                } by {
                    if k == i {
                        assert(x.model().partial[k] == 1);
                    } else {
                        assert(x.model().partial[k] == 0);
                    }
                }
            }
            let sq = x.mul(x);
            proof {
                assert forall|k: int| 0 <= k < N implies fits_i64(
                    #[trigger] acc.model().partial[k] + sq.model().partial[k],
                ) by {
                    if k == i {
                        assert(x.model().partial[k] == 1);
                    } else {
                        assert(x.model().partial[k] == 0);
                    }
                }
            }
            let ghost prev = acc;
            acc = acc.add(sq);
            proof {
                assert forall|k: int| 0 <= k < N implies acc.partial[k] == (if k < i + 1 {
                    2 * vars[k]
                } else {
                    0
                }) by {
                    assert(acc.model().partial[k] == prev.model().partial[k] + sq.model().partial[k]);
                    assert(sq.model().partial[k] == x.model().partial[k] * x.model().val
                        + x.model().val * x.model().partial[k]);
                    if k == i {
                        assert(x.model().partial[k] == 1);
                    } else {
                        assert(x.model().partial[k] == 0);
                    }
                }
            }
            i = i + 1;
        }
        assert(acc.model().partial =~= <SquaredNorm as Optimizable<N>>::loss_model(self, v).partial);
        acc
    }
}

} // verus!
