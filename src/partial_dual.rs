use crate::lineararith::{dot_upto, fits_i64, Scalar};
use vstd::arithmetic::power::{lemma_pow0, lemma_pow1, lemma_pow_adds, pow};
use vstd::prelude::*;

verus! {

/// The mathematical value of a dual scalar: a value and its partial
/// derivatives, one for each independent variable.
pub struct DualModel {
    pub val: int,
    pub partial: Seq<int>,
}

/// A value together with its partial derivatives with respect to `N`
/// independent variables.
#[derive(Clone, Copy)]
pub struct PartialDual<const N: usize> {
    pub val: i64,
    pub partial: [i64; N],
}

/// Sum rule.
pub open spec fn dual_add<const N: usize>(a: DualModel, b: DualModel) -> DualModel {
    DualModel {
        val: a.val + b.val,
        partial: Seq::new(N as nat, |k: int| a.partial[k] + b.partial[k]),
    }
}

pub open spec fn dual_sub<const N: usize>(a: DualModel, b: DualModel) -> DualModel {
    DualModel {
        val: a.val - b.val,
        partial: Seq::new(N as nat, |k: int| a.partial[k] - b.partial[k]),
    }
}

/// Product rule.
pub open spec fn dual_mul<const N: usize>(a: DualModel, b: DualModel) -> DualModel {
    DualModel {
        val: a.val * b.val,
        partial: Seq::new(N as nat, |k: int| a.partial[k] * b.val + a.val * b.partial[k]),
    }
}

/// The constant zero: value and every partial 0.
pub open spec fn dual_zero<const N: usize>() -> DualModel {
    DualModel { val: 0, partial: Seq::new(N as nat, |k: int| 0) }
}

/// `N` zeros.
fn zeros<const N: usize>() -> (r: [i64; N])
    ensures
        forall|k: int| 0 <= k < N ==> r[k] == 0,
{
    let mut r = [0i64; N];
    let mut k: usize = 0;
    while k < N
        invariant
            0 <= k <= N,
            forall|j: int| 0 <= j < k ==> r[j] == 0,
        decreases N - k,
    {
        r[k] = 0;
        k = k + 1;
    }
    r
}

impl<const N: usize> PartialDual<N> {
    /// A constant: the value `val`, every partial 0.
    pub fn constant(val: i64) -> (r: Self)
        ensures
            r.val == val,
            forall|k: int| 0 <= k < N ==> r.partial[k] == 0,
    {
        PartialDual { val, partial: zeros::<N>() }
    }

    /// The independent variable of index `index`, at the value `val`: its
    /// partial is 1 at `index` and 0 elsewhere.
    pub fn variable(val: i64, index: usize) -> (r: Self)
        requires
            index < N,
        ensures
            r.val == val,
            forall|k: int| 0 <= k < N ==> r.partial[k] == (if k == index { 1int } else { 0int }),
    {
        let mut partial = zeros::<N>();
        partial[index] = 1;
        PartialDual { val, partial }
    }

    /// The variable of index `index`, at its value in `vars`.
    pub fn select(vars: [i64; N], index: usize) -> (r: Self)
        requires
            index < N,
        ensures
            r.val == vars[index as int],
            forall|k: int| 0 <= k < N ==> r.partial[k] == (if k == index { 1int } else { 0int }),
    {
        Self::variable(vars[index], index)
    }
}

impl<const N: usize> Scalar for PartialDual<N> {
    type Model = DualModel;

    open spec fn model(&self) -> DualModel {
        DualModel { val: self.val as int, partial: Seq::new(N as nat, |k: int| self.partial[k] as int) }
    }

    open spec fn zero_model() -> DualModel {
        dual_zero::<N>()
    }

    open spec fn add_model(a: DualModel, b: DualModel) -> DualModel {
        dual_add::<N>(a, b)
    }

    open spec fn sub_model(a: DualModel, b: DualModel) -> DualModel {
        dual_sub::<N>(a, b)
    }

    open spec fn mul_model(a: DualModel, b: DualModel) -> DualModel {
        dual_mul::<N>(a, b)
    }

    open spec fn add_ok(a: DualModel, b: DualModel) -> bool {
        fits_i64(a.val + b.val) && forall|k: int|
            0 <= k < N ==> fits_i64(#[trigger] a.partial[k] + b.partial[k])
    }

    open spec fn sub_ok(a: DualModel, b: DualModel) -> bool {
        fits_i64(a.val - b.val) && forall|k: int|
            0 <= k < N ==> fits_i64(#[trigger] a.partial[k] - b.partial[k])
    }

    open spec fn mul_ok(a: DualModel, b: DualModel) -> bool {
        fits_i64(a.val * b.val) && forall|k: int|
            0 <= k < N ==> {
                &&& fits_i64(#[trigger] a.partial[k] * b.val)
                &&& fits_i64(a.val * b.partial[k])
                &&& fits_i64(a.partial[k] * b.val + a.val * b.partial[k])
            }
    }

    fn zero() -> (r: Self) {
        let r = Self::constant(0);
        assert(r.model().partial =~= dual_zero::<N>().partial);
        r
    }

    fn add(self, rhs: Self) -> (r: Self) {
        let mut partial = zeros::<N>();
        let mut k: usize = 0;
        while k < N
            invariant
                0 <= k <= N,
                Self::add_ok(self.model(), rhs.model()),
                forall|j: int| 0 <= j < k ==> #[trigger] partial[j] == self.partial[j] + rhs.partial[j],
            decreases N - k,
        {
            assert(fits_i64(self.model().partial[k as int] + rhs.model().partial[k as int]));
            partial[k] = self.partial[k] + rhs.partial[k];
            k = k + 1;
        }
        let r = PartialDual { val: self.val + rhs.val, partial };
        assert(r.model().partial =~= dual_add::<N>(self.model(), rhs.model()).partial);
        r
    }

    fn sub(self, rhs: Self) -> (r: Self) {
        let mut partial = zeros::<N>();
        let mut k: usize = 0;
        while k < N
            invariant
                0 <= k <= N,
                Self::sub_ok(self.model(), rhs.model()),
                forall|j: int| 0 <= j < k ==> #[trigger] partial[j] == self.partial[j] - rhs.partial[j],
            decreases N - k,
        {
            assert(fits_i64(self.model().partial[k as int] - rhs.model().partial[k as int]));
            partial[k] = self.partial[k] - rhs.partial[k];
            k = k + 1;
        }
        let r = PartialDual { val: self.val - rhs.val, partial };
        assert(r.model().partial =~= dual_sub::<N>(self.model(), rhs.model()).partial);
        r
    }

    fn mul(self, rhs: Self) -> (r: Self) {
        let mut partial = zeros::<N>();
        let mut k: usize = 0;
        while k < N
            invariant
                0 <= k <= N,
                Self::mul_ok(self.model(), rhs.model()),
                forall|j: int|
                    0 <= j < k ==> #[trigger] partial[j] == self.partial[j] * rhs.val + self.val
                        * rhs.partial[j],
            decreases N - k,
        {
            assert(fits_i64(self.model().partial[k as int] * rhs.model().val));
            let d = self.partial[k] * rhs.val + self.val * rhs.partial[k];
            partial[k] = d;
            k = k + 1;
        }
        let r = PartialDual { val: self.val * rhs.val, partial };
        assert(r.model().partial =~= dual_mul::<N>(self.model(), rhs.model()).partial);
        r
    }
}

/// The derivative of `x^n` with respect to `x`.
pub open spec fn pow_deriv(x: int, n: nat) -> int {
    if n == 0 {
        0
    } else {
        n * pow(x, (n - 1) as nat)
    }
}

/// Power rule: `a` raised to the power `n`.
pub open spec fn dual_pow<const N: usize>(a: DualModel, n: nat) -> DualModel {
    DualModel {
        val: pow(a.val, n),
        partial: Seq::new(N as nat, |k: int| pow_deriv(a.val, n) * a.partial[k]),
    }
}

/// `a` raised to the power `e` is representable.
pub open spec fn pow_fits<const N: usize>(a: DualModel, e: nat) -> bool {
    fits_i64(pow(a.val, e)) && forall|k: int|
        0 <= k < N ==> fits_i64(pow_deriv(a.val, e) * #[trigger] a.partial[k])
}

/// Every power of `a` up to the `n`-th is representable.
pub open spec fn powu_ok<const N: usize>(a: DualModel, n: nat) -> bool {
    forall|e: nat| e <= n ==> #[trigger] pow_fits::<N>(a, e)
}

/// The sum of the first `n` models of `s`, from the first on, starting
/// from zero.
pub open spec fn dual_sum<const N: usize>(s: Seq<DualModel>, n: nat) -> DualModel
    decreases n,
{
    if n == 0 {
        dual_zero::<N>()
    } else {
        dual_add::<N>(dual_sum::<N>(s, (n - 1) as nat), s[n - 1])
    }
}

/// Each partial sum of `dual_sum(s, n)` is representable.
pub open spec fn sum_ok<const N: usize>(s: Seq<DualModel>, n: nat) -> bool
    decreases n,
{
    n == 0 || (sum_ok::<N>(s, (n - 1) as nat) && PartialDual::<N>::add_ok(
        dual_sum::<N>(s, (n - 1) as nat),
        s[n - 1],
    ))
}

proof fn lemma_sum_ok_prefix<const N: usize>(s: Seq<DualModel>, m: nat, n: nat)
    requires
        m <= n,
        sum_ok::<N>(s, n),
    ensures
        sum_ok::<N>(s, m),
    decreases n,
{
    if m < n {
        lemma_sum_ok_prefix::<N>(s, m, (n - 1) as nat);
    }
}

/// Two powers of `a` multiply to the power of the summed exponents, and
/// the product is representable while that exponent is at most `n`.
proof fn lemma_dual_pow_mul<const N: usize>(a: DualModel, e1: nat, e2: nat, n: nat)
    requires
        e1 + e2 <= n,
        powu_ok::<N>(a, n),
    ensures
        PartialDual::<N>::mul_ok(dual_pow::<N>(a, e1), dual_pow::<N>(a, e2)),
        dual_mul::<N>(dual_pow::<N>(a, e1), dual_pow::<N>(a, e2)) == dual_pow::<N>(a, e1 + e2),
{
    let x = a.val;
    let e = (e1 + e2) as nat;
    lemma_pow_adds(x, e1, e2);
    assert(pow_fits::<N>(a, e));
    assert forall|k: int| #![trigger a.partial[k]] 0 <= k < N implies {
        let p = a.partial[k];
        let t1 = pow_deriv(x, e1) * p * pow(x, e2);
        let t2 = pow(x, e1) * (pow_deriv(x, e2) * p);
        &&& t1 + t2 == pow_deriv(x, e) * p
        &&& fits_i64(t1)
        &&& fits_i64(t2)
    } by {
        let p = a.partial[k];
        let t1 = pow_deriv(x, e1) * p * pow(x, e2);
        let t2 = pow(x, e1) * (pow_deriv(x, e2) * p);
        let tot = pow_deriv(x, e) * p;
        assert(fits_i64(tot));
        if e == 0 {
            assert(t1 == 0 && t2 == 0 && tot == 0) by (nonlinear_arith)
                requires
                    t1 == pow_deriv(x, e1) * p * pow(x, e2),
                    t2 == pow(x, e1) * (pow_deriv(x, e2) * p),
                    tot == pow_deriv(x, e) * p,
                    pow_deriv(x, e1) == 0,
                    pow_deriv(x, e2) == 0,
                    pow_deriv(x, e) == 0,
            ;
        } else {
            let m = (e - 1) as nat;
            let big_x = pow(x, m) * p;
            assert(tot == e * big_x) by (nonlinear_arith)
                requires
                    tot == pow_deriv(x, e) * p,
                    pow_deriv(x, e) == e * pow(x, m),
                    big_x == pow(x, m) * p,
            ;
            if e1 > 0 {
                lemma_pow_adds(x, (e1 - 1) as nat, e2);
                assert(t1 == e1 * big_x) by (nonlinear_arith)
                    requires
                        t1 == pow_deriv(x, e1) * p * pow(x, e2),
                        pow_deriv(x, e1) == e1 * pow(x, (e1 - 1) as nat),
                        pow(x, m) == pow(x, (e1 - 1) as nat) * pow(x, e2),
                        big_x == pow(x, m) * p,
                ;
            } else {
                assert(t1 == e1 * big_x) by (nonlinear_arith)
                    requires
                        t1 == pow_deriv(x, e1) * p * pow(x, e2),
                        pow_deriv(x, e1) == 0,
                        e1 == 0,
                ;
            }
            if e2 > 0 {
                lemma_pow_adds(x, e1, (e2 - 1) as nat);
                assert(t2 == e2 * big_x) by (nonlinear_arith)
                    requires
                        t2 == pow(x, e1) * (pow_deriv(x, e2) * p),
                        pow_deriv(x, e2) == e2 * pow(x, (e2 - 1) as nat),
                        pow(x, m) == pow(x, e1) * pow(x, (e2 - 1) as nat),
                        big_x == pow(x, m) * p,
                ;
            } else {
                assert(t2 == e2 * big_x) by (nonlinear_arith)
                    requires
                        t2 == pow(x, e1) * (pow_deriv(x, e2) * p),
                        pow_deriv(x, e2) == 0,
                        e2 == 0,
                ;
            }
            assert(t1 + t2 == tot) by (nonlinear_arith)
                requires
                    t1 == e1 * big_x,
                    t2 == e2 * big_x,
                    tot == e * big_x,
                    e == e1 + e2,
            ;
            assert(fits_i64(t1) && fits_i64(t2)) by (nonlinear_arith)
                requires
                    t1 == e1 * big_x,
                    t2 == e2 * big_x,
                    tot == e * big_x,
                    e == e1 + e2,
                    fits_i64(tot),
            ;
        }
    }
    assert(dual_mul::<N>(dual_pow::<N>(a, e1), dual_pow::<N>(a, e2)).partial =~= dual_pow::<N>(
        a,
        e,
    ).partial);
}

impl<const N: usize> PartialDual<N> {
    /// `self` raised to the power `n`, by repeated squaring.
    pub fn powu(self, n: u32) -> (r: Self)
        requires
            powu_ok::<N>(self.model(), n as nat),
        ensures
            r.model() == dual_pow::<N>(self.model(), n as nat),
    {
        let ghost a = self.model();
        let mut m: u32 = n;
        let mut v = self;
        let mut acc = Self::constant(1);
        let ghost mut e1: nat = 0;
        let ghost mut e2: nat = 1;
        proof {
            lemma_pow0(a.val);
            lemma_pow1(a.val);
            assert(pow_deriv(a.val, 1) == 1);
            assert(acc.model().partial =~= dual_pow::<N>(a, 0).partial);
            assert(v.model().partial =~= dual_pow::<N>(a, 1).partial);
        }
        while m > 0
            invariant
                n as nat == e1 + e2 * m,
                e2 >= 1,
                acc.model() == dual_pow::<N>(a, e1),
                v.model() == dual_pow::<N>(a, e2),
                powu_ok::<N>(a, n as nat),
            decreases m,
        {
            let ghost m0: nat = m as nat;
            if m % 2 == 1 {
                assert(e1 + e2 <= n && n as nat == (e1 + e2) + e2 * (m0 - 1)) by (nonlinear_arith)
                    requires
                        n as nat == e1 + e2 * m0,
                        e2 >= 1,
                        m0 >= 1,
                ;
                proof {
                    lemma_dual_pow_mul::<N>(a, e1, e2, n as nat);
                }
                acc = acc.mul(v);
                proof {
                    e1 = e1 + e2;
                }
            }
            assert(n as nat == e1 + e2 * (m0 - m0 % 2));
            m = m / 2;
            assert(n as nat == e1 + (e2 + e2) * m) by (nonlinear_arith)
                requires
                    n as nat == e1 + e2 * (m0 - m0 % 2),
                    m0 - m0 % 2 == 2 * m,
            ;
            if m > 0 {
                assert(e2 + e2 <= n) by (nonlinear_arith)
                    requires
                        n as nat == e1 + (e2 + e2) * m,
                        e2 >= 1,
                        m >= 1,
                ;
                proof {
                    lemma_dual_pow_mul::<N>(a, e2, e2, n as nat);
                }
                v = v.mul(v);
                proof {
                    e2 = e2 + e2;
                }
            } else {
                assert(n as nat == e1 + e2 * m) by (nonlinear_arith)
                    requires
                        n as nat == e1 + (e2 + e2) * m,
                        m == 0,
                ;
            }
        }
        acc
    }

    /// The sum of `items`, from the first on, starting from zero.
    pub fn sum(items: &Vec<Self>) -> (r: Self)
        requires
            sum_ok::<N>(items@.map_values(|d: PartialDual<N>| d.model()), items@.len()),
        ensures
            r.model() == dual_sum::<N>(
                items@.map_values(|d: PartialDual<N>| d.model()),
                items@.len(),
            ),
    {
        let ghost s = items@.map_values(|d: PartialDual<N>| d.model());
        let mut acc = Self::zero();
        let mut i: usize = 0;
        while i < items.len()
            invariant
                0 <= i <= items@.len(),
                s == items@.map_values(|d: PartialDual<N>| d.model()),
                sum_ok::<N>(s, items@.len()),
                acc.model() == dual_sum::<N>(s, i as nat),
            decreases items@.len() - i,
        {
            proof {
                lemma_sum_ok_prefix::<N>(s, (i + 1) as nat, items@.len());
            }
            acc = acc.add(items[i]);
            i = i + 1;
        }
        acc
    }
}

impl<const N: usize> Default for PartialDual<N> {
    /// The additive identity.
    fn default() -> (r: Self)
        ensures
            r.model() == dual_zero::<N>(),
    {
        Self::zero()
    }
}

/// Raising to the power 0 gives the constant 1, whose partials are all 0.
pub proof fn lemma_powu_zero<const N: usize>(a: DualModel)
    ensures
        dual_pow::<N>(a, 0).val == 1,
        forall|k: int| 0 <= k < N ==> #[trigger] dual_pow::<N>(a, 0).partial[k] == 0,
{
    lemma_pow0(a.val);
}

/// The dot product of two vectors of one dual scalar each is the product
/// of those scalars.
pub proof fn lemma_dot_single<const N: usize>(u: Seq<DualModel>, v: Seq<DualModel>)
    requires
        u.len() == 1,
        v.len() == 1,
    ensures
        dot_upto::<PartialDual<N>>(u, v, 1) == dual_mul::<N>(u[0], v[0]),
{
    let m = dual_mul::<N>(u[0], v[0]);
    assert(dot_upto::<PartialDual<N>>(u, v, 0) == dual_zero::<N>());
    assert(dual_add::<N>(dual_zero::<N>(), m).partial =~= m.partial);
}

} // verus!
