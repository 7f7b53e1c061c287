use vstd::prelude::*;

verus! {

/// What the vector and matrix operations need from their entries.
///
/// `Model` is the mathematical value that an entry stands for. Each
/// operation is exact on models; its `*_ok` condition says when the result
/// is representable, and is what a caller must establish.
pub trait Scalar: Sized + Copy {
    type Model;

    spec fn model(&self) -> Self::Model;

    spec fn zero_model() -> Self::Model;

    spec fn add_model(a: Self::Model, b: Self::Model) -> Self::Model;

    spec fn sub_model(a: Self::Model, b: Self::Model) -> Self::Model;

    spec fn mul_model(a: Self::Model, b: Self::Model) -> Self::Model;

    spec fn add_ok(a: Self::Model, b: Self::Model) -> bool;

    spec fn sub_ok(a: Self::Model, b: Self::Model) -> bool;

    spec fn mul_ok(a: Self::Model, b: Self::Model) -> bool;

    /// The additive identity.
    fn zero() -> (r: Self)
        ensures
            r.model() == Self::zero_model(),
    ;

    fn add(self, rhs: Self) -> (r: Self)
        requires
            Self::add_ok(self.model(), rhs.model()),
        ensures
            r.model() == Self::add_model(self.model(), rhs.model()),
    ;

    fn sub(self, rhs: Self) -> (r: Self)
        requires
            Self::sub_ok(self.model(), rhs.model()),
        ensures
            r.model() == Self::sub_model(self.model(), rhs.model()),
    ;

    fn mul(self, rhs: Self) -> (r: Self)
        requires
            Self::mul_ok(self.model(), rhs.model()),
        ensures
            r.model() == Self::mul_model(self.model(), rhs.model()),
    ;
}

/// A square root on entries; `is_sqrt(a, r)` says that `r` is a square root
/// of `a` in the sense of the entry type.
pub trait Sqrt: Scalar {
    spec fn is_sqrt(a: Self::Model, r: Self::Model) -> bool;

    spec fn sqrt_ok(a: Self::Model) -> bool;

    fn sqrt(self) -> (r: Self)
        requires
            Self::sqrt_ok(self.model()),
        ensures
            Self::is_sqrt(self.model(), r.model()),
    ;
}

pub open spec fn fits_i64(x: int) -> bool {
    i64::MIN <= x <= i64::MAX
}

impl Scalar for i64 {
    type Model = int;

    open spec fn model(&self) -> int {
        *self as int
    }

    open spec fn zero_model() -> int {
        0
    }

    open spec fn add_model(a: int, b: int) -> int {
        a + b
    }

    open spec fn sub_model(a: int, b: int) -> int {
        a - b
    }

    open spec fn mul_model(a: int, b: int) -> int {
        a * b
    }

    open spec fn add_ok(a: int, b: int) -> bool {
        fits_i64(a + b)
    }

    open spec fn sub_ok(a: int, b: int) -> bool {
        fits_i64(a - b)
    }

    open spec fn mul_ok(a: int, b: int) -> bool {
        fits_i64(a * b)
    }

    fn zero() -> (r: i64) {
        0
    }

    fn add(self, rhs: i64) -> (r: i64) {
        self + rhs
    }

    fn sub(self, rhs: i64) -> (r: i64) {
        self - rhs
    }

    fn mul(self, rhs: i64) -> (r: i64) {
        self * rhs
    }
}

/// The integer square root: the largest `r` with `r * r <= a`.
impl Sqrt for i64 {
    open spec fn is_sqrt(a: int, r: int) -> bool {
        0 <= r && r * r <= a < (r + 1) * (r + 1)
    }

    open spec fn sqrt_ok(a: int) -> bool {
        a >= 0
    }

    fn sqrt(self) -> (r: i64) {
        // Bisection on [lo, hi): lo * lo <= self < hi * hi.
        let mut lo: i64 = 0;
        let mut hi: i64 = if self < 3037000499 { self + 1 } else { 3037000500 };
        assert(hi * hi > self) by (nonlinear_arith)
            requires
                self >= 0,
                hi == self + 1 || (hi == 3037000500 && self >= 3037000499),
        ;
        while hi - lo > 1
            invariant
                0 <= lo < hi <= 3037000500,
                lo * lo <= self,
                self < hi * hi,
            decreases hi - lo,
        {
            let mid: i64 = lo + (hi - lo) / 2;
            assert(0 <= mid * mid <= 3037000499 * 3037000499) by (nonlinear_arith)
                requires
                    0 <= mid <= 3037000499,
            ;
            if mid * mid <= self {
                lo = mid;
            } else {
                hi = mid;
            }
        }
        lo
    }
}

/// The dot product of the first `n` entries of `u` and `v`, summed from the
/// first index on, starting from zero.
pub open spec fn dot_upto<T: Scalar>(u: Seq<T::Model>, v: Seq<T::Model>, n: nat) -> T::Model
    decreases n,
{
    if n == 0 {
        T::zero_model()
    } else {
        T::add_model(
            dot_upto::<T>(u, v, (n - 1) as nat),
            T::mul_model(u[n - 1], v[n - 1]),
        )
    }
}

/// Each product and each partial sum of `dot_upto(u, v, n)` is representable.
pub open spec fn dot_ok<T: Scalar>(u: Seq<T::Model>, v: Seq<T::Model>, n: nat) -> bool
    decreases n,
{
    n == 0 || (dot_ok::<T>(u, v, (n - 1) as nat) && T::mul_ok(u[n - 1], v[n - 1])
        && T::add_ok(dot_upto::<T>(u, v, (n - 1) as nat), T::mul_model(u[n - 1], v[n - 1])))
}

proof fn lemma_dot_ok_prefix<T: Scalar>(u: Seq<T::Model>, v: Seq<T::Model>, m: nat, n: nat)
    requires
        m <= n,
        dot_ok::<T>(u, v, n),
    ensures
        dot_ok::<T>(u, v, m),
    decreases n,
{
    if m < n {
        lemma_dot_ok_prefix::<T>(u, v, m, (n - 1) as nat);
    }
}

pub open spec fn add_models<T: Scalar>(u: Seq<T::Model>, v: Seq<T::Model>) -> Seq<T::Model> {
    Seq::new(u.len(), |i: int| T::add_model(u[i], v[i]))
}

pub open spec fn sub_models<T: Scalar>(u: Seq<T::Model>, v: Seq<T::Model>) -> Seq<T::Model> {
    Seq::new(u.len(), |i: int| T::sub_model(u[i], v[i]))
}

pub open spec fn scale_models<T: Scalar>(u: Seq<T::Model>, s: T::Model) -> Seq<T::Model> {
    Seq::new(u.len(), |i: int| T::mul_model(u[i], s))
}

pub open spec fn add_all_ok<T: Scalar>(u: Seq<T::Model>, v: Seq<T::Model>) -> bool {
    forall|i: int| 0 <= i < u.len() ==> T::add_ok(#[trigger] u[i], v[i])
}

pub open spec fn sub_all_ok<T: Scalar>(u: Seq<T::Model>, v: Seq<T::Model>) -> bool {
    forall|i: int| 0 <= i < u.len() ==> T::sub_ok(#[trigger] u[i], v[i])
}

pub open spec fn scale_ok<T: Scalar>(u: Seq<T::Model>, s: T::Model) -> bool {
    forall|i: int| 0 <= i < u.len() ==> T::mul_ok(#[trigger] u[i], s)
}

/// A vector of `N` entries.
#[derive(Clone, Copy)]
pub struct Vector<T, const N: usize>(pub [T; N]);

impl<T: Scalar, const N: usize> Vector<T, N> {
    /// The entries' models, in order.
    pub open spec fn models(&self) -> Seq<T::Model> {
        Seq::new(N as nat, |i: int| self.0@[i].model())
    }

    /// The sum over `i` of `self[i] * rhs[i]`.
    pub fn dot(self, rhs: Self) -> (r: T)
        requires
            dot_ok::<T>(self.models(), rhs.models(), N as nat),
        ensures
            r.model() == dot_upto::<T>(self.models(), rhs.models(), N as nat),
    {
        let mut acc = T::zero();
        let mut i: usize = 0;
        while i < N
            invariant
                0 <= i <= N,
                dot_ok::<T>(self.models(), rhs.models(), N as nat),
                acc.model() == dot_upto::<T>(self.models(), rhs.models(), i as nat),
            decreases N - i,
        {
            proof {
                lemma_dot_ok_prefix::<T>(self.models(), rhs.models(), (i + 1) as nat, N as nat);
            }
            let p = self.0[i].mul(rhs.0[i]);
            acc = acc.add(p);
            i = i + 1;
        }
        acc
    }

    /// The dot product of the vector with itself.
    pub fn length_square(self) -> (r: T)
        requires
            dot_ok::<T>(self.models(), self.models(), N as nat),
        ensures
            r.model() == dot_upto::<T>(self.models(), self.models(), N as nat),
    {
        self.dot(self)
    }

    /// Componentwise sum.
    pub fn add(self, rhs: Self) -> (r: Self)
        requires
            add_all_ok::<T>(self.models(), rhs.models()),
        ensures
            r.models() == add_models::<T>(self.models(), rhs.models()),
    {
        let mut out = self.0;
        let mut i: usize = 0;
        while i < N
            invariant
                0 <= i <= N,
                add_all_ok::<T>(self.models(), rhs.models()),
                forall|j: int| 0 <= j < i ==> (#[trigger] out@[j]).model() == T::add_model(
                    self.0@[j].model(),
                    rhs.0@[j].model(),
                ),
            decreases N - i,
        {
            assert(T::add_ok(self.models()[i as int], rhs.models()[i as int]));
            let e = self.0[i].add(rhs.0[i]);
            out[i] = e;
            i = i + 1;
        }
        let r = Vector(out);
        assert(r.models() =~= add_models::<T>(self.models(), rhs.models()));
        r
    }

    /// Componentwise difference.
    pub fn sub(self, rhs: Self) -> (r: Self)
        requires
            sub_all_ok::<T>(self.models(), rhs.models()),
        ensures
            r.models() == sub_models::<T>(self.models(), rhs.models()),
    {
        let mut out = self.0;
        let mut i: usize = 0;
        while i < N
            invariant
                0 <= i <= N,
                sub_all_ok::<T>(self.models(), rhs.models()),
                forall|j: int| 0 <= j < i ==> (#[trigger] out@[j]).model() == T::sub_model(
                    self.0@[j].model(),
                    rhs.0@[j].model(),
                ),
            decreases N - i,
        {
            assert(T::sub_ok(self.models()[i as int], rhs.models()[i as int]));
            let e = self.0[i].sub(rhs.0[i]);
            out[i] = e;
            i = i + 1;
        }
        let r = Vector(out);
        assert(r.models() =~= sub_models::<T>(self.models(), rhs.models()));
        r
    }

    /// Every entry multiplied by `rhs`.
    pub fn mul(self, rhs: T) -> (r: Self)
        requires
            scale_ok::<T>(self.models(), rhs.model()),
        ensures
            r.models() == scale_models::<T>(self.models(), rhs.model()),
    {
        let mut out = self.0;
        let mut i: usize = 0;
        while i < N
            invariant
                0 <= i <= N,
                scale_ok::<T>(self.models(), rhs.model()),
                forall|j: int| 0 <= j < i ==> (#[trigger] out@[j]).model() == T::mul_model(
                    self.0@[j].model(),
                    rhs.model(),
                ),
            decreases N - i,
        {
            assert(T::mul_ok(self.models()[i as int], rhs.model()));
            let e = self.0[i].mul(rhs);
            out[i] = e;
            i = i + 1;
        }
        let r = Vector(out);
        assert(r.models() =~= scale_models::<T>(self.models(), rhs.model()));
        r
    }
}

impl<T: Sqrt, const N: usize> Vector<T, N> {
    /// The square root of the dot product of the vector with itself.
    pub fn length(self) -> (r: T)
        requires
            dot_ok::<T>(self.models(), self.models(), N as nat),
            T::sqrt_ok(dot_upto::<T>(self.models(), self.models(), N as nat)),
        ensures
            T::is_sqrt(dot_upto::<T>(self.models(), self.models(), N as nat), r.model()),
    {
        self.length_square().sqrt()
    }
}

/// `cols[0] * x[0] + ... + cols[n - 1] * x[n - 1]`, summed from the first
/// column on; the first `n` columns of a matrix times a vector.
pub open spec fn matvec_upto<T: Scalar>(cols: Seq<Seq<T::Model>>, x: Seq<T::Model>, n: nat) -> Seq<
    T::Model,
>
    decreases n,
{
    if n <= 1 {
        scale_models::<T>(cols[0], x[0])
    } else {
        add_models::<T>(
            matvec_upto::<T>(cols, x, (n - 1) as nat),
            scale_models::<T>(cols[n - 1], x[n - 1]),
        )
    }
}

/// Each scaled column and each partial sum of `matvec_upto(cols, x, n)` is
/// representable.
pub open spec fn matvec_ok<T: Scalar>(cols: Seq<Seq<T::Model>>, x: Seq<T::Model>, n: nat) -> bool
    decreases n,
{
    if n <= 1 {
        scale_ok::<T>(cols[0], x[0])
    } else {
        matvec_ok::<T>(cols, x, (n - 1) as nat) && scale_ok::<T>(cols[n - 1], x[n - 1])
            && add_all_ok::<T>(
            matvec_upto::<T>(cols, x, (n - 1) as nat),
            scale_models::<T>(cols[n - 1], x[n - 1]),
        )
    }
}

proof fn lemma_matvec_ok_prefix<T: Scalar>(
    cols: Seq<Seq<T::Model>>,
    x: Seq<T::Model>,
    m: nat,
    n: nat,
)
    requires
        1 <= m <= n,
        matvec_ok::<T>(cols, x, n),
    ensures
        matvec_ok::<T>(cols, x, m),
    decreases n,
{
    if m < n {
        lemma_matvec_ok_prefix::<T>(cols, x, m, (n - 1) as nat);
    }
}

/// A matrix of `N` rows and `M` columns, held as its columns.
#[derive(Clone, Copy)]
pub struct Matrix<T, const N: usize, const M: usize>(pub [Vector<T, N>; M]);

impl<T: Scalar, const N: usize, const M: usize> Matrix<T, N, M> {
    /// The columns' models, in order.
    pub open spec fn models(&self) -> Seq<Seq<T::Model>> {
        Seq::new(M as nat, |j: int| self.0@[j].models())
    }

    /// Componentwise sum.
    pub fn add(self, rhs: Self) -> (r: Self)
        requires
            forall|j: int|
                0 <= j < M ==> add_all_ok::<T>(#[trigger] self.models()[j], rhs.models()[j]),
        ensures
            r.models() == Seq::new(
                M as nat,
                |j: int| add_models::<T>(self.models()[j], rhs.models()[j]),
            ),
    {
        let mut out = self.0;
        let mut j: usize = 0;
        while j < M
            invariant
                0 <= j <= M,
                forall|k: int|
                    0 <= k < M ==> add_all_ok::<T>(#[trigger] self.models()[k], rhs.models()[k]),
                forall|k: int|
                    0 <= k < j ==> (#[trigger] out@[k]).models() == add_models::<T>(
                        self.0@[k].models(),
                        rhs.0@[k].models(),
                    ),
            decreases M - j,
        {
            assert(add_all_ok::<T>(self.models()[j as int], rhs.models()[j as int]));
            let c = self.0[j].add(rhs.0[j]);
            out[j] = c;
            j = j + 1;
        }
        let r = Matrix(out);
        assert(r.models() =~= Seq::new(
            M as nat,
            |j: int| add_models::<T>(self.models()[j], rhs.models()[j]),
        ));
        r
    }

    /// Componentwise difference.
    pub fn sub(self, rhs: Self) -> (r: Self)
        requires
            forall|j: int|
                0 <= j < M ==> sub_all_ok::<T>(#[trigger] self.models()[j], rhs.models()[j]),
        ensures
            r.models() == Seq::new(
                M as nat,
                |j: int| sub_models::<T>(self.models()[j], rhs.models()[j]),
            ),
    {
        let mut out = self.0;
        let mut j: usize = 0;
        while j < M
            invariant
                0 <= j <= M,
                forall|k: int|
                    0 <= k < M ==> sub_all_ok::<T>(#[trigger] self.models()[k], rhs.models()[k]),
                forall|k: int|
                    0 <= k < j ==> (#[trigger] out@[k]).models() == sub_models::<T>(
                        self.0@[k].models(),
                        rhs.0@[k].models(),
                    ),
            decreases M - j,
        {
            assert(sub_all_ok::<T>(self.models()[j as int], rhs.models()[j as int]));
            let c = self.0[j].sub(rhs.0[j]);
            out[j] = c;
            j = j + 1;
        }
        let r = Matrix(out);
        assert(r.models() =~= Seq::new(
            M as nat,
            |j: int| sub_models::<T>(self.models()[j], rhs.models()[j]),
        ));
        r
    }

    /// The matrix times a vector: the sum of the columns, each scaled by the
    /// vector's entry of the same index.
    pub fn mul(self, rhs: Vector<T, M>) -> (r: Vector<T, N>)
        requires
            M > 0,
            matvec_ok::<T>(self.models(), rhs.models(), M as nat),
        ensures
            r.models() == matvec_upto::<T>(self.models(), rhs.models(), M as nat),
    {
        proof {
            lemma_matvec_ok_prefix::<T>(self.models(), rhs.models(), 1, M as nat);
        }
        let mut acc = self.0[0].mul(rhs.0[0]);
        let mut j: usize = 1;
        while j < M
            invariant
                1 <= j <= M,
                matvec_ok::<T>(self.models(), rhs.models(), M as nat),
                acc.models() == matvec_upto::<T>(self.models(), rhs.models(), j as nat),
            decreases M - j,
        {
            proof {
                lemma_matvec_ok_prefix::<T>(self.models(), rhs.models(), (j + 1) as nat, M as nat);
            }
            let s = self.0[j].mul(rhs.0[j]);
            acc = acc.add(s);
            j = j + 1;
        }
        acc
    }

    /// The matrix times each column of `rhs`.
    pub fn mul_matrix<const K: usize>(self, rhs: Matrix<T, M, K>) -> (r: Matrix<T, N, K>)
        requires
            M > 0,
            forall|k: int|
                0 <= k < K ==> matvec_ok::<T>(self.models(), #[trigger] rhs.models()[k], M as nat),
        ensures
            r.models() == Seq::new(
                K as nat,
                |k: int| matvec_upto::<T>(self.models(), rhs.models()[k], M as nat),
            ),
    {
        let mut out: [Vector<T, N>; K] = [self.0[0]; K];
        let mut k: usize = 0;
        while k < K
            invariant
                0 <= k <= K,
                M > 0,
                forall|l: int|
                    0 <= l < K ==> matvec_ok::<T>(
                        self.models(),
                        #[trigger] rhs.models()[l],
                        M as nat,
                    ),
                forall|l: int|
                    0 <= l < k ==> (#[trigger] out@[l]).models() == matvec_upto::<T>(
                        self.models(),
                        rhs.0@[l].models(),
                        M as nat,
                    ),
            decreases K - k,
        {
            assert(matvec_ok::<T>(self.models(), rhs.models()[k as int], M as nat));
            let c = self.mul(rhs.0[k]);
            out[k] = c;
            k = k + 1;
        }
        let r = Matrix(out);
        assert(r.models() =~= Seq::new(
            K as nat,
            |k: int| matvec_upto::<T>(self.models(), rhs.models()[k], M as nat),
        ));
        r
    }
}

/// The `n`-by-`n` identity matrix as columns of integers.
pub open spec fn is_identity(cols: Seq<Seq<int>>, n: nat) -> bool {
    &&& cols.len() == n
    &&& forall|j: int| 0 <= j < n ==> (#[trigger] cols[j]).len() == n
    &&& forall|j: int, i: int|
        0 <= j < n && 0 <= i < n ==> #[trigger] cols[j][i] == (if i == j { 1int } else { 0int })
}

/// The identity matrix times a vector is that vector.
pub proof fn lemma_identity_mul(cols: Seq<Seq<int>>, x: Seq<int>)
    requires
        x.len() > 0,
        is_identity(cols, x.len()),
    ensures
        matvec_upto::<i64>(cols, x, x.len()) == x,
{
    let n = x.len();
    lemma_identity_mul_prefix(cols, x, n);
    assert(matvec_upto::<i64>(cols, x, n) =~= x);
}

proof fn lemma_identity_mul_prefix(cols: Seq<Seq<int>>, x: Seq<int>, m: nat)
    requires
        1 <= m <= x.len(),
        is_identity(cols, x.len()),
    ensures
        matvec_upto::<i64>(cols, x, m) == Seq::new(
            x.len(),
            |i: int| if i < m { x[i] } else { 0int },
        ),
    decreases m,
{
    let n = x.len();
    let want = Seq::new(n, |i: int| if i < m { x[i] } else { 0int });
    if m == 1 {
        assert forall|i: int| 0 <= i < n implies #[trigger] matvec_upto::<i64>(cols, x, m)[i]
            == want[i] by {
            assert(cols[0][i] == (if i == 0 { 1int } else { 0int }));
        }
        assert(matvec_upto::<i64>(cols, x, m) =~= want);
    } else {
        lemma_identity_mul_prefix(cols, x, (m - 1) as nat);
        assert forall|i: int| 0 <= i < n implies #[trigger] matvec_upto::<i64>(cols, x, m)[i]
            == want[i] by {
            assert(cols[m - 1][i] == (if i == m - 1 { 1int } else { 0int }));
        }
        assert(matvec_upto::<i64>(cols, x, m) =~= want);
    }
}

/// On integers, the square root of a square is the absolute value.
pub proof fn lemma_sqrt_of_square(a: int, r: int)
    requires
        <i64 as Sqrt>::is_sqrt(a * a, r),
    ensures
        r == (if a >= 0 { a } else { -a }),
{
    let m = if a >= 0 { a } else { -a };
    assert(m * m == a * a) by (nonlinear_arith)
        requires
            m == a || m == -a,
    ;
    if r < m {
        assert((r + 1) * (r + 1) <= m * m) by (nonlinear_arith)
            requires
                0 <= r,
                r + 1 <= m,
        ;
    } else if r > m {
        assert(r * r > m * m) by (nonlinear_arith)
            requires
                0 <= m,
                m < r,
        ;
    }
}

} // verus!
