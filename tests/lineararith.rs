use autodiff_opt::lineararith::{Matrix, Scalar, Sqrt, Vector};
use autodiff_opt::partial_dual::PartialDual;

#[test]
fn dot_sums_products() {
    assert_eq!(Vector([1i64, 2, 3]).dot(Vector([4, 5, 6])), 32);
}

#[test]
fn dot_of_empty_vectors_is_zero() {
    let e: Vector<i64, 0> = Vector([]);
    assert_eq!(e.dot(e), 0);
}

#[test]
fn length_square_of_three_four() {
    assert_eq!(Vector([3i64, 4]).length_square(), 25);
}

#[test]
fn length_of_three_four() {
    assert_eq!(Vector([3i64, 4]).length(), 5);
}

#[test]
fn length_rounds_down() {
    assert_eq!(Vector([2i64, 2]).length(), 2);
}

#[test]
fn integer_sqrt_exact_values() {
    assert_eq!(0i64.sqrt(), 0);
    assert_eq!(1i64.sqrt(), 1);
    assert_eq!(15i64.sqrt(), 3);
    assert_eq!(16i64.sqrt(), 4);
    assert_eq!(i64::MAX.sqrt(), 3037000499);
}

#[test]
fn vector_add_sub_scale() {
    let u = Vector([1i64, -2, 3]);
    let v = Vector([10i64, 20, 30]);
    assert_eq!(u.add(v).0, [11, 18, 33]);
    assert_eq!(u.sub(v).0, [-9, -22, -27]);
    assert_eq!(u.mul(-4).0, [-4, 8, -12]);
}

#[test]
fn matrix_add_sub() {
    let a = Matrix([Vector([1i64, 2]), Vector([3, 4])]);
    let b = Matrix([Vector([5i64, 6]), Vector([7, 8])]);
    let s = a.add(b);
    assert_eq!(s.0[0].0, [6, 8]);
    assert_eq!(s.0[1].0, [10, 12]);
    let d = a.sub(b);
    assert_eq!(d.0[0].0, [-4, -4]);
    assert_eq!(d.0[1].0, [-4, -4]);
}

#[test]
fn identity_matrix_keeps_vector() {
    let id = Matrix([Vector([1i64, 0, 0]), Vector([0, 1, 0]), Vector([0, 0, 1])]);
    assert_eq!(id.mul(Vector([7, -8, 9])).0, [7, -8, 9]);
}

#[test]
fn matrix_times_vector() {
    // Rows (1 3) and (2 4), held as the columns (1 2) and (3 4).
    let a = Matrix([Vector([1i64, 2]), Vector([3, 4])]);
    assert_eq!(a.mul(Vector([5, 6])).0, [23, 34]);
}

#[test]
fn non_square_matrix_times_vector() {
    // Three rows, two columns.
    let a = Matrix([Vector([1i64, 0, 2]), Vector([-1, 3, 1])]);
    assert_eq!(a.mul(Vector([2, 1])).0, [1, 3, 5]);
}

#[test]
fn matrix_times_matrix() {
    let a = Matrix([Vector([1i64, 2]), Vector([3, 4])]);
    let b = Matrix([Vector([5i64, 6]), Vector([7, 8]), Vector([1, 0])]);
    let p = a.mul_matrix(b);
    assert_eq!(p.0[0].0, [23, 34]);
    assert_eq!(p.0[1].0, [31, 46]);
    assert_eq!(p.0[2].0, [1, 2]);
}

#[test]
fn dot_of_single_duals_is_mul() {
    let a = PartialDual::<2>::variable(3, 0);
    let b = PartialDual::<2> { val: -5, partial: [2, 7] };
    let d = Vector([a]).dot(Vector([b]));
    let m = a.mul(b);
    assert_eq!(d.val, m.val);
    assert_eq!(d.partial, m.partial);
    assert_eq!(d.val, -15);
    assert_eq!(d.partial, [1, 21]);
}

#[test]
fn dual_vector_length_square_gradient() {
    let vars = [3i64, 4];
    let p = Vector([PartialDual::select(vars, 0), PartialDual::select(vars, 1)]);
    let l = p.length_square();
    assert_eq!(l.val, 25);
    assert_eq!(l.partial, [6, 8]);
}

#[test]
fn dual_identity_matrix_keeps_vector() {
    let one = PartialDual::<1>::constant(1);
    let zero = PartialDual::<1>::constant(0);
    let id = Matrix([Vector([one, zero]), Vector([zero, one])]);
    let x = Vector([PartialDual::<1>::variable(4, 0), PartialDual::<1>::constant(-2)]);
    let r = id.mul(x);
    assert_eq!(r.0[0].val, 4);
    assert_eq!(r.0[0].partial, [1]);
    assert_eq!(r.0[1].val, -2);
    assert_eq!(r.0[1].partial, [0]);
}

#[test]
fn sqrt_of_square_is_absolute_value() {
    for a in [-3037000499i64, -12, -1, 0, 1, 7, 3037000499] {
        assert_eq!(a.mul(a).sqrt(), a.abs());
    }
}
