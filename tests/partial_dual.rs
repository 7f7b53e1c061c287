use autodiff_opt::lineararith::Scalar;
use autodiff_opt::partial_dual::PartialDual;

#[test]
fn constant_has_zero_partials() {
    let c = PartialDual::<4>::constant(-17);
    assert_eq!(c.val, -17);
    assert_eq!(c.partial, [0, 0, 0, 0]);
    let e = PartialDual::<0>::constant(5);
    assert_eq!(e.val, 5);
}

#[test]
fn variable_is_one_hot() {
    let v = PartialDual::<3>::variable(9, 1);
    assert_eq!(v.val, 9);
    assert_eq!(v.partial, [0, 1, 0]);
}

#[test]
fn select_reads_its_index() {
    let s = PartialDual::select([5, 6, 7], 2);
    assert_eq!(s.val, 7);
    assert_eq!(s.partial, [0, 0, 1]);
}

#[test]
fn default_is_zero() {
    let d = PartialDual::<2>::default();
    assert_eq!(d.val, 0);
    assert_eq!(d.partial, [0, 0]);
}

#[test]
fn add_is_componentwise() {
    let a = PartialDual::<3> { val: 2, partial: [1, -4, 0] };
    let b = PartialDual::<3> { val: -7, partial: [3, 5, 9] };
    let s = a.add(b);
    assert_eq!(s.val, -5);
    assert_eq!(s.partial, [4, 1, 9]);
}

#[test]
fn sub_is_componentwise() {
    let a = PartialDual::<3> { val: 2, partial: [1, -4, 0] };
    let b = PartialDual::<3> { val: -7, partial: [3, 5, 9] };
    let s = a.sub(b);
    assert_eq!(s.val, 9);
    assert_eq!(s.partial, [-2, -9, -9]);
}

#[test]
fn mul_follows_product_rule() {
    let a = PartialDual::<2> { val: 3, partial: [1, 2] };
    let b = PartialDual::<2> { val: -4, partial: [5, -1] };
    let p = a.mul(b);
    assert_eq!(p.val, -12);
    // 1 * -4 + 3 * 5, 2 * -4 + 3 * -1
    assert_eq!(p.partial, [11, -11]);
}

#[test]
fn mul_of_two_variables() {
    let vars = [6, 7];
    let x = PartialDual::select(vars, 0);
    let y = PartialDual::select(vars, 1);
    let p = x.mul(y);
    assert_eq!(p.val, 42);
    assert_eq!(p.partial, [7, 6]);
}

#[test]
fn zero_is_additive_identity() {
    let a = PartialDual::<2> { val: 3, partial: [1, 2] };
    let s = PartialDual::<2>::zero().add(a);
    assert_eq!(s.val, 3);
    assert_eq!(s.partial, [1, 2]);
}

#[test]
fn powu_zero_is_one() {
    let a = PartialDual::<3> { val: -8, partial: [4, 0, -2] };
    let p = a.powu(0);
    assert_eq!(p.val, 1);
    assert_eq!(p.partial, [0, 0, 0]);
}

#[test]
fn powu_one_is_identity() {
    let a = PartialDual::<2> { val: -8, partial: [4, -2] };
    let p = a.powu(1);
    assert_eq!(p.val, -8);
    assert_eq!(p.partial, [4, -2]);
}

#[test]
fn powu_cube_of_variable() {
    let x = PartialDual::<2>::variable(2, 0);
    let p = x.powu(3);
    assert_eq!(p.val, 8);
    assert_eq!(p.partial, [12, 0]);
}

#[test]
fn powu_follows_power_rule() {
    let a = PartialDual::<2> { val: -3, partial: [1, 2] };
    let p = a.powu(5);
    assert_eq!(p.val, -243);
    // 5 * (-3)^4 = 405
    assert_eq!(p.partial, [405, 810]);
}

#[test]
fn powu_matches_finite_difference() {
    for n in 1u32..6 {
        for v in [-4i64, -1, 2, 5] {
            let p = PartialDual::<1>::variable(v, 0).powu(n);
            let central = ((v + 1).pow(n) - (v - 1).pow(n)) as f64 / 2.0;
            let exact = (n as i64) * v.pow(n - 1);
            assert_eq!(p.val, v.pow(n));
            assert_eq!(p.partial[0], exact);
            // The central difference of x^n differs from the derivative by
            // terms of the third derivative and up.
            if n <= 2 {
                assert!((central - exact as f64).abs() < 1e-6);
            }
        }
    }
}

#[test]
fn powu_of_constant_has_zero_partials() {
    let p = PartialDual::<2>::constant(7).powu(4);
    assert_eq!(p.val, 2401);
    assert_eq!(p.partial, [0, 0]);
}

#[test]
fn sum_of_duals() {
    let items = vec![
        PartialDual::<2> { val: 1, partial: [1, 0] },
        PartialDual::<2> { val: 2, partial: [0, 3] },
        PartialDual::<2> { val: -10, partial: [5, 5] },
    ];
    let s = PartialDual::sum(&items);
    assert_eq!(s.val, -7);
    assert_eq!(s.partial, [6, 8]);
}

#[test]
fn sum_of_nothing_is_zero() {
    let s = PartialDual::<3>::sum(&Vec::new());
    assert_eq!(s.val, 0);
    assert_eq!(s.partial, [0, 0, 0]);
}
