use eccvm_core::field::Fe;
use eccvm_core::univariate::Univariate;

fn uni(vs: &[u64]) -> Univariate {
    Univariate { evaluations: vs.iter().map(|v| Fe::from_u64(*v)).collect() }
}

#[test]
fn univariate_extends_linear() {
    let u = uni(&[1, 3]);
    assert_eq!(u.extend_to(5).evaluations, uni(&[1, 3, 5, 7, 9]).evaluations);
}

#[test]
fn univariate_extends_quadratic() {
    let u = uni(&[0, 1, 4]);
    assert_eq!(u.extend_to(7).evaluations, uni(&[0, 1, 4, 9, 16, 25, 36]).evaluations);
}

#[test]
fn univariate_extends_cubic_from_eight_points() {
    // x^3 - 2x + 5, held at eight points, extended to twelve
    let f = |x: u64| x * x * x + 5 - 2 * x;
    let held: Vec<u64> = (0..8).map(f).collect();
    let want: Vec<u64> = (0..12).map(f).collect();
    assert_eq!(uni(&held).extend_to(12).evaluations, uni(&want).evaluations);
}

#[test]
fn univariate_extends_decreasing_line_below_zero() {
    let u = uni(&[2, 1]);
    let e = u.extend_to(4);
    assert_eq!(e.evaluations[2], Fe::zero());
    assert_eq!(e.evaluations[3], Fe::zero().sub(&Fe::one()));
}

#[test]
fn univariate_extend_and_batch_weights() {
    let u = uni(&[1, 2]);
    let mut result = uni(&[10, 10, 10, 10]);
    let poly = uni(&[1, 2, 3, 4]);
    u.extend_and_batch_univariates(&mut result, &poly, &Fe::from_u64(5));
    // extension 1,2,3,4; times poly 1,4,9,16; times 5; plus 10
    assert_eq!(result.evaluations, uni(&[15, 30, 55, 90]).evaluations);
}

#[test]
fn univariate_scaled() {
    let u = uni(&[1, 2, 3]);
    assert_eq!(u.scaled(&Fe::from_u64(4)).evaluations, uni(&[4, 8, 12]).evaluations);
}

#[test]
fn univariate_zero() {
    assert_eq!(Univariate::zero(3).evaluations, uni(&[0, 0, 0]).evaluations);
}
