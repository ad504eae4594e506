use torus::Torus;

const ZERO_POINTS_FIVE: u32 = 1 << (u32::BITS - 1);

fn from_f64(f: f64) -> Torus {
    Torus::from_real_bits(f.to_bits()).unwrap()
}

fn to_f64(t: Torus) -> f64 {
    f64::from_bits(t.to_real_bits())
}

fn close(a: f64, b: f64, epsilon: f64) -> bool {
    approx::RelativeEq::relative_eq(&a, &b, epsilon, <f64 as approx::RelativeEq>::default_max_relative())
}

#[test]
fn test_sign_plus() {
    let t = from_f64(0.4);
    assert_eq!(t.sign(), 1);
}

#[test]
fn test_sign_minus() {
    let t = from_f64(0.6);
    assert_eq!(t.sign(), -1);
}

#[test]
fn test_from_float() {
    let t = from_f64(0.5);
    assert!(close(to_f64(t), 0.5, 0.0001));
}

#[test]
fn test_from_float_wrap_1() {
    let t = from_f64(1.5);
    assert!(close(to_f64(t), 0.5, 0.0001));
}

#[test]
fn test_from_float_wrap_2() {
    let t = from_f64(134.2);
    assert!(close(to_f64(t), 0.2, 0.0001));
}

#[test]
fn test_from_float_neg() {
    let t = from_f64(-0.5);
    assert!(close(to_f64(t), 0.5, 0.0001));
}

#[test]
fn test_from_float_neg_wrap() {
    let t = from_f64(-1.5);
    assert!(close(to_f64(t), 0.5, 0.0001));
}

#[test]
fn test_from_float_neg_wrap_2() {
    let t = from_f64(-134.2);
    assert!(close(to_f64(t), 0.8, 0.0001));
}

#[test]
fn test_into_float() {
    let t = Torus::new(ZERO_POINTS_FIVE);
    let f: f64 = to_f64(t);
    assert!(close(f, 0.5, 0.0001));
}

#[test]
fn test_neg() {
    let t = Torus::new(ZERO_POINTS_FIVE);
    assert!(close(to_f64(-t), 0.5, 0.0001));
}

#[test]
fn test_neg_approx_1() {
    let t = from_f64(0.5);
    assert!(close(to_f64(-t), 0.5, 0.0001));
}

#[test]
fn test_neg_approx_2() {
    let t = from_f64(0.3);
    assert!(close(to_f64(-t), 0.7, 0.0001));
}

#[test]
fn test_add_zero() {
    let t1 = Torus::new(ZERO_POINTS_FIVE);
    let t2 = Torus::new(ZERO_POINTS_FIVE);
    let t3 = t1 + t2;
    assert!(close(to_f64(t3), 0.0, 0.0001));
}

#[test]
fn test_add_one() {
    let t1 = Torus::new(ZERO_POINTS_FIVE);
    let t2 = Torus::new(ZERO_POINTS_FIVE + 1);
    let t3 = t1 + t2;
    assert_eq!(t3.inner, 1);
}

#[test]
fn test_add_approx() {
    let f1 = 0.5;
    let f2 = 0.51;

    let t1 = from_f64(f1);
    let t2 = from_f64(f2);

    let t3 = t1 + t2;
    assert!(close(to_f64(t3), 0.01, 0.001));
}

#[test]
fn test_sub_zero() {
    let t1 = Torus::new(ZERO_POINTS_FIVE);
    let t2 = Torus::new(ZERO_POINTS_FIVE);
    let t3 = t1 - t2;
    assert_eq!(t3.inner, 0);
}

#[test]
fn test_sub_one() {
    let t1 = Torus::new(ZERO_POINTS_FIVE);
    let t2 = Torus::new(ZERO_POINTS_FIVE - 1);
    let t3 = t1 - t2;
    assert_eq!(t3.inner, 1);
}

#[test]
fn test_sub_approx() {
    let f1 = 0.5;
    let f2 = 0.51;

    let t1 = from_f64(f1);
    let t2 = from_f64(f2);

    let t3 = t2 - t1;
    assert!(close(to_f64(t3), 0.01, 0.001));
}

#[test]
fn test_sub_approx_wrap() {
    let f1 = 0.5;
    let f2 = 0.51;

    let t1 = from_f64(f1);
    let t2 = from_f64(f2);

    let t3 = t1 - t2;
    assert!(close(to_f64(t3), 0.99, 0.001));
}

#[test]
fn test_add_assign() {
    let mut t1 = Torus::new(ZERO_POINTS_FIVE);
    let t2 = Torus::new(ZERO_POINTS_FIVE);
    t1 += t2;
    assert_eq!(t1.inner, 0);
}

#[test]
fn test_sub_assign() {
    let mut t1 = Torus::new(ZERO_POINTS_FIVE);
    let t2 = Torus::new(ZERO_POINTS_FIVE);
    t1 -= t2;
    assert_eq!(t1.inner, 0);
}

#[test]
fn test_mul() {
    let t1 = Torus::new(ZERO_POINTS_FIVE);
    let t2 = t1 * 2;
    assert_eq!(t2.inner, 0);
}

#[test]
fn test_mul_approx() {
    let f = 0.3;
    let t1 = from_f64(f);
    let t2 = t1 * 2;
    assert!(close(to_f64(t2), 0.6, 0.0001));
}

#[test]
fn test_mul_approx_wrap() {
    let f = 0.6;
    let t1 = from_f64(f);
    let t2 = t1 * 2;
    assert!(close(to_f64(t2), 0.2, 0.0001));
}

#[test]
fn test_mul_approx_neg() {
    let f = 0.3;
    let t1 = from_f64(f);
    let t2 = t1 * -2;
    assert!(close(to_f64(t2), 0.4, 0.0001));
}

#[test]
fn test_mul_approx_neg_wrap() {
    let f = 0.6;
    let t1 = from_f64(f);
    let t2 = t1 * -2;
    assert!(close(to_f64(t2), 0.8, 0.0001));
}

#[test]
fn test_mul_assign() {
    let mut t1 = Torus::new(ZERO_POINTS_FIVE);
    t1 *= 2;
    assert_eq!(t1.inner, 0);
}

#[test]
fn test_uniform() {
    for _ in 0..1000 {
        let mut rng = rand::thread_rng();
        let t = Torus::uniform(&mut rng);
        assert!(to_f64(t) >= 0.0);
        assert!(to_f64(t) < 1.0);
    }
}
