use numeric_exercises::matrix::fibonacci;
use numeric_exercises::matrix::Mat2;
use numeric_exercises::matrix::Vec2;

#[test]
fn new_is_identity() {
    let id = Mat2::new();
    assert_eq!(id, Mat2 { a: 1, b: 0, c: 0, d: 1 });
}

#[test]
fn mul_example() {
    let x = Mat2 { a: 1, b: 2, c: 3, d: 4 };
    let y = Mat2 { a: 5, b: 6, c: 7, d: 8 };
    assert_eq!(x.mul(y), Mat2 { a: 19, b: 22, c: 43, d: 50 });
}

#[test]
fn mul_identity_left_and_right() {
    let x = Mat2 { a: 9, b: 8, c: 7, d: 6 };
    assert_eq!(Mat2::new().mul(x), x);
    assert_eq!(x.mul(Mat2::new()), x);
}

#[test]
fn apply_to_vector_example() {
    let m = Mat2 { a: 1, b: 2, c: 3, d: 4 };
    let v = Vec2 { a: 5, b: 6 };
    assert_eq!(m.apply_to_vector(v), Vec2 { a: 17, b: 39 });
}

#[test]
fn get_upper_is_max() {
    assert_eq!(Vec2 { a: 3, b: 9 }.get_upper(), 9);
    assert_eq!(Vec2 { a: 9, b: 3 }.get_upper(), 9);
    assert_eq!(Vec2 { a: 4, b: 4 }.get_upper(), 4);
}

#[test]
fn power_zero_is_identity() {
    let m = Mat2 { a: 2, b: 1, c: 1, d: 2 };
    assert_eq!(m.power(0), Mat2::new());
}

#[test]
fn power_one_is_the_matrix() {
    let m = Mat2 { a: 2, b: 1, c: 1, d: 2 };
    assert_eq!(m.power(1), m);
}

#[test]
fn power_adds_exponents() {
    let m = Mat2 { a: 1, b: 2, c: 3, d: 1 };
    assert_eq!(m.power(5), m.power(2).mul(m.power(3)));
}

#[test]
fn power_example() {
    let m = Mat2 { a: 1, b: 1, c: 0, d: 1 };
    assert_eq!(m.power(40), Mat2 { a: 1, b: 40, c: 0, d: 1 });
}

#[test]
fn fibonacci_small() {
    assert_eq!(fibonacci(0), 1);
    assert_eq!(fibonacci(1), 1);
    assert_eq!(fibonacci(2), 2);
    assert_eq!(fibonacci(3), 3);
    assert_eq!(fibonacci(4), 5);
    assert_eq!(fibonacci(5), 8);
}

#[test]
fn fibonacci_larger() {
    assert_eq!(fibonacci(10), 89);
    assert_eq!(fibonacci(20), 10946);
}
