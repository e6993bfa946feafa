use numeric_exercises::combinatorics::chooses;
use numeric_exercises::scalar::capitalize;
use numeric_exercises::scalar::gcd;
use numeric_exercises::scalar::sum_array;
use numeric_exercises::scalar::up3;
use numeric_exercises::sequences::zip;

#[test]
fn capitalize_mixed_ascii() {
    assert_eq!(capitalize(String::from("abcXYZ!1")), String::from("ABCXYZ!1"));
}

#[test]
fn capitalize_keeps_length() {
    let inputs = ["", "hello, world", "a1!B2?c3.", "tabs\tand\nnewlines"];
    for input in inputs {
        let output = capitalize(String::from(input));
        assert_eq!(output.chars().count(), input.chars().count());
    }
}

#[test]
fn capitalize_empty() {
    assert_eq!(capitalize(String::new()), String::new());
}

#[test]
fn sum_array_empty() {
    assert_eq!(sum_array(&[]), 0);
}

#[test]
fn sum_array_small() {
    assert_eq!(sum_array(&[1, 2, 3]), 6);
}

#[test]
fn sum_array_single() {
    assert_eq!(sum_array(&[42]), 42);
}

#[test]
fn up3_examples() {
    assert_eq!(up3(0), 1);
    assert_eq!(up3(1), 1);
    assert_eq!(up3(2), 3);
    assert_eq!(up3(6), 9);
    assert_eq!(up3(9), 9);
    assert_eq!(up3(10), 27);
}

#[test]
fn up3_large() {
    assert_eq!(up3(28), 81);
    assert_eq!(up3(81), 81);
    assert_eq!(up3(82), 243);
}

#[test]
fn gcd_with_zero() {
    assert_eq!(gcd(0, 0), 0);
    assert_eq!(gcd(7, 0), 7);
    assert_eq!(gcd(0, 7), 7);
}

#[test]
fn gcd_examples() {
    assert_eq!(gcd(48, 18), 6);
    assert_eq!(gcd(18, 48), 6);
    assert_eq!(gcd(17, 13), 1);
    assert_eq!(gcd(12, 12), 12);
}

#[test]
fn chooses_zero() {
    assert_eq!(chooses(0), vec![1]);
}

#[test]
fn chooses_four() {
    assert_eq!(chooses(4), vec![1, 4, 6, 4, 1]);
}

#[test]
fn chooses_rows_sum_to_powers_of_two() {
    for n in 0..10u64 {
        let row = chooses(n);
        let total: u64 = row.iter().sum();
        assert_eq!(total, 1u64 << n);
    }
}

#[test]
fn zip_truncates_longer_left() {
    assert_eq!(zip(vec![1, 2, 3], vec![4, 5]), vec![(1, 4), (2, 5)]);
}

#[test]
fn zip_empty_left() {
    assert_eq!(zip(vec![], vec![1, 2]), vec![]);
}

#[test]
fn zip_equal_lengths() {
    assert_eq!(zip(vec![1, 2], vec![3, 4]), vec![(1, 3), (2, 4)]);
}
