use atan_square::fraction::ProperFraction;
use atan_square::tangent::{tangent_check, AtanSum};
use atan_square::winding::{winding_check, WindingError};
use num_bigint::BigInt;
use num_rational::Ratio;

fn frac(numerator: u64, denominator: u64) -> ProperFraction {
    ProperFraction { numerator, denominator }
}

fn ratio(n: i64, d: i64) -> Ratio<BigInt> {
    Ratio::new(BigInt::from(n), BigInt::from(d))
}

fn repeated(pattern: &[(u64, u64)], times: usize) -> Vec<ProperFraction> {
    let mut line = Vec::new();
    for _ in 0..times {
        for &(n, d) in pattern {
            line.push(frac(n, d));
        }
    }
    line
}

fn sum_of(line: &[(i64, i64)]) -> AtanSum {
    let mut sum = AtanSum::new();
    for &(n, d) in line {
        sum.add(ratio(n, d));
    }
    sum
}

#[test]
fn half_and_third_make_an_eighth_turn() {
    let sum = sum_of(&[(1, 2), (1, 3)]);
    assert_eq!(sum.n, 0);
    assert_eq!(sum.x, ratio(1, 1));
    assert!(!sum.is_tau());
    assert!(!tangent_check(&vec![frac(1, 2), frac(1, 3)]));
}

#[test]
fn tangent_formula_exact_value() {
    let sum = sum_of(&[(1, 2), (1, 2)]);
    assert_eq!(sum.n, 0);
    assert_eq!(sum.x, ratio(4, 3));
}

#[test]
fn negative_tangent_moves_a_quarter_turn() {
    // atan(4/3) + atan(1/2): t = (4/3 + 1/2) / (1 - 2/3) = 11/2.
    let sum = sum_of(&[(1, 2), (1, 2), (1, 2)]);
    assert_eq!(sum.n, 0);
    assert_eq!(sum.x, ratio(11, 2));
    // atan(11/2) + atan(1/2): 1 - 11/4 < 0, so one more quarter turn and
    // x = -1/t with t = (11/2 + 1/2) / (1 - 11/4) = -24/7.
    let sum = sum_of(&[(1, 2), (1, 2), (1, 2), (1, 2)]);
    assert_eq!(sum.n, 1);
    assert_eq!(sum.x, ratio(7, 24));
}

#[test]
fn four_unit_tangents_make_half_a_turn() {
    let sum = sum_of(&[(1, 1), (1, 1), (1, 1), (1, 1)]);
    assert_eq!(sum.n, 2);
    assert_eq!(sum.x, ratio(0, 1));
    assert!(!sum.is_tau());
    let line = repeated(&[(1, 1)], 4);
    assert!(!tangent_check(&line));
    assert_eq!(winding_check(&line), Err(WindingError::AngleMismatch));
}

#[test]
fn eight_half_third_pairs_make_a_full_turn() {
    let line = repeated(&[(1, 2), (1, 3)], 8);
    assert!(tangent_check(&line));
    assert_eq!(winding_check(&line), Ok(()));
}

#[test]
fn four_half_third_pairs_make_half_a_turn() {
    let line = repeated(&[(1, 2), (1, 3)], 4);
    let pairs: Vec<(i64, i64)> = line.iter().map(|f| (f.numerator as i64, f.denominator as i64)).collect();
    let sum = sum_of(&pairs);
    assert_eq!(sum.n, 2);
    assert!(!tangent_check(&line));
    assert_eq!(winding_check(&line), Err(WindingError::AngleMismatch));
}

#[test]
fn zero_line_is_refused_by_tangent_check() {
    let line = repeated(&[(0, 1)], 4);
    let sum = sum_of(&[(0, 1), (0, 1), (0, 1), (0, 1)]);
    assert_eq!(sum.n, 0);
    assert!(!tangent_check(&line));
    // The product of positive reals is a positive real: the winding check
    // alone does not see that no turn was made.
    assert_eq!(winding_check(&line), Ok(()));
}

#[test]
fn verifiers_agree_on_sample_lines() {
    let lines = vec![
        repeated(&[(1, 2), (1, 3)], 8),
        repeated(&[(1, 2), (1, 3)], 4),
        repeated(&[(1, 2), (1, 3)], 1),
        repeated(&[(1, 7), (3, 5), (2, 9)], 5),
        repeated(&[(5, 6)], 7),
        repeated(&[(1, 3)], 12),
    ];
    for line in &lines {
        assert_eq!(tangent_check(line), winding_check(line).is_ok());
    }
}

#[test]
fn two_full_turns_pass_winding_but_not_tangent() {
    let line = repeated(&[(1, 2), (1, 3)], 16);
    assert_eq!(winding_check(&line), Ok(()));
    assert!(!tangent_check(&line));
}

#[test]
fn winding_overrun_is_reported_at_its_step() {
    // Seven pairs of 1/2 and 1/3 make 7pi/4; another 1/2 stays below a full
    // turn, and 5/6 then carries the product past it into the first quadrant.
    let mut line = repeated(&[(1, 2), (1, 3)], 7);
    line.push(frac(1, 2));
    line.push(frac(5, 6));
    assert_eq!(winding_check(&line), Err(WindingError::WindingOverrun { step: 15 }));
    assert!(!tangent_check(&line));
}

#[test]
fn single_fraction_line() {
    let line = vec![frac(1, 2)];
    assert!(!tangent_check(&line));
    assert_eq!(winding_check(&line), Err(WindingError::AngleMismatch));
}

#[test]
fn empty_line_is_refused() {
    let line: Vec<ProperFraction> = Vec::new();
    assert!(!tangent_check(&line));
    assert_eq!(winding_check(&line), Ok(()));
}

#[test]
fn default_sum_is_zero() {
    let sum = AtanSum::default();
    assert_eq!(sum.n, 0);
    assert_eq!(sum.x, ratio(0, 1));
}
