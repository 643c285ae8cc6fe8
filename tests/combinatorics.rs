use randist::combinatorics::{binomial_coefficient, factorial};

#[test]
fn small_factorials() {
    assert_eq!(factorial(0), 1);
    assert_eq!(factorial(1), 1);
    assert_eq!(factorial(5), 120);
    assert_eq!(factorial(20), 2432902008176640000);
}

#[test]
fn largest_factorial() {
    assert_eq!(factorial(34), 295232799039604140847618609643520000000);
}

#[test]
fn binomial_coefficients() {
    assert_eq!(binomial_coefficient(5, 2), 10);
    assert_eq!(binomial_coefficient(5, 0), 1);
    assert_eq!(binomial_coefficient(5, 5), 1);
    assert_eq!(binomial_coefficient(34, 17), 2333606220);
}
