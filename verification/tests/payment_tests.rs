use gtopia::error::LandError;
use gtopia::payment::{calculate_tax, price_of_area};

#[test]
fn tax_is_rate_over_ten_thousand() {
    assert_eq!(calculate_tax(1000, 250), Ok(25));
    assert_eq!(calculate_tax(999, 250), Ok(24));
    assert_eq!(calculate_tax(0, 250), Ok(0));
    assert_eq!(calculate_tax(1000, 0), Ok(0));
    assert_eq!(calculate_tax(1000, 10000), Ok(1000));
    assert_eq!(calculate_tax(u64::MAX, 1), Ok(u64::MAX / 10000));
}

#[test]
fn tax_fails_when_the_product_overflows() {
    assert_eq!(calculate_tax(u64::MAX, 2), Err(LandError::CalculationError));
    assert_eq!(calculate_tax(1 << 32, 1 << 32), Err(LandError::CalculationError));
}

#[test]
fn price_of_area_multiplies_left_to_right() {
    assert_eq!(price_of_area(5, 10, 10), Some(500));
    assert_eq!(price_of_area(0, 10, 10), Some(0));
    assert_eq!(price_of_area(u64::MAX, 1, 1), Some(u64::MAX));
    assert_eq!(price_of_area(u64::MAX, 2, 1), None);
    // The first product overflows although the last factor is zero.
    assert_eq!(price_of_area(u64::MAX, 2, 0), None);
    assert_eq!(price_of_area(2, u64::MAX, 0), None);
    assert_eq!(price_of_area(2, 0, u64::MAX), Some(0));
}
