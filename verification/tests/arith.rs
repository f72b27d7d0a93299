use price_oracle::mul_div;

#[test]
fn mul_div_rounds_down() {
    assert_eq!(mul_div(7, 3, 2), Some(10));
}
