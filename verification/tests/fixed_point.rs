use fixed::types::I80F48 as Fixed;
use perp_orderbook::fixed_point::I80F48;

fn bits_of(x: f64) -> i128 {
    Fixed::from_num(x).to_bits()
}

fn samples() -> Vec<i128> {
    vec![
        0,
        1,
        -1,
        2,
        -2,
        1 << 47,
        -(1 << 47),
        (1 << 48) - 1,
        1 << 48,
        (1 << 48) + 1,
        -(1 << 48),
        -(1 << 48) - 1,
        bits_of(2.5),
        bits_of(-2.5),
        bits_of(0.0005),
        bits_of(-0.0002),
        bits_of(1234567.891),
        bits_of(-98765.4321),
        3 << 100,
        -(3 << 100),
        i128::MAX,
        i128::MIN,
        i128::MAX - 1,
        i128::MIN + 1,
        (u64::MAX as i128) << 48,
        ((u64::MAX as i128) << 48) + (1 << 48),
        (i64::MAX as i128) << 48,
        ((i64::MAX as i128) << 48) + (1 << 48),
        (i64::MIN as i128) << 48,
        ((i64::MIN as i128) << 48) - 1,
    ]
}

#[test]
fn product_is_computed_not_passed_through() {
    let a = I80F48::from_bits(bits_of(2.5));
    let b = I80F48::from_num(4);
    assert_eq!(a.checked_mul(b), Some(I80F48::from_num(10)));
    assert_eq!(I80F48::from_num(-3).checked_mul(I80F48::from_num(7)), Some(I80F48::from_num(-21)));
}

#[test]
fn quotient_is_computed_not_passed_through() {
    let a = I80F48::from_num(10);
    let b = I80F48::from_num(4);
    assert_eq!(a.checked_div(b), Some(I80F48::from_bits(bits_of(2.5))));
    assert_eq!(a.checked_div(I80F48::zero()), None);
}

#[test]
fn product_rounds_down() {
    let tiny = I80F48::from_bits(1);
    assert_eq!(tiny.checked_mul(tiny), Some(I80F48::from_bits(0)));
    assert_eq!(I80F48::from_bits(-1).checked_mul(tiny), Some(I80F48::from_bits(-1)));
    // 3 * 2^-48 times a half is 1.5 * 2^-48, which rounds down to 2^-48
    assert_eq!(
        I80F48::from_bits(3).checked_mul(I80F48::from_bits(1 << 47)),
        Some(I80F48::from_bits(1))
    );
    assert_eq!(
        I80F48::from_bits(-3).checked_mul(I80F48::from_bits(1 << 47)),
        Some(I80F48::from_bits(-2))
    );
}

#[test]
fn quotient_rounds_towards_zero() {
    let three = I80F48::from_num(3);
    assert_eq!(I80F48::from_bits(1).checked_div(three), Some(I80F48::from_bits(0)));
    assert_eq!(I80F48::from_bits(-1).checked_div(three), Some(I80F48::from_bits(0)));
    assert_eq!(I80F48::from_bits(7).checked_div(I80F48::from_num(2)), Some(I80F48::from_bits(3)));
    assert_eq!(I80F48::from_bits(-7).checked_div(I80F48::from_num(2)), Some(I80F48::from_bits(-3)));
    assert_eq!(I80F48::from_bits(-7).checked_div(I80F48::from_num(-2)), Some(I80F48::from_bits(3)));
}

#[test]
fn product_and_quotient_report_overflow() {
    let big = I80F48::from_bits(i128::MAX);
    assert_eq!(big.checked_mul(I80F48::from_num(2)), None);
    assert_eq!(big.checked_mul(I80F48::from_num(1)), Some(big));
    assert_eq!(big.checked_div(I80F48::from_bits(1 << 47)), None);
    assert_eq!(I80F48::from_bits(i128::MIN).checked_div(I80F48::from_num(-1)), None);
    assert_eq!(I80F48::from_bits(i128::MIN).checked_mul(I80F48::from_num(-1)), None);
}

#[test]
fn arithmetic_agrees_with_the_fixed_crate() {
    for &a in &samples() {
        for &b in &samples() {
            let x = I80F48::from_bits(a);
            let y = I80F48::from_bits(b);
            let fx = Fixed::from_bits(a);
            let fy = Fixed::from_bits(b);
            assert_eq!(
                x.checked_mul(y).map(|r| r.to_bits()),
                fx.checked_mul(fy).map(|r| r.to_bits()),
            );
            assert_eq!(
                x.checked_div(y).map(|r| r.to_bits()),
                fx.checked_div(fy).map(|r| r.to_bits()),
            );
            assert_eq!(
                x.checked_add(y).map(|r| r.to_bits()),
                fx.checked_add(fy).map(|r| r.to_bits()),
            );
            assert_eq!(
                x.checked_sub(y).map(|r| r.to_bits()),
                fx.checked_sub(fy).map(|r| r.to_bits()),
            );
            assert_eq!(x.min(y).to_bits(), fx.min(fy).to_bits());
            assert_eq!(x.max(y).to_bits(), fx.max(fy).to_bits());
        }
    }
}

#[test]
fn conversions_agree_with_the_fixed_crate() {
    for &a in &samples() {
        let x = I80F48::from_bits(a);
        let fx = Fixed::from_bits(a);
        assert_eq!(x.checked_to_u64(), fx.checked_to_num::<u64>());
        assert_eq!(x.checked_to_i64(), fx.checked_to_num::<i64>());
        assert_eq!(x.checked_to_u64(), fx.floor().checked_to_num::<u64>().filter(|_| a >= 0));
        assert_eq!(x.is_negative(), fx.is_negative());
    }
    for n in [0i64, 1, -1, 42, -42, i64::MAX, i64::MIN] {
        assert_eq!(I80F48::from_num(n).to_bits(), Fixed::from_num(n).to_bits());
    }
}

#[test]
fn rounding_down_to_an_integer() {
    assert_eq!(I80F48::from_bits(bits_of(2.75)).checked_to_u64(), Some(2));
    assert_eq!(I80F48::from_bits(bits_of(-0.25)).checked_to_u64(), None);
    assert_eq!(I80F48::from_bits(bits_of(-0.25)).checked_to_i64(), Some(-1));
    assert_eq!(I80F48::from_bits(bits_of(-2.0)).checked_to_i64(), Some(-2));
    assert_eq!(I80F48::from_num(i64::MAX).checked_to_i64(), Some(i64::MAX));
    assert_eq!(I80F48::from_bits(i128::MAX).checked_to_u64(), None);
}
