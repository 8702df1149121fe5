use whirlpool_quote::quote::{
    adjust_for_slippage, calculate_swap_amounts_from_quote, get_default_sqrt_price_limit,
    quote_from_swap_amounts, Slippage, MAX_SQRT_PRICE_X64, MIN_SQRT_PRICE_X64,
};

#[test]
fn one_percent_down() {
    assert_eq!(adjust_for_slippage(1000, Slippage::percent(1), false), 990);
    assert_eq!(adjust_for_slippage(1000, Slippage::new(10, 10), false), 990);
}

#[test]
fn one_percent_up() {
    assert_eq!(adjust_for_slippage(1000, Slippage::percent(1), true), 1010);
    assert_eq!(adjust_for_slippage(999, Slippage::new(1, 2), true), 1003);
}

#[test]
fn zero_slippage_keeps_amount() {
    for amount in [0u64, 1, 1000, 123_456_789, u64::MAX] {
        assert_eq!(adjust_for_slippage(amount, Slippage::percent(0), false), amount);
        assert_eq!(adjust_for_slippage(amount, Slippage::percent(0), true), amount);
    }
}

#[test]
fn down_never_grows_with_slippage() {
    let mut last = u64::MAX;
    for tenth in 0..100i64 {
        let v = adjust_for_slippage(1_000_000, Slippage::new(tenth, 10), false);
        assert!(v <= last);
        last = v;
    }
    assert_eq!(adjust_for_slippage(1_000_000, Slippage::new(5, 10), false), 995024);
}

#[test]
fn negative_slippage() {
    assert_eq!(adjust_for_slippage(1000, Slippage::percent(-50), false), 2000);
    assert_eq!(adjust_for_slippage(1000, Slippage::percent(-50), true), 500);
    assert_eq!(adjust_for_slippage(1000, Slippage::percent(-100), false), u64::MAX);
    assert_eq!(adjust_for_slippage(0, Slippage::percent(-100), false), 0);
    assert_eq!(adjust_for_slippage(1000, Slippage::percent(-150), false), 0);
    assert_eq!(adjust_for_slippage(1000, Slippage::percent(-150), true), 0);
}

#[test]
fn saturates_at_u64_max() {
    assert_eq!(adjust_for_slippage(u64::MAX, Slippage::percent(100), true), u64::MAX);
    assert_eq!(adjust_for_slippage(u64::MAX, Slippage::percent(-1), false), u64::MAX);
}

#[test]
fn threshold_follows_specified_side() {
    assert_eq!(calculate_swap_amounts_from_quote(500, 1000, Slippage::percent(1), true), 990);
    assert_eq!(calculate_swap_amounts_from_quote(500, 1000, Slippage::percent(1), false), 495);
}

#[test]
fn price_limits_by_direction() {
    assert_eq!(get_default_sqrt_price_limit(true), MIN_SQRT_PRICE_X64);
    assert_eq!(get_default_sqrt_price_limit(false), MAX_SQRT_PRICE_X64);
    assert_eq!(MIN_SQRT_PRICE_X64, 4295048016);
    assert_eq!(MAX_SQRT_PRICE_X64, 79226673515401279992447579055);
}

#[test]
fn quote_from_amounts_selling_a() {
    assert_eq!(quote_from_swap_amounts(1000, 2000, true, Slippage::percent(1)), (2000, 1980));
}

#[test]
fn quote_from_amounts_selling_b() {
    assert_eq!(quote_from_swap_amounts(1000, 2000, false, Slippage::percent(1)), (1000, 990));
}

#[test]
fn parse_slippage_texts() {
    let s = Slippage::parse("1.0").unwrap();
    assert_eq!((s.numerator, s.denominator), (10, 10));
    let s = Slippage::parse("-0.25").unwrap();
    assert_eq!((s.numerator, s.denominator), (-25, 100));
    let s = Slippage::parse(".5").unwrap();
    assert_eq!((s.numerator, s.denominator), (5, 10));
    let s = Slippage::parse("+3").unwrap();
    assert_eq!((s.numerator, s.denominator), (3, 1));
    let s = Slippage::parse("7.").unwrap();
    assert_eq!((s.numerator, s.denominator), (7, 1));
    let s = Slippage::parse("0.123456789").unwrap();
    assert_eq!((s.numerator, s.denominator), (123456789, 1_000_000_000));
    assert_eq!(adjust_for_slippage(1000, Slippage::parse("1.0").unwrap(), false), 990);
}

#[test]
fn parse_slippage_rejects() {
    for text in ["", "-", ".", "1.2.3", "1e2", "abc", " 1", "0.1234567890", "1234567890123456789"] {
        assert!(Slippage::parse(text).is_none(), "{}", text);
    }
    assert!(Slippage::parse("123456789012345678").is_some());
}
