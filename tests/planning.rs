use whirlpool_quote::address::Address;
use whirlpool_quote::quote::{
    plan_swap, Slippage, WhirlpoolArbState, MAX_SQRT_PRICE_X64, MIN_SQRT_PRICE_X64,
};
use whirlpool_quote::tick::get_tick_array_keys;

fn state() -> WhirlpoolArbState {
    WhirlpoolArbState {
        override_cache: false,
        http_url: "http://localhost:8899".to_string(),
        amount: 1_000_000,
        in_token: Address::new([1; 32]),
        out_token: Address::new([2; 32]),
        whirlpool_program: Address::new([9; 32]),
        slippage: Slippage::percent(1),
    }
}

#[test]
fn plan_selling_a() {
    let pool = Address::new([5; 32]);
    let plan = plan_swap(&state(), &pool, true, 0, 64);
    assert!(plan.a_to_b);
    assert!(plan.amount_specified_is_input);
    assert_eq!(plan.amount, 1_000_000);
    assert_eq!(plan.sqrt_price_limit, MIN_SQRT_PRICE_X64);
    assert_eq!(plan.tick_array_keys.len(), 3);
    assert!(plan.tick_array_keys == get_tick_array_keys(0, 64, true, &Address::new([9; 32]), &pool));
}

#[test]
fn plan_selling_b() {
    let pool = Address::new([5; 32]);
    let plan = plan_swap(&state(), &pool, false, -100, 8);
    assert!(!plan.a_to_b);
    assert_eq!(plan.sqrt_price_limit, MAX_SQRT_PRICE_X64);
    assert!(plan.tick_array_keys == get_tick_array_keys(-100, 8, false, &Address::new([9; 32]), &pool));
}
