use whirlpool_quote::address::Address;
use whirlpool_quote::tick::{
    decimal_bytes, get_start_tick_index, get_tick_array_address, get_tick_array_keys,
    tick_array_start_indices, StartTickError,
};

fn program() -> Address {
    Address::new([7u8; 32])
}

fn pool() -> Address {
    let mut bytes = [0u8; 32];
    for (i, b) in bytes.iter_mut().enumerate() {
        *b = i as u8 + 1;
    }
    Address::new(bytes)
}

#[test]
fn start_indices_spacing_64_from_zero_selling_a() {
    assert_eq!(tick_array_start_indices(0, 64, true), vec![0, -5632, -11264]);
}

#[test]
fn start_indices_spacing_64_from_zero_selling_b() {
    assert_eq!(tick_array_start_indices(0, 64, false), vec![0, 5632, 11264]);
}

#[test]
fn start_index_rounds_toward_negative_infinity() {
    assert_eq!(get_start_tick_index(-1, 1, 0), Ok(-88));
    assert_eq!(get_start_tick_index(-88, 1, 0), Ok(-88));
    assert_eq!(get_start_tick_index(-89, 1, 0), Ok(-176));
    assert_eq!(get_start_tick_index(87, 1, 0), Ok(0));
}

#[test]
fn start_index_above_maximum() {
    assert_eq!(get_start_tick_index(443636, 1, 0), Ok(443608));
    assert_eq!(get_start_tick_index(443636, 1, 1), Err(StartTickError::AboveMaximum));
}

#[test]
fn start_index_below_minimum() {
    assert_eq!(get_start_tick_index(-443636, 64, 0), Err(StartTickError::BelowMinimum));
    assert_eq!(get_start_tick_index(-443636, 1, 0), Err(StartTickError::BelowMinimum));
    assert_eq!(get_start_tick_index(-443608, 1, 0), Ok(-443608));
    assert_eq!(get_start_tick_index(-443608, 1, -1), Err(StartTickError::BelowMinimum));
}

#[test]
fn traversal_stops_near_minimum() {
    let starts = tick_array_start_indices(-432372, 64, true);
    assert_eq!(starts, vec![-433664, -439296]);
    let keys = get_tick_array_keys(-432372, 64, true, &program(), &pool());
    assert_eq!(keys.len(), 2);
    assert!(keys[0] == get_tick_array_address(&program(), &pool(), -433664).unwrap());
    assert!(keys[1] == get_tick_array_address(&program(), &pool(), -439296).unwrap());
}

#[test]
fn traversal_stops_near_maximum() {
    assert_eq!(tick_array_start_indices(443000, 1, false), vec![442992, 443080, 443168]);
    assert_eq!(tick_array_start_indices(443600, 1, false), vec![443520, 443608]);
    assert_eq!(tick_array_start_indices(443607, 1, false), vec![443608]);
}

#[test]
fn traversal_empty_at_minimum() {
    assert!(tick_array_start_indices(-443636, 64, true).is_empty());
    assert!(get_tick_array_keys(-443636, 64, true, &program(), &pool()).is_empty());
}

#[test]
fn keys_are_deterministic() {
    let first = get_tick_array_keys(1000, 64, true, &program(), &pool());
    let second = get_tick_array_keys(1000, 64, true, &program(), &pool());
    assert_eq!(first.len(), 3);
    assert!(first == second);
}

#[test]
fn directions_give_different_keys() {
    let down = get_tick_array_keys(1000, 64, true, &program(), &pool());
    let up = get_tick_array_keys(1000, 64, false, &program(), &pool());
    assert_eq!(down.len(), 3);
    assert_eq!(up.len(), 3);
    assert!(down[0] == up[0]);
    assert!(down[1] != up[1]);
    assert!(down[2] != up[2]);
    assert!(!up.contains(&down[1]));
    assert!(!up.contains(&down[2]));
}

#[test]
fn selling_b_shifts_by_one_spacing() {
    // 5631 is the last tick of the first array; one spacing ahead is the next one.
    assert_eq!(tick_array_start_indices(5631, 64, true)[0], 0);
    assert_eq!(tick_array_start_indices(5631, 64, false)[0], 5632);
}

#[test]
fn end_to_end_addresses_distinct() {
    let keys = get_tick_array_keys(0, 64, true, &program(), &pool());
    assert_eq!(keys.len(), 3);
    assert!(keys[0] != keys[1]);
    assert!(keys[1] != keys[2]);
    assert!(keys[0] != keys[2]);
    assert!(keys[0] == get_tick_array_address(&program(), &pool(), 0).unwrap());
    assert!(keys[1] == get_tick_array_address(&program(), &pool(), -5632).unwrap());
    assert!(keys[2] == get_tick_array_address(&program(), &pool(), -11264).unwrap());
}

#[test]
fn derived_address_is_neither_input() {
    let a = get_tick_array_address(&program(), &pool(), 0).unwrap();
    assert!(a != program());
    assert!(a != pool());
    let b = get_tick_array_address(&program(), &pool(), 88).unwrap();
    assert!(a != b);
}

#[test]
fn derived_address_depends_on_program() {
    let a = get_tick_array_address(&program(), &pool(), 0).unwrap();
    let b = get_tick_array_address(&Address::new([8u8; 32]), &pool(), 0).unwrap();
    assert!(a != b);
}

#[test]
fn decimal_text_of_ticks() {
    assert_eq!(decimal_bytes(0), b"0".to_vec());
    assert_eq!(decimal_bytes(-5632), b"-5632".to_vec());
    assert_eq!(decimal_bytes(443608), b"443608".to_vec());
    assert_eq!(decimal_bytes(i32::MIN), i32::MIN.to_string().into_bytes());
    assert_eq!(decimal_bytes(i32::MAX), i32::MAX.to_string().into_bytes());
}
