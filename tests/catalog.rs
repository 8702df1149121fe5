use whirlpool_quote::address::Address;
use whirlpool_quote::catalog::{
    catalog_source, find_pool_for_pair, CatalogSource, Token, WhirlPool,
};

fn token(byte: u8, symbol: &str) -> Token {
    Token {
        mint: Address::new([byte; 32]),
        symbol: symbol.to_string(),
        name: symbol.to_string(),
        decimals: 6,
        logo_uri: None,
        coingecko_id: None,
        whitelisted: true,
        pool_token: false,
    }
}

fn pool(address: u8, a: u8, sym_a: &str, b: u8, sym_b: &str, tick_spacing: u64) -> WhirlPool {
    WhirlPool {
        address: Address::new([address; 32]),
        token_a: token(a, sym_a),
        token_b: token(b, sym_b),
        whitelisted: true,
        tick_spacing,
        whirlpools_config: Address::new([0; 32]),
        modified_time_ms: None,
    }
}

fn catalog() -> Vec<WhirlPool> {
    vec![
        pool(100, 1, "SOL", 3, "BONK", 128),
        pool(101, 1, "SOL", 2, "USDC", 64),
        pool(102, 2, "USDC", 1, "SOL", 8),
        pool(103, 4, "mSOL", 1, "SOL", 1),
    ]
}

#[test]
fn finds_first_pool_forward() {
    let pools = catalog();
    let m = find_pool_for_pair(&pools, &Address::new([1; 32]), &Address::new([2; 32])).unwrap();
    assert_eq!(m.index, 1);
    assert!(m.a_to_b);
    assert_eq!(pools[m.index].tick_spacing, 64);
}

#[test]
fn finds_same_pool_backward() {
    let pools = catalog();
    let m = find_pool_for_pair(&pools, &Address::new([2; 32]), &Address::new([1; 32])).unwrap();
    assert_eq!(m.index, 1);
    assert!(!m.a_to_b);
}

#[test]
fn finds_pool_listed_b_first() {
    let pools = catalog();
    let m = find_pool_for_pair(&pools, &Address::new([1; 32]), &Address::new([4; 32])).unwrap();
    assert_eq!(m.index, 3);
    assert!(!m.a_to_b);
    let m = find_pool_for_pair(&pools, &Address::new([4; 32]), &Address::new([1; 32])).unwrap();
    assert_eq!(m.index, 3);
    assert!(m.a_to_b);
}

#[test]
fn no_pool_for_pair() {
    let pools = catalog();
    assert!(find_pool_for_pair(&pools, &Address::new([2; 32]), &Address::new([3; 32])).is_none());
    assert!(find_pool_for_pair(&pools, &Address::new([3; 32]), &Address::new([2; 32])).is_none());
    assert!(find_pool_for_pair(&Vec::new(), &Address::new([1; 32]), &Address::new([2; 32])).is_none());
}

#[test]
fn pools_equal_by_symbol_pair() {
    let pools = catalog();
    assert!(pools[1] == pools[2]);
    assert!(pools[0] != pools[1]);
    assert!(pools[1] == pool(200, 9, "SOL", 8, "USDC", 1));
    assert!(pools[1] != pool(200, 1, "SOL", 2, "USDT", 64));
}

#[test]
fn cache_read_when_present() {
    assert_eq!(catalog_source(true, false), CatalogSource::Cache);
}

#[test]
fn network_when_cache_absent() {
    assert_eq!(catalog_source(false, false), CatalogSource::Network);
}

#[test]
fn override_always_fetches() {
    assert_eq!(catalog_source(true, true), CatalogSource::Network);
    assert_eq!(catalog_source(false, true), CatalogSource::Network);
}
