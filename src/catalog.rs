use vstd::prelude::*;
use crate::address::Address;

verus! {

/// A token of a pool, as the pool catalog lists it.
#[derive(Clone, Debug)]
pub struct Token {
    pub mint: Address,
    pub symbol: String,
    pub name: String,
    pub decimals: u64,
    pub logo_uri: Option<String>,
    pub coingecko_id: Option<String>,
    pub whitelisted: bool,
    pub pool_token: bool,
}

/// A pool of the catalog: its address, its two tokens and its tick spacing.
/// Market statistics of the catalog are not carried.
#[derive(Clone, Debug)]
pub struct WhirlPool {
    pub address: Address,
    pub token_a: Token,
    pub token_b: Token,
    pub whitelisted: bool,
    pub tick_spacing: u64,
    pub whirlpools_config: Address,
    pub modified_time_ms: Option<u64>,
}

/// The pool catalog.
#[derive(Clone, Debug)]
pub struct WhirlPoolList {
    pub whirlpools: Vec<WhirlPool>,
    pub has_more: bool,
}

/// Two pools are the same pool for matching when they pair the same two
/// token symbols, in either order.
pub open spec fn same_symbol_pair(p: &WhirlPool, q: &WhirlPool) -> bool {
    (p.token_a.symbol@ == q.token_a.symbol@ && p.token_b.symbol@ == q.token_b.symbol@) || (
    p.token_a.symbol@ == q.token_b.symbol@ && p.token_b.symbol@ == q.token_a.symbol@)
}

impl PartialEq for WhirlPool {
    fn eq(&self, other: &WhirlPool) -> (r: bool) {
        (self.token_a.symbol == other.token_a.symbol && self.token_b.symbol == other.token_b.symbol)
            || (self.token_a.symbol == other.token_b.symbol && self.token_b.symbol
            == other.token_a.symbol)
    }
}

impl vstd::std_specs::cmp::PartialEqSpecImpl for WhirlPool {
    open spec fn obeys_eq_spec() -> bool {
        true
    }

    open spec fn eq_spec(&self, other: &WhirlPool) -> bool {
        same_symbol_pair(self, other)
    }
}

impl Eq for WhirlPool {
}

/// Whether `pool` trades the two mints, in either order.
pub open spec fn pool_serves(pool: WhirlPool, in_token: Seq<u8>, out_token: Seq<u8>) -> bool {
    (pool.token_a.mint@ == in_token && pool.token_b.mint@ == out_token) || (pool.token_a.mint@
        == out_token && pool.token_b.mint@ == in_token)
}

/// Whether a swap of `in_token` for `out_token` in `pool` sells token A.
pub open spec fn sells_token_a(pool: WhirlPool, in_token: Seq<u8>, out_token: Seq<u8>) -> bool {
    pool.token_a.mint@ == in_token && pool.token_b.mint@ == out_token
}

/// The pool found for a pair of mints: its place in the catalog and the
/// direction of the swap in it.
#[derive(Clone, Copy, Debug)]
pub struct PoolMatch {
    pub index: usize,
    pub a_to_b: bool,
}

/// `r` is the first pool of `pools` that trades the pair, with the swap's
/// direction, or `None` where no pool does.
pub open spec fn resolves(
    pools: Seq<WhirlPool>,
    in_token: Seq<u8>,
    out_token: Seq<u8>,
    r: Option<PoolMatch>,
) -> bool {
    match r {
        Some(m) => {
            &&& m.index < pools.len()
            &&& pool_serves(pools[m.index as int], in_token, out_token)
            &&& forall|j: int| 0 <= j < m.index ==> !pool_serves(#[trigger] pools[j], in_token, out_token)
            &&& m.a_to_b == sells_token_a(pools[m.index as int], in_token, out_token)
        },
        None => forall|j: int|
            0 <= j < pools.len() ==> !pool_serves(#[trigger] pools[j], in_token, out_token),
    }
}

/// The first pool of the catalog that trades `in_token` against `out_token`,
/// in either order, and whether the swap sells its token A.
pub fn find_pool_for_pair(pools: &Vec<WhirlPool>, in_token: &Address, out_token: &Address) -> (r:
    Option<PoolMatch>)
    ensures
        resolves(pools@, in_token@, out_token@, r),
{
    let mut i: usize = 0;
    while i < pools.len()
        invariant
            i <= pools@.len(),
            forall|j: int| 0 <= j < i ==> !pool_serves(#[trigger] pools@[j], in_token@, out_token@),
        decreases pools@.len() - i,
    {
        let pool = &pools[i];
        let forward = pool.token_a.mint == *in_token && pool.token_b.mint == *out_token;
        let backward = pool.token_a.mint == *out_token && pool.token_b.mint == *in_token;
        if forward || backward {
            return Some(PoolMatch { index: i, a_to_b: forward });
        }
        i = i + 1;
    }
    None
}

/// Resolution does not depend on the order of the pair: both orders find the
/// same pool, and, for two distinct mints, opposite directions.
pub proof fn lemma_resolution_symmetric(
    pools: Seq<WhirlPool>,
    mint_a: Seq<u8>,
    mint_b: Seq<u8>,
    forward: Option<PoolMatch>,
    backward: Option<PoolMatch>,
)
    requires
        resolves(pools, mint_a, mint_b, forward),
        resolves(pools, mint_b, mint_a, backward),
        mint_a != mint_b,
    ensures
        forward is Some <==> backward is Some,
        forward is Some ==> forward->0.index == backward->0.index && forward->0.a_to_b
            == !backward->0.a_to_b,
{
    assert forall|j: int| 0 <= j < pools.len() implies pool_serves(pools[j], mint_a, mint_b)
        == pool_serves(pools[j], mint_b, mint_a) by {}
    match (forward, backward) {
        (Some(f), Some(b)) => {
            if f.index < b.index {
                assert(!pool_serves(pools[f.index as int], mint_b, mint_a));
            } else if b.index < f.index {
                assert(!pool_serves(pools[b.index as int], mint_a, mint_b));
            }
        },
        (Some(f), None) => {
            assert(!pool_serves(pools[f.index as int], mint_b, mint_a));
        },
        (None, Some(b)) => {
            assert(!pool_serves(pools[b.index as int], mint_a, mint_b));
        },
        (None, None) => {},
    }
}

/// Where a catalog load takes the catalog from.
#[derive(Clone, Copy, Debug, PartialEq, Eq)]
pub enum CatalogSource {
    /// Read the cache file.
    Cache,
    /// Fetch the catalog from the network and overwrite the cache file.
    Network,
}

pub open spec fn catalog_source_spec(cache_exists: bool, override_cache: bool) -> CatalogSource {
    if cache_exists && !override_cache {
        CatalogSource::Cache
    } else {
        CatalogSource::Network
    }
}

/// Where a load takes the catalog from: the cache file when there is one and
/// the caller does not ask to bypass it, the network otherwise.
pub fn catalog_source(cache_exists: bool, override_cache: bool) -> (r: CatalogSource)
    ensures
        r == catalog_source_spec(cache_exists, override_cache),
{
    if cache_exists && !override_cache {
        CatalogSource::Cache
    } else {
        CatalogSource::Network
    }
}

/// Contents of the cache file after a load that found `cache` there, where
/// a network fetch answers `fetched`.
pub open spec fn cache_after_load(cache: Option<Seq<u8>>, override_cache: bool, fetched: Seq<u8>) -> Option<
    Seq<u8>,
> {
    match catalog_source_spec(cache is Some, override_cache) {
        CatalogSource::Cache => cache,
        CatalogSource::Network => Some(fetched),
    }
}

/// Catalog text that a load returns under the same conditions.
pub open spec fn load_result(cache: Option<Seq<u8>>, override_cache: bool, fetched: Seq<u8>) -> Seq<
    u8,
> {
    match catalog_source_spec(cache is Some, override_cache) {
        CatalogSource::Cache => cache->0,
        CatalogSource::Network => fetched,
    }
}

/// A second load without override, with nothing else touching the cache,
/// reads the cache and returns what the first load returned, whatever the
/// network would answer.
pub proof fn lemma_cache_idempotent(
    cache: Option<Seq<u8>>,
    first_fetch: Seq<u8>,
    second_fetch: Seq<u8>,
)
    ensures
        ({
            let after_first = cache_after_load(cache, false, first_fetch);
            &&& catalog_source_spec(after_first is Some, false) == CatalogSource::Cache
            &&& load_result(after_first, false, second_fetch) == load_result(cache, false, first_fetch)
            &&& cache_after_load(after_first, false, second_fetch) == after_first
        }),
{
}

/// A load with override fetches from the network whether or not a cache file
/// exists, leaves the fetched catalog in the cache file and returns it.
pub proof fn lemma_override_fetches(cache: Option<Seq<u8>>, fetched: Seq<u8>)
    ensures
        catalog_source_spec(cache is Some, true) == CatalogSource::Network,
        cache_after_load(cache, true, fetched) == Some(fetched),
        load_result(cache, true, fetched) == fetched,
{
}

} // verus!
