use vstd::prelude::*;
use vstd::slice::slice_to_vec;
use vstd::string::StringSliceAdditionalSpecFns;
use crate::address::{option_view, program_address, try_find_program_address, views, Address};
use vstd::arithmetic::div_mod::{
    lemma_fundamental_div_mod,
    lemma_fundamental_div_mod_converse_div,
    lemma_mod_pos_bound,
    lemma_div_is_ordered,
};

verus! {

/// Number of ticks covered by one tick array.
pub const TICK_ARRAY_SIZE: i32 = 88;

/// Lowest tick index of the protocol.
pub const MIN_TICK_INDEX: i32 = -443636;

/// Highest tick index of the protocol.
pub const MAX_TICK_INDEX: i32 = 443636;

/// Number of ticks covered by one tick array for the given tick spacing.
pub open spec fn ticks_in_array(tick_spacing: int) -> int {
    TICK_ARRAY_SIZE as int * tick_spacing
}

/// Remainder with the sign of the dividend, as Rust's `%` on signed integers.
pub open spec fn trunc_rem(a: int, b: int) -> int {
    if a >= 0 {
        a % b
    } else {
        -((-a) % b)
    }
}

/// Lowest admissible start of a tick array, exclusive.
pub open spec fn min_start_bound(tick_spacing: int) -> int {
    let w = ticks_in_array(tick_spacing);
    MIN_TICK_INDEX as int - (trunc_rem(MIN_TICK_INDEX as int, w) + w)
}

/// Whether a tick array may start at `start`.
pub open spec fn start_in_bounds(start: int, tick_spacing: int) -> bool {
    min_start_bound(tick_spacing) < start < MAX_TICK_INDEX as int
}

/// Index of the tick array that holds `tick_index`, rounded toward negative
/// infinity (`/` on `int` with a positive divisor is floor division).
pub open spec fn array_index(tick_index: int, tick_spacing: int) -> int {
    tick_index / ticks_in_array(tick_spacing)
}

/// First tick of the array `offset` arrays away from the one holding `tick_index`.
pub open spec fn window_start(tick_index: int, tick_spacing: int, offset: int) -> int {
    (array_index(tick_index, tick_spacing) + offset) * ticks_in_array(tick_spacing)
}

/// Why no tick array starts at the requested place.
#[derive(Clone, Copy, Debug, PartialEq, Eq)]
pub enum StartTickError {
    BelowMinimum,
    AboveMaximum,
}

pub open spec fn start_tick_index_spec(tick_index: int, tick_spacing: int, offset: int) -> Result<
    int,
    StartTickError,
> {
    let s = window_start(tick_index, tick_spacing, offset);
    if s <= min_start_bound(tick_spacing) {
        Err(StartTickError::BelowMinimum)
    } else if s >= MAX_TICK_INDEX as int {
        Err(StartTickError::AboveMaximum)
    } else {
        Ok(s)
    }
}

/// Floor division of `t` by a positive `w`.
fn floor_div(t: i128, w: i128) -> (q: i128)
    requires
        0 < w <= 0x100_0000_0000,
        -0x1_0000_0000_0000 <= t <= 0x1_0000_0000_0000,
    ensures
        q == t as int / w as int,
        -0x1_0000_0000_0001 <= q <= 0x1_0000_0000_0000,
{
    if t >= 0 {
        let q = ((t as u128) / (w as u128)) as i128;
        proof {
            lemma_fundamental_div_mod(t as int, w as int);
            lemma_mod_pos_bound(t as int, w as int);
            assert(q * w <= t) by (nonlinear_arith)
                requires
                    q == t as int / w as int,
                    t == w * q + t as int % w as int,
                    t as int % w as int >= 0,
            ;
            assert(q <= t) by (nonlinear_arith)
                requires
                    q * w <= t,
                    w >= 1,
                    q >= 0,
            ;
        }
        q
    } else {
        let n: i128 = -t;
        let m: i128 = n + w - 1;
        let p = ((m as u128) / (w as u128)) as i128;
        proof {
            lemma_fundamental_div_mod(m as int, w as int);
            lemma_mod_pos_bound(m as int, w as int);
            let r = p * w - n;
            assert(0 <= r < w) by (nonlinear_arith)
                requires
                    m == w * p + m as int % w as int,
                    0 <= (m as int % w as int) < w,
                    m == n + w - 1,
                    r == p * w - n,
            ;
            assert(t == (-p) * w + r) by (nonlinear_arith)
                requires
                    r == p * w - n,
                    t == -n,
            ;
            lemma_fundamental_div_mod_converse_div(t as int, w as int, -p, r);
            assert(p <= n) by (nonlinear_arith)
                requires
                    p * w - n < w,
                    w >= 1,
                    n >= 1,
            ;
        }
        -p
    }
}

/// First tick of the tick array `offset` arrays away from the array that
/// holds `tick_index`, or why no array may start there.
pub fn get_start_tick_index(tick_index: i64, tick_spacing: i32, offset: i32) -> (r: Result<
    i32,
    StartTickError,
>)
    requires
        tick_spacing > 0,
        i32::MIN as i64 + i32::MIN as i64 <= tick_index <= i32::MAX as i64 + i32::MAX as i64,
    ensures
        match r {
            Ok(s) => start_tick_index_spec(tick_index as int, tick_spacing as int, offset as int)
                == Ok::<int, StartTickError>(s as int),
            Err(e) => start_tick_index_spec(tick_index as int, tick_spacing as int, offset as int)
                == Err::<int, StartTickError>(e),
        },
{
    let w: i128 = TICK_ARRAY_SIZE as i128 * tick_spacing as i128;
    assert(w == 88 * tick_spacing);
    let real_index = floor_div(tick_index as i128, w);
    let k: i128 = real_index + offset as i128;
    assert(-0x2_0000_0000_0000 * 0x100_0000_0000 <= k * w <= 0x2_0000_0000_0000 * 0x100_0000_0000)
        by (nonlinear_arith)
        requires
            -0x2_0000_0000_0000 <= k <= 0x2_0000_0000_0000,
            1 <= w <= 0x100_0000_0000,
    ;
    let start_tick_index: i128 = k * w;
    let min_tick_index: i128 = MIN_TICK_INDEX as i128 - (-((-(MIN_TICK_INDEX as i128)) % w) + w);
    if start_tick_index <= min_tick_index {
        return Err(StartTickError::BelowMinimum);
    }
    if start_tick_index >= MAX_TICK_INDEX as i128 {
        return Err(StartTickError::AboveMaximum);
    }
    proof {
        let c = 443636int / w as int;
        lemma_fundamental_div_mod(443636int, w as int);
        lemma_mod_pos_bound(443636int, w as int);
        assert(min_tick_index == -(c + 1) * w) by (nonlinear_arith)
            requires
                443636int == w * c + 443636int % (w as int),
                min_tick_index == -443636int - (-(443636int % (w as int)) + w),
        ;
        assert(k >= -c) by (nonlinear_arith)
            requires
                k * w > -(c + 1) * w,
                w > 0,
        ;
        assert(k * w >= -443636) by (nonlinear_arith)
            requires
                k >= -c,
                w > 0,
                443636int == w * c + 443636int % (w as int),
                443636int % (w as int) >= 0,
        ;
    }
    Ok(start_tick_index as i32)
}


/// Step between consecutive tick arrays of a swap: toward lower ticks when
/// token A is sold, toward higher ticks otherwise.
pub open spec fn direction(a_to_b: bool) -> int {
    if a_to_b {
        -1
    } else {
        1
    }
}

/// Tick from which the traversal starts: one spacing ahead when token B is sold.
pub open spec fn shifted_tick(tick_index: int, tick_spacing: int, a_to_b: bool) -> int {
    if a_to_b {
        tick_index
    } else {
        tick_index + tick_spacing
    }
}

/// Start of the `i`-th tick array of the traversal, bounds aside.
pub open spec fn traversal_window(tick_index: int, tick_spacing: int, a_to_b: bool, i: int) -> int {
    window_start(shifted_tick(tick_index, tick_spacing, a_to_b), tick_spacing, direction(a_to_b) * i)
}

/// Starts of the first `n` tick arrays of the traversal, cut at the first one
/// out of bounds.
pub open spec fn traversal_starts(tick_index: int, tick_spacing: int, a_to_b: bool, n: nat) -> Seq<
    int,
>
    decreases n,
{
    if n == 0 {
        seq![]
    } else {
        let p = traversal_starts(tick_index, tick_spacing, a_to_b, (n - 1) as nat);
        let s = traversal_window(tick_index, tick_spacing, a_to_b, n - 1);
        if p.len() == n - 1 && start_in_bounds(s, tick_spacing) {
            p.push(s)
        } else {
            p
        }
    }
}

/// Largest number of tick arrays that one swap can cross.
pub const MAX_SWAP_TICK_ARRAYS: usize = 3;

pub open spec fn ints(s: Seq<i32>) -> Seq<int> {
    s.map_values(|x: i32| x as int)
}

/// Starts of the tick arrays that a swap from `tick_current_index` may cross,
/// in the order of the traversal: at most three, cut at the first one that
/// leaves the protocol's tick range.
pub fn tick_array_start_indices(tick_current_index: i32, tick_spacing: i32, a_to_b: bool) -> (r: Vec<
    i32,
>)
    requires
        tick_spacing > 0,
    ensures
        ints(r@) == traversal_starts(
            tick_current_index as int,
            tick_spacing as int,
            a_to_b,
            MAX_SWAP_TICK_ARRAYS as nat,
        ),
{
    let shift: i64 = if a_to_b {
        0
    } else {
        tick_spacing as i64
    };
    let tick_index: i64 = tick_current_index as i64 + shift;
    let mut offset: i32 = 0;
    let mut starts: Vec<i32> = Vec::new();
    let mut stopped = false;
    let mut i: usize = 0;
    while i < MAX_SWAP_TICK_ARRAYS
        invariant
            i <= MAX_SWAP_TICK_ARRAYS,
            tick_spacing > 0,
            tick_index == shifted_tick(tick_current_index as int, tick_spacing as int, a_to_b),
            !stopped ==> offset == (if a_to_b {
                -(i as int)
            } else {
                i as int
            }),
            ints(starts@) == traversal_starts(
                tick_current_index as int,
                tick_spacing as int,
                a_to_b,
                i as nat,
            ),
            stopped <==> starts@.len() < i,
            starts@.len() <= i,
        decreases MAX_SWAP_TICK_ARRAYS - i,
    {
        if !stopped {
            match get_start_tick_index(tick_index, tick_spacing, offset) {
                Ok(start) => {
                    starts.push(start);
                    offset = if a_to_b {
                        offset - 1
                    } else {
                        offset + 1
                    };
                },
                Err(_) => {
                    stopped = true;
                },
            }
        }
        assert(ints(starts@) =~= traversal_starts(
            tick_current_index as int,
            tick_spacing as int,
            a_to_b,
            (i + 1) as nat,
        ));
        i = i + 1;
    }
    starts
}


/// Decimal digits of `n`, most significant first, in ASCII.
pub open spec fn decimal_digits(n: nat) -> Seq<u8>
    decreases n,
{
    if n < 10 {
        seq![(48 + n) as u8]
    } else {
        decimal_digits(n / 10).push((48 + n % 10) as u8)
    }
}

/// Decimal text of `x` in ASCII, with a leading `-` when negative.
pub open spec fn decimal_text(x: int) -> Seq<u8> {
    if x < 0 {
        seq![45u8] + decimal_digits((-x) as nat)
    } else {
        decimal_digits(x as nat)
    }
}

fn push_decimal_digits(n: u64, out: &mut Vec<u8>)
    ensures
        final(out)@ == old(out)@ + decimal_digits(n as nat),
    decreases n,
{
    if n >= 10 {
        push_decimal_digits(n / 10, out);
    }
    out.push((48 + n % 10) as u8);
    assert(final(out)@ =~= old(out)@ + decimal_digits(n as nat));
}

/// Decimal text of `x`, as `i32::to_string` writes it, in bytes.
pub fn decimal_bytes(x: i32) -> (r: Vec<u8>)
    ensures
        r@ == decimal_text(x as int),
{
    let mut out: Vec<u8> = Vec::new();
    if x < 0 {
        out.push(45u8);
        push_decimal_digits((-(x as i64)) as u64, &mut out);
    } else {
        push_decimal_digits(x as u64, &mut out);
    }
    assert(out@ =~= decimal_text(x as int));
    out
}

/// Seed that sets tick-array addresses apart from other derived addresses.
pub const PDA_TICK_ARRAY_SEED: &'static str = "tick_array";

/// Seeds of the address of the tick array of `pool` that starts at `start`.
pub open spec fn tick_array_seeds(pool: Seq<u8>, start: int) -> Seq<Seq<u8>> {
    seq![PDA_TICK_ARRAY_SEED.spec_bytes(), pool, decimal_text(start)]
}

/// Address of the tick array of `pool` starting at `start`, if one can be derived.
pub open spec fn tick_array_address_spec(program_id: Seq<u8>, pool: Seq<u8>, start: int) -> Option<
    Seq<u8>,
> {
    program_address(tick_array_seeds(pool, start), program_id)
}

/// Address of the tick array of `whirlpool` that starts at `start_tick`, as
/// derived under `program_id`.
pub fn get_tick_array_address(program_id: &Address, whirlpool: &Address, start_tick: i32) -> (r:
    Option<Address>)
    ensures
        option_view(r) == tick_array_address_spec(program_id@, whirlpool@, start_tick as int),
{
    let mut seeds: Vec<Vec<u8>> = Vec::new();
    let domain = slice_to_vec(PDA_TICK_ARRAY_SEED.as_bytes());
    let pool = slice_to_vec(whirlpool.bytes.as_slice());
    let tick_text = decimal_bytes(start_tick);
    assert(pool@ == whirlpool@);
    seeds.push(domain);
    seeds.push(pool);
    seeds.push(tick_text);
    assert(seeds.deep_view()[0] == seeds@[0]@);
    assert(seeds.deep_view()[1] == seeds@[1]@);
    assert(seeds.deep_view()[2] == seeds@[2]@);
    assert(seeds.deep_view() =~= tick_array_seeds(whirlpool@, start_tick as int));
    try_find_program_address(&seeds, program_id)
}

/// Addresses of the tick arrays starting at the first `n` of `starts`, cut
/// where one cannot be derived.
pub open spec fn addresses_upto(program_id: Seq<u8>, pool: Seq<u8>, starts: Seq<int>, n: nat) -> Seq<
    Seq<u8>,
>
    decreases n,
{
    if n == 0 {
        seq![]
    } else {
        let p = addresses_upto(program_id, pool, starts, (n - 1) as nat);
        if p.len() == n - 1 {
            match tick_array_address_spec(program_id, pool, starts[n - 1]) {
                Some(a) => p.push(a),
                None => p,
            }
        } else {
            p
        }
    }
}

/// Addresses of the tick arrays that a swap may cross, in traversal order.
pub open spec fn tick_array_keys_spec(
    tick_index: int,
    tick_spacing: int,
    a_to_b: bool,
    program_id: Seq<u8>,
    pool: Seq<u8>,
) -> Seq<Seq<u8>> {
    let starts = traversal_starts(tick_index, tick_spacing, a_to_b, MAX_SWAP_TICK_ARRAYS as nat);
    addresses_upto(program_id, pool, starts, starts.len())
}

/// Addresses of the (at most three) tick arrays that a swap from
/// `tick_current_index` may cross, in the order of the traversal.
pub fn get_tick_array_keys(
    tick_current_index: i32,
    tick_spacing: i32,
    a_to_b: bool,
    program_id: &Address,
    whirlpool_address: &Address,
) -> (r: Vec<Address>)
    requires
        tick_spacing > 0,
    ensures
        views(r@) == tick_array_keys_spec(
            tick_current_index as int,
            tick_spacing as int,
            a_to_b,
            program_id@,
            whirlpool_address@,
        ),
        r@.len() <= MAX_SWAP_TICK_ARRAYS,
{
    let starts = tick_array_start_indices(tick_current_index, tick_spacing, a_to_b);
    let ghost gs = ints(starts@);
    proof {
        lemma_starts_len(tick_current_index as int, tick_spacing as int, a_to_b, MAX_SWAP_TICK_ARRAYS as nat);
    }
    let mut addresses: Vec<Address> = Vec::new();
    let mut stopped = false;
    let mut i: usize = 0;
    while i < starts.len()
        invariant
            i <= starts@.len(),
            starts@.len() <= MAX_SWAP_TICK_ARRAYS,
            gs == ints(starts@),
            views(addresses@) == addresses_upto(program_id@, whirlpool_address@, gs, i as nat),
            stopped <==> addresses@.len() < i,
            addresses@.len() <= i,
        decreases starts@.len() - i,
    {
        if !stopped {
            match get_tick_array_address(program_id, whirlpool_address, starts[i]) {
                Some(address) => {
                    addresses.push(address);
                },
                None => {
                    stopped = true;
                },
            }
        }
        assert(views(addresses@) =~= addresses_upto(
            program_id@,
            whirlpool_address@,
            gs,
            (i + 1) as nat,
        ));
        i = i + 1;
    }
    addresses
}

proof fn lemma_starts_len(tick_index: int, tick_spacing: int, a_to_b: bool, n: nat)
    ensures
        traversal_starts(tick_index, tick_spacing, a_to_b, n).len() <= n,
    decreases n,
{
    if n > 0 {
        lemma_starts_len(tick_index, tick_spacing, a_to_b, (n - 1) as nat);
    }
}

proof fn lemma_starts_are_windows(tick_index: int, tick_spacing: int, a_to_b: bool, n: nat)
    ensures
        ({
            let st = traversal_starts(tick_index, tick_spacing, a_to_b, n);
            &&& st.len() <= n
            &&& forall|i: int|
                0 <= i < st.len() ==> st[i] == traversal_window(tick_index, tick_spacing, a_to_b, i)
                    && start_in_bounds(st[i], tick_spacing)
            &&& st.len() < n ==> !start_in_bounds(
                traversal_window(tick_index, tick_spacing, a_to_b, st.len() as int),
                tick_spacing,
            )
        }),
    decreases n,
{
    if n > 0 {
        lemma_starts_are_windows(tick_index, tick_spacing, a_to_b, (n - 1) as nat);
    }
}

proof fn lemma_addresses_are_derived(program_id: Seq<u8>, pool: Seq<u8>, starts: Seq<int>, n: nat)
    ensures
        ({
            let a = addresses_upto(program_id, pool, starts, n);
            &&& a.len() <= n
            &&& forall|i: int|
                0 <= i < a.len() ==> tick_array_address_spec(program_id, pool, starts[i]) == Some(
                    a[i],
                )
            &&& a.len() < n ==> tick_array_address_spec(program_id, pool, starts[a.len() as int])
                is None
        }),
    decreases n,
{
    if n > 0 {
        lemma_addresses_are_derived(program_id, pool, starts, (n - 1) as nat);
    }
}

/// Near the ends of the tick range the traversal yields fewer than three tick
/// arrays. Each start it does yield is the one that an unbounded traversal
/// gives at the same position, and the first start left out lies out of
/// bounds. Each address it yields is the one derived from that start, and the
/// first one left out is either out of bounds or cannot be derived.
pub proof fn lemma_truncation_keeps_prefix(
    tick_index: int,
    tick_spacing: int,
    a_to_b: bool,
    program_id: Seq<u8>,
    pool: Seq<u8>,
)
    ensures
        ({
            let st = traversal_starts(tick_index, tick_spacing, a_to_b, MAX_SWAP_TICK_ARRAYS as nat);
            let keys = tick_array_keys_spec(tick_index, tick_spacing, a_to_b, program_id, pool);
            &&& st.len() <= MAX_SWAP_TICK_ARRAYS
            &&& forall|i: int|
                0 <= i < st.len() ==> st[i] == traversal_window(tick_index, tick_spacing, a_to_b, i)
                    && start_in_bounds(st[i], tick_spacing)
            &&& st.len() < MAX_SWAP_TICK_ARRAYS ==> !start_in_bounds(
                traversal_window(tick_index, tick_spacing, a_to_b, st.len() as int),
                tick_spacing,
            )
            &&& keys.len() <= st.len()
            &&& forall|i: int|
                0 <= i < keys.len() ==> tick_array_address_spec(program_id, pool, st[i]) == Some(
                    keys[i],
                )
            &&& keys.len() < st.len() ==> tick_array_address_spec(
                program_id,
                pool,
                st[keys.len() as int],
            ) is None
        }),
{
    let st = traversal_starts(tick_index, tick_spacing, a_to_b, MAX_SWAP_TICK_ARRAYS as nat);
    lemma_starts_are_windows(tick_index, tick_spacing, a_to_b, MAX_SWAP_TICK_ARRAYS as nat);
    lemma_addresses_are_derived(program_id, pool, st, st.len());
}

/// Two derivations from the same inputs give the same addresses.
pub proof fn lemma_keys_deterministic(
    tick_index: int,
    tick_spacing: int,
    a_to_b: bool,
    program_id: Seq<u8>,
    pool: Seq<u8>,
    first: Seq<Address>,
    second: Seq<Address>,
)
    requires
        views(first) == tick_array_keys_spec(tick_index, tick_spacing, a_to_b, program_id, pool),
        views(second) == tick_array_keys_spec(tick_index, tick_spacing, a_to_b, program_id, pool),
    ensures
        views(first) == views(second),
{
}

/// The two directions of a swap walk away from each other: their tick-array
/// starts can coincide only in the first array of each traversal. Selling
/// token A walks down from the array holding the current tick, selling token B
/// walks up from the array holding the tick one spacing ahead.
pub proof fn lemma_directions_diverge(tick_index: int, tick_spacing: int, i: int, j: int)
    requires
        tick_spacing > 0,
        0 <= i < traversal_starts(tick_index, tick_spacing, true, MAX_SWAP_TICK_ARRAYS as nat).len(),
        0 <= j < traversal_starts(tick_index, tick_spacing, false, MAX_SWAP_TICK_ARRAYS as nat).len(),
        i >= 1 || j >= 1,
    ensures
        traversal_starts(tick_index, tick_spacing, true, MAX_SWAP_TICK_ARRAYS as nat)[i]
            != traversal_starts(tick_index, tick_spacing, false, MAX_SWAP_TICK_ARRAYS as nat)[j],
{
    lemma_starts_are_windows(tick_index, tick_spacing, true, MAX_SWAP_TICK_ARRAYS as nat);
    lemma_starts_are_windows(tick_index, tick_spacing, false, MAX_SWAP_TICK_ARRAYS as nat);
    let w = ticks_in_array(tick_spacing);
    let a = array_index(tick_index, tick_spacing);
    let b = array_index(tick_index + tick_spacing, tick_spacing);
    lemma_div_is_ordered(tick_index, tick_index + tick_spacing, w);
    assert((a - i) * w < (b + j) * w) by (nonlinear_arith)
        requires
            a <= b,
            w > 0,
            i >= 0,
            j >= 0,
            i >= 1 || j >= 1,
    ;
}

} // verus!
