use vstd::prelude::*;
use vstd::arithmetic::div_mod::{lemma_div_multiples_vanish, lemma_fundamental_div_mod, lemma_mod_pos_bound};
use crate::address::{views, Address};
use crate::tick::{get_tick_array_keys, tick_array_keys_spec};
use vstd::string::StringSliceAdditionalSpecFns;

verus! {

/// Lowest square-root price of the protocol, in Q64.64.
pub const MIN_SQRT_PRICE_X64: u128 = 4295048016;

/// Highest square-root price of the protocol, in Q64.64.
pub const MAX_SQRT_PRICE_X64: u128 = 79226673515401279992447579055;

/// A slippage tolerance in percent, written as the fraction
/// `numerator / denominator` (so `1 / 2` is half a percent).
#[derive(Clone, Copy, Debug)]
pub struct Slippage {
    pub numerator: i64,
    pub denominator: u32,
}

impl Slippage {
    pub open spec fn wf(&self) -> bool {
        self.denominator > 0
    }

    /// A tolerance of `numerator / denominator` percent.
    pub fn new(numerator: i64, denominator: u32) -> (r: Slippage)
        requires
            denominator > 0,
        ensures
            r.numerator == numerator,
            r.denominator == denominator,
            r.wf(),
    {
        Slippage { numerator, denominator }
    }

    /// A tolerance of a whole number of percent.
    pub fn percent(numerator: i64) -> (r: Slippage)
        ensures
            r.numerator == numerator,
            r.denominator == 1,
            r.wf(),
    {
        Slippage { numerator, denominator: 1 }
    }
}

/// What a conversion to `u64` keeps of a value: negatives become zero and
/// values above the range become `u64::MAX`.
pub open spec fn saturate(x: int) -> int {
    if x < 0 {
        0
    } else if x > u64::MAX {
        u64::MAX as int
    } else {
        x
    }
}

/// `amount` adjusted by `numerator / denominator` percent: up,
/// `amount * (100 + s) / 100`; down, `amount * 100 / (100 + s)`; rounded
/// toward zero and saturated to `u64`. Down with `100 + s == 0` yields zero
/// for a zero amount and `u64::MAX` otherwise.
pub open spec fn adjust_for_slippage_spec(amount: int, numerator: int, denominator: int, adjust_up: bool) -> int {
    let d = 100 * denominator + numerator;
    if d < 0 {
        0
    } else if adjust_up {
        saturate(amount * d / (100 * denominator))
    } else if d == 0 {
        if amount == 0 {
            0
        } else {
            u64::MAX as int
        }
    } else {
        saturate(amount * 100 * denominator / d)
    }
}

fn saturating_u64(v: u128) -> (r: u64)
    ensures
        r == saturate(v as int),
{
    if v > u64::MAX as u128 {
        u64::MAX
    } else {
        v as u64
    }
}

/// Adjusts `amount` by the slippage tolerance: up to the largest amount a
/// caller should accept to pay, or down to the smallest it should accept to
/// receive.
pub fn adjust_for_slippage(amount: u64, slippage: Slippage, adjust_up: bool) -> (r: u64)
    requires
        slippage.wf(),
    ensures
        r == adjust_for_slippage_spec(
            amount as int,
            slippage.numerator as int,
            slippage.denominator as int,
            adjust_up,
        ),
{
    let den: u128 = slippage.denominator as u128;
    let d: i128 = 100 * den as i128 + slippage.numerator as i128;
    if d < 0 {
        0
    } else if adjust_up {
        assert(amount as int * d <= 0xffff_ffff_ffff_ffff * 0xffff_ffff_ffff_ffff) by (nonlinear_arith)
            requires
                0 <= amount <= 0xffff_ffff_ffff_ffff,
                0 <= d <= 0xffff_ffff_ffff_ffff,
        ;
        let scaled: u128 = amount as u128 * d as u128;
        saturating_u64(scaled / (100 * den))
    } else if d == 0 {
        if amount == 0 {
            0
        } else {
            u64::MAX
        }
    } else {
        assert(amount as int * 100 * den <= 0xffff_ffff_ffff_ffff * 100 * 0xffff_ffff)
            by (nonlinear_arith)
            requires
                0 <= amount <= 0xffff_ffff_ffff_ffff,
                0 <= den <= 0xffff_ffff,
        ;
        let scaled: u128 = amount as u128 * 100 * den;
        saturating_u64(scaled / d as u128)
    }
}

/// The threshold on the other side of a swap: the least output to accept when
/// the input is given, the input adjusted alike when the output is given.
pub fn calculate_swap_amounts_from_quote(
    est_amount_in: u64,
    est_amount_out: u64,
    slippage: Slippage,
    amount_specified_is_input: bool,
) -> (r: u64)
    requires
        slippage.wf(),
    ensures
        r == adjust_for_slippage_spec(
            (if amount_specified_is_input {
                est_amount_out
            } else {
                est_amount_in
            }) as int,
            slippage.numerator as int,
            slippage.denominator as int,
            false,
        ),
{
    if amount_specified_is_input {
        adjust_for_slippage(est_amount_out, slippage, false)
    } else {
        adjust_for_slippage(est_amount_in, slippage, false)
    }
}

/// The price limit that leaves a swap bounded by its amount alone: the lowest
/// price when selling token A, the highest otherwise.
pub fn get_default_sqrt_price_limit(a_to_b: bool) -> (r: u128)
    ensures
        r == if a_to_b {
            MIN_SQRT_PRICE_X64
        } else {
            MAX_SQRT_PRICE_X64
        },
{
    if a_to_b {
        MIN_SQRT_PRICE_X64
    } else {
        MAX_SQRT_PRICE_X64
    }
}

/// The raw quote of a swap whose input amount was given: the amount of the
/// token bought (token B when selling token A, token A otherwise).
pub open spec fn raw_quote_spec(amount_a: int, amount_b: int, a_to_b: bool) -> int {
    if a_to_b {
        amount_b
    } else {
        amount_a
    }
}

/// From the amounts a simulated swap moved on each side of the pool, the raw
/// quote and the least output to accept under the slippage tolerance, for a
/// swap whose input amount was given.
pub fn quote_from_swap_amounts(amount_a: u64, amount_b: u64, a_to_b: bool, slippage: Slippage) -> (r: (
    u64,
    u64,
))
    requires
        slippage.wf(),
    ensures
        r.0 == raw_quote_spec(amount_a as int, amount_b as int, a_to_b),
        r.1 == adjust_for_slippage_spec(
            raw_quote_spec(amount_a as int, amount_b as int, a_to_b),
            slippage.numerator as int,
            slippage.denominator as int,
            false,
        ),
{
    let amount_specified_is_input = true;
    let quote = if a_to_b {
        amount_b
    } else {
        amount_a
    };
    let (amount_in, amount_out) = if a_to_b == amount_specified_is_input {
        (amount_a, amount_b)
    } else {
        (amount_b, amount_a)
    };
    let adjusted = calculate_swap_amounts_from_quote(
        amount_in,
        amount_out,
        slippage,
        amount_specified_is_input,
    );
    (quote, adjusted)
}

proof fn lemma_div_cross(x1: int, y1: int, x2: int, y2: int)
    requires
        x1 >= 0,
        x2 >= 0,
        y1 > 0,
        y2 > 0,
        x1 * y2 <= x2 * y1,
    ensures
        x1 / y1 <= x2 / y2,
{
    let q1 = x1 / y1;
    let q2 = x2 / y2;
    lemma_fundamental_div_mod(x1, y1);
    lemma_mod_pos_bound(x1, y1);
    lemma_fundamental_div_mod(x2, y2);
    lemma_mod_pos_bound(x2, y2);
    assert(q1 * y2 <= x2) by (nonlinear_arith)
        requires
            y1 * q1 <= x1,
            x1 * y2 <= x2 * y1,
            y1 > 0,
            y2 > 0,
    ;
    assert(q1 < q2 + 1) by (nonlinear_arith)
        requires
            q1 * y2 <= x2,
            x2 == y2 * q2 + x2 % y2,
            x2 % y2 < y2,
            y2 > 0,
    ;
}

/// With no slippage tolerance the adjustment keeps the amount, in both
/// directions.
pub proof fn lemma_zero_slippage_keeps_amount(amount: u64, denominator: u32, adjust_up: bool)
    requires
        denominator > 0,
    ensures
        adjust_for_slippage_spec(amount as int, 0, denominator as int, adjust_up) == amount,
{
    let d = 100 * denominator as int;
    lemma_div_multiples_vanish(amount as int, d);
    assert(amount as int * d == d * amount as int) by (nonlinear_arith);
    assert(amount as int * 100 * denominator as int == d * amount as int) by (nonlinear_arith)
        requires
            d == 100 * denominator as int,
    ;
}

/// The least output to accept never grows with the slippage tolerance, from
/// a tolerance `lo` with `100 + lo >= 0` to any `hi >= lo`.
pub proof fn lemma_adjust_down_monotonic(amount: u64, lo: Slippage, hi: Slippage)
    requires
        lo.wf(),
        hi.wf(),
        lo.numerator * hi.denominator <= hi.numerator * lo.denominator,
        100 * lo.denominator + lo.numerator >= 0,
    ensures
        adjust_for_slippage_spec(amount as int, hi.numerator as int, hi.denominator as int, false)
            <= adjust_for_slippage_spec(
            amount as int,
            lo.numerator as int,
            lo.denominator as int,
            false,
        ),
{
    let a = amount as int;
    let nl = lo.numerator as int;
    let dl = lo.denominator as int;
    let nh = hi.numerator as int;
    let dh = hi.denominator as int;
    let d_lo = 100 * dl + nl;
    let d_hi = 100 * dh + nh;
    assert(d_hi * dl >= d_lo * dh) by (nonlinear_arith)
        requires
            nl * dh <= nh * dl,
            d_lo == 100 * dl + nl,
            d_hi == 100 * dh + nh,
    ;
    assert(d_hi >= 0) by (nonlinear_arith)
        requires
            d_hi * dl >= d_lo * dh,
            d_lo >= 0,
            dh > 0,
            dl > 0,
    ;
    if d_lo == 0 {
        if a == 0 {
            if d_hi > 0 {
                assert(a * 100 * dh == 0);
            }
        }
    } else {
        assert(d_hi > 0) by (nonlinear_arith)
            requires
                d_hi * dl >= d_lo * dh,
                d_lo > 0,
                dh > 0,
                dl > 0,
        ;
        assert((a * 100 * dh) * d_lo <= (a * 100 * dl) * d_hi) by (nonlinear_arith)
            requires
                d_hi * dl >= d_lo * dh,
                a >= 0,
        ;
        assert(a * 100 * dh >= 0 && a * 100 * dl >= 0) by (nonlinear_arith)
            requires
                a >= 0,
                dh > 0,
                dl > 0,
        ;
        lemma_div_cross(a * 100 * dh, d_hi, a * 100 * dl, d_lo);
    }
}

pub open spec fn is_digit(c: u8) -> bool {
    48 <= c <= 57
}

/// Reading of the bytes of an unsigned decimal from the left: its digits as
/// one integer, whether a point was seen, the number of digits after it, and
/// the number of digits in all; `None` at any other byte or a second point.
pub open spec fn scan_decimal(b: Seq<u8>) -> Option<(int, bool, nat, nat)>
    decreases b.len(),
{
    if b.len() == 0 {
        Some((0, false, 0, 0))
    } else {
        match scan_decimal(b.drop_last()) {
            None => None,
            Some((v, dot, frac, n)) => {
                let c = b.last();
                if is_digit(c) {
                    Some((v * 10 + (c - 48), dot, if dot { frac + 1 } else { frac }, n + 1))
                } else if c == 46 && !dot {
                    Some((v, true, frac, n))
                } else {
                    None
                }
            },
        }
    }
}

pub open spec fn pow10(n: nat) -> int
    decreases n,
{
    if n == 0 {
        1
    } else {
        10 * pow10((n - 1) as nat)
    }
}

/// Longest run of digits a slippage setting may hold.
pub const MAX_SLIPPAGE_DIGITS: usize = 18;

/// Longest run of digits after the point a slippage setting may hold.
pub const MAX_SLIPPAGE_FRACTION_DIGITS: usize = 9;

/// The tolerance that a decimal text such as `1`, `-0.25` or `.5` writes:
/// an optional sign, digits with at most one point, at least one digit, at
/// most eighteen digits in all and nine after the point.
pub open spec fn slippage_of_text(text: Seq<u8>) -> Option<(int, int)> {
    let signed = text.len() > 0 && (text[0] == 45 || text[0] == 43);
    let body = if signed {
        text.drop_first()
    } else {
        text
    };
    match scan_decimal(body) {
        Some((v, _dot, frac, n)) => if 1 <= n <= MAX_SLIPPAGE_DIGITS && frac
            <= MAX_SLIPPAGE_FRACTION_DIGITS {
            Some((if signed && text[0] == 45 { -v } else { v }, pow10(frac)))
        } else {
            None
        },
        None => None,
    }
}

proof fn lemma_scan_bounds(b: Seq<u8>)
    ensures
        scan_decimal(b) matches Some((v, dot, frac, n)) ==> 0 <= v < pow10(n) && frac <= n && (!dot
            ==> frac == 0),
    decreases b.len(),
{
    if b.len() > 0 {
        lemma_scan_bounds(b.drop_last());
    }
}

proof fn lemma_pow10_values()
    ensures
        pow10(8) == 100_000_000,
        pow10(9) == 1_000_000_000,
        pow10(18) == 1_000_000_000_000_000_000,
{
    reveal_with_fuel(pow10, 19);
}

proof fn lemma_pow10_positive(n: nat)
    ensures
        pow10(n) >= 1,
    decreases n,
{
    if n > 0 {
        lemma_pow10_positive((n - 1) as nat);
    }
}

proof fn lemma_pow10_monotonic(m: nat, n: nat)
    requires
        m <= n,
    ensures
        1 <= pow10(m) <= pow10(n),
    decreases n,
{
    lemma_pow10_positive(n);
    lemma_pow10_positive(m);
    if m < n {
        lemma_pow10_monotonic(m, (n - 1) as nat);
    }
}

impl Slippage {
    /// Reads a tolerance in percent from its decimal text (see
    /// `slippage_of_text`); `None` where the text is not such a decimal.
    pub fn parse(text: &str) -> (r: Option<Slippage>)
        ensures
            match slippage_of_text(text.spec_bytes()) {
                Some((num, den)) => r matches Some(s) && s.numerator == num && s.denominator == den
                    && s.wf(),
                None => r is None,
            },
    {
        let b = text.as_bytes();
        let ghost t = text.spec_bytes();
        let signed = b.len() > 0 && (b[0] == 45u8 || b[0] == 43u8);
        let negative = signed && b[0] == 45u8;
        let start: usize = if signed {
            1
        } else {
            0
        };
        let ghost body = if signed {
            t.drop_first()
        } else {
            t
        };
        let mut value: u64 = 0;
        let mut dot = false;
        let mut frac: usize = 0;
        let mut digits: usize = 0;
        let mut den: u32 = 1;
        let mut i: usize = start;
        while i < b.len()
            invariant
                b@ == t,
                t == text.spec_bytes(),
                signed == (t.len() > 0 && (t[0] == 45 || t[0] == 43)),
                negative == (signed && t[0] == 45),
                start == (if signed {
                    1usize
                } else {
                    0usize
                }),
                body == (if signed {
                    t.drop_first()
                } else {
                    t
                }),
                start <= i <= b@.len(),
                body == t.subrange(start as int, t.len() as int),
                scan_decimal(body.subrange(0, i - start)) == Some(
                    (value as int, dot, frac as nat, digits as nat),
                ),
                digits <= MAX_SLIPPAGE_DIGITS,
                frac <= MAX_SLIPPAGE_FRACTION_DIGITS,
                den == pow10(frac as nat),
            decreases b@.len() - i,
        {
            let c = b[i];
            proof {
                assert(body.subrange(0, i + 1 - start).drop_last() =~= body.subrange(0, i - start));
                assert(body.subrange(0, i + 1 - start).last() == c);
                lemma_scan_bounds(body.subrange(0, i - start));
                lemma_pow10_monotonic(digits as nat, 18);
                lemma_pow10_monotonic(frac as nat, 9);
                lemma_pow10_values();
            }
            if 48u8 <= c && c <= 57u8 {
                if digits == MAX_SLIPPAGE_DIGITS || (dot && frac == MAX_SLIPPAGE_FRACTION_DIGITS) {
                    proof {
                        lemma_scan_none_stays(body, (i + 1 - start) as nat);
                    }
                    return None;
                }
                value = value * 10 + (c - 48u8) as u64;
                if dot {
                    proof {
                        lemma_pow10_monotonic(frac as nat, 8);
                    }
                    frac = frac + 1;
                    den = den * 10;
                }
                digits = digits + 1;
            } else if c == 46u8 && !dot {
                dot = true;
            } else {
                proof {
                    lemma_scan_none_stays(body, (i + 1 - start) as nat);
                }
                return None;
            }
            i = i + 1;
        }
        assert(body.subrange(0, i - start) =~= body);
        proof {
            lemma_scan_bounds(body);
            lemma_pow10_monotonic(digits as nat, 18);
            lemma_pow10_monotonic(0, frac as nat);
            lemma_pow10_values();
        }
        if digits == 0 {
            return None;
        }
        let numerator: i64 = if negative {
            -(value as i64)
        } else {
            value as i64
        };
        Some(Slippage { numerator, denominator: den })
    }
}

/// Once the reading fails it stays failed, and once it holds more than
/// the allowed digits it keeps doing so.
proof fn lemma_scan_none_stays(body: Seq<u8>, k: nat)
    requires
        k <= body.len(),
        match scan_decimal(body.subrange(0, k as int)) {
            None => true,
            Some((_v, _dot, frac, n)) => n > MAX_SLIPPAGE_DIGITS || frac > MAX_SLIPPAGE_FRACTION_DIGITS,
        },
    ensures
        match scan_decimal(body) {
            None => true,
            Some((_v, _dot, frac, n)) => n > MAX_SLIPPAGE_DIGITS || frac > MAX_SLIPPAGE_FRACTION_DIGITS,
        },
    decreases body.len() - k,
{
    if k < body.len() {
        assert(body.subrange(0, k + 1int).drop_last() =~= body.subrange(0, k as int));
        lemma_scan_none_stays(body, (k + 1) as nat);
    } else {
        assert(body.subrange(0, k as int) =~= body);
    }
}

/// The settings of one quote.
#[derive(Clone, Debug)]
pub struct WhirlpoolArbState {
    pub override_cache: bool,
    pub http_url: String,
    pub amount: u64,
    pub in_token: Address,
    pub out_token: Address,
    pub whirlpool_program: Address,
    pub slippage: Slippage,
}

/// What a quote hands to the swap simulation.
#[derive(Clone, Debug)]
pub struct SwapPlan {
    pub a_to_b: bool,
    pub amount: u64,
    pub amount_specified_is_input: bool,
    pub sqrt_price_limit: u128,
    pub tick_array_keys: Vec<Address>,
}

/// The swap to simulate for a quote in the pool at `pool_address`, whose
/// current tick and tick spacing are given: the requested input amount, the
/// price limit of the direction, and the tick arrays to read, in order.
pub fn plan_swap(
    state: &WhirlpoolArbState,
    pool_address: &Address,
    a_to_b: bool,
    tick_current_index: i32,
    tick_spacing: u16,
) -> (r: SwapPlan)
    requires
        tick_spacing > 0,
    ensures
        r.a_to_b == a_to_b,
        r.amount == state.amount,
        r.amount_specified_is_input,
        r.sqrt_price_limit == (if a_to_b {
            MIN_SQRT_PRICE_X64
        } else {
            MAX_SQRT_PRICE_X64
        }),
        views(r.tick_array_keys@) == tick_array_keys_spec(
            tick_current_index as int,
            tick_spacing as int,
            a_to_b,
            state.whirlpool_program@,
            pool_address@,
        ),
        r.tick_array_keys@.len() <= 3,
{
    let tick_array_keys = get_tick_array_keys(
        tick_current_index,
        tick_spacing as i32,
        a_to_b,
        &state.whirlpool_program,
        pool_address,
    );
    SwapPlan {
        a_to_b,
        amount: state.amount,
        amount_specified_is_input: true,
        sqrt_price_limit: get_default_sqrt_price_limit(a_to_b),
        tick_array_keys,
    }
}

} // verus!
