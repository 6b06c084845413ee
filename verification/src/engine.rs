//! The sliding-window regression engine: batch initialization and
//! incremental advance of a window of enriched entries, with eviction of
//! aged-out ticks, sum correction, hour-bucket retention and recomputation
//! of the ordinary-least-squares coefficients.
//!
//! Every double-precision quantity is an IEEE 754 binary64 bit pattern in a
//! `u64` (see `fbits`); timestamps are milliseconds in a `u64`.

use vstd::prelude::*;
use crate::fbits::{
    add_bits, sub_bits, mul_bits, div_bits, from_u64_bits, trunc_u64_of_bits, ZERO_BITS, ONE_BITS,
    HALF_BITS,
    HUNDRED_BITS, THOUSAND_BITS, HUNDRED_THOUSAND_BITS, f64_add, f64_sub, f64_mul, f64_div,
    f64_of_u64, u64_of_f64,
};
use crate::scale::{
    spec_price_small, spec_time_small, spec_time_value, spec_time_square, RegressionDataTemporary,
    is_scaled_of, make_basic_regression_dataset,
};

verus! {

/// Milliseconds in one hour: the width of a retention bucket.
pub const HOUR_MS: u64 = 3600000;

/// One raw tick: a price (as IEEE 754 binary64 bits) and its timestamp in
/// milliseconds.
#[derive(Clone, Copy, Debug, PartialEq, Eq, Structural)]
pub struct PriceData {
    pub price: u64,
    pub timestamp: u64,
}

/// One enriched window entry: the scaled observation of its tick, and a
/// frozen snapshot, as of the entry's insertion, of the four running sums
/// and the regression outputs computed from them. All double-precision
/// fields are IEEE 754 binary64 bit patterns.
#[derive(Clone, Copy, Debug, PartialEq, Eq, Structural)]
pub struct RegressionData {
    pub price: u64,
    pub price_small: u64,
    pub begin_timestamp: u64,
    pub timestamp: u64,
    pub timestamp_small: u64,
    pub time_value: u64,
    pub time_square: u64,
    pub sum_price_small: u64,
    pub sum_time: u64,
    pub sum_time_value: u64,
    pub sum_time_square: u64,
    pub regression_a: u64,
    pub regression_b: u64,
    pub regression_value: u64,
    pub regression_a_abs: u64,
    pub regression_b_half: u64,
}

/// The ticks' timestamps are non-decreasing.
pub open spec fn ticks_sorted(ticks: Seq<PriceData>) -> bool {
    forall|i: int, j: int|
        0 <= i <= j < ticks.len() ==> ticks[i].timestamp <= ticks[j].timestamp
}

/// The window's entries are non-decreasing by timestamp.
pub open spec fn entries_sorted(w: Seq<RegressionData>) -> bool {
    forall|i: int, j: int| 0 <= i <= j < w.len() ==> w[i].timestamp <= w[j].timestamp
}

/// The hour-aligned bucket a timestamp falls in.
pub open spec fn spec_hour_bucket(ts: u64) -> u64 {
    (ts - (ts % HOUR_MS)) as u64
}

pub(crate) fn hour_bucket(ts: u64) -> (r: u64)
    ensures
        r == spec_hour_bucket(ts),
{
    ts - (ts % HOUR_MS)
}

/// Left fold of double addition over the batch's scaled prices, starting
/// from 0.0, in batch order.
pub open spec fn spec_sum_price(ticks: Seq<PriceData>) -> u64
    decreases ticks.len(),
{
    if ticks.len() == 0 {
        ZERO_BITS
    } else {
        add_bits(spec_sum_price(ticks.drop_last()), spec_price_small(ticks.last().price))
    }
}

/// Left fold of double addition over the batch's scaled times.
pub open spec fn spec_sum_time(ticks: Seq<PriceData>, origin: u64) -> u64
    decreases ticks.len(),
{
    if ticks.len() == 0 {
        ZERO_BITS
    } else {
        add_bits(
            spec_sum_time(ticks.drop_last(), origin),
            spec_time_small(ticks.last().timestamp, origin),
        )
    }
}

/// Left fold of double addition over the batch's time-price products.
pub open spec fn spec_sum_time_value(ticks: Seq<PriceData>, origin: u64) -> u64
    decreases ticks.len(),
{
    if ticks.len() == 0 {
        ZERO_BITS
    } else {
        add_bits(
            spec_sum_time_value(ticks.drop_last(), origin),
            spec_time_value(ticks.last().price, ticks.last().timestamp, origin),
        )
    }
}

/// Left fold of double addition over the batch's squared scaled times.
pub open spec fn spec_sum_time_square(ticks: Seq<PriceData>, origin: u64) -> u64
    decreases ticks.len(),
{
    if ticks.len() == 0 {
        ZERO_BITS
    } else {
        add_bits(
            spec_sum_time_square(ticks.drop_last(), origin),
            spec_time_square(ticks.last().timestamp, origin),
        )
    }
}

/// The intercept: ((Sp*Stt - St*Stv) / (n*Stt - St*St)) * 1000, over
/// double bit patterns.
pub open spec fn spec_regression_a(sp: u64, stt: u64, st: u64, stv: u64, n: u64) -> u64 {
    mul_bits(
        div_bits(
            sub_bits(mul_bits(sp, stt), mul_bits(st, stv)),
            sub_bits(mul_bits(n, stt), mul_bits(st, st)),
        ),
        THOUSAND_BITS,
    )
}

/// The slope: ((n*Stv - St*Sp) / (n*Stt - St*St)) / 100, over double bit
/// patterns.
pub open spec fn spec_regression_b(sp: u64, stt: u64, st: u64, stv: u64, n: u64) -> u64 {
    div_bits(
        div_bits(
            sub_bits(mul_bits(n, stv), mul_bits(st, sp)),
            sub_bits(mul_bits(n, stt), mul_bits(st, st)),
        ),
        HUNDRED_BITS,
    )
}

/// The fit evaluated at a scaled time: a + (b * t) * 100000.
pub open spec fn spec_regression_value(a: u64, b: u64, t: u64) -> u64 {
    add_bits(a, mul_bits(mul_bits(b, t), HUNDRED_THOUSAND_BITS))
}

/// The intercept re-anchored to absolute time zero:
/// a - (begin / 100000) * b.
pub open spec fn spec_regression_a_abs(a: u64, b: u64, begin: u64) -> u64 {
    sub_bits(a, mul_bits(div_bits(from_u64_bits(begin), HUNDRED_THOUSAND_BITS), b))
}

fn calculate_regression_a(
    sum_price_small: u64,
    sum_time_square: u64,
    sum_time: u64,
    sum_time_value: u64,
    regression_len: u64,
) -> (r: u64)
    ensures
        r == spec_regression_a(
            sum_price_small,
            sum_time_square,
            sum_time,
            sum_time_value,
            regression_len,
        ),
{
    f64_mul(
        f64_div(
            f64_sub(
                f64_mul(sum_price_small, sum_time_square),
                f64_mul(sum_time, sum_time_value),
            ),
            f64_sub(
                f64_mul(regression_len, sum_time_square),
                f64_mul(sum_time, sum_time),
            ),
        ),
        THOUSAND_BITS,
    )
}

fn calculate_regression_b(
    sum_price_small: u64,
    sum_time_square: u64,
    sum_time: u64,
    sum_time_value: u64,
    regression_len: u64,
) -> (r: u64)
    ensures
        r == spec_regression_b(
            sum_price_small,
            sum_time_square,
            sum_time,
            sum_time_value,
            regression_len,
        ),
{
    f64_div(
        f64_div(
            f64_sub(
                f64_mul(regression_len, sum_time_value),
                f64_mul(sum_time, sum_price_small),
            ),
            f64_sub(
                f64_mul(regression_len, sum_time_square),
                f64_mul(sum_time, sum_time),
            ),
        ),
        HUNDRED_BITS,
    )
}

fn calculate_regression_value(regression_a: u64, regression_b: u64, time_stamp: u64) -> (r: u64)
    ensures
        r == spec_regression_value(regression_a, regression_b, time_stamp),
{
    f64_add(regression_a, f64_mul(f64_mul(regression_b, time_stamp), HUNDRED_THOUSAND_BITS))
}

fn calculate_regression_a_abs(regression_a: u64, regression_b: u64, begin_timestamp: u64) -> (r:
    u64)
    ensures
        r == spec_regression_a_abs(regression_a, regression_b, begin_timestamp),
{
    f64_sub(
        regression_a,
        f64_mul(f64_div(f64_of_u64(begin_timestamp), HUNDRED_THOUSAND_BITS), regression_b),
    )
}

fn calculate_initial_regression_b_half(regression_b: u64) -> (r: u64)
    ensures
        r == regression_b,
{
    regression_b
}

/// The entry at position `i` of the initial window built from `ticks`: its
/// own scaled observation, and the one batch-wide fit that every initial
/// entry shares.
pub open spec fn spec_initial_entry(ticks: Seq<PriceData>, i: int) -> RegressionData {
    let origin = ticks[0].timestamp;
    let sp = spec_sum_price(ticks);
    let st = spec_sum_time(ticks, origin);
    let stv = spec_sum_time_value(ticks, origin);
    let stt = spec_sum_time_square(ticks, origin);
    let n = from_u64_bits(ticks.len() as u64);
    let a = spec_regression_a(sp, stt, st, stv, n);
    let b = spec_regression_b(sp, stt, st, stv, n);
    let v = spec_regression_value(a, b, spec_time_small(ticks.last().timestamp, origin));
    let aa = spec_regression_a_abs(a, b, origin);
    RegressionData {
        price: ticks[i].price,
        price_small: spec_price_small(ticks[i].price),
        begin_timestamp: origin,
        timestamp: ticks[i].timestamp,
        timestamp_small: spec_time_small(ticks[i].timestamp, origin),
        time_value: spec_time_value(ticks[i].price, ticks[i].timestamp, origin),
        time_square: spec_time_square(ticks[i].timestamp, origin),
        sum_price_small: sp,
        sum_time: st,
        sum_time_value: stv,
        sum_time_square: stt,
        regression_a: a,
        regression_b: b,
        regression_value: v,
        regression_a_abs: aa,
        regression_b_half: b,
    }
}

/// The whole initial window built from `ticks`.
pub open spec fn spec_initial_dataset(ticks: Seq<PriceData>) -> Seq<RegressionData> {
    Seq::new(ticks.len(), |i: int| spec_initial_entry(ticks, i))
}

/// How many entries of the window's oldest prefix a tick arriving at `ts`
/// evicts: the scan walks from the oldest entry and stops at the first one
/// whose age, `ts` minus the entry's timestamp, is not above the window
/// length. Ages are compared as mathematical integers, so an entry newer
/// than `ts` is never evicted.
pub open spec fn evict_count(w: Seq<RegressionData>, ts: u64, regression_length: u64) -> int
    decreases w.len(),
{
    if w.len() == 0 {
        0int
    } else if ts - w[0].timestamp > regression_length {
        1 + evict_count(w.drop_first(), ts, regression_length)
    } else {
        0int
    }
}

/// `init` with the evicted entries' scaled prices subtracted, oldest first.
pub open spec fn spec_deduct_price(init: u64, evicted: Seq<RegressionData>) -> u64
    decreases evicted.len(),
{
    if evicted.len() == 0 {
        init
    } else {
        sub_bits(spec_deduct_price(init, evicted.drop_last()), evicted.last().price_small)
    }
}

/// `init` with the evicted entries' scaled times subtracted, oldest first.
pub open spec fn spec_deduct_time(init: u64, evicted: Seq<RegressionData>) -> u64
    decreases evicted.len(),
{
    if evicted.len() == 0 {
        init
    } else {
        sub_bits(spec_deduct_time(init, evicted.drop_last()), evicted.last().timestamp_small)
    }
}

/// `init` with the evicted entries' time-price products subtracted, oldest
/// first.
pub open spec fn spec_deduct_time_value(init: u64, evicted: Seq<RegressionData>) -> u64
    decreases evicted.len(),
{
    if evicted.len() == 0 {
        init
    } else {
        sub_bits(spec_deduct_time_value(init, evicted.drop_last()), evicted.last().time_value)
    }
}

/// `init` with the evicted entries' squared scaled times subtracted, oldest
/// first.
pub open spec fn spec_deduct_time_square(init: u64, evicted: Seq<RegressionData>) -> u64
    decreases evicted.len(),
{
    if evicted.len() == 0 {
        init
    } else {
        sub_bits(spec_deduct_time_square(init, evicted.drop_last()), evicted.last().time_square)
    }
}

/// The evicted entries whose hour bucket equals `bucket`, in their window
/// order: these are set aside instead of discarded.
pub open spec fn spec_retained(evicted: Seq<RegressionData>, bucket: u64) -> Seq<RegressionData>
    decreases evicted.len(),
{
    if evicted.len() == 0 {
        Seq::empty()
    } else {
        let rest = spec_retained(evicted.drop_last(), bucket);
        if spec_hour_bucket(evicted.last().timestamp) == bucket {
            rest.push(evicted.last())
        } else {
            rest
        }
    }
}

/// The index of the entry whose slope becomes the half-window slope: the
/// first entry whose timestamp exceeds `check` (the new tick's timestamp
/// minus half the window length), or the last entry if none does. `check`
/// is a mathematical integer and may be negative, in which case the first
/// entry is picked.
pub open spec fn spec_half_index(w: Seq<RegressionData>, check: int) -> int
    decreases w.len(),
{
    if w.len() <= 1 {
        0int
    } else if w[0].timestamp > check {
        0int
    } else {
        1 + spec_half_index(w.drop_first(), check)
    }
}

/// One advance step: fold the tick into the sums taken from the newest
/// entry's snapshot, evict the aged-out oldest prefix (subtracting its
/// contributions), set evicted same-hour entries aside, recompute the fit
/// over the survivors plus the new tick, look up the half-window slope
/// among the survivors, and append the new entry. Returns the new window
/// and the retention buffer extended by this step's same-hour entries.
pub open spec fn spec_step(
    w: Seq<RegressionData>,
    kept: Seq<RegressionData>,
    tick: PriceData,
    origin: u64,
    regression_length: u64,
) -> (Seq<RegressionData>, Seq<RegressionData>) {
    let last = w.last();
    let sp0 = add_bits(last.sum_price_small, spec_price_small(tick.price));
    let st0 = add_bits(last.sum_time, spec_time_small(tick.timestamp, origin));
    let stv0 = add_bits(last.sum_time_value, spec_time_value(tick.price, tick.timestamp, origin));
    let stt0 = add_bits(last.sum_time_square, spec_time_square(tick.timestamp, origin));
    let c = evict_count(w, tick.timestamp, regression_length);
    let evicted = w.take(c);
    let survivors = w.skip(c);
    let sp = spec_deduct_price(sp0, evicted);
    let st = spec_deduct_time(st0, evicted);
    let stv = spec_deduct_time_value(stv0, evicted);
    let stt = spec_deduct_time_square(stt0, evicted);
    let n = add_bits(from_u64_bits(survivors.len() as u64), ONE_BITS);
    let a = spec_regression_a(sp, stt, st, stv, n);
    let b = spec_regression_b(sp, stt, st, stv, n);
    let v = spec_regression_value(a, b, spec_time_small(tick.timestamp, origin));
    let aa = spec_regression_a_abs(a, b, origin);
    let half = trunc_u64_of_bits(mul_bits(HALF_BITS, from_u64_bits(regression_length)));
    let k = spec_half_index(survivors, tick.timestamp - half);
    let entry = RegressionData {
        price: tick.price,
        price_small: spec_price_small(tick.price),
        begin_timestamp: origin,
        timestamp: tick.timestamp,
        timestamp_small: spec_time_small(tick.timestamp, origin),
        time_value: spec_time_value(tick.price, tick.timestamp, origin),
        time_square: spec_time_square(tick.timestamp, origin),
        sum_price_small: sp,
        sum_time: st,
        sum_time_value: stv,
        sum_time_square: stt,
        regression_a: a,
        regression_b: b,
        regression_value: v,
        regression_a_abs: aa,
        regression_b_half: survivors[k].regression_b,
    };
    (survivors.push(entry), kept + spec_retained(evicted, spec_hour_bucket(tick.timestamp)))
}

/// The window and retention buffer after advancing through `ticks` in
/// order.
pub open spec fn spec_run(
    w: Seq<RegressionData>,
    kept: Seq<RegressionData>,
    ticks: Seq<PriceData>,
    origin: u64,
    regression_length: u64,
) -> (Seq<RegressionData>, Seq<RegressionData>)
    decreases ticks.len(),
{
    if ticks.len() == 0 {
        (w, kept)
    } else {
        let prev = spec_run(w, kept, ticks.drop_last(), origin, regression_length);
        spec_step(prev.0, prev.1, ticks.last(), origin, regression_length)
    }
}

/// The window with every entry dropped whose age relative to `check` (the
/// newest entry's timestamp) reaches the window length. Ages are compared
/// as mathematical integers.
pub open spec fn spec_trim_against(
    w: Seq<RegressionData>,
    check: u64,
    regression_length: u64,
) -> Seq<RegressionData>
    decreases w.len(),
{
    if w.len() == 0 {
        Seq::empty()
    } else {
        let rest = spec_trim_against(w.drop_last(), check, regression_length);
        if check - w.last().timestamp < regression_length {
            rest.push(w.last())
        } else {
            rest
        }
    }
}

/// The window an advance call starts from: pre-trimmed against its own
/// newest timestamp when the window length is under one hour, unchanged
/// otherwise.
pub open spec fn spec_trimmed(w: Seq<RegressionData>, regression_length: u64) -> Seq<
    RegressionData,
> {
    if regression_length < HOUR_MS {
        spec_trim_against(w, w.last().timestamp, regression_length)
    } else {
        w
    }
}

/// Every tick follows its predecessor (the window's newest entry for the
/// first tick) by at most one window length, and timestamps never decrease:
/// under this the window can never empty out mid-advance.
pub open spec fn chain_ok(
    last_ts: u64,
    ticks: Seq<PriceData>,
    regression_length: u64,
    i: int,
) -> bool {
    let prev = if i == 0 {
        last_ts
    } else {
        ticks[i - 1].timestamp
    };
    &&& prev <= ticks[i].timestamp
    &&& ticks[i].timestamp - prev <= regression_length
}

pub open spec fn ticks_chained(last_ts: u64, ticks: Seq<PriceData>, regression_length: u64) -> bool {
    forall|i: int|
        0 <= i < ticks.len() ==> #[trigger] chain_ok(last_ts, ticks, regression_length, i)
}

/// The full advance: pre-trim, run every tick through one step, then put
/// the retention buffer back in front of the advanced window.
pub open spec fn spec_update(
    w: Seq<RegressionData>,
    ticks: Seq<PriceData>,
    regression_length: u64,
) -> Seq<RegressionData> {
    let trimmed = spec_trimmed(w, regression_length);
    let origin = trimmed.last().begin_timestamp;
    let fin = spec_run(trimmed, Seq::empty(), ticks, origin, regression_length);
    fin.1 + fin.0
}

/// The raw tick a scaled observation was made from.
pub(crate) open spec fn tick_of(t: RegressionDataTemporary) -> PriceData {
    PriceData { price: t.price, timestamp: t.timestamp }
}

proof fn lemma_evict_count_is(w: Seq<RegressionData>, ts: u64, regression_length: u64, c: int)
    requires
        0 <= c <= w.len(),
        forall|j: int| 0 <= j < c ==> ts - #[trigger] w[j].timestamp > regression_length,
        c < w.len() ==> !(ts - w[c].timestamp > regression_length),
    ensures
        c == evict_count(w, ts, regression_length),
    decreases w.len(),
{
    if w.len() == 0 {
    } else if ts - w[0].timestamp > regression_length {
        assert(c >= 1) by {
            if c == 0 {
                assert(!(ts - w[0].timestamp > regression_length));
            }
        }
        let w2 = w.drop_first();
        assert forall|j: int| 0 <= j < c - 1 implies ts - #[trigger] w2[j].timestamp
            > regression_length by {
            assert(w2[j] == w[j + 1]);
        }
        if c - 1 < w2.len() {
            assert(w2[c - 1] == w[c]);
        }
        lemma_evict_count_is(w2, ts, regression_length, c - 1);
    } else {
        if c > 0 {
            assert(ts - w[0].timestamp > regression_length);
        }
    }
}

proof fn lemma_half_index_is(w: Seq<RegressionData>, check: int, k: int)
    requires
        w.len() > 0,
        0 <= k < w.len(),
        forall|j: int| 0 <= j < k ==> !(#[trigger] w[j].timestamp > check),
        k < w.len() - 1 ==> w[k].timestamp > check,
    ensures
        k == spec_half_index(w, check),
    decreases w.len(),
{
    if w.len() <= 1 {
    } else if w[0].timestamp > check {
        if k > 0 {
            assert(!(w[0].timestamp > check));
        }
    } else {
        assert(k >= 1) by {
            if k == 0 {
                assert(w[0].timestamp > check);
            }
        }
        let w2 = w.drop_first();
        assert forall|j: int| 0 <= j < k - 1 implies !(#[trigger] w2[j].timestamp > check) by {
            assert(w2[j] == w[j + 1]);
        }
        if k - 1 < w2.len() - 1 {
            assert(w2[k - 1] == w[k]);
        }
        lemma_half_index_is(w2, check, k - 1);
    }
}

/// One advance step over a non-empty window: the executable counterpart of
/// `spec_step`.
fn advance_one(
    window: Vec<RegressionData>,
    kept: Vec<RegressionData>,
    temp: &RegressionDataTemporary,
    origin: u64,
    regression_length: u64,
) -> (r: (Vec<RegressionData>, Vec<RegressionData>))
    requires
        window@.len() > 0,
        is_scaled_of(*temp, tick_of(*temp), origin),
        temp.timestamp - window@.last().timestamp <= regression_length,
    ensures
        r.0@ == spec_step(window@, kept@, tick_of(*temp), origin, regression_length).0,
        r.1@ == spec_step(window@, kept@, tick_of(*temp), origin, regression_length).1,
        r.0@.len() > 0,
        r.0@.last().timestamp == temp.timestamp,
{
    let ghost w0 = window@;
    let ghost kept0 = kept@;
    let ghost tick = tick_of(*temp);
    let mut kept = kept;

    let last_index = window.len() - 1;
    let mut sum_time = f64_add(window[last_index].sum_time, temp.timestamp_small);
    let mut sum_price_small = f64_add(window[last_index].sum_price_small, temp.price_small);
    let mut sum_time_value = f64_add(window[last_index].sum_time_value, temp.time_value);
    let mut sum_time_square = f64_add(window[last_index].sum_time_square, temp.time_square);
    let ghost sp0 = sum_price_small;
    let ghost st0 = sum_time;
    let ghost stv0 = sum_time_value;
    let ghost stt0 = sum_time_square;

    let mut cut: usize = 0;
    while cut < window.len() && window[cut].timestamp < temp.timestamp && temp.timestamp
        - window[cut].timestamp > regression_length
        invariant
            cut <= window@.len(),
            window@ == w0,
            forall|j: int|
                0 <= j < cut ==> temp.timestamp - #[trigger] w0[j].timestamp > regression_length,
            sum_price_small == spec_deduct_price(sp0, w0.take(cut as int)),
            sum_time == spec_deduct_time(st0, w0.take(cut as int)),
            sum_time_value == spec_deduct_time_value(stv0, w0.take(cut as int)),
            sum_time_square == spec_deduct_time_square(stt0, w0.take(cut as int)),
        decreases window@.len() - cut,
    {
        proof {
            assert(w0.take(cut + 1).drop_last() =~= w0.take(cut as int));
        }
        let entry = window[cut];
        sum_time = f64_sub(sum_time, entry.timestamp_small);
        sum_price_small = f64_sub(sum_price_small, entry.price_small);
        sum_time_value = f64_sub(sum_time_value, entry.time_value);
        sum_time_square = f64_sub(sum_time_square, entry.time_square);
        cut += 1;
    }
    proof {
        lemma_evict_count_is(w0, temp.timestamp, regression_length, cut as int);
        assert(cut < w0.len()) by {
            if cut == w0.len() {
                assert(temp.timestamp - w0[w0.len() - 1].timestamp > regression_length);
            }
        }
    }

    let mut survivors: Vec<RegressionData> = Vec::new();
    let mut j: usize = cut;
    while j < window.len()
        invariant
            cut <= j <= window@.len(),
            window@ == w0,
            survivors@ == w0.subrange(cut as int, j as int),
        decreases window@.len() - j,
    {
        proof {
            assert(w0.subrange(cut as int, j + 1) =~= w0.subrange(cut as int, j as int).push(
                w0[j as int],
            ));
        }
        let e = window[j];
        survivors.push(e);
        j += 1;
    }
    proof {
        assert(w0.subrange(cut as int, w0.len() as int) =~= w0.skip(cut as int));
        assert(survivors@.len() > 0);
    }

    let bucket = hour_bucket(temp.timestamp);
    let mut m: usize = 0;
    while m < cut
        invariant
            m <= cut <= window@.len(),
            window@ == w0,
            bucket == spec_hour_bucket(temp.timestamp),
            kept@ == kept0 + spec_retained(w0.take(m as int), bucket),
        decreases cut - m,
    {
        proof {
            assert(w0.take(m + 1).drop_last() =~= w0.take(m as int));
        }
        let e = window[m];
        if hour_bucket(e.timestamp) == bucket {
            kept.push(e);
        }
        proof {
            assert(kept@ =~= kept0 + spec_retained(w0.take(m + 1), bucket));
        }
        m += 1;
    }

    let n = f64_add(f64_of_u64(survivors.len() as u64), ONE_BITS);
    let regression_a = calculate_regression_a(
        sum_price_small,
        sum_time_square,
        sum_time,
        sum_time_value,
        n,
    );
    let regression_b = calculate_regression_b(
        sum_price_small,
        sum_time_square,
        sum_time,
        sum_time_value,
        n,
    );
    let regression_value = calculate_regression_value(
        regression_a,
        regression_b,
        temp.timestamp_small,
    );
    let regression_a_abs = calculate_regression_a_abs(
        regression_a,
        regression_b,
        temp.begin_timestamp,
    );

    let half = u64_of_f64(f64_mul(HALF_BITS, f64_of_u64(regression_length)));
    let ghost check_i: int = temp.timestamp - half;
    let mut k: usize = 0;
    if half <= temp.timestamp {
        let check = temp.timestamp - half;
        while k < survivors.len() - 1 && survivors[k].timestamp <= check
            invariant
                k < survivors@.len(),
                survivors@.len() > 0,
                check == check_i,
                forall|j: int| 0 <= j < k ==> !(#[trigger] survivors@[j].timestamp > check_i),
            decreases survivors@.len() - k,
        {
            k += 1;
        }
    } else {
        proof {
            assert(survivors@[0].timestamp > check_i);
        }
    }
    proof {
        lemma_half_index_is(survivors@, check_i, k as int);
    }
    let regression_b_half = survivors[k].regression_b;

    let entry = RegressionData {
        price: temp.price,
        price_small: temp.price_small,
        begin_timestamp: temp.begin_timestamp,
        timestamp: temp.timestamp,
        timestamp_small: temp.timestamp_small,
        time_value: temp.time_value,
        time_square: temp.time_square,
        sum_price_small,
        sum_time,
        sum_time_value,
        sum_time_square,
        regression_a,
        regression_b,
        regression_value,
        regression_a_abs,
        regression_b_half,
    };
    let mut survivors = survivors;
    survivors.push(entry);
    (survivors, kept)
}

fn check_regression_dataset_length(
    regression_dataset: Vec<RegressionData>,
    regression_length: u64,
) -> (r: Vec<RegressionData>)
    requires
        regression_dataset@.len() > 0,
    ensures
        r@ == spec_trim_against(
            regression_dataset@,
            regression_dataset@.last().timestamp,
            regression_length,
        ),
{
    let mut new_dataset: Vec<RegressionData> = Vec::new();
    let check_timestamp = regression_dataset[regression_dataset.len() - 1].timestamp;
    let mut i: usize = 0;
    while i < regression_dataset.len()
        invariant
            i <= regression_dataset@.len(),
            regression_dataset@.len() > 0,
            check_timestamp == regression_dataset@.last().timestamp,
            new_dataset@ == spec_trim_against(
                regression_dataset@.take(i as int),
                check_timestamp,
                regression_length,
            ),
        decreases regression_dataset@.len() - i,
    {
        proof {
            assert(regression_dataset@.take(i + 1).drop_last() =~= regression_dataset@.take(
                i as int,
            ));
        }
        let entry = regression_dataset[i];
        if entry.timestamp > check_timestamp || check_timestamp - entry.timestamp
            < regression_length {
            new_dataset.push(entry);
        }
        i += 1;
    }
    proof {
        assert(regression_dataset@.take(regression_dataset@.len() as int) =~= regression_dataset@);
    }
    new_dataset
}

/// Advances a non-empty window through the given ticks, in arrival order.
///
/// When the window length is under one hour the window is first trimmed
/// against its own newest timestamp. Each tick is scaled against the
/// window's existing origin, folded into the running sums, aged-out entries
/// are evicted with their contributions subtracted, evicted entries of the
/// tick's own hour bucket are set aside, the fit is recomputed over the
/// survivors plus the new tick, the half-window slope is looked up, and the
/// new entry is appended. The set-aside entries are put back in front of
/// the advanced window at the end.
///
/// Requires what the stream guarantees: the window is non-empty and ordered,
/// the ticks are ordered, and each tick follows its predecessor (the
/// window's newest entry, for the first tick) by at most one window length,
/// so that the window never empties out mid-advance.
pub fn update_regression_dataset(
    regression_dataset: Vec<RegressionData>,
    price_dataset: Vec<PriceData>,
    regression_length: u64,
) -> (r: Vec<RegressionData>)
    requires
        regression_dataset@.len() > 0,
        1 <= regression_length,
        entries_sorted(regression_dataset@),
        ticks_sorted(price_dataset@),
        ticks_chained(
            regression_dataset@.last().timestamp,
            price_dataset@,
            regression_length,
        ),
    ensures
        r@ == spec_update(regression_dataset@, price_dataset@, regression_length),
        r@.len() > 0,
        entries_sorted(r@),
{
    proof {
        crate::laws::lemma_window_monotonic(
            regression_dataset@,
            price_dataset@,
            regression_length,
        );
    }
    let ghost w_in = regression_dataset@;
    let ghost ticks = price_dataset@;
    let ghost trimmed = spec_trimmed(w_in, regression_length);

    let mut window = regression_dataset;
    if regression_length < HOUR_MS {
        window = check_regression_dataset_length(window, regression_length);
    }
    proof {
        if regression_length < HOUR_MS {
            assert(trimmed == spec_trim_against(
                w_in.drop_last(),
                w_in.last().timestamp,
                regression_length,
            ).push(w_in.last()));
        }
        assert(trimmed.len() > 0);
        assert(trimmed.last() == w_in.last());
        assert(window@ == trimmed);
    }

    let last_index = window.len() - 1;
    let origin = window[last_index].begin_timestamp;
    let temp_dataset = make_basic_regression_dataset(price_dataset, Some(origin));

    let mut kept: Vec<RegressionData> = Vec::new();
    let mut i: usize = 0;
    while i < temp_dataset.len()
        invariant
            i <= temp_dataset@.len(),
            temp_dataset@.len() == ticks.len(),
            forall|m: int|
                0 <= m < ticks.len() ==> is_scaled_of(temp_dataset@[m], ticks[m], origin),
            trimmed.len() > 0,
            ticks_chained(trimmed.last().timestamp, ticks, regression_length),
            window@ == spec_run(
                trimmed,
                Seq::empty(),
                ticks.take(i as int),
                origin,
                regression_length,
            ).0,
            kept@ == spec_run(
                trimmed,
                Seq::empty(),
                ticks.take(i as int),
                origin,
                regression_length,
            ).1,
            window@.len() > 0,
            window@.last().timestamp == if i == 0 {
                trimmed.last().timestamp
            } else {
                ticks[i - 1].timestamp
            },
        decreases temp_dataset@.len() - i,
    {
        proof {
            assert(chain_ok(trimmed.last().timestamp, ticks, regression_length, i as int));
            assert(ticks.take(i + 1).drop_last() =~= ticks.take(i as int));
            assert(tick_of(temp_dataset@[i as int]) == ticks[i as int]);
        }
        let pair = advance_one(window, kept, &temp_dataset[i], origin, regression_length);
        window = pair.0;
        kept = pair.1;
        i += 1;
    }
    proof {
        assert(ticks.take(ticks.len() as int) =~= ticks);
    }

    if kept.len() > 0 {
        let ghost kept_fin = kept@;
        let mut result = kept;
        let mut q: usize = 0;
        while q < window.len()
            invariant
                q <= window@.len(),
                result@ == kept_fin + window@.take(q as int),
            decreases window@.len() - q,
        {
            proof {
                assert(kept_fin + window@.take(q + 1) =~= (kept_fin + window@.take(
                    q as int,
                )).push(window@[q as int]));
            }
            result.push(window[q]);
            q += 1;
        }
        proof {
            assert(window@.take(window@.len() as int) =~= window@);
        }
        result
    } else {
        proof {
            assert(kept@ + window@ =~= window@);
        }
        window
    }
}

/// Builds the initial window from a non-empty batch of ticks, ordered by
/// timestamp. The window's origin is the first tick's timestamp, the four
/// sums run over the whole batch, and one shared fit is computed from them:
/// every entry carries the same intercept, slope, fitted value and absolute
/// intercept, the fitted value being taken at the last tick's scaled time.
pub fn calculate_initial_regression(price_dataset: Vec<PriceData>) -> (dataset: Vec<
    RegressionData,
>)
    requires
        price_dataset@.len() >= 1,
        ticks_sorted(price_dataset@),
    ensures
        dataset@ == spec_initial_dataset(price_dataset@),
        dataset@.len() == price_dataset@.len(),
        forall|i: int|
            0 <= i < dataset@.len() ==> dataset@[i] == spec_initial_entry(price_dataset@, i),
        entries_sorted(dataset@),
        forall|i: int, j: int|
            0 <= i < dataset@.len() && 0 <= j < dataset@.len() ==> {
                &&& dataset@[i].regression_a == dataset@[j].regression_a
                &&& dataset@[i].regression_b == dataset@[j].regression_b
                &&& dataset@[i].regression_value == dataset@[j].regression_value
                &&& dataset@[i].regression_a_abs == dataset@[j].regression_a_abs
                &&& dataset@[i].regression_b_half == dataset@[j].regression_b_half
            },
{
    let ghost ticks = price_dataset@;
    let ghost origin_g = price_dataset@[0].timestamp;
    let temp_dataset = make_basic_regression_dataset(price_dataset, None);

    let mut sum_price_small: u64 = ZERO_BITS;
    let mut sum_time: u64 = ZERO_BITS;
    let mut sum_time_value: u64 = ZERO_BITS;
    let mut sum_time_square: u64 = ZERO_BITS;

    let mut i: usize = 0;
    while i < temp_dataset.len()
        invariant
            i <= temp_dataset@.len(),
            temp_dataset@.len() == ticks.len(),
            ticks.len() >= 1,
            origin_g == ticks[0].timestamp,
            forall|k: int| 0 <= k < ticks.len() ==> is_scaled_of(temp_dataset@[k], ticks[k], origin_g),
            sum_price_small == spec_sum_price(ticks.take(i as int)),
            sum_time == spec_sum_time(ticks.take(i as int), origin_g),
            sum_time_value == spec_sum_time_value(ticks.take(i as int), origin_g),
            sum_time_square == spec_sum_time_square(ticks.take(i as int), origin_g),
        decreases temp_dataset@.len() - i,
    {
        proof {
            assert(ticks.take(i + 1).drop_last() =~= ticks.take(i as int));
            assert(ticks.take(i + 1).last() == ticks[i as int]);
        }
        let entry = &temp_dataset[i];
        sum_price_small = f64_add(sum_price_small, entry.price_small);
        sum_time = f64_add(sum_time, entry.timestamp_small);
        sum_time_value = f64_add(sum_time_value, entry.time_value);
        sum_time_square = f64_add(sum_time_square, entry.time_square);
        i += 1;
    }
    proof {
        assert(ticks.take(ticks.len() as int) =~= ticks);
    }

    let n = f64_of_u64(temp_dataset.len() as u64);
    let regression_a = calculate_regression_a(
        sum_price_small,
        sum_time_square,
        sum_time,
        sum_time_value,
        n,
    );
    let regression_b = calculate_regression_b(
        sum_price_small,
        sum_time_square,
        sum_time,
        sum_time_value,
        n,
    );
    let regression_value = calculate_regression_value(
        regression_a,
        regression_b,
        temp_dataset[temp_dataset.len() - 1].timestamp_small,
    );
    let regression_a_abs = calculate_regression_a_abs(
        regression_a,
        regression_b,
        temp_dataset[0].begin_timestamp,
    );
    let regression_b_half = calculate_initial_regression_b_half(regression_b);

    let mut dataset: Vec<RegressionData> = Vec::new();
    let mut j: usize = 0;
    while j < temp_dataset.len()
        invariant
            j <= temp_dataset@.len(),
            dataset@.len() == j,
            temp_dataset@.len() == ticks.len(),
            ticks.len() >= 1,
            origin_g == ticks[0].timestamp,
            forall|k: int| 0 <= k < ticks.len() ==> is_scaled_of(temp_dataset@[k], ticks[k], origin_g),
            sum_price_small == spec_sum_price(ticks),
            sum_time == spec_sum_time(ticks, origin_g),
            sum_time_value == spec_sum_time_value(ticks, origin_g),
            sum_time_square == spec_sum_time_square(ticks, origin_g),
            regression_a == spec_initial_entry(ticks, 0).regression_a,
            regression_b == spec_initial_entry(ticks, 0).regression_b,
            regression_value == spec_initial_entry(ticks, 0).regression_value,
            regression_a_abs == spec_initial_entry(ticks, 0).regression_a_abs,
            regression_b_half == spec_initial_entry(ticks, 0).regression_b_half,
            forall|k: int| 0 <= k < j ==> dataset@[k] == spec_initial_entry(ticks, k),
        decreases temp_dataset@.len() - j,
    {
        let entry = &temp_dataset[j];
        dataset.push(
            RegressionData {
                price: entry.price,
                price_small: entry.price_small,
                begin_timestamp: entry.begin_timestamp,
                timestamp: entry.timestamp,
                timestamp_small: entry.timestamp_small,
                time_value: entry.time_value,
                time_square: entry.time_square,
                sum_price_small,
                sum_time,
                sum_time_value,
                sum_time_square,
                regression_a,
                regression_b,
                regression_value,
                regression_a_abs,
                regression_b_half,
            },
        );
        j += 1;
    }
    proof {
        assert forall|i: int, k: int| 0 <= i <= k < dataset@.len() implies dataset@[i].timestamp
            <= dataset@[k].timestamp by {
            assert(dataset@[i] == spec_initial_entry(ticks, i));
            assert(dataset@[k] == spec_initial_entry(ticks, k));
        }
        assert forall|i: int, k: int|
            0 <= i < dataset@.len() && 0 <= k < dataset@.len() implies {
            &&& dataset@[i].regression_a == dataset@[k].regression_a
            &&& dataset@[i].regression_b == dataset@[k].regression_b
            &&& dataset@[i].regression_value == dataset@[k].regression_value
            &&& dataset@[i].regression_a_abs == dataset@[k].regression_a_abs
            &&& dataset@[i].regression_b_half == dataset@[k].regression_b_half
        } by {
            assert(dataset@[i] == spec_initial_entry(ticks, i));
            assert(dataset@[k] == spec_initial_entry(ticks, k));
        }
        assert(dataset@ =~= spec_initial_dataset(ticks));
    }
    dataset
}

} // verus!
