//! Laws of the engine, stated and proved over the specification model that
//! the executable functions are verified against.

use vstd::prelude::*;
use crate::engine::{
    PriceData, RegressionData, entries_sorted, ticks_chained, chain_ok, evict_count,
    spec_retained, spec_hour_bucket, spec_step, spec_run, spec_trim_against, spec_trimmed,
    spec_update, spec_initial_entry, spec_initial_dataset, spec_sum_price, spec_sum_time,
    spec_sum_time_value, spec_sum_time_square, HOUR_MS,
};
use crate::scale::{spec_price_small, spec_time_small, spec_time_value, spec_time_square};
use crate::fbits::{add_bits, ZERO_BITS};

verus! {

/// Left fold of double addition over the window entries' scaled prices.
pub open spec fn window_sum_price(w: Seq<RegressionData>) -> u64
    decreases w.len(),
{
    if w.len() == 0 {
        ZERO_BITS
    } else {
        add_bits(window_sum_price(w.drop_last()), w.last().price_small)
    }
}

/// Left fold of double addition over the window entries' scaled times.
pub open spec fn window_sum_time(w: Seq<RegressionData>) -> u64
    decreases w.len(),
{
    if w.len() == 0 {
        ZERO_BITS
    } else {
        add_bits(window_sum_time(w.drop_last()), w.last().timestamp_small)
    }
}

/// Left fold of double addition over the window entries' time-price
/// products.
pub open spec fn window_sum_time_value(w: Seq<RegressionData>) -> u64
    decreases w.len(),
{
    if w.len() == 0 {
        ZERO_BITS
    } else {
        add_bits(window_sum_time_value(w.drop_last()), w.last().time_value)
    }
}

/// Left fold of double addition over the window entries' squared scaled
/// times.
pub open spec fn window_sum_time_square(w: Seq<RegressionData>) -> u64
    decreases w.len(),
{
    if w.len() == 0 {
        ZERO_BITS
    } else {
        add_bits(window_sum_time_square(w.drop_last()), w.last().time_square)
    }
}

/// Folding a batch's scaled quantities equals folding the scaled fields of
/// any entry sequence that carries them.
proof fn lemma_window_fold_matches(ticks: Seq<PriceData>, d: Seq<RegressionData>, origin: u64)
    requires
        d.len() == ticks.len(),
        forall|i: int|
            0 <= i < d.len() ==> {
                &&& (#[trigger] d[i]).price_small == spec_price_small(ticks[i].price)
                &&& d[i].timestamp_small == spec_time_small(ticks[i].timestamp, origin)
                &&& d[i].time_value == spec_time_value(ticks[i].price, ticks[i].timestamp, origin)
                &&& d[i].time_square == spec_time_square(ticks[i].timestamp, origin)
            },
    ensures
        window_sum_price(d) == spec_sum_price(ticks),
        window_sum_time(d) == spec_sum_time(ticks, origin),
        window_sum_time_value(d) == spec_sum_time_value(ticks, origin),
        window_sum_time_square(d) == spec_sum_time_square(ticks, origin),
    decreases d.len(),
{
    if d.len() == 0 {
    } else {
        let td = ticks.drop_last();
        let dd = d.drop_last();
        assert forall|i: int|
            0 <= i < dd.len() implies {
            &&& (#[trigger] dd[i]).price_small == spec_price_small(td[i].price)
            &&& dd[i].timestamp_small == spec_time_small(td[i].timestamp, origin)
            &&& dd[i].time_value == spec_time_value(td[i].price, td[i].timestamp, origin)
            &&& dd[i].time_square == spec_time_square(td[i].timestamp, origin)
        } by {
            assert(dd[i] == d[i]);
            assert(td[i] == ticks[i]);
        }
        lemma_window_fold_matches(td, dd, origin);
        assert(d.last() == d[d.len() - 1]);
        assert(ticks.last() == ticks[ticks.len() - 1]);
    }
}

/// Sum consistency for batch initialization: every entry of the initial
/// window stores running sums equal to the fold of double addition over the
/// scaled fields of exactly the entries of the returned window.
pub proof fn lemma_initial_sums_consistent(ticks: Seq<PriceData>, i: int)
    requires
        ticks.len() >= 1,
        0 <= i < ticks.len(),
    ensures
        spec_initial_entry(ticks, i).sum_price_small == window_sum_price(
            spec_initial_dataset(ticks),
        ),
        spec_initial_entry(ticks, i).sum_time == window_sum_time(spec_initial_dataset(ticks)),
        spec_initial_entry(ticks, i).sum_time_value == window_sum_time_value(
            spec_initial_dataset(ticks),
        ),
        spec_initial_entry(ticks, i).sum_time_square == window_sum_time_square(
            spec_initial_dataset(ticks),
        ),
{
    let d = spec_initial_dataset(ticks);
    let origin = ticks[0].timestamp;
    assert forall|k: int|
        0 <= k < d.len() implies {
        &&& (#[trigger] d[k]).price_small == spec_price_small(ticks[k].price)
        &&& d[k].timestamp_small == spec_time_small(ticks[k].timestamp, origin)
        &&& d[k].time_value == spec_time_value(ticks[k].price, ticks[k].timestamp, origin)
        &&& d[k].time_square == spec_time_square(ticks[k].timestamp, origin)
    } by {
        assert(d[k] == spec_initial_entry(ticks, k));
    }
    lemma_window_fold_matches(ticks, d, origin);
}

/// Every entry of the retention buffer is no newer than any entry of the
/// window it will be put back in front of.
pub open spec fn kept_before(kept: Seq<RegressionData>, w: Seq<RegressionData>) -> bool {
    forall|a: int, b: int|
        0 <= a < kept.len() && 0 <= b < w.len() ==> #[trigger] kept[a].timestamp
            <= #[trigger] w[b].timestamp
}

/// The eviction count never exceeds the window's length, everything before
/// it is overaged, and the entry at it (if any) is not.
proof fn lemma_evict_count_char(w: Seq<RegressionData>, ts: u64, l: u64)
    ensures
        0 <= evict_count(w, ts, l) <= w.len(),
        forall|j: int| 0 <= j < evict_count(w, ts, l) ==> ts - #[trigger] w[j].timestamp > l,
        evict_count(w, ts, l) < w.len() ==> !(ts - w[evict_count(w, ts, l)].timestamp > l),
    decreases w.len(),
{
    if w.len() == 0 {
    } else if ts - w[0].timestamp > l {
        let w2 = w.drop_first();
        lemma_evict_count_char(w2, ts, l);
        let c = evict_count(w, ts, l);
        assert(c == 1 + evict_count(w2, ts, l));
        assert forall|j: int| 0 <= j < c implies ts - #[trigger] w[j].timestamp > l by {
            if j > 0 {
                assert(w[j] == w2[j - 1]);
            }
        }
        if c < w.len() {
            assert(w[c] == w2[c - 1]);
        }
    } else {
    }
}

/// Eviction correctness: in an ordered window, a tick arriving at `ts` with
/// window length `l` evicts exactly the oldest entries whose age `ts` minus
/// the entry's timestamp exceeds `l`; no entry within the window length is
/// evicted.
pub proof fn lemma_eviction_correct(w: Seq<RegressionData>, ts: u64, l: u64)
    requires
        entries_sorted(w),
    ensures
        0 <= evict_count(w, ts, l) <= w.len(),
        forall|j: int|
            0 <= j < w.len() ==> ((ts - #[trigger] w[j].timestamp > l) <==> j < evict_count(
                w,
                ts,
                l,
            )),
{
    lemma_evict_count_char(w, ts, l);
    let c = evict_count(w, ts, l);
    assert forall|j: int|
        0 <= j < w.len() implies ((ts - #[trigger] w[j].timestamp > l) <==> j < c) by {
        if j >= c {
            assert(w[c].timestamp <= w[j].timestamp);
        }
    }
}

/// Every entry of the retention buffer built from `e` is an entry of `e`.
proof fn lemma_retained_elems(e: Seq<RegressionData>, bucket: u64)
    ensures
        forall|j: int|
            0 <= j < spec_retained(e, bucket).len() ==> exists|i: int|
                0 <= i < e.len() && #[trigger] spec_retained(e, bucket)[j] == e[i],
    decreases e.len(),
{
    if e.len() == 0 {
    } else {
        let ed = e.drop_last();
        lemma_retained_elems(ed, bucket);
        let r = spec_retained(e, bucket);
        let rd = spec_retained(ed, bucket);
        assert forall|j: int|
            0 <= j < r.len() implies exists|i: int| 0 <= i < e.len() && #[trigger] r[j]
                == e[i] by {
            if j < rd.len() {
                assert(r[j] == rd[j]);
                let i = choose|i: int| 0 <= i < ed.len() && rd[j] == ed[i];
                assert(r[j] == e[i]);
            } else {
                assert(r[j] == e.last());
                assert(r[j] == e[e.len() - 1]);
            }
        }
    }
}

/// The retention buffer of an ordered sequence is ordered.
proof fn lemma_retained_sorted(e: Seq<RegressionData>, bucket: u64)
    requires
        entries_sorted(e),
    ensures
        entries_sorted(spec_retained(e, bucket)),
    decreases e.len(),
{
    if e.len() == 0 {
    } else {
        let ed = e.drop_last();
        assert(entries_sorted(ed)) by {
            assert forall|a: int, b: int|
                0 <= a <= b < ed.len() implies ed[a].timestamp <= ed[b].timestamp by {
                assert(ed[a] == e[a]);
                assert(ed[b] == e[b]);
            }
        }
        lemma_retained_sorted(ed, bucket);
        lemma_retained_elems(ed, bucket);
        let r = spec_retained(e, bucket);
        let rd = spec_retained(ed, bucket);
        if spec_hour_bucket(e.last().timestamp) == bucket {
            assert forall|a: int, b: int|
                0 <= a <= b < r.len() implies r[a].timestamp <= r[b].timestamp by {
                if b < rd.len() {
                    assert(r[a] == rd[a] && r[b] == rd[b]);
                } else {
                    assert(r[b] == e.last());
                    if a < rd.len() {
                        assert(r[a] == rd[a]);
                        let i = choose|i: int| 0 <= i < ed.len() && rd[a] == ed[i];
                        assert(ed[i] == e[i]);
                        assert(e[i].timestamp <= e[e.len() - 1].timestamp);
                    }
                }
            }
        }
    }
}

/// An evicted entry whose hour bucket matches is in the retention buffer.
proof fn lemma_retained_contains(e: Seq<RegressionData>, bucket: u64, i: int)
    requires
        0 <= i < e.len(),
        spec_hour_bucket(e[i].timestamp) == bucket,
    ensures
        spec_retained(e, bucket).contains(e[i]),
    decreases e.len(),
{
    let r = spec_retained(e, bucket);
    let rd = spec_retained(e.drop_last(), bucket);
    if i == e.len() - 1 {
        assert(e[i] == e.last());
        assert(r == rd.push(e.last()));
        assert(r[r.len() - 1] == e[i]);
    } else {
        assert(e.drop_last()[i] == e[i]);
        lemma_retained_contains(e.drop_last(), bucket, i);
        let j = choose|j: int| 0 <= j < rd.len() && rd[j] == e[i];
        assert(r[j] == e[i]);
    }
}

/// One advance step keeps the window non-empty and ordered, ends it at the
/// tick's timestamp, and keeps the retention buffer ordered and older than
/// everything in the window.
proof fn lemma_step_preserves(
    w: Seq<RegressionData>,
    kept: Seq<RegressionData>,
    tick: PriceData,
    origin: u64,
    l: u64,
)
    requires
        w.len() > 0,
        entries_sorted(w),
        entries_sorted(kept),
        kept_before(kept, w),
        w.last().timestamp <= tick.timestamp,
        tick.timestamp - w.last().timestamp <= l,
    ensures
        spec_step(w, kept, tick, origin, l).0.len() > 0,
        spec_step(w, kept, tick, origin, l).0.last().timestamp == tick.timestamp,
        entries_sorted(spec_step(w, kept, tick, origin, l).0),
        entries_sorted(spec_step(w, kept, tick, origin, l).1),
        kept_before(spec_step(w, kept, tick, origin, l).1, spec_step(w, kept, tick, origin, l).0),
{
    lemma_evict_count_char(w, tick.timestamp, l);
    let c = evict_count(w, tick.timestamp, l);
    assert(c < w.len()) by {
        if c == w.len() {
            assert(tick.timestamp - w[w.len() - 1].timestamp > l);
        }
    }
    let survivors = w.skip(c);
    let evicted = w.take(c);
    let bucket = spec_hour_bucket(tick.timestamp);
    assert forall|a: int|
        0 <= a < survivors.len() implies #[trigger] survivors[a].timestamp
            <= tick.timestamp by {
        assert(survivors[a] == w[c + a]);
        assert(w[c + a].timestamp <= w[w.len() - 1].timestamp);
    }
    assert forall|a: int, b: int|
        0 <= a <= b < survivors.len() implies survivors[a].timestamp
            <= survivors[b].timestamp by {
        assert(survivors[a] == w[c + a]);
        assert(survivors[b] == w[c + b]);
    }
    let stepped = spec_step(w, kept, tick, origin, l);
    assert(stepped.0.last().timestamp == tick.timestamp);
    assert(entries_sorted(stepped.0)) by {
        assert forall|a: int, b: int|
            0 <= a <= b < stepped.0.len() implies stepped.0[a].timestamp
                <= stepped.0[b].timestamp by {
            if b < survivors.len() {
                assert(stepped.0[a] == survivors[a] && stepped.0[b] == survivors[b]);
            } else {
                assert(stepped.0[b].timestamp == tick.timestamp);
                if a < survivors.len() {
                    assert(stepped.0[a] == survivors[a]);
                }
            }
        }
    }
    assert(entries_sorted(evicted)) by {
        assert forall|a: int, b: int|
            0 <= a <= b < evicted.len() implies evicted[a].timestamp
                <= evicted[b].timestamp by {
            assert(evicted[a] == w[a]);
            assert(evicted[b] == w[b]);
        }
    }
    lemma_retained_sorted(evicted, bucket);
    lemma_retained_elems(evicted, bucket);
    let retained = spec_retained(evicted, bucket);
    assert(entries_sorted(stepped.1)) by {
        assert forall|a: int, b: int|
            0 <= a <= b < stepped.1.len() implies stepped.1[a].timestamp
                <= stepped.1[b].timestamp by {
            if b < kept.len() {
                assert(stepped.1[a] == kept[a] && stepped.1[b] == kept[b]);
            } else if a >= kept.len() {
                assert(stepped.1[a] == retained[a - kept.len()]);
                assert(stepped.1[b] == retained[b - kept.len()]);
            } else {
                assert(stepped.1[a] == kept[a]);
                assert(stepped.1[b] == retained[b - kept.len()]);
                let i = choose|i: int|
                    0 <= i < evicted.len() && retained[b - kept.len()] == evicted[i];
                assert(evicted[i] == w[i]);
                assert(kept[a].timestamp <= w[i].timestamp);
            }
        }
    }
    assert(kept_before(stepped.1, stepped.0)) by {
        assert forall|a: int, b: int|
            0 <= a < stepped.1.len() && 0 <= b < stepped.0.len() implies #[trigger] stepped.1[a].timestamp
                <= #[trigger] stepped.0[b].timestamp by {
            let ats: u64 = if a < kept.len() {
                kept[a].timestamp
            } else {
                retained[a - kept.len()].timestamp
            };
            assert(stepped.1[a].timestamp == ats);
            if a >= kept.len() {
                let i = choose|i: int|
                    0 <= i < evicted.len() && retained[a - kept.len()] == evicted[i];
                assert(evicted[i] == w[i]);
            }
            if b < survivors.len() {
                assert(stepped.0[b] == survivors[b]);
                assert(survivors[b] == w[c + b]);
            } else {
                assert(stepped.0[b].timestamp == tick.timestamp);
                assert(w.last().timestamp <= tick.timestamp);
            }
        }
    }
}

/// Running any chained tick sequence keeps the window non-empty and
/// ordered, ends it at the last tick, and keeps the retention buffer
/// ordered and older than everything in the window.
proof fn lemma_run_preserves(
    w: Seq<RegressionData>,
    kept: Seq<RegressionData>,
    ticks: Seq<PriceData>,
    origin: u64,
    l: u64,
)
    requires
        w.len() > 0,
        entries_sorted(w),
        entries_sorted(kept),
        kept_before(kept, w),
        ticks_chained(w.last().timestamp, ticks, l),
    ensures
        spec_run(w, kept, ticks, origin, l).0.len() > 0,
        spec_run(w, kept, ticks, origin, l).0.last().timestamp == if ticks.len() == 0 {
            w.last().timestamp
        } else {
            ticks.last().timestamp
        },
        entries_sorted(spec_run(w, kept, ticks, origin, l).0),
        entries_sorted(spec_run(w, kept, ticks, origin, l).1),
        kept_before(spec_run(w, kept, ticks, origin, l).1, spec_run(w, kept, ticks, origin, l).0),
    decreases ticks.len(),
{
    if ticks.len() == 0 {
    } else {
        let td = ticks.drop_last();
        assert(ticks_chained(w.last().timestamp, td, l)) by {
            assert forall|i: int|
                0 <= i < td.len() implies #[trigger] chain_ok(w.last().timestamp, td, l, i) by {
                assert(chain_ok(w.last().timestamp, ticks, l, i));
                assert(td[i] == ticks[i]);
                if i > 0 {
                    assert(td[i - 1] == ticks[i - 1]);
                }
            }
        }
        lemma_run_preserves(w, kept, td, origin, l);
        let prev = spec_run(w, kept, td, origin, l);
        assert(chain_ok(w.last().timestamp, ticks, l, ticks.len() - 1));
        if ticks.len() > 1 {
            assert(td.last() == ticks[ticks.len() - 2]);
        }
        lemma_step_preserves(prev.0, prev.1, ticks.last(), origin, l);
    }
}

/// The pre-trimmed window of an ordered window is ordered, and each of its
/// entries is an entry of the window.
proof fn lemma_trim_sorted(w: Seq<RegressionData>, check: u64, l: u64)
    requires
        entries_sorted(w),
    ensures
        entries_sorted(spec_trim_against(w, check, l)),
    decreases w.len(),
{
    if w.len() == 0 {
    } else {
        let wd = w.drop_last();
        assert(entries_sorted(wd)) by {
            assert forall|a: int, b: int|
                0 <= a <= b < wd.len() implies wd[a].timestamp <= wd[b].timestamp by {
                assert(wd[a] == w[a]);
                assert(wd[b] == w[b]);
            }
        }
        lemma_trim_sorted(wd, check, l);
        lemma_trim_elems(wd, check, l);
        let t = spec_trim_against(w, check, l);
        let td = spec_trim_against(wd, check, l);
        if check - w.last().timestamp < l {
            assert forall|a: int, b: int|
                0 <= a <= b < t.len() implies t[a].timestamp <= t[b].timestamp by {
                if b < td.len() {
                    assert(t[a] == td[a] && t[b] == td[b]);
                } else {
                    assert(t[b] == w.last());
                    if a < td.len() {
                        assert(t[a] == td[a]);
                        let i = choose|i: int| 0 <= i < wd.len() && td[a] == wd[i];
                        assert(wd[i] == w[i]);
                        assert(w[i].timestamp <= w[w.len() - 1].timestamp);
                    }
                }
            }
        }
    }
}

/// Every entry of the pre-trimmed window is an entry of the window.
proof fn lemma_trim_elems(w: Seq<RegressionData>, check: u64, l: u64)
    ensures
        forall|j: int|
            0 <= j < spec_trim_against(w, check, l).len() ==> exists|i: int|
                0 <= i < w.len() && #[trigger] spec_trim_against(w, check, l)[j] == w[i],
    decreases w.len(),
{
    if w.len() == 0 {
    } else {
        let wd = w.drop_last();
        lemma_trim_elems(wd, check, l);
        let t = spec_trim_against(w, check, l);
        let td = spec_trim_against(wd, check, l);
        assert forall|j: int|
            0 <= j < t.len() implies exists|i: int| 0 <= i < w.len() && #[trigger] t[j]
                == w[i] by {
            if j < td.len() {
                assert(t[j] == td[j]);
                let i = choose|i: int| 0 <= i < wd.len() && td[j] == wd[i];
                assert(t[j] == w[i]);
            } else {
                assert(t[j] == w.last());
                assert(t[j] == w[w.len() - 1]);
            }
        }
    }
}

/// Window monotonicity: advancing an ordered non-empty window through a
/// chained tick stream returns a window whose entries are non-decreasing by
/// timestamp, the set-aside same-hour entries included.
pub proof fn lemma_window_monotonic(w: Seq<RegressionData>, ticks: Seq<PriceData>, l: u64)
    requires
        w.len() > 0,
        1 <= l,
        entries_sorted(w),
        ticks_chained(w.last().timestamp, ticks, l),
    ensures
        entries_sorted(spec_update(w, ticks, l)),
{
    let trimmed = spec_trimmed(w, l);
    if l < HOUR_MS {
        assert(trimmed == spec_trim_against(w.drop_last(), w.last().timestamp, l).push(w.last()));
        lemma_trim_sorted(w, w.last().timestamp, l);
    }
    assert(trimmed.len() > 0);
    assert(trimmed.last() == w.last());
    let origin = trimmed.last().begin_timestamp;
    let kept0: Seq<RegressionData> = Seq::empty();
    lemma_run_preserves(trimmed, kept0, ticks, origin, l);
    let fin = spec_run(trimmed, kept0, ticks, origin, l);
    let out = spec_update(w, ticks, l);
    assert(out == fin.1 + fin.0);
    assert forall|a: int, b: int|
        0 <= a <= b < out.len() implies out[a].timestamp <= out[b].timestamp by {
        if b < fin.1.len() {
            assert(out[a] == fin.1[a] && out[b] == fin.1[b]);
        } else if a >= fin.1.len() {
            assert(out[a] == fin.0[a - fin.1.len()]);
            assert(out[b] == fin.0[b - fin.1.len()]);
        } else {
            assert(out[a] == fin.1[a]);
            assert(out[b] == fin.0[b - fin.1.len()]);
        }
    }
}

/// Unfolding one advance step off the front of a run.
proof fn lemma_run_head(
    w: Seq<RegressionData>,
    kept: Seq<RegressionData>,
    ticks: Seq<PriceData>,
    origin: u64,
    l: u64,
)
    requires
        ticks.len() > 0,
    ensures
        spec_run(w, kept, ticks, origin, l).0 == spec_run(
            spec_step(w, kept, ticks[0], origin, l).0,
            spec_step(w, kept, ticks[0], origin, l).1,
            ticks.drop_first(),
            origin,
            l,
        ).0,
        spec_run(w, kept, ticks, origin, l).1 == spec_run(
            spec_step(w, kept, ticks[0], origin, l).0,
            spec_step(w, kept, ticks[0], origin, l).1,
            ticks.drop_first(),
            origin,
            l,
        ).1,
    decreases ticks.len(),
{
    let stepped = spec_step(w, kept, ticks[0], origin, l);
    let tdf = ticks.drop_first();
    if ticks.len() == 1 {
        assert(ticks.drop_last() =~= Seq::<PriceData>::empty());
        assert(tdf =~= Seq::<PriceData>::empty());
        assert(ticks.last() == ticks[0]);
        assert(spec_run(w, kept, ticks.drop_last(), origin, l).0 == w);
        assert(spec_run(w, kept, ticks.drop_last(), origin, l).1 == kept);
        assert(spec_run(stepped.0, stepped.1, tdf, origin, l).0 == stepped.0);
        assert(spec_run(stepped.0, stepped.1, tdf, origin, l).1 == stepped.1);
    } else {
        let td = ticks.drop_last();
        lemma_run_head(w, kept, td, origin, l);
        assert(td[0] == ticks[0]);
        assert(td.drop_first() =~= tdf.drop_last());
        assert(tdf.last() == ticks.last());
        assert(tdf.len() > 0);
        let prev1 = spec_run(w, kept, td, origin, l);
        let prev2 = spec_run(stepped.0, stepped.1, tdf.drop_last(), origin, l);
        assert(prev1.0 == prev2.0);
        assert(prev1.1 == prev2.1);
        assert(spec_run(w, kept, ticks, origin, l) == spec_step(
            prev1.0,
            prev1.1,
            ticks.last(),
            origin,
            l,
        ));
        assert(spec_run(stepped.0, stepped.1, tdf, origin, l) == spec_step(
            prev2.0,
            prev2.1,
            tdf.last(),
            origin,
            l,
        ));
    }
}

/// Whatever is in the retention buffer stays there through a run.
proof fn lemma_run_kept_extends(
    w: Seq<RegressionData>,
    kept: Seq<RegressionData>,
    ticks: Seq<PriceData>,
    origin: u64,
    l: u64,
    x: RegressionData,
)
    requires
        kept.contains(x),
    ensures
        spec_run(w, kept, ticks, origin, l).1.contains(x),
    decreases ticks.len(),
{
    if ticks.len() == 0 {
    } else {
        let td = ticks.drop_last();
        lemma_run_kept_extends(w, kept, td, origin, l, x);
        let prev = spec_run(w, kept, td, origin, l);
        let i = choose|i: int| 0 <= i < prev.1.len() && prev.1[i] == x;
        let fin = spec_run(w, kept, ticks, origin, l);
        assert(fin.1[i] == x);
    }
}

/// Hour retention: an entry the first tick evicts whose hour bucket equals
/// that tick's hour bucket is not lost: it is in the sequence the advance
/// returns.
pub proof fn lemma_hour_retention(
    w: Seq<RegressionData>,
    ticks: Seq<PriceData>,
    l: u64,
    j: int,
)
    requires
        w.len() > 0,
        1 <= l,
        ticks.len() > 0,
        0 <= j < evict_count(spec_trimmed(w, l), ticks[0].timestamp, l),
        spec_hour_bucket(spec_trimmed(w, l)[j].timestamp) == spec_hour_bucket(
            ticks[0].timestamp,
        ),
    ensures
        spec_update(w, ticks, l).contains(spec_trimmed(w, l)[j]),
{
    let trimmed = spec_trimmed(w, l);
    if l < HOUR_MS {
        assert(trimmed == spec_trim_against(w.drop_last(), w.last().timestamp, l).push(w.last()));
    }
    assert(trimmed.len() > 0);
    let origin = trimmed.last().begin_timestamp;
    let bucket = spec_hour_bucket(ticks[0].timestamp);
    let c = evict_count(trimmed, ticks[0].timestamp, l);
    lemma_evict_count_char(trimmed, ticks[0].timestamp, l);
    let evicted = trimmed.take(c);
    assert(evicted[j] == trimmed[j]);
    lemma_retained_contains(evicted, bucket, j);
    let kept0: Seq<RegressionData> = Seq::empty();
    let stepped = spec_step(trimmed, kept0, ticks[0], origin, l);
    assert(stepped.1 =~= spec_retained(evicted, bucket));
    lemma_run_head(trimmed, kept0, ticks, origin, l);
    lemma_run_kept_extends(stepped.0, stepped.1, ticks.drop_first(), origin, l, trimmed[j]);
    let fin = spec_run(trimmed, kept0, ticks, origin, l);
    let i = choose|i: int| 0 <= i < fin.1.len() && fin.1[i] == trimmed[j];
    assert(spec_update(w, ticks, l)[i] == trimmed[j]);
}

/// Determinism: two advances of the same window through the same tick
/// sequence with the same window length return the same sequence.
pub proof fn lemma_replay_deterministic(
    w: Seq<RegressionData>,
    ticks: Seq<PriceData>,
    l: u64,
    r1: Seq<RegressionData>,
    r2: Seq<RegressionData>,
)
    requires
        r1 == spec_update(w, ticks, l),
        r2 == spec_update(w, ticks, l),
    ensures
        r1 == r2,
{
}

} // verus!
