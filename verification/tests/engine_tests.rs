//! End-to-end tests of the sliding-window regression engine, checked
//! against a plain double-precision re-computation of every scenario.

use tick_regression::{calculate_initial_regression, update_regression_dataset, PriceData,
    RegressionData};

fn pd(price: f64, timestamp: u64) -> PriceData {
    PriceData { price: price.to_bits(), timestamp }
}

fn mirror_scale(price: f64, ts: u64, origin: u64) -> (f64, f64, f64, f64) {
    let price_small = price / 1000.0;
    let timestamp_small = (ts as f64 - origin as f64) / 100000.0;
    (price_small, timestamp_small, timestamp_small * price_small, timestamp_small * timestamp_small)
}

fn mirror_a(sp: f64, stt: f64, st: f64, stv: f64, n: f64) -> f64 {
    (((sp * stt) - (st * stv)) / ((n * stt) - (st * st))) * 1000.0
}

fn mirror_b(sp: f64, stt: f64, st: f64, stv: f64, n: f64) -> f64 {
    (((n * stv) - (st * sp)) / ((n * stt) - (st * st))) / 100.0
}

/// The batch initialization recomputed in plain doubles.
fn mirror_init(ticks: &[(f64, u64)]) -> Vec<RegressionData> {
    let origin = ticks[0].1;
    let mut sp = 0.0f64;
    let mut st = 0.0f64;
    let mut stv = 0.0f64;
    let mut stt = 0.0f64;
    for &(p, ts) in ticks {
        let (ps, t, tv, tq) = mirror_scale(p, ts, origin);
        sp += ps;
        st += t;
        stv += tv;
        stt += tq;
    }
    let n = ticks.len() as f64;
    let a = mirror_a(sp, stt, st, stv, n);
    let b = mirror_b(sp, stt, st, stv, n);
    let (_, t_last, _, _) = mirror_scale(ticks[ticks.len() - 1].0, ticks[ticks.len() - 1].1, origin);
    let v = a + ((b * t_last) * 100000.0);
    let aa = a - ((origin as f64 / 100000.0) * b);
    let mut out: Vec<RegressionData> = Vec::new();
    for &(p, ts) in ticks {
        let (ps, t, tv, tq) = mirror_scale(p, ts, origin);
        out.push(RegressionData {
            price: p.to_bits(),
            price_small: ps.to_bits(),
            begin_timestamp: origin,
            timestamp: ts,
            timestamp_small: t.to_bits(),
            time_value: tv.to_bits(),
            time_square: tq.to_bits(),
            sum_price_small: sp.to_bits(),
            sum_time: st.to_bits(),
            sum_time_value: stv.to_bits(),
            sum_time_square: stt.to_bits(),
            regression_a: a.to_bits(),
            regression_b: b.to_bits(),
            regression_value: v.to_bits(),
            regression_a_abs: aa.to_bits(),
            regression_b_half: b.to_bits(),
        });
    }
    out
}

/// The incremental advance recomputed in plain doubles.
fn mirror_update(window: Vec<RegressionData>, ticks: &[(f64, u64)], l: u64) -> Vec<RegressionData> {
    let mut window = window;
    if l < 3600000 {
        let check = window[window.len() - 1].timestamp;
        window.retain(|e| e.timestamp > check || check - e.timestamp < l);
    }
    let origin = window[window.len() - 1].begin_timestamp;
    let mut kept: Vec<RegressionData> = Vec::new();
    for &(p, ts) in ticks {
        let (ps, t, tv, tq) = mirror_scale(p, ts, origin);
        let last = &window[window.len() - 1];
        let mut st = f64::from_bits(last.sum_time) + t;
        let mut sp = f64::from_bits(last.sum_price_small) + ps;
        let mut stv = f64::from_bits(last.sum_time_value) + tv;
        let mut stt = f64::from_bits(last.sum_time_square) + tq;
        let mut cut: usize = 0;
        while cut < window.len() {
            let e = &window[cut];
            if e.timestamp < ts && ts - e.timestamp > l {
                st -= f64::from_bits(e.timestamp_small);
                sp -= f64::from_bits(e.price_small);
                stv -= f64::from_bits(e.time_value);
                stt -= f64::from_bits(e.time_square);
                cut += 1;
            } else {
                break;
            }
        }
        let bucket = ts - ts % 3600000;
        for e in &window[..cut] {
            if e.timestamp - e.timestamp % 3600000 == bucket {
                kept.push(*e);
            }
        }
        window.drain(..cut);
        let n = (window.len() as f64) + 1.0;
        let a = mirror_a(sp, stt, st, stv, n);
        let b = mirror_b(sp, stt, st, stv, n);
        let v = a + ((b * t) * 100000.0);
        let aa = a - ((origin as f64 / 100000.0) * b);
        let half = (0.5 * (l as f64)) as u64;
        let mut k: usize = 0;
        if half <= ts {
            let check = ts - half;
            while k < window.len() - 1 && window[k].timestamp <= check {
                k += 1;
            }
        }
        let b_half = window[k].regression_b;
        window.push(RegressionData {
            price: p.to_bits(),
            price_small: ps.to_bits(),
            begin_timestamp: origin,
            timestamp: ts,
            timestamp_small: t.to_bits(),
            time_value: tv.to_bits(),
            time_square: tq.to_bits(),
            sum_price_small: sp.to_bits(),
            sum_time: st.to_bits(),
            sum_time_value: stv.to_bits(),
            sum_time_square: stt.to_bits(),
            regression_a: a.to_bits(),
            regression_b: b.to_bits(),
            regression_value: v.to_bits(),
            regression_a_abs: aa.to_bits(),
            regression_b_half: b_half,
        });
    }
    if !kept.is_empty() {
        kept.extend(window);
        kept
    } else {
        window
    }
}

fn six_tick_batch() -> Vec<PriceData> {
    vec![
        pd(100.0, 0),
        pd(200.0, 10000),
        pd(300.0, 20000),
        pd(400.0, 30000),
        pd(500.0, 40000),
        pd(600.0, 50000),
    ]
}

fn six_tick_pairs() -> Vec<(f64, u64)> {
    vec![
        (100.0, 0),
        (200.0, 10000),
        (300.0, 20000),
        (400.0, 30000),
        (500.0, 40000),
        (600.0, 50000),
    ]
}

#[test]
fn initial_batch_shares_one_fit() {
    let out = calculate_initial_regression(six_tick_batch());
    assert_eq!(out.len(), 6);
    for e in &out {
        assert_eq!(e.regression_a, out[0].regression_a);
        assert_eq!(e.regression_b, out[0].regression_b);
        assert_eq!(e.regression_value, out[0].regression_value);
        assert_eq!(e.regression_a_abs, out[0].regression_a_abs);
        assert_eq!(e.regression_b_half, out[0].regression_b_half);
        assert_eq!(e.begin_timestamp, 0);
    }
    let a = f64::from_bits(out[0].regression_a);
    let b = f64::from_bits(out[0].regression_b);
    let v = f64::from_bits(out[0].regression_value);
    let aa = f64::from_bits(out[0].regression_a_abs);
    assert!((a - 100.0).abs() < 1e-9);
    assert!((b - 0.01).abs() < 1e-12);
    assert!((v - 600.0).abs() < 1e-9);
    assert!((aa - 100.0).abs() < 1e-9);
    assert_eq!(out, mirror_init(&six_tick_pairs()));
}

#[test]
fn advance_retains_all_with_long_window() {
    let out = calculate_initial_regression(six_tick_batch());
    let advanced = update_regression_dataset(out.clone(), vec![pd(700.0, 60000)], 10_000_000);
    assert_eq!(advanced.len(), 7);
    assert_eq!(&advanced[..6], &out[..]);
    assert_eq!(advanced[6].timestamp, 60000);
    assert_eq!(
        advanced,
        mirror_update(mirror_init(&six_tick_pairs()), &[(700.0, 60000)], 10_000_000)
    );
    // The half-window check timestamp falls before the window: the first
    // entry's slope is picked, which is the shared batch slope.
    assert_eq!(advanced[6].regression_b_half, out[0].regression_b);
    // Sum consistency: the newest entry's running sums match a direct sum
    // over the returned entries' scaled fields.
    let mut st = 0.0f64;
    let mut sp = 0.0f64;
    let mut stv = 0.0f64;
    let mut stt = 0.0f64;
    for e in &advanced {
        st += f64::from_bits(e.timestamp_small);
        sp += f64::from_bits(e.price_small);
        stv += f64::from_bits(e.time_value);
        stt += f64::from_bits(e.time_square);
    }
    let newest = &advanced[6];
    assert!((st - f64::from_bits(newest.sum_time)).abs() < 1e-9);
    assert!((sp - f64::from_bits(newest.sum_price_small)).abs() < 1e-9);
    assert!((stv - f64::from_bits(newest.sum_time_value)).abs() < 1e-9);
    assert!((stt - f64::from_bits(newest.sum_time_square)).abs() < 1e-9);
}

#[test]
fn sum_consistency_after_initialize() {
    let out = calculate_initial_regression(six_tick_batch());
    let mut st = 0.0f64;
    let mut sp = 0.0f64;
    for e in &out {
        st += f64::from_bits(e.timestamp_small);
        sp += f64::from_bits(e.price_small);
    }
    assert!((st - f64::from_bits(out[5].sum_time)).abs() < 1e-12);
    assert!((sp - f64::from_bits(out[5].sum_price_small)).abs() < 1e-12);
}

#[test]
fn eviction_age_boundary_is_strict() {
    // The second entry's age equals the window length exactly: it stays.
    // The first entry is overaged and of another hour: it is discarded.
    let out = calculate_initial_regression(vec![pd(100.0, 0), pd(200.0, 1_900_000)]);
    let advanced = update_regression_dataset(out.clone(), vec![pd(300.0, 3_700_000)], 1_800_000);
    assert_eq!(advanced.len(), 2);
    assert_eq!(advanced[0].timestamp, 1_900_000);
    assert_eq!(advanced[1].timestamp, 3_700_000);
    assert_eq!(
        advanced,
        mirror_update(
            mirror_init(&[(100.0, 0), (200.0, 1_900_000)]),
            &[(300.0, 3_700_000)],
            1_800_000
        )
    );
}

#[test]
fn eviction_drops_overaged_entries() {
    let batch = vec![pd(100.0, 0), pd(150.0, 1_000_000), pd(200.0, 2_000_000)];
    let out = calculate_initial_regression(batch);
    let advanced = update_regression_dataset(out, vec![pd(300.0, 3_700_000)], 1_800_000);
    // Entries at 0 and 1_000_000 are overaged and belong to the zeroth
    // hour, while the tick is in the next one: both are gone for good.
    assert_eq!(advanced.len(), 2);
    assert_eq!(advanced[0].timestamp, 2_000_000);
    assert_eq!(advanced[1].timestamp, 3_700_000);
    let pairs = [(100.0, 0), (150.0, 1_000_000), (200.0, 2_000_000)];
    assert_eq!(
        advanced,
        mirror_update(mirror_init(&pairs), &[(300.0, 3_700_000)], 1_800_000)
    );
}

#[test]
fn hour_retention_keeps_same_hour_entry() {
    let out = calculate_initial_regression(vec![pd(100.0, 3_500_000), pd(200.0, 3_580_000)]);
    let advanced = update_regression_dataset(out.clone(), vec![pd(300.0, 3_595_000)], 90_000);
    // The entry at 3_500_000 is overaged for the tick at 3_595_000, but it
    // shares the tick's hour bucket: it is set aside and put back in front.
    assert_eq!(advanced.len(), 3);
    assert_eq!(advanced[0], out[0]);
    assert_eq!(advanced[1].timestamp, 3_580_000);
    assert_eq!(advanced[2].timestamp, 3_595_000);
    assert!(advanced[0].timestamp <= advanced[1].timestamp);
    assert!(advanced[1].timestamp <= advanced[2].timestamp);
    let pairs = [(100.0, 3_500_000), (200.0, 3_580_000)];
    assert_eq!(
        advanced,
        mirror_update(mirror_init(&pairs), &[(300.0, 3_595_000)], 90_000)
    );
    // The retained entry no longer backs the running sums of the newest
    // entry: the sums cover the surviving window and the new tick only.
    let mut sp = 0.0f64;
    sp += f64::from_bits(advanced[1].price_small);
    sp += f64::from_bits(advanced[2].price_small);
    assert!((sp - f64::from_bits(advanced[2].sum_price_small)).abs() < 1e-12);
}

#[test]
fn hour_retention_discards_other_hour_entry() {
    let out = calculate_initial_regression(vec![pd(100.0, 3_500_000), pd(200.0, 3_580_000)]);
    let advanced = update_regression_dataset(out, vec![pd(300.0, 3_660_000)], 90_000);
    // The overaged entry at 3_500_000 is in the zeroth hour, the tick in
    // the next one: the entry is discarded.
    assert_eq!(advanced.len(), 2);
    assert_eq!(advanced[0].timestamp, 3_580_000);
    assert_eq!(advanced[1].timestamp, 3_660_000);
    let pairs = [(100.0, 3_500_000), (200.0, 3_580_000)];
    assert_eq!(
        advanced,
        mirror_update(mirror_init(&pairs), &[(300.0, 3_660_000)], 90_000)
    );
}

#[test]
fn pretrim_applies_under_one_hour_window() {
    let batch = vec![pd(100.0, 0), pd(200.0, 100_000), pd(300.0, 200_000)];
    let out = calculate_initial_regression(batch);
    let advanced = update_regression_dataset(out, vec![pd(400.0, 250_000)], 150_000);
    // The entry at 0 is dropped by the pre-trim (age 200_000 >= 150_000
    // against the newest entry), with no hour retention on that path.
    assert_eq!(advanced.len(), 3);
    assert_eq!(advanced[0].timestamp, 100_000);
    assert_eq!(advanced[1].timestamp, 200_000);
    assert_eq!(advanced[2].timestamp, 250_000);
    let pairs = [(100.0, 0), (200.0, 100_000), (300.0, 200_000)];
    assert_eq!(
        advanced,
        mirror_update(mirror_init(&pairs), &[(400.0, 250_000)], 150_000)
    );
}

#[test]
fn degenerate_repeated_timestamp_gives_non_finite_slope() {
    let out = calculate_initial_regression(vec![pd(100.0, 5000), pd(200.0, 5000)]);
    assert_eq!(out.len(), 2);
    assert!(!f64::from_bits(out[0].regression_b).is_finite());
    let advanced = update_regression_dataset(out.clone(), vec![pd(300.0, 5000)], 1000);
    assert_eq!(advanced.len(), 3);
    assert!(!f64::from_bits(advanced[2].regression_b).is_finite());
    // The half-window lookup still finds a candidate: the first survivor.
    assert_eq!(advanced[2].regression_b_half, out[0].regression_b);
}

#[test]
fn replay_is_deterministic() {
    let pairs = [(100.0, 3_500_000), (200.0, 3_580_000)];
    let run = || {
        let out = calculate_initial_regression(vec![
            pd(pairs[0].0, pairs[0].1),
            pd(pairs[1].0, pairs[1].1),
        ]);
        update_regression_dataset(out, vec![pd(300.0, 3_595_000)], 90_000)
    };
    assert_eq!(run(), run());
}

#[test]
fn half_window_slope_picks_midpoint_entry() {
    let out = calculate_initial_regression(vec![pd(100.0, 0), pd(200.0, 10_000)]);
    let w3 = update_regression_dataset(out, vec![pd(320.0, 20_000)], 1_000_000);
    let w4 = update_regression_dataset(w3, vec![pd(410.0, 30_000)], 1_000_000);
    let w5 = update_regression_dataset(w4, vec![pd(505.0, 40_000)], 1_000_000);
    // Each advance recorded its own slope; the entries' slopes now differ.
    assert_ne!(w5[2].regression_b, w5[3].regression_b);
    let w6 = update_regression_dataset(w5.clone(), vec![pd(600.0, 50_000)], 60_000);
    assert_eq!(w6.len(), 6);
    // check timestamp = 50_000 - 30_000: the first entry past 20_000 is
    // the one appended at 30_000, whose slope becomes the half-window slope.
    assert_eq!(w6[5].regression_b_half, w5[3].regression_b);
    // The same five advances recomputed in plain doubles agree bit for bit.
    let mut m = mirror_init(&[(100.0, 0), (200.0, 10_000)]);
    m = mirror_update(m, &[(320.0, 20_000)], 1_000_000);
    m = mirror_update(m, &[(410.0, 30_000)], 1_000_000);
    m = mirror_update(m, &[(505.0, 40_000)], 1_000_000);
    m = mirror_update(m, &[(600.0, 50_000)], 60_000);
    assert_eq!(w6, m);
}

#[test]
fn advance_with_no_ticks_returns_pretrimmed_window() {
    let out = calculate_initial_regression(six_tick_batch());
    // A window length of an hour or more leaves the window untouched.
    let same = update_regression_dataset(out.clone(), Vec::new(), 10_000_000);
    assert_eq!(same, out);
    // A shorter one pre-trims against the newest entry: ages of 30_000 ms
    // and above are dropped.
    let trimmed = update_regression_dataset(out.clone(), Vec::new(), 30_000);
    assert_eq!(trimmed.len(), 3);
    assert_eq!(trimmed[0].timestamp, 30000);
    assert_eq!(trimmed[2].timestamp, 50000);
    assert_eq!(&trimmed[..], &out[3..]);
}

#[test]
fn advance_takes_several_ticks_in_one_call() {
    let out = calculate_initial_regression(six_tick_batch());
    let advanced = update_regression_dataset(
        out,
        vec![pd(700.0, 60000), pd(800.0, 70000)],
        10_000_000,
    );
    assert_eq!(advanced.len(), 8);
    assert_eq!(advanced[6].timestamp, 60000);
    assert_eq!(advanced[7].timestamp, 70000);
    assert_eq!(
        advanced,
        mirror_update(
            mirror_init(&six_tick_pairs()),
            &[(700.0, 60000), (800.0, 70000)],
            10_000_000
        )
    );
}
