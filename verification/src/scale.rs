//! The normalizer: turns a raw tick into the numerically scaled observation
//! that the regression sums are built from.
//!
//! Prices are divided by 1000 and times are measured from the window's
//! origin timestamp in units of 100000 ms, which keeps the magnitudes that
//! enter the sums near 1. All quantities are IEEE 754 binary64 bit patterns.

use vstd::prelude::*;
use crate::engine::PriceData;
use crate::fbits::{
    div_bits, sub_bits, mul_bits, from_u64_bits, THOUSAND_BITS, HUNDRED_THOUSAND_BITS, f64_div,
    f64_sub, f64_mul, f64_of_u64,
};

verus! {

/// The scaled price: price / 1000.
pub open spec fn spec_price_small(price: u64) -> u64 {
    div_bits(price, THOUSAND_BITS)
}

/// The scaled time: (timestamp - origin) / 100000, computed in doubles.
pub open spec fn spec_time_small(ts: u64, origin: u64) -> u64 {
    div_bits(sub_bits(from_u64_bits(ts), from_u64_bits(origin)), HUNDRED_THOUSAND_BITS)
}

/// The product of the scaled time and the scaled price.
pub open spec fn spec_time_value(price: u64, ts: u64, origin: u64) -> u64 {
    mul_bits(spec_time_small(ts, origin), spec_price_small(price))
}

/// The square of the scaled time.
pub open spec fn spec_time_square(ts: u64, origin: u64) -> u64 {
    mul_bits(spec_time_small(ts, origin), spec_time_small(ts, origin))
}

/// The origin every tick of a batch is scaled against: the supplied one in
/// incremental mode, else the first tick's timestamp.
pub open spec fn spec_origin(ticks: Seq<PriceData>, begin: Option<u64>) -> u64 {
    match begin {
        Option::Some(o) => o,
        Option::None => if ticks.len() > 0 {
            ticks[0].timestamp
        } else {
            0
        },
    }
}

/// One scaled observation, together with the raw tick it came from and the
/// origin it was scaled against.
#[derive(Clone, Copy, Debug)]
pub(crate) struct RegressionDataTemporary {
    pub(crate) price: u64,
    pub(crate) price_small: u64,
    pub(crate) begin_timestamp: u64,
    pub(crate) timestamp: u64,
    pub(crate) timestamp_small: u64,
    pub(crate) time_value: u64,
    pub(crate) time_square: u64,
}

/// `t` is exactly the scaled observation of tick `p` against `origin`.
pub(crate) open spec fn is_scaled_of(t: RegressionDataTemporary, p: PriceData, origin: u64) -> bool {
    &&& t.price == p.price
    &&& t.price_small == spec_price_small(p.price)
    &&& t.begin_timestamp == origin
    &&& t.timestamp == p.timestamp
    &&& t.timestamp_small == spec_time_small(p.timestamp, origin)
    &&& t.time_value == spec_time_value(p.price, p.timestamp, origin)
    &&& t.time_square == spec_time_square(p.timestamp, origin)
}

pub(crate) fn scale_tick(p: &PriceData, origin: u64) -> (t: RegressionDataTemporary)
    ensures
        is_scaled_of(t, *p, origin),
{
    let price_small = f64_div(p.price, THOUSAND_BITS);
    let timestamp_small = f64_div(
        f64_sub(f64_of_u64(p.timestamp), f64_of_u64(origin)),
        HUNDRED_THOUSAND_BITS,
    );
    let time_value = f64_mul(timestamp_small, price_small);
    let time_square = f64_mul(timestamp_small, timestamp_small);
    RegressionDataTemporary {
        price: p.price,
        price_small,
        begin_timestamp: origin,
        timestamp: p.timestamp,
        timestamp_small,
        time_value,
        time_square,
    }
}

pub(crate) fn make_basic_regression_dataset(
    price_dataset: Vec<PriceData>,
    begin_timestamp: Option<u64>,
) -> (r: Vec<RegressionDataTemporary>)
    ensures
        r@.len() == price_dataset@.len(),
        forall|i: int|
            0 <= i < r@.len() ==> is_scaled_of(
                r@[i],
                price_dataset@[i],
                spec_origin(price_dataset@, begin_timestamp),
            ),
{
    let origin: u64 = match begin_timestamp {
        Option::Some(o) => o,
        Option::None => if price_dataset.len() > 0 {
            price_dataset[0].timestamp
        } else {
            0
        },
    };
    let mut result: Vec<RegressionDataTemporary> = Vec::new();
    let mut i: usize = 0;
    while i < price_dataset.len()
        invariant
            i <= price_dataset@.len(),
            result@.len() == i,
            origin == spec_origin(price_dataset@, begin_timestamp),
            forall|k: int|
                0 <= k < i ==> is_scaled_of(result@[k], price_dataset@[k], origin),
        decreases price_dataset@.len() - i,
    {
        let t = scale_tick(&price_dataset[i], origin);
        result.push(t);
        i += 1;
    }
    result
}

} // verus!
