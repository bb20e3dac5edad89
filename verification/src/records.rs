use vstd::prelude::*;
use std::collections::HashMap;

verus! {

broadcast use vstd::std_specs::hash::group_hash_axioms;

/// One daily bar of market data as far as the indicator logic reads it:
/// its timestamp (seconds since the Unix epoch), its traded volume, and its
/// closing price, whose representation `P` is left to the caller.
pub struct QuoteRecord<P> {
    pub timestamp: u64,
    pub volume: u64,
    pub close: P,
}

/// A price direction (`1` up, `0` otherwise) together with an optional volume.
pub struct DirectVolume {
    pub direction: i8,
    pub volume: Option<u64>,
}

/// Discretised indicator columns, one entry per date.
pub struct IndicatorCombination {
    pub dates: Vec<i64>,
    pub sma: Vec<i8>,
    pub ema: Vec<i8>,
    pub volume: Vec<i8>,
    pub direction: Vec<i8>,
    pub macd: Vec<i8>,
}

/// The timestamps of a sequence of bars, in order.
pub open spec fn timestamps<P>(data: Seq<QuoteRecord<P>>) -> Seq<u64> {
    data.map_values(|r: QuoteRecord<P>| r.timestamp)
}

/// The value a timestamp-keyed map holds for `k`.
pub(crate) fn map_value<V: Copy>(m: &HashMap<u64, V>, k: u64) -> (v: V)
    requires
        m@.contains_key(k),
    ensures
        v == m@[k],
{
    let found = m.get(&k);
    *found.unwrap()
}

} // verus!
