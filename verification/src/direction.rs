use vstd::prelude::*;
use std::collections::HashMap;
use crate::records::{QuoteRecord, timestamps};

verus! {

broadcast use vstd::std_specs::hash::group_hash_axioms;

/// The map built by walking the bars from the second one on and recording,
/// under each bar's timestamp, `1` when `rose[i]` holds and `0` otherwise.
/// A later bar with the same timestamp overwrites an earlier one.
pub open spec fn direction_map(ts: Seq<u64>, rose: Seq<bool>, n: int) -> Map<u64, i8>
    decreases n,
{
    if n <= 1 {
        Map::empty()
    } else {
        direction_map(ts, rose, n - 1).insert(ts[n - 1], if rose[n - 1] { 1i8 } else { 0i8 })
    }
}

/// Whether the volume of bar `i` exceeds that of bar `i - 1`.
pub open spec fn volume_rose<P>(data: Seq<QuoteRecord<P>>, i: int) -> bool {
    data[i].volume > data[i - 1].volume
}

/// `volume_rose` for every bar (the first entry is never read).
pub open spec fn volume_rises<P>(data: Seq<QuoteRecord<P>>) -> Seq<bool> {
    Seq::new(data.len(), |i: int| i > 0 && volume_rose(data, i))
}

/// Maps the timestamp of every bar but the first to `1` when its volume grew
/// against the previous bar and to `0` otherwise.
pub fn determine_volume_growth<P>(stock_data: &Vec<QuoteRecord<P>>) -> (result: HashMap<u64, i8>)
    ensures
        result@ == direction_map(
            timestamps(stock_data@),
            volume_rises(stock_data@),
            stock_data@.len() as int,
        ),
{
    let mut map: HashMap<u64, i8> = HashMap::new();
    let n = stock_data.len();
    let ghost ts = timestamps(stock_data@);
    let ghost rises = volume_rises(stock_data@);
    let mut index: usize = 1;
    while index < n
        invariant
            1 <= index,
            n == stock_data.len(),
            ts == timestamps(stock_data@),
            rises == volume_rises(stock_data@),
            index <= n || n == 0,
            map@ == direction_map(ts, rises, if n == 0 { 0 } else { index as int }),
        decreases n - index,
    {
        let record = &stock_data[index];
        let flag: i8 = if record.volume > stock_data[index - 1].volume { 1 } else { 0 };
        map.insert(record.timestamp, flag);
        index = index + 1;
    }
    map
}

/// Maps the timestamp of every bar but the first to `1` when its close rose
/// against the previous bar and to `0` otherwise. Whether the close of bar `i`
/// rose is given as `closes_rose[i]` (the first entry is not read), since
/// prices are compared by the caller in their own representation.
pub fn determine_trend<P>(stock_data: &Vec<QuoteRecord<P>>, closes_rose: &Vec<bool>) -> (result:
    HashMap<u64, i8>)
    requires
        closes_rose@.len() == stock_data@.len(),
    ensures
        result@ == direction_map(timestamps(stock_data@), closes_rose@, stock_data@.len() as int),
{
    let mut map: HashMap<u64, i8> = HashMap::new();
    let n = stock_data.len();
    let ghost ts = timestamps(stock_data@);
    let mut index: usize = 1;
    while index < n
        invariant
            1 <= index,
            n == stock_data.len(),
            n == closes_rose.len(),
            ts == timestamps(stock_data@),
            index <= n || n == 0,
            map@ == direction_map(ts, closes_rose@, if n == 0 { 0 } else { index as int }),
        decreases n - index,
    {
        let flag: i8 = if closes_rose[index] { 1 } else { 0 };
        map.insert(stock_data[index].timestamp, flag);
        index = index + 1;
    }
    map
}

/// The map from each bar's timestamp to its volume in thousands (rounded
/// down), built in order so that a later bar with the same timestamp wins.
pub open spec fn volume_thousands_map<P>(data: Seq<QuoteRecord<P>>, n: int) -> Map<u64, u64>
    decreases n,
{
    if n <= 0 {
        Map::empty()
    } else {
        volume_thousands_map(data, n - 1).insert(data[n - 1].timestamp, data[n - 1].volume / 1000)
    }
}

/// Maps every bar's timestamp to its volume divided by one thousand (integer
/// division).
pub fn normalize_volume<P>(data: &Vec<QuoteRecord<P>>) -> (result: HashMap<u64, u64>)
    ensures
        result@ == volume_thousands_map(data@, data@.len() as int),
{
    let mut map: HashMap<u64, u64> = HashMap::new();
    let n = data.len();
    for i in 0..n
        invariant
            n == data.len(),
            map@ == volume_thousands_map(data@, i as int),
    {
        map.insert(data[i].timestamp, data[i].volume / 1000);
    }
    map
}

/// Law: a direction map holds only the flags `0` and `1`, and its keys are
/// exactly the timestamps of the bars after the first.
pub proof fn law_direction_map_shape(ts: Seq<u64>, rose: Seq<bool>, n: int)
    requires
        0 <= n <= ts.len(),
        n <= rose.len(),
    ensures
        forall|k: u64| #[trigger]
            direction_map(ts, rose, n).contains_key(k) ==> direction_map(ts, rose, n)[k] == 0
                || direction_map(ts, rose, n)[k] == 1,
        forall|k: u64|
            #[trigger] direction_map(ts, rose, n).contains_key(k) <==> exists|i: int|
                1 <= i < n && #[trigger] ts[i] == k,
    decreases n,
{
    if n > 1 {
        law_direction_map_shape(ts, rose, n - 1);
        assert forall|k: u64| #[trigger]
            direction_map(ts, rose, n).contains_key(k) implies direction_map(ts, rose, n)[k] == 0
                || direction_map(ts, rose, n)[k] == 1 by {
            if k != ts[n - 1] {
                assert(direction_map(ts, rose, n - 1).contains_key(k));
            }
        }
        assert forall|k: u64|
            #[trigger] direction_map(ts, rose, n).contains_key(k) <==> exists|i: int|
                1 <= i < n && #[trigger] ts[i] == k by {
            if direction_map(ts, rose, n).contains_key(k) && k != ts[n - 1] {
                assert(direction_map(ts, rose, n - 1).contains_key(k));
                let i = choose|i: int| 1 <= i < n - 1 && #[trigger] ts[i] == k;
                assert(1 <= i < n && ts[i] == k);
            }
            if exists|i: int| 1 <= i < n && #[trigger] ts[i] == k {
                let i = choose|i: int| 1 <= i < n && #[trigger] ts[i] == k;
                if i < n - 1 {
                    assert(direction_map(ts, rose, n - 1).contains_key(k));
                }
            }
        }
    }
}

/// Law: the flag stored for a timestamp is the one of the last bar (after the
/// first) that carries that timestamp.
pub proof fn law_direction_map_last_wins(ts: Seq<u64>, rose: Seq<bool>, n: int, i: int)
    requires
        0 <= n <= ts.len(),
        n <= rose.len(),
        1 <= i < n,
        forall|j: int| i < j < n ==> ts[j] != ts[i],
    ensures
        direction_map(ts, rose, n).contains_key(ts[i]),
        direction_map(ts, rose, n)[ts[i]] == if rose[i] { 1i8 } else { 0i8 },
    decreases n,
{
    if n - 1 > i {
        law_direction_map_last_wins(ts, rose, n - 1, i);
    }
}

/// Law: the normalised volume map has a key for every bar, and the value under
/// a timestamp is the volume in thousands of the last bar carrying it.
pub proof fn law_volume_map_shape<P>(data: Seq<QuoteRecord<P>>, n: int, i: int)
    requires
        0 <= i < n <= data.len(),
    ensures
        volume_thousands_map(data, n).contains_key(data[i].timestamp),
        (forall|j: int| i < j < n ==> data[j].timestamp != data[i].timestamp)
            ==> volume_thousands_map(data, n)[data[i].timestamp] == data[i].volume / 1000,
    decreases n,
{
    if n - 1 > i {
        law_volume_map_shape(data, n - 1, i);
    }
}

/// Law: in the volume-growth map, the flag under the timestamp of bar `i`
/// (after the first, and not repeated by a later bar) is `1` exactly when the
/// volume of bar `i` exceeds that of the bar just before it, `0` otherwise.
pub proof fn law_volume_growth_against_previous_bar<P>(data: Seq<QuoteRecord<P>>, i: int)
    requires
        1 <= i < data.len(),
        forall|j: int| i < j < data.len() ==> data[j].timestamp != data[i].timestamp,
    ensures
        direction_map(timestamps(data), volume_rises(data), data.len() as int).contains_key(
            data[i].timestamp,
        ),
        direction_map(timestamps(data), volume_rises(data), data.len() as int)[data[i].timestamp]
            == if data[i].volume > data[i - 1].volume {
            1i8
        } else {
            0i8
        },
{
    let ts = timestamps(data);
    assert forall|j: int| i < j < data.len() implies ts[j] != ts[i] by {
        assert(ts[j] == data[j].timestamp && ts[i] == data[i].timestamp);
    }
    law_direction_map_last_wins(ts, volume_rises(data), data.len() as int, i);
    assert(ts[i] == data[i].timestamp);
}

/// Law: in the trend map, the flag under the timestamp of bar `i` (after the
/// first, and not repeated by a later bar) is `1` exactly when the caller
/// reported that the close of bar `i` rose.
pub proof fn law_trend_flag_is_reported_rise<P>(data: Seq<QuoteRecord<P>>, closes_rose: Seq<bool>, i: int)
    requires
        closes_rose.len() == data.len(),
        1 <= i < data.len(),
        forall|j: int| i < j < data.len() ==> data[j].timestamp != data[i].timestamp,
    ensures
        direction_map(timestamps(data), closes_rose, data.len() as int)[data[i].timestamp] == if closes_rose[i] {
            1i8
        } else {
            0i8
        },
{
    let ts = timestamps(data);
    assert forall|j: int| i < j < data.len() implies ts[j] != ts[i] by {
        assert(ts[j] == data[j].timestamp && ts[i] == data[i].timestamp);
    }
    law_direction_map_last_wins(ts, closes_rose, data.len() as int, i);
}

/// Law: the normalised volume map has no key but the bars' timestamps.
pub proof fn law_volume_map_keys<P>(data: Seq<QuoteRecord<P>>, n: int, k: u64)
    requires
        0 <= n <= data.len(),
        volume_thousands_map(data, n).contains_key(k),
    ensures
        exists|i: int| 0 <= i < n && #[trigger] data[i].timestamp == k,
    decreases n,
{
    if n > 0 && k != data[n - 1].timestamp {
        law_volume_map_keys(data, n - 1, k);
        let i = choose|i: int| 0 <= i < n - 1 && #[trigger] data[i].timestamp == k;
        assert(0 <= i < n && data[i].timestamp == k);
    }
}

} // verus!
