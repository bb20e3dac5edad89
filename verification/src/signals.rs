use vstd::prelude::*;
use std::collections::HashMap;
use crate::records::{QuoteRecord, map_value};
use crate::direction::{normalize_volume, volume_thousands_map, law_volume_map_shape};

verus! {

broadcast use vstd::std_specs::hash::group_hash_axioms;

/// Indicator columns joined on dates: for the `i`-th date, the simple and
/// exponential moving averages, the volume in thousands, the direction flag
/// and the MACD value. The indicator values have the caller's representation
/// `V`.
pub struct SignalsCombination<V> {
    pub dates: Vec<u64>,
    pub sma: Vec<V>,
    pub ema: Vec<V>,
    pub volume: Vec<u64>,
    pub direction: Vec<i8>,
    pub macd: Vec<V>,
}

/// A training part and a testing part of a `SignalsCombination`.
pub struct SplitedComposition<V> {
    pub training: SignalsCombination<V>,
    pub testing: SignalsCombination<V>,
}

/// The dates whose direction flag is `1` (positive) and the others (negative).
pub struct BinarySplit<V> {
    pub positive: SignalsCombination<V>,
    pub negative: SignalsCombination<V>,
}

impl<V> SignalsCombination<V> {
    /// All columns have one entry per date.
    pub open spec fn aligned(&self) -> bool {
        &&& self.sma@.len() == self.dates@.len()
        &&& self.ema@.len() == self.dates@.len()
        &&& self.volume@.len() == self.dates@.len()
        &&& self.direction@.len() == self.dates@.len()
        &&& self.macd@.len() == self.dates@.len()
    }

    /// Every column but `direction` has at least as many entries as `direction`.
    pub open spec fn covers_direction(&self) -> bool {
        &&& self.dates@.len() >= self.direction@.len()
        &&& self.sma@.len() >= self.direction@.len()
        &&& self.ema@.len() >= self.direction@.len()
        &&& self.volume@.len() >= self.direction@.len()
        &&& self.macd@.len() >= self.direction@.len()
    }

    /// No column is shorter than `n`.
    pub open spec fn all_at_least(&self, n: int) -> bool {
        &&& self.dates@.len() >= n
        &&& self.sma@.len() >= n
        &&& self.ema@.len() >= n
        &&& self.volume@.len() >= n
        &&& self.direction@.len() >= n
        &&& self.macd@.len() >= n
    }
}

/// Whether all four indicator maps have an entry for `t`.
pub open spec fn has_all_signals<V>(
    t: u64,
    macd: Map<u64, V>,
    ema: Map<u64, V>,
    sma: Map<u64, V>,
    direct_close: Map<u64, i8>,
) -> bool {
    &&& ema.contains_key(t)
    &&& sma.contains_key(t)
    &&& macd.contains_key(t)
    &&& direct_close.contains_key(t)
}

/// The timestamps of the bars, in order, for which every indicator map has an
/// entry (a timestamp is listed once per bar that carries it).
pub open spec fn joined_dates<P, V>(
    data: Seq<QuoteRecord<P>>,
    macd: Map<u64, V>,
    ema: Map<u64, V>,
    sma: Map<u64, V>,
    direct_close: Map<u64, i8>,
) -> Seq<u64>
    decreases data.len(),
{
    if data.len() == 0 {
        Seq::empty()
    } else {
        let t = data.last().timestamp;
        joined_dates(data.drop_last(), macd, ema, sma, direct_close) + if has_all_signals(
            t,
            macd,
            ema,
            sma,
            direct_close,
        ) {
            seq![t]
        } else {
            Seq::empty()
        }
    }
}

/// Joins the indicator maps on the bars' timestamps: for every bar, in order,
/// whose timestamp has an entry in all four maps, appends the timestamp and
/// the four entries, together with the bar's volume in thousands as
/// `normalize_volume` gives it.
pub fn combine_values<P, V: Copy>(
    macd: HashMap<u64, V>,
    ema: HashMap<u64, V>,
    sma: HashMap<u64, V>,
    direct_close: HashMap<u64, i8>,
    data: &Vec<QuoteRecord<P>>,
) -> (result: SignalsCombination<V>)
    ensures
        result.dates@ == joined_dates(data@, macd@, ema@, sma@, direct_close@),
        result.sma@ == result.dates@.map_values(|t: u64| sma@[t]),
        result.ema@ == result.dates@.map_values(|t: u64| ema@[t]),
        result.macd@ == result.dates@.map_values(|t: u64| macd@[t]),
        result.direction@ == result.dates@.map_values(|t: u64| direct_close@[t]),
        result.volume@ == result.dates@.map_values(
            |t: u64| volume_thousands_map(data@, data@.len() as int)[t],
        ),
        result.aligned(),
{
    let mut dates_vec: Vec<u64> = Vec::new();
    let mut sma_vec: Vec<V> = Vec::new();
    let mut ema_vec: Vec<V> = Vec::new();
    let mut volume_vec: Vec<u64> = Vec::new();
    let mut direction_vec: Vec<i8> = Vec::new();
    let mut macd_vec: Vec<V> = Vec::new();
    let volume_map = normalize_volume(data);
    let n = data.len();
    let ghost vol = volume_thousands_map(data@, n as int);
    for i in 0..n
        invariant
            n == data@.len(),
            volume_map@ == vol,
            vol == volume_thousands_map(data@, data@.len() as int),
            dates_vec@ == joined_dates(data@.take(i as int), macd@, ema@, sma@, direct_close@),
            sma_vec@ == dates_vec@.map_values(|t: u64| sma@[t]),
            ema_vec@ == dates_vec@.map_values(|t: u64| ema@[t]),
            macd_vec@ == dates_vec@.map_values(|t: u64| macd@[t]),
            direction_vec@ == dates_vec@.map_values(|t: u64| direct_close@[t]),
            volume_vec@ == dates_vec@.map_values(|t: u64| vol[t]),
    {
        proof {
            assert(data@.take(i + 1).drop_last() =~= data@.take(i as int));
            assert(data@.take(i + 1).last() == data@[i as int]);
        }
        let t = data[i].timestamp;
        if ema.contains_key(&t) && sma.contains_key(&t) && macd.contains_key(&t)
            && direct_close.contains_key(&t) {
            proof {
                law_volume_map_shape(data@, n as int, i as int);
            }
            dates_vec.push(t);
            sma_vec.push(map_value(&sma, t));
            ema_vec.push(map_value(&ema, t));
            macd_vec.push(map_value(&macd, t));
            volume_vec.push(map_value(&volume_map, t));
            direction_vec.push(map_value(&direct_close, t));
        }
        proof {
            assert(sma_vec@ =~= dates_vec@.map_values(|t: u64| sma@[t]));
            assert(ema_vec@ =~= dates_vec@.map_values(|t: u64| ema@[t]));
            assert(macd_vec@ =~= dates_vec@.map_values(|t: u64| macd@[t]));
            assert(direction_vec@ =~= dates_vec@.map_values(|t: u64| direct_close@[t]));
            assert(volume_vec@ =~= dates_vec@.map_values(|t: u64| vol[t]));
            assert(dates_vec@ =~= joined_dates(
                data@.take(i + 1),
                macd@,
                ema@,
                sma@,
                direct_close@,
            ));
        }
    }
    proof {
        assert(data@.take(n as int) =~= data@);
    }
    SignalsCombination {
        dates: dates_vec,
        sma: sma_vec,
        ema: ema_vec,
        volume: volume_vec,
        direction: direction_vec,
        macd: macd_vec,
    }
}

/// The entries of `vals` at the positions `i < dir.len()` whose direction
/// flag `dir[i]` is `1` (when `up`) or is not `1` (when `!up`), in order.
pub open spec fn pick_by_direction<A>(vals: Seq<A>, dir: Seq<i8>, up: bool) -> Seq<A>
    decreases dir.len(),
{
    if dir.len() == 0 {
        Seq::empty()
    } else {
        pick_by_direction(vals, dir.drop_last(), up) + if (dir.last() == 1) == up {
            seq![vals[dir.len() - 1]]
        } else {
            Seq::empty()
        }
    }
}

/// The columns of `BinarySplit::positive` (`up`) or `BinarySplit::negative`
/// (`!up`) for `data`; the direction column of either part stays empty.
pub open spec fn is_direction_part<V>(part: SignalsCombination<V>, data: SignalsCombination<V>, up: bool) -> bool {
    let dir = data.direction@;
    &&& part.dates@ == pick_by_direction(data.dates@, dir, up)
    &&& part.sma@ == pick_by_direction(data.sma@, dir, up)
    &&& part.ema@ == pick_by_direction(data.ema@, dir, up)
    &&& part.macd@ == pick_by_direction(data.macd@, dir, up)
    &&& part.volume@ == pick_by_direction(data.volume@, dir, up)
    &&& part.direction@.len() == 0
}

fn push_row<V: Copy>(part: &mut SignalsCombination<V>, data: &SignalsCombination<V>, index: usize)
    requires
        index < data.dates@.len(),
        index < data.sma@.len(),
        index < data.ema@.len(),
        index < data.macd@.len(),
        index < data.volume@.len(),
    ensures
        final(part).sma@ == old(part).sma@.push(data.sma@[index as int]),
        final(part).ema@ == old(part).ema@.push(data.ema@[index as int]),
        final(part).macd@ == old(part).macd@.push(data.macd@[index as int]),
        final(part).volume@ == old(part).volume@.push(data.volume@[index as int]),
        final(part).dates@ == old(part).dates@.push(data.dates@[index as int]),
        final(part).direction@ == old(part).direction@,
{
    part.sma.push(data.sma[index]);
    part.ema.push(data.ema[index]);
    part.macd.push(data.macd[index]);
    part.volume.push(data.volume[index]);
    part.dates.push(data.dates[index]);
}

fn empty_combination<V>() -> (c: SignalsCombination<V>)
    ensures
        c.dates@.len() == 0,
        c.sma@.len() == 0,
        c.ema@.len() == 0,
        c.volume@.len() == 0,
        c.direction@.len() == 0,
        c.macd@.len() == 0,
{
    SignalsCombination {
        dates: Vec::new(),
        sma: Vec::new(),
        ema: Vec::new(),
        volume: Vec::new(),
        direction: Vec::new(),
        macd: Vec::new(),
    }
}

/// Splits the dates by their direction flag: the rows whose flag is `1` go to
/// `positive`, all others to `negative`, each in order. The direction column
/// of both parts is left empty.
pub fn group_under_trend<V: Copy>(train_data: &SignalsCombination<V>) -> (split: BinarySplit<V>)
    requires
        train_data.covers_direction(),
    ensures
        is_direction_part(split.positive, *train_data, true),
        is_direction_part(split.negative, *train_data, false),
        split.positive.dates@ == pick_by_direction(train_data.dates@, train_data.direction@, true),
        split.positive.sma@ == pick_by_direction(train_data.sma@, train_data.direction@, true),
        split.positive.ema@ == pick_by_direction(train_data.ema@, train_data.direction@, true),
        split.positive.macd@ == pick_by_direction(train_data.macd@, train_data.direction@, true),
        split.positive.volume@ == pick_by_direction(train_data.volume@, train_data.direction@, true),
        split.positive.direction@.len() == 0,
        split.negative.dates@ == pick_by_direction(train_data.dates@, train_data.direction@, false),
        split.negative.sma@ == pick_by_direction(train_data.sma@, train_data.direction@, false),
        split.negative.ema@ == pick_by_direction(train_data.ema@, train_data.direction@, false),
        split.negative.macd@ == pick_by_direction(train_data.macd@, train_data.direction@, false),
        split.negative.volume@ == pick_by_direction(train_data.volume@, train_data.direction@, false),
        split.negative.direction@.len() == 0,
{
    let mut positive = empty_combination();
    let mut negative = empty_combination();
    let n = train_data.direction.len();
    let ghost dir = train_data.direction@;
    for index in 0..n
        invariant
            n == dir.len(),
            dir == train_data.direction@,
            train_data.covers_direction(),
            positive.dates@ == pick_by_direction(train_data.dates@, dir.take(index as int), true),
            positive.sma@ == pick_by_direction(train_data.sma@, dir.take(index as int), true),
            positive.ema@ == pick_by_direction(train_data.ema@, dir.take(index as int), true),
            positive.macd@ == pick_by_direction(train_data.macd@, dir.take(index as int), true),
            positive.volume@ == pick_by_direction(train_data.volume@, dir.take(index as int), true),
            positive.direction@.len() == 0,
            negative.dates@ == pick_by_direction(train_data.dates@, dir.take(index as int), false),
            negative.sma@ == pick_by_direction(train_data.sma@, dir.take(index as int), false),
            negative.ema@ == pick_by_direction(train_data.ema@, dir.take(index as int), false),
            negative.macd@ == pick_by_direction(train_data.macd@, dir.take(index as int), false),
            negative.volume@ == pick_by_direction(train_data.volume@, dir.take(index as int), false),
            negative.direction@.len() == 0,
    {
        proof {
            assert(dir.take(index + 1).drop_last() =~= dir.take(index as int));
            assert(dir.take(index + 1).last() == dir[index as int]);
        }
        if train_data.direction[index] == 1 {
            push_row(&mut positive, train_data, index);
        } else {
            push_row(&mut negative, train_data, index);
        }
    }
    proof {
        assert(dir.take(n as int) =~= dir);
    }
    BinarySplit { positive, negative }
}

fn split_column<A: Copy>(v: &Vec<A>, at: usize) -> (parts: (Vec<A>, Vec<A>))
    requires
        at <= v@.len(),
    ensures
        parts.0@ == v@.take(at as int),
        parts.1@ == v@.skip(at as int),
{
    let mut head: Vec<A> = Vec::new();
    let mut tail: Vec<A> = Vec::new();
    let n = v.len();
    for i in 0..n
        invariant
            n == v@.len(),
            at <= n,
            i <= at ==> head@ == v@.take(i as int) && tail@.len() == 0,
            i > at ==> head@ == v@.take(at as int) && tail@ == v@.subrange(at as int, i as int),
    {
        if i < at {
            head.push(v[i]);
            proof {
                assert(head@ =~= v@.take(i + 1));
            }
        } else {
            tail.push(v[i]);
            proof {
                assert(tail@ =~= v@.subrange(at as int, i + 1));
            }
        }
    }
    proof {
        assert(v@.subrange(at as int, n as int) =~= v@.skip(at as int));
        assert(v@.take(n as int) =~= v@);
        if at == n {
            assert(v@.skip(at as int) =~= Seq::<A>::empty());
        }
    }
    (head, tail)
}

/// Splits every column at `train_length`: the first `train_length` entries
/// form the training part, the rest the testing part.
pub fn split_data<V: Copy>(combined_signals: SignalsCombination<V>, train_length: usize) -> (parts:
    SplitedComposition<V>)
    requires
        combined_signals.all_at_least(train_length as int),
    ensures
        parts.training.dates@ == combined_signals.dates@.take(train_length as int),
        parts.training.sma@ == combined_signals.sma@.take(train_length as int),
        parts.training.ema@ == combined_signals.ema@.take(train_length as int),
        parts.training.volume@ == combined_signals.volume@.take(train_length as int),
        parts.training.direction@ == combined_signals.direction@.take(train_length as int),
        parts.training.macd@ == combined_signals.macd@.take(train_length as int),
        parts.testing.dates@ == combined_signals.dates@.skip(train_length as int),
        parts.testing.sma@ == combined_signals.sma@.skip(train_length as int),
        parts.testing.ema@ == combined_signals.ema@.skip(train_length as int),
        parts.testing.volume@ == combined_signals.volume@.skip(train_length as int),
        parts.testing.direction@ == combined_signals.direction@.skip(train_length as int),
        parts.testing.macd@ == combined_signals.macd@.skip(train_length as int),
{
    let (dates_train, dates_test) = split_column(&combined_signals.dates, train_length);
    let (sma_train, sma_test) = split_column(&combined_signals.sma, train_length);
    let (ema_train, ema_test) = split_column(&combined_signals.ema, train_length);
    let (macd_train, macd_test) = split_column(&combined_signals.macd, train_length);
    let (volume_train, volume_test) = split_column(&combined_signals.volume, train_length);
    let (direction_train, direction_test) = split_column(&combined_signals.direction, train_length);
    SplitedComposition {
        training: SignalsCombination {
            dates: dates_train,
            sma: sma_train,
            ema: ema_train,
            volume: volume_train,
            direction: direction_train,
            macd: macd_train,
        },
        testing: SignalsCombination {
            dates: dates_test,
            sma: sma_test,
            ema: ema_test,
            volume: volume_test,
            direction: direction_test,
            macd: macd_test,
        },
    }
}

/// Law: grouping by direction loses and duplicates no row: the two parts
/// together have as many rows as there are direction flags, the positive part
/// as many as there are flags equal to `1`.
pub proof fn law_group_partitions<A>(vals: Seq<A>, dir: Seq<i8>)
    ensures
        pick_by_direction(vals, dir, true).len() + pick_by_direction(vals, dir, false).len()
            == dir.len(),
        pick_by_direction(vals, dir, true).len() == dir.filter(|d: i8| d == 1).len(),
    decreases dir.len(),
{
    reveal_with_fuel(Seq::filter, 1);
    if dir.len() > 0 {
        law_group_partitions(vals, dir.drop_last());
    }
}

/// Law: grouping the direction column itself by direction gives only flags
/// equal to `1` in the positive part and no such flag in the negative part.
pub proof fn law_group_by_flag(dir: Seq<i8>)
    ensures
        forall|i: int|
            0 <= i < pick_by_direction(dir, dir, true).len() ==> #[trigger] pick_by_direction(
                dir,
                dir,
                true,
            )[i] == 1,
        forall|i: int|
            0 <= i < pick_by_direction(dir, dir, false).len() ==> #[trigger] pick_by_direction(
                dir,
                dir,
                false,
            )[i] != 1,
    decreases dir.len(),
{
    if dir.len() > 0 {
        let prev = dir.drop_last();
        law_group_by_flag(prev);
        lemma_pick_prefix_values(dir);
    }
}

proof fn lemma_pick_prefix_values(dir: Seq<i8>)
    requires
        dir.len() > 0,
    ensures
        pick_by_direction(dir, dir.drop_last(), true) == pick_by_direction(
            dir.drop_last(),
            dir.drop_last(),
            true,
        ),
        pick_by_direction(dir, dir.drop_last(), false) == pick_by_direction(
            dir.drop_last(),
            dir.drop_last(),
            false,
        ),
{
    lemma_pick_ignores_tail(dir, dir.drop_last(), dir.drop_last(), true);
    lemma_pick_ignores_tail(dir, dir.drop_last(), dir.drop_last(), false);
}

proof fn lemma_pick_ignores_tail<A>(vals: Seq<A>, other: Seq<A>, dir: Seq<i8>, up: bool)
    requires
        vals.len() >= dir.len(),
        other.len() >= dir.len(),
        forall|i: int| 0 <= i < dir.len() ==> vals[i] == other[i],
    ensures
        pick_by_direction(vals, dir, up) == pick_by_direction(other, dir, up),
    decreases dir.len(),
{
    if dir.len() > 0 {
        lemma_pick_ignores_tail(vals, other, dir.drop_last(), up);
    }
}

/// Law: a joined combination (as `combine_values` returns) has a value in
/// every column for each direction flag, which is what `group_under_trend`
/// needs.
pub proof fn law_aligned_covers_direction<V>(c: SignalsCombination<V>)
    requires
        c.aligned(),
    ensures
        c.covers_direction(),
        c.all_at_least(c.dates@.len() as int),
{
}

/// Law: splitting an aligned combination at `train_length` loses no row: each
/// column is its training part followed by its testing part, both parts are
/// aligned again, and the training part has `train_length` rows.
pub proof fn law_split_recombines<V>(c: SignalsCombination<V>, train_length: int)
    requires
        c.aligned(),
        0 <= train_length <= c.dates@.len(),
    ensures
        c.dates@.take(train_length) + c.dates@.skip(train_length) == c.dates@,
        c.sma@.take(train_length) + c.sma@.skip(train_length) == c.sma@,
        c.ema@.take(train_length) + c.ema@.skip(train_length) == c.ema@,
        c.volume@.take(train_length) + c.volume@.skip(train_length) == c.volume@,
        c.direction@.take(train_length) + c.direction@.skip(train_length) == c.direction@,
        c.macd@.take(train_length) + c.macd@.skip(train_length) == c.macd@,
        c.sma@.take(train_length).len() == train_length,
        c.ema@.take(train_length).len() == train_length,
        c.volume@.take(train_length).len() == train_length,
        c.direction@.take(train_length).len() == train_length,
        c.macd@.take(train_length).len() == train_length,
        c.dates@.take(train_length).len() == train_length,
        c.sma@.skip(train_length).len() == c.dates@.skip(train_length).len(),
        c.ema@.skip(train_length).len() == c.dates@.skip(train_length).len(),
        c.volume@.skip(train_length).len() == c.dates@.skip(train_length).len(),
        c.direction@.skip(train_length).len() == c.dates@.skip(train_length).len(),
        c.macd@.skip(train_length).len() == c.dates@.skip(train_length).len(),
{
    assert(c.dates@.take(train_length) + c.dates@.skip(train_length) =~= c.dates@);
    assert(c.sma@.take(train_length) + c.sma@.skip(train_length) =~= c.sma@);
    assert(c.ema@.take(train_length) + c.ema@.skip(train_length) =~= c.ema@);
    assert(c.volume@.take(train_length) + c.volume@.skip(train_length) =~= c.volume@);
    assert(c.direction@.take(train_length) + c.direction@.skip(train_length) =~= c.direction@);
    assert(c.macd@.take(train_length) + c.macd@.skip(train_length) =~= c.macd@);
}

/// Law: every joined date is the timestamp of some bar and has an entry in
/// all four indicator maps, and there are never more joined dates than bars.
pub proof fn law_joined_dates_have_all_signals<P, V>(
    data: Seq<QuoteRecord<P>>,
    macd: Map<u64, V>,
    ema: Map<u64, V>,
    sma: Map<u64, V>,
    direct_close: Map<u64, i8>,
)
    ensures
        joined_dates(data, macd, ema, sma, direct_close).len() <= data.len(),
        forall|i: int|
            0 <= i < joined_dates(data, macd, ema, sma, direct_close).len() ==> {
                let t = #[trigger] joined_dates(data, macd, ema, sma, direct_close)[i];
                &&& has_all_signals(t, macd, ema, sma, direct_close)
                &&& exists|j: int| 0 <= j < data.len() && #[trigger] data[j].timestamp == t
            },
    decreases data.len(),
{
    if data.len() > 0 {
        let prev = data.drop_last();
        law_joined_dates_have_all_signals(prev, macd, ema, sma, direct_close);
        let jp = joined_dates(prev, macd, ema, sma, direct_close);
        let jd = joined_dates(data, macd, ema, sma, direct_close);
        assert forall|i: int| 0 <= i < jd.len() implies {
            let t = #[trigger] jd[i];
            &&& has_all_signals(t, macd, ema, sma, direct_close)
            &&& exists|j: int| 0 <= j < data.len() && #[trigger] data[j].timestamp == t
        } by {
            if i < jp.len() {
                assert(jd[i] == jp[i]);
                let j = choose|j: int| 0 <= j < prev.len() && #[trigger] prev[j].timestamp == jp[i];
                assert(data[j].timestamp == jd[i]);
            } else {
                assert(jd[i] == data.last().timestamp);
                assert(data[data.len() - 1].timestamp == jd[i]);
            }
        }
    }
}

/// Law: the joined dates are, in bar order, exactly the timestamps of the
/// bars whose timestamp has an entry in each of the four maps (one entry per
/// such bar).
pub proof fn law_joined_dates_are_complete<P, V>(
    data: Seq<QuoteRecord<P>>,
    macd: Map<u64, V>,
    ema: Map<u64, V>,
    sma: Map<u64, V>,
    direct_close: Map<u64, i8>,
)
    ensures
        joined_dates(data, macd, ema, sma, direct_close) == data.map_values(
            |r: QuoteRecord<P>| r.timestamp,
        ).filter(
            |t: u64|
                ema.contains_key(t) && sma.contains_key(t) && macd.contains_key(t)
                    && direct_close.contains_key(t),
        ),
    decreases data.len(),
{
    reveal_with_fuel(Seq::filter, 1);
    let ts = data.map_values(|r: QuoteRecord<P>| r.timestamp);
    if data.len() > 0 {
        law_joined_dates_are_complete(data.drop_last(), macd, ema, sma, direct_close);
        assert(ts.drop_last() =~= data.drop_last().map_values(|r: QuoteRecord<P>| r.timestamp));
        let j = joined_dates(data.drop_last(), macd, ema, sma, direct_close);
        let t = data.last().timestamp;
        assert(ts.last() == t);
        if has_all_signals(t, macd, ema, sma, direct_close) {
            assert(j + seq![t] =~= j.push(t));
        } else {
            assert(j + Seq::<u64>::empty() =~= j);
        }
    } else {
        assert(ts =~= Seq::<u64>::empty());
    }
}

/// Law: grouping by direction keeps the rows themselves: the part for `up`
/// lists, in order, the values at exactly the positions whose flag is `1`
/// (when `up`) or is not `1` (when `!up`).
pub proof fn law_group_rows_are_input_rows<A>(vals: Seq<A>, dir: Seq<i8>, up: bool)
    requires
        vals.len() >= dir.len(),
    ensures
        pick_by_direction(vals, dir, up) == Seq::new(dir.len(), |i: int| (vals[i], dir[i])).filter(
            |row: (A, i8)| (row.1 == 1) == up,
        ).map_values(|row: (A, i8)| row.0),
    decreases dir.len(),
{
    reveal_with_fuel(Seq::filter, 1);
    let rows = Seq::new(dir.len(), |i: int| (vals[i], dir[i]));
    let pred = |row: (A, i8)| (row.1 == 1) == up;
    if dir.len() > 0 {
        let d = dir.drop_last();
        law_group_rows_are_input_rows(vals, d, up);
        let prev_rows = Seq::new(d.len(), |i: int| (vals[i], d[i]));
        assert(rows.drop_last() =~= prev_rows);
        let f = prev_rows.filter(pred);
        let p = pick_by_direction(vals, d, up);
        assert(rows.last() == (vals[dir.len() - 1], dir.last()));
        if (dir.last() == 1) == up {
            assert(rows.filter(pred) == f.push(rows.last()));
            assert(f.push(rows.last()).map_values(|row: (A, i8)| row.0) =~= f.map_values(
                |row: (A, i8)| row.0,
            ).push(vals[dir.len() - 1]));
            assert(p + seq![vals[dir.len() - 1]] =~= p.push(vals[dir.len() - 1]));
        } else {
            assert(rows.filter(pred) == f);
            assert(p + Seq::<A>::empty() =~= p);
        }
    } else {
        assert(rows =~= Seq::<(A, i8)>::empty());
        assert(rows.filter(pred).map_values(|row: (A, i8)| row.0) =~= Seq::<A>::empty());
    }
}

} // verus!
