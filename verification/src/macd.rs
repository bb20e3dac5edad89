use vstd::prelude::*;
use std::collections::HashMap;
use crate::records::map_value;
use vstd::std_specs::iter::IteratorSpec;

verus! {

broadcast use vstd::std_specs::hash::group_hash_axioms;

/// Whether some entry of `pairs` is for the timestamp `t`.
pub open spec fn lists_date<V>(pairs: Seq<(u64, V, V)>, t: u64) -> bool {
    exists|i: int| 0 <= i < pairs.len() && (#[trigger] pairs[i]).0 == t
}

/// Pairs the short-window and long-window averages date by date: every
/// timestamp of `short` that `long` also holds appears in the list with its
/// two averages, and nothing else does. The flag tells whether `long` holds
/// every timestamp of `short`. The order of the list is the order in which
/// the map `short` is walked.
pub fn macd_pairs<V: Copy>(short: &HashMap<u64, V>, long: &HashMap<u64, V>) -> (result: (
    Vec<(u64, V, V)>,
    bool,
))
    ensures
        forall|i: int|
            0 <= i < result.0@.len() ==> {
                let (t, a, b) = #[trigger] result.0@[i];
                &&& short@.contains_key(t)
                &&& long@.contains_key(t)
                &&& a == short@[t]
                &&& b == long@[t]
            },
        forall|t: u64|
            short@.contains_key(t) && long@.contains_key(t) ==> #[trigger] lists_date(result.0@, t),
        result.1 <==> forall|t: u64| #[trigger] short@.contains_key(t) ==> long@.contains_key(t),
{
    let mut pairs: Vec<(u64, V, V)> = Vec::new();
    let mut covered = true;
    let ghost entries = vstd::std_specs::hash::spec_hash_map_iter(short).remaining();
    let ghost mut done: int = 0;
    for (k, v) in it: short.iter()
        invariant
            it.seq() == entries,
            done == it.index(),
            forall|i: int|
                0 <= i < pairs@.len() ==> {
                    let (t, a, b) = #[trigger] pairs@[i];
                    &&& short@.contains_key(t)
                    &&& long@.contains_key(t)
                    &&& a == short@[t]
                    &&& b == long@[t]
                },
            forall|j: int|
                0 <= j < done && long@.contains_key(*(#[trigger] entries[j]).0) ==> exists|
                    i: int,
                | 0 <= i < pairs@.len() && (#[trigger] pairs@[i]).0 == *entries[j].0,
            covered <==> forall|j: int|
                0 <= j < done ==> long@.contains_key(*(#[trigger] entries[j]).0),
    {
        proof {
            assert(entries[done] == (k, v));
        }
        let ghost before = pairs@;
        if long.contains_key(k) {
            let w = map_value(long, *k);
            pairs.push((*k, *v, w));
        } else {
            covered = false;
        }
        proof {
            assert forall|j: int|
                0 <= j < done + 1 && long@.contains_key(*(#[trigger] entries[j]).0) implies exists|
                i: int,
            | 0 <= i < pairs@.len() && (#[trigger] pairs@[i]).0 == *entries[j].0 by {
                if j < done {
                    let i = choose|i: int| 0 <= i < before.len() && (#[trigger] before[i]).0
                        == *entries[j].0;
                    assert(pairs@[i] == before[i]);
                } else {
                    assert(pairs@[pairs@.len() - 1].0 == *entries[j].0);
                }
            }
            done = done + 1;
        }
    }
    proof {
        assert(done == entries.len());
        assert forall|t: u64| short@.contains_key(t) implies exists|j: int|
            0 <= j < entries.len() && *(#[trigger] entries[j]).0 == t by {
            assert(entries.contains((&t, &short@[t])));
        }
        assert forall|t: u64|
            short@.contains_key(t) && long@.contains_key(t) implies #[trigger] lists_date(pairs@, t) by {
            let j = choose|j: int| 0 <= j < entries.len() && *(#[trigger] entries[j]).0 == t;
            assert(long@.contains_key(*entries[j].0));
        }
        if forall|t: u64| #[trigger] short@.contains_key(t) ==> long@.contains_key(t) {
            assert forall|j: int| 0 <= j < done implies long@.contains_key(
                *(#[trigger] entries[j]).0,
            ) by {
                assert(short@.contains_key(*entries[j].0));
            }
        }
    }
    (pairs, covered)
}

} // verus!
