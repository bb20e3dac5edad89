use vstd::prelude::*;

verus! {

/// Which close leaves the running sum of the simple moving average after bar
/// `i` has been added: for `days >= 1` and `i >= days - 1` the average over
/// the window ending at bar `i` is produced and then bar `i + 1 - days` drops
/// out; otherwise no average is produced at bar `i`.
pub open spec fn sma_drop_index(i: int, days: i16) -> Option<int> {
    if 1 <= days && i >= days - 1 {
        Some(i + 1 - days)
    } else {
        None
    }
}

/// The schedule of the running-sum simple moving average over `len` bars
/// with a window of `days` bars. Entry `i` is `Some(j)` when an average is
/// produced at bar `i` (after adding its close), `j` being the bar whose close
/// is subtracted afterwards; it is `None` when bar `i` only adds its close.
/// A window that is not positive produces no average. The window is
/// shortened by one in 16 bits, which the smallest 16-bit window does not
/// allow once there is a bar; and bar positions are handled as 16-bit offsets,
/// so a positive window accepts at most 32768 bars.
pub fn sma_schedule(len: usize, days: i16) -> (schedule: Vec<Option<usize>>)
    requires
        days > i16::MIN || len == 0,
        days < 1 || len <= 32768,
    ensures
        schedule@.len() == len,
        forall|i: int|
            0 <= i < len ==> (#[trigger] schedule@[i] is Some <==> sma_drop_index(i, days) is Some),
        forall|i: int|
            0 <= i < len && #[trigger] schedule@[i] is Some ==> schedule@[i]->0 as int
                == sma_drop_index(i, days)->0,
{
    let mut schedule: Vec<Option<usize>> = Vec::new();
    for i in 0..len
        invariant
            schedule@.len() == i,
            days < 1 || len <= 32768,
            forall|k: int|
                0 <= k < i ==> (#[trigger] schedule@[k] is Some <==> sma_drop_index(k, days) is Some),
            forall|k: int|
                0 <= k < i && #[trigger] schedule@[k] is Some ==> schedule@[k]->0 as int
                    == sma_drop_index(k, days)->0,
    {
        if days >= 1 && i >= (days - 1) as usize {
            let drop = i + 1 - days as usize;
            schedule.push(Some(drop));
        } else {
            schedule.push(None);
        }
    }
    schedule
}

/// Law: whenever the running sum produces an average at bar `i`, the bars
/// still in the sum are exactly the `days` bars `i + 1 - days ..= i`: bar `j`
/// has been subtracted before bar `i` if and only if `j < i + 1 - days`.
pub proof fn law_sma_window(days: i16, i: int, j: int)
    requires
        sma_drop_index(i, days) is Some,
        0 <= j <= i,
    ensures
        (exists|k: int| 0 <= k < i && #[trigger] sma_drop_index(k, days) == Some(j)) <==> j < i
            + 1 - days,
{
    if j < i + 1 - days {
        let k = j + days - 1;
        assert(sma_drop_index(k, days) == Some(j));
    }
}

/// Law: with a positive window, an average is produced at bar `i` exactly
/// when at least `days` bars (bars `0..=i`) have entered the sum, and with a
/// window that is not positive never.
pub proof fn law_sma_average_once_window_full(days: i16, i: int)
    requires
        0 <= i,
    ensures
        days >= 1 ==> (sma_drop_index(i, days) is Some <==> i + 1 >= days),
        days < 1 ==> sma_drop_index(i, days) is None,
{
}

/// What the exponential moving average does at a bar.
#[derive(Clone, Copy, Debug, PartialEq, Eq, Structural)]
pub enum EmaStep {
    /// The close joins the plain sum of the first closes.
    Accumulate,
    /// The close joins the sum, which divided by the window gives the first
    /// average, placed at this bar.
    Seed,
    /// A smoothed average is placed at this bar.
    Smooth,
}

/// The step at bar `i` for a window of `days` bars.
pub open spec fn ema_step_at(i: int, days: i16) -> EmaStep {
    if i < days - 1 {
        EmaStep::Accumulate
    } else if i == days - 1 {
        EmaStep::Seed
    } else {
        EmaStep::Smooth
    }
}

/// The schedule of the exponential moving average over `len` bars with a
/// window of `days` bars: the first `days - 1` bars accumulate, bar
/// `days - 1` seeds the average, every later bar is smoothed. There is no
/// schedule (`None`) unless `1 <= days <= len`, since the seeding bar must
/// exist.
pub fn ema_schedule(len: usize, days: i16) -> (schedule: Option<Vec<EmaStep>>)
    ensures
        schedule is Some <==> 1 <= days && days <= len,
        schedule matches Some(steps) ==> {
            &&& steps@.len() == len
            &&& forall|i: int| 0 <= i < len ==> #[trigger] steps@[i] == ema_step_at(i, days)
        },
{
    if days < 1 || (days as usize) > len {
        return None;
    }
    let seed = (days - 1) as usize;
    let mut steps: Vec<EmaStep> = Vec::new();
    for i in 0..len
        invariant
            1 <= days,
            seed == days - 1,
            steps@.len() == i,
            forall|k: int| 0 <= k < i ==> #[trigger] steps@[k] == ema_step_at(k, days),
    {
        if i < seed {
            steps.push(EmaStep::Accumulate);
        } else if i == seed {
            steps.push(EmaStep::Seed);
        } else {
            steps.push(EmaStep::Smooth);
        }
    }
    Some(steps)
}

/// Law: with a positive window, an average is placed at a bar exactly when the
/// bar is the seeding bar `days - 1` or comes after it, and the seeding happens
/// at no other bar.
pub proof fn law_ema_values_from_seed(days: i16, i: int)
    requires
        1 <= days,
        0 <= i,
    ensures
        ema_step_at(i, days) != EmaStep::Accumulate <==> i >= days - 1,
        ema_step_at(i, days) == EmaStep::Seed <==> i == days - 1,
{
}

} // verus!
