use vstd::prelude::*;

verus! {

/// How the close changed from one bar to the next: `Rise` for a change that is
/// zero or positive, `Fall` for a negative change, `Undefined` when the change
/// compares neither way (a NaN price difference).
#[derive(Clone, Copy, Debug, PartialEq, Eq, Structural)]
pub enum ChangeSign {
    Rise,
    Fall,
    Undefined,
}

/// What the relative-strength computation does with one price change.
///
/// During the warm-up (`CountGain`, `CountLoss`, `CountNone`) the change is
/// added to the gain or loss sums, or to neither. `Seed` closes the warm-up:
/// the first average gain and loss are formed from the sums, divided by the
/// number of gains (`gains`) and losses (`losses`) seen during the warm-up
/// and by the period; afterwards each change smooths the averages upward
/// (`SmoothGain`) or downward (`SmoothLoss`). `Seed` and the smoothing
/// actions each produce one index value.
#[derive(Clone, Copy, Debug, PartialEq, Eq, Structural)]
pub enum RsiAction {
    CountGain,
    CountLoss,
    CountNone,
    Seed { gains: i32, losses: i32 },
    SmoothGain,
    SmoothLoss,
}

/// The integer state of the relative-strength computation: how many changes
/// the warm-up has consumed, how many of them were gains and losses, and
/// whether the averages have been seeded.
#[derive(Clone, Copy, Debug, PartialEq, Eq, Structural)]
pub struct RsiState {
    pub count: i16,
    pub gains: i32,
    pub losses: i32,
    pub seeded: bool,
}

impl RsiState {
    pub open spec fn wf(self) -> bool {
        &&& 0 <= self.count
        &&& 0 <= self.gains
        &&& 0 <= self.losses
        &&& self.gains + self.losses <= self.count
    }

    pub open spec fn initial() -> RsiState {
        RsiState { count: 0, gains: 0, losses: 0, seeded: false }
    }

    /// The state before any change has been seen.
    pub fn new() -> (s: RsiState)
        ensures
            s == RsiState::initial(),
            s.wf(),
    {
        RsiState { count: 0, gains: 0, losses: 0, seeded: false }
    }
}

impl RsiAction {
    /// Whether this action yields an index value.
    pub open spec fn emits(self) -> bool {
        self is Seed || self is SmoothGain || self is SmoothLoss
    }
}

/// The warm-up action for one change.
pub open spec fn count_action(sign: ChangeSign) -> RsiAction {
    match sign {
        ChangeSign::Rise => RsiAction::CountGain,
        ChangeSign::Fall => RsiAction::CountLoss,
        ChangeSign::Undefined => RsiAction::CountNone,
    }
}

/// The smoothing action for one change: only a negative change smooths down.
pub open spec fn smooth_action(sign: ChangeSign) -> RsiAction {
    if sign == ChangeSign::Fall {
        RsiAction::SmoothLoss
    } else {
        RsiAction::SmoothGain
    }
}

/// One step of the computation for a change of sign `sign` under `period`.
pub open spec fn rsi_step_spec(s: RsiState, sign: ChangeSign, period: i16) -> (RsiState, RsiAction) {
    if s.count < period {
        let next = RsiState {
            count: (s.count + 1) as i16,
            gains: if sign == ChangeSign::Rise { (s.gains + 1) as i32 } else { s.gains },
            losses: if sign == ChangeSign::Fall { (s.losses + 1) as i32 } else { s.losses },
            seeded: s.seeded,
        };
        (next, count_action(sign))
    } else if s.seeded {
        (s, smooth_action(sign))
    } else {
        (RsiState { seeded: true, ..s }, RsiAction::Seed { gains: s.gains, losses: s.losses })
    }
}

/// The state and the actions after the first `n` changes of `signs`.
pub open spec fn rsi_run(signs: Seq<ChangeSign>, period: i16, n: nat) -> (RsiState, Seq<RsiAction>)
    decreases n,
{
    if n == 0 {
        (RsiState::initial(), Seq::empty())
    } else {
        let prev = rsi_run(signs, period, (n - 1) as nat);
        let stepped = rsi_step_spec(prev.0, signs[n - 1], period);
        (stepped.0, prev.1.push(stepped.1))
    }
}

/// The number of changes the warm-up consumes.
pub open spec fn warmup(period: i16) -> int {
    if period > 0 { period as int } else { 0 }
}

/// How many entries of `s` equal `k`.
pub open spec fn count_sign(s: Seq<ChangeSign>, k: ChangeSign) -> int
    decreases s.len(),
{
    if s.len() == 0 {
        0
    } else {
        count_sign(s.drop_last(), k) + if s.last() == k { 1int } else { 0int }
    }
}

/// The action taken for change `i`, stated directly: warm-up actions for the
/// first `warmup(period)` changes, the seeding right after them with the
/// numbers of gains and losses among them, and smoothing for every later change.
pub open spec fn rsi_action_at(signs: Seq<ChangeSign>, period: i16, i: int) -> RsiAction {
    let w = warmup(period);
    if i < w {
        count_action(signs[i])
    } else if i == w {
        RsiAction::Seed {
            gains: count_sign(signs.take(w), ChangeSign::Rise) as i32,
            losses: count_sign(signs.take(w), ChangeSign::Fall) as i32,
        }
    } else {
        smooth_action(signs[i])
    }
}

/// The state after `n` changes, stated directly.
pub open spec fn rsi_state_after(signs: Seq<ChangeSign>, period: i16, n: int) -> RsiState {
    let c = if n < warmup(period) { n } else { warmup(period) };
    RsiState {
        count: c as i16,
        gains: count_sign(signs.take(c), ChangeSign::Rise) as i32,
        losses: count_sign(signs.take(c), ChangeSign::Fall) as i32,
        seeded: n > warmup(period),
    }
}

proof fn lemma_count_sign_bounds(s: Seq<ChangeSign>)
    ensures
        0 <= count_sign(s, ChangeSign::Rise),
        0 <= count_sign(s, ChangeSign::Fall),
        0 <= count_sign(s, ChangeSign::Undefined),
        count_sign(s, ChangeSign::Rise) + count_sign(s, ChangeSign::Fall)
            + count_sign(s, ChangeSign::Undefined) == s.len(),
    decreases s.len(),
{
    if s.len() > 0 {
        lemma_count_sign_bounds(s.drop_last());
    }
}

/// Law: after any number of changes the state of the computation is the one
/// stated directly (the warm-up counts are the numbers of gains and losses
/// among the first `warmup(period)` changes), and the actions taken so far are
/// exactly `rsi_action_at` for each change.
pub proof fn lemma_rsi_run_closed_form(signs: Seq<ChangeSign>, period: i16, n: nat)
    requires
        n <= signs.len(),
    ensures
        rsi_run(signs, period, n).0 == rsi_state_after(signs, period, n as int),
        rsi_run(signs, period, n).0.wf(),
        rsi_run(signs, period, n).1.len() == n,
        forall|i: int|
            0 <= i < n ==> #[trigger] rsi_run(signs, period, n).1[i] == rsi_action_at(
                signs,
                period,
                i,
            ),
    decreases n,
{
    let w = warmup(period);
    if n == 0 {
        assert(signs.take(0) =~= Seq::<ChangeSign>::empty());
    } else {
        let m = (n - 1) as nat;
        lemma_rsi_run_closed_form(signs, period, m);
        let prev = rsi_run(signs, period, m);
        let c = if (m as int) < w { m as int } else { w };
        lemma_count_sign_bounds(signs.take(c));
        assert(signs.take(c).len() == c);
        if (m as int) < w {
            assert(signs.take(n as int).drop_last() =~= signs.take(m as int));
            lemma_count_sign_bounds(signs.take(n as int));
        } else {
            assert(!(prev.0.count < period));
        }
        let cur = rsi_run(signs, period, n);
        assert(cur.1 == prev.1.push(rsi_step_spec(prev.0, signs[m as int], period).1));
        assert forall|i: int| 0 <= i < n implies #[trigger] cur.1[i] == rsi_action_at(
            signs,
            period,
            i,
        ) by {
            if i < m {
                assert(cur.1[i] == prev.1[i]);
            }
        }
    }
}

/// Performs one step of the computation.
pub fn rsi_step(state: RsiState, sign: ChangeSign, period: i16) -> (out: (RsiState, RsiAction))
    requires
        state.wf(),
    ensures
        out == rsi_step_spec(state, sign, period),
        out.0.wf(),
{
    if state.count < period {
        let gains = match sign {
            ChangeSign::Rise => state.gains + 1,
            _ => state.gains,
        };
        let losses = match sign {
            ChangeSign::Fall => state.losses + 1,
            _ => state.losses,
        };
        let action = match sign {
            ChangeSign::Rise => RsiAction::CountGain,
            ChangeSign::Fall => RsiAction::CountLoss,
            ChangeSign::Undefined => RsiAction::CountNone,
        };
        (RsiState { count: state.count + 1, gains, losses, seeded: state.seeded }, action)
    } else if state.seeded {
        let action = match sign {
            ChangeSign::Fall => RsiAction::SmoothLoss,
            _ => RsiAction::SmoothGain,
        };
        (state, action)
    } else {
        (
            RsiState { count: state.count, gains: state.gains, losses: state.losses, seeded: true },
            RsiAction::Seed { gains: state.gains, losses: state.losses },
        )
    }
}

/// One entry of the relative-strength plan: the bar the price change ends
/// at (the change runs from bar `bar - 1` to bar `bar`, and an index value
/// produced by the action belongs to `bar`), and the action taken.
#[derive(Clone, Copy, Debug, PartialEq, Eq, Structural)]
pub struct RsiStep {
    pub bar: usize,
    pub action: RsiAction,
}

/// The plan of the relative-strength computation for a series of price
/// changes: `signs[i]` is the sign of the change from bar `i` to bar `i + 1`,
/// and the plan holds one step per change, in order.
pub fn rsi_plan(signs: &Vec<ChangeSign>, period: i16) -> (plan: Vec<RsiStep>)
    requires
        signs@.len() < usize::MAX,
    ensures
        plan@.map_values(|s: RsiStep| s.action) == rsi_run(signs@, period, signs@.len()).1,
        plan@.len() == signs@.len(),
        forall|i: int|
            0 <= i < signs@.len() ==> (#[trigger] plan@[i]).action == rsi_action_at(
                signs@,
                period,
                i,
            ) && plan@[i].bar == i + 1,
{
    let mut plan: Vec<RsiStep> = Vec::new();
    let mut state = RsiState::new();
    let n = signs.len();
    for i in 0..n
        invariant
            n == signs@.len(),
            n < usize::MAX,
            state == rsi_run(signs@, period, i as nat).0,
            plan@.map_values(|s: RsiStep| s.action) == rsi_run(signs@, period, i as nat).1,
            plan@.len() == i,
            forall|k: int| 0 <= k < i ==> (#[trigger] plan@[k]).bar == k + 1,
    {
        proof {
            lemma_rsi_run_closed_form(signs@, period, i as nat);
        }
        let (next, action) = rsi_step(state, signs[i], period);
        plan.push(RsiStep { bar: i + 1, action });
        proof {
            assert(plan@.map_values(|s: RsiStep| s.action) =~= rsi_run(
                signs@,
                period,
                (i + 1) as nat,
            ).1);
        }
        state = next;
    }
    proof {
        lemma_rsi_run_closed_form(signs@, period, n as nat);
        assert forall|i: int| 0 <= i < n implies (#[trigger] plan@[i]).action == rsi_action_at(
            signs@,
            period,
            i,
        ) by {
            assert(plan@.map_values(|s: RsiStep| s.action)[i] == plan@[i].action);
        }
    }
    plan
}

/// Law: an index value is produced for a change exactly when the warm-up is
/// over, that is for every change after the first `period` ones (after none of
/// them when `period` is not positive).
pub proof fn law_rsi_emits_after_warmup(signs: Seq<ChangeSign>, period: i16, i: int)
    requires
        0 <= i < signs.len(),
    ensures
        rsi_action_at(signs, period, i).emits() <==> i >= warmup(period),
{
}

/// Law: the seeding happens once, right after the warm-up, and the numbers of
/// gains and losses it carries add up to at most the period; together with the
/// changes of undefined sign they account for every warm-up change.
pub proof fn law_rsi_seed_counts(signs: Seq<ChangeSign>, period: i16)
    requires
        warmup(period) < signs.len(),
    ensures
        rsi_action_at(signs, period, warmup(period)) is Seed,
        forall|i: int|
            0 <= i < signs.len() && i != warmup(period) ==> !(#[trigger] rsi_action_at(
                signs,
                period,
                i,
            ) is Seed),
        ({
            let w = warmup(period);
            let a = rsi_action_at(signs, period, w);
            &&& 0 <= a->gains
            &&& 0 <= a->losses
            &&& a->gains + a->losses + count_sign(signs.take(w), ChangeSign::Undefined) == w
        }),
{
    let w = warmup(period);
    lemma_count_sign_bounds(signs.take(w));
    assert(signs.take(w).len() == w);
}

proof fn lemma_count_sign_is_filter(s: Seq<ChangeSign>, k: ChangeSign)
    ensures
        count_sign(s, k) == s.filter(|x: ChangeSign| x == k).len(),
    decreases s.len(),
{
    reveal_with_fuel(Seq::filter, 1);
    if s.len() > 0 {
        lemma_count_sign_is_filter(s.drop_last(), k);
    }
}

/// Law: the seeding step of the computation (the fold of `rsi_step` over the
/// changes) carries as `gains` the number of rising changes and as `losses`
/// the number of falling changes among the first `period` changes (none when
/// `period` is not positive).
pub proof fn law_rsi_seed_counts_rises_and_falls(signs: Seq<ChangeSign>, period: i16)
    requires
        (if period > 0 { period as int } else { 0 }) < signs.len(),
    ensures
        ({
            let w = if period > 0 { period as int } else { 0 };
            rsi_run(signs, period, signs.len()).1[w] == RsiAction::Seed {
                gains: signs.take(w).filter(|x: ChangeSign| x == ChangeSign::Rise).len() as i32,
                losses: signs.take(w).filter(|x: ChangeSign| x == ChangeSign::Fall).len() as i32,
            }
        }),
{
    let w = if period > 0 { period as int } else { 0 };
    lemma_rsi_run_closed_form(signs, period, signs.len());
    lemma_count_sign_is_filter(signs.take(w), ChangeSign::Rise);
    lemma_count_sign_is_filter(signs.take(w), ChangeSign::Fall);
}

/// Law: before the seeding, each step of the computation counts a rising
/// change as a gain, a falling change as a loss and an undefined one as
/// neither; after it, a falling change smooths the averages downward and every
/// other change upward.
pub proof fn law_rsi_phase_actions(signs: Seq<ChangeSign>, period: i16, i: int)
    requires
        0 <= i < signs.len(),
    ensures
        ({
            let w = if period > 0 { period as int } else { 0 };
            let a = rsi_run(signs, period, signs.len()).1[i];
            &&& i < w && signs[i] == ChangeSign::Rise ==> a == RsiAction::CountGain
            &&& i < w && signs[i] == ChangeSign::Fall ==> a == RsiAction::CountLoss
            &&& i < w && signs[i] == ChangeSign::Undefined ==> a == RsiAction::CountNone
            &&& i > w && signs[i] == ChangeSign::Fall ==> a == RsiAction::SmoothLoss
            &&& i > w && signs[i] != ChangeSign::Fall ==> a == RsiAction::SmoothGain
        }),
{
    lemma_rsi_run_closed_form(signs, period, signs.len());
}

} // verus!
