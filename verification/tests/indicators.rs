use std::collections::HashMap;

use stock_indicators::dates::{convert_date, sort_by_date, IndicatorPoint, MAX_LABEL_TIMESTAMP};
use stock_indicators::direction::{determine_trend, determine_volume_growth, normalize_volume};
use stock_indicators::fundamental::cash_flow_url;
use stock_indicators::records::{DirectVolume, IndicatorCombination, QuoteRecord};
use stock_indicators::rsi::{rsi_plan, rsi_step, ChangeSign, RsiAction, RsiState};

fn actions(signs: &Vec<ChangeSign>, period: i16) -> Vec<RsiAction> {
    rsi_plan(signs, period).iter().map(|s| s.action).collect()
}
use stock_indicators::rsi::ChangeSign::{Fall, Rise, Undefined};
use stock_indicators::signals::{combine_values, group_under_trend, split_data, SignalsCombination};
use stock_indicators::windows::{ema_schedule, sma_schedule, EmaStep};
use stock_indicators::macd::macd_pairs;

fn bar(timestamp: u64, volume: u64, close: f64) -> QuoteRecord<f64> {
    QuoteRecord { timestamp, volume, close }
}

fn sample_bars() -> Vec<QuoteRecord<f64>> {
    vec![
        bar(100, 1_000, 10.0),
        bar(200, 2_500, 11.0),
        bar(300, 1_999, 10.5),
        bar(400, 1_999, 12.0),
        bar(500, 7_001, 12.0),
    ]
}

#[test]
fn volume_growth_flags_each_bar_after_the_first() {
    let growth = determine_volume_growth(&sample_bars());
    let mut expected = HashMap::new();
    expected.insert(200u64, 1i8);
    expected.insert(300u64, 0i8);
    expected.insert(400u64, 0i8);
    expected.insert(500u64, 1i8);
    assert_eq!(growth, expected);
}

#[test]
fn volume_growth_of_short_series_is_empty() {
    assert!(determine_volume_growth::<f64>(&vec![]).is_empty());
    assert!(determine_volume_growth(&vec![bar(1, 5, 1.0)]).is_empty());
}

#[test]
fn volume_growth_later_bar_wins_on_same_timestamp() {
    let data = vec![bar(1, 10, 0.0), bar(2, 20, 0.0), bar(2, 5, 0.0)];
    let growth = determine_volume_growth(&data);
    assert_eq!(growth.len(), 1);
    assert_eq!(growth[&2], 0);
}

#[test]
fn trend_uses_the_given_comparisons() {
    let data = sample_bars();
    let rose: Vec<bool> = (0..data.len())
        .map(|i| i > 0 && data[i].close > data[i - 1].close)
        .collect();
    let trend = determine_trend(&data, &rose);
    assert_eq!(trend.len(), 4);
    assert_eq!(trend[&200], 1);
    assert_eq!(trend[&300], 0);
    assert_eq!(trend[&400], 1);
    assert_eq!(trend[&500], 0);
}

#[test]
fn normalized_volume_is_in_whole_thousands() {
    let volumes = normalize_volume(&sample_bars());
    assert_eq!(volumes.len(), 5);
    assert_eq!(volumes[&100], 1);
    assert_eq!(volumes[&200], 2);
    assert_eq!(volumes[&300], 1);
    assert_eq!(volumes[&500], 7);
    let dup = normalize_volume(&vec![bar(9, 999, 0.0), bar(9, 123_456, 0.0)]);
    assert_eq!(dup.len(), 1);
    assert_eq!(dup[&9], 123);
}

fn value_map(pairs: &[(u64, f64)]) -> HashMap<u64, f64> {
    pairs.iter().cloned().collect()
}

#[test]
fn combine_keeps_dates_present_in_every_map() {
    let data = sample_bars();
    let macd = value_map(&[(200, 0.5), (300, 0.25), (400, 0.75), (500, 1.0)]);
    let ema = value_map(&[(300, 3.0), (400, 4.0), (500, 5.0)]);
    let sma = value_map(&[(100, 10.0), (300, 30.0), (500, 50.0)]);
    let mut direction = HashMap::new();
    direction.insert(200u64, 1i8);
    direction.insert(300u64, 0i8);
    direction.insert(500u64, 1i8);
    let c = combine_values(macd, ema, sma, direction, &data);
    assert_eq!(c.dates, vec![300, 500]);
    assert_eq!(c.sma, vec![30.0, 50.0]);
    assert_eq!(c.ema, vec![3.0, 5.0]);
    assert_eq!(c.macd, vec![0.25, 1.0]);
    assert_eq!(c.volume, vec![1, 7]);
    assert_eq!(c.direction, vec![0, 1]);
}

#[test]
fn combine_with_empty_map_is_empty() {
    let c = combine_values(HashMap::new(), value_map(&[(100, 1.0)]), value_map(&[(100, 1.0)]), HashMap::new(), &sample_bars());
    assert!(c.dates.is_empty() && c.sma.is_empty() && c.volume.is_empty());
}

fn sample_combination() -> SignalsCombination<f64> {
    SignalsCombination {
        dates: vec![1, 2, 3, 4, 5],
        sma: vec![1.0, 2.0, 3.0, 4.0, 5.0],
        ema: vec![1.5, 2.5, 3.5, 4.5, 5.5],
        volume: vec![10, 20, 30, 40, 50],
        direction: vec![1, 0, 1, 1, 0],
        macd: vec![0.1, 0.2, 0.3, 0.4, 0.5],
    }
}

#[test]
fn grouping_splits_rows_by_direction() {
    let split = group_under_trend(&sample_combination());
    assert_eq!(split.positive.dates, vec![1, 3, 4]);
    assert_eq!(split.positive.sma, vec![1.0, 3.0, 4.0]);
    assert_eq!(split.positive.ema, vec![1.5, 3.5, 4.5]);
    assert_eq!(split.positive.volume, vec![10, 30, 40]);
    assert_eq!(split.positive.macd, vec![0.1, 0.3, 0.4]);
    assert_eq!(split.negative.dates, vec![2, 5]);
    assert_eq!(split.negative.sma, vec![2.0, 5.0]);
    assert_eq!(split.negative.volume, vec![20, 50]);
    assert!(split.positive.direction.is_empty());
    assert!(split.negative.direction.is_empty());
    assert_eq!(split.positive.dates.len() + split.negative.dates.len(), 5);
}

#[test]
fn grouping_treats_any_flag_but_one_as_negative() {
    let mut c = sample_combination();
    c.direction = vec![-1, 2, 1];
    let split = group_under_trend(&c);
    assert_eq!(split.positive.dates, vec![3]);
    assert_eq!(split.negative.dates, vec![1, 2]);
}

#[test]
fn split_cuts_every_column_at_the_same_row() {
    let parts = split_data(sample_combination(), 3);
    assert_eq!(parts.training.dates, vec![1, 2, 3]);
    assert_eq!(parts.testing.dates, vec![4, 5]);
    assert_eq!(parts.training.direction, vec![1, 0, 1]);
    assert_eq!(parts.testing.direction, vec![1, 0]);
    assert_eq!(parts.testing.volume, vec![40, 50]);
    assert_eq!(parts.testing.macd, vec![0.4, 0.5]);
    let all = split_data(sample_combination(), 5);
    assert_eq!(all.training.sma.len(), 5);
    assert!(all.testing.sma.is_empty());
    let none = split_data(sample_combination(), 0);
    assert!(none.training.ema.is_empty());
    assert_eq!(none.testing.ema.len(), 5);
}

#[test]
fn rsi_plan_warms_up_then_seeds_then_smooths() {
    let signs = vec![Rise, Fall, Undefined, Rise, Fall, Undefined];
    let plan = actions(&signs, 3);
    assert_eq!(
        plan,
        vec![
            RsiAction::CountGain,
            RsiAction::CountLoss,
            RsiAction::CountNone,
            RsiAction::Seed { gains: 1, losses: 1 },
            RsiAction::SmoothLoss,
            RsiAction::SmoothGain,
        ]
    );
}

#[test]
fn rsi_plan_without_warmup_seeds_at_once() {
    let plan = actions(&vec![Fall, Rise], 0);
    assert_eq!(plan, vec![RsiAction::Seed { gains: 0, losses: 0 }, RsiAction::SmoothGain]);
    let plan = actions(&vec![Fall], -4);
    assert_eq!(plan, vec![RsiAction::Seed { gains: 0, losses: 0 }]);
    assert!(actions(&vec![], 8).is_empty());
}

#[test]
fn rsi_plan_shorter_than_period_emits_nothing() {
    let plan = actions(&vec![Rise, Rise], 8);
    assert_eq!(plan, vec![RsiAction::CountGain, RsiAction::CountGain]);
}

#[test]
fn rsi_step_counts_and_seeds() {
    let s = RsiState::new();
    let (s, a) = rsi_step(s, ChangeSign::Rise, 1);
    assert_eq!(a, RsiAction::CountGain);
    assert_eq!(s, RsiState { count: 1, gains: 1, losses: 0, seeded: false });
    let (s, a) = rsi_step(s, ChangeSign::Fall, 1);
    assert_eq!(a, RsiAction::Seed { gains: 1, losses: 0 });
    assert!(s.seeded);
    let (_, a) = rsi_step(s, ChangeSign::Fall, 1);
    assert_eq!(a, RsiAction::SmoothLoss);
}

#[test]
fn rsi_emits_once_per_change_after_warmup() {
    let signs = vec![Rise, Fall, Rise, Rise, Fall, Fall, Rise, Undefined, Fall, Rise];
    let plan = actions(&signs, 4);
    let emitted: Vec<usize> = plan
        .iter()
        .enumerate()
        .filter(|(_, a)| !matches!(a, RsiAction::CountGain | RsiAction::CountLoss | RsiAction::CountNone))
        .map(|(i, _)| i)
        .collect();
    assert_eq!(emitted, vec![4, 5, 6, 7, 8, 9]);
    assert_eq!(plan[4], RsiAction::Seed { gains: 3, losses: 1 });
}

#[test]
fn sma_schedule_drops_the_oldest_close() {
    assert_eq!(sma_schedule(5, 3), vec![None, None, Some(0), Some(1), Some(2)]);
    assert_eq!(sma_schedule(3, 1), vec![Some(0), Some(1), Some(2)]);
    assert_eq!(sma_schedule(2, 3), vec![None, None]);
    assert_eq!(sma_schedule(3, 0), vec![None, None, None]);
    assert_eq!(sma_schedule(3, -5), vec![None, None, None]);
}

#[test]
fn sma_window_holds_exactly_days_bars() {
    let days = 4usize;
    let schedule = sma_schedule(12, days as i16);
    for (i, step) in schedule.iter().enumerate() {
        if step.is_some() {
            let dropped: Vec<usize> = schedule[..i].iter().filter_map(|s| *s).collect();
            let window: Vec<usize> = (0..=i).filter(|j| !dropped.contains(j)).collect();
            assert_eq!(window, ((i + 1 - days)..=i).collect::<Vec<_>>());
        }
    }
}

#[test]
fn ema_schedule_seeds_at_the_window_end() {
    assert_eq!(
        ema_schedule(5, 3),
        Some(vec![EmaStep::Accumulate, EmaStep::Accumulate, EmaStep::Seed, EmaStep::Smooth, EmaStep::Smooth])
    );
    assert_eq!(ema_schedule(2, 2), Some(vec![EmaStep::Accumulate, EmaStep::Seed]));
    assert_eq!(ema_schedule(1, 1), Some(vec![EmaStep::Seed]));
    assert_eq!(ema_schedule(11, 12), None);
    assert_eq!(ema_schedule(10, 0), None);
    assert_eq!(ema_schedule(10, -3), None);
    assert_eq!(ema_schedule(0, i16::MIN), None);
}

#[test]
fn rsi_steps_name_the_bar_of_each_change() {
    let plan = rsi_plan(&vec![Rise, Fall, Rise], 1);
    let bars: Vec<usize> = plan.iter().map(|s| s.bar).collect();
    assert_eq!(bars, vec![1, 2, 3]);
    assert_eq!(plan[1].action, RsiAction::Seed { gains: 1, losses: 0 });
}

#[test]
fn sma_schedule_of_empty_series_accepts_any_window() {
    assert!(sma_schedule(0, i16::MIN).is_empty());
    assert!(sma_schedule(0, 7).is_empty());
}

#[test]
fn macd_pairs_join_on_common_dates() {
    let short = value_map(&[(1, 10.0), (2, 20.0), (3, 30.0)]);
    let long = value_map(&[(2, 2.0), (3, 3.0), (4, 4.0)]);
    let (mut pairs, covered) = macd_pairs(&short, &long);
    pairs.sort_by_key(|p| p.0);
    assert_eq!(pairs, vec![(2, 20.0, 2.0), (3, 30.0, 3.0)]);
    assert!(!covered);
    let (mut pairs, covered) = macd_pairs(&value_map(&[(3, 1.0), (2, 5.0)]), &long);
    pairs.sort_by_key(|p| p.0);
    assert_eq!(pairs, vec![(2, 5.0, 2.0), (3, 1.0, 3.0)]);
    assert!(covered);
    let (pairs, covered) = macd_pairs(&HashMap::new(), &long);
    assert!(pairs.is_empty() && covered);
}

fn point(date: &str, value: f64) -> IndicatorPoint<f64> {
    IndicatorPoint { date: date.to_string(), value, close: value * 2.0 }
}

#[test]
fn sort_by_date_is_stable() {
    let sorted = sort_by_date(vec![
        point("2021-03-01", 1.0),
        point("2020-12-31", 2.0),
        point("2021-03-01", 3.0),
        point("2021-01-15", 4.0),
    ]);
    let order: Vec<(String, f64)> = sorted.iter().map(|p| (p.date.clone(), p.value)).collect();
    assert_eq!(
        order,
        vec![
            ("2020-12-31".to_string(), 2.0),
            ("2021-01-15".to_string(), 4.0),
            ("2021-03-01".to_string(), 1.0),
            ("2021-03-01".to_string(), 3.0),
        ]
    );
}

#[test]
fn sort_by_date_keeps_ordered_input() {
    let sorted = sort_by_date(vec![point("2020-01-01", 1.0), point("2020-01-02", 2.0)]);
    assert_eq!(sorted[0].value, 1.0);
    assert_eq!(sorted[1].value, 2.0);
    assert!(sort_by_date::<f64>(vec![]).is_empty());
}

#[test]
fn sort_by_date_orders_prefixes_first() {
    let sorted = sort_by_date(vec![point("2021-01-011", 1.0), point("2021-01-01", 2.0)]);
    assert_eq!(sorted[0].date, "2021-01-01");
}

#[test]
fn convert_date_labels_and_orders_points() {
    let data = vec![bar(1_609_459_200, 0, 30.5), bar(86_400, 0, 10.25), bar(0, 0, 5.0), bar(1_609_545_600, 0, 7.0)];
    let indicator = value_map(&[(86_400, 1.5), (1_609_459_200, 2.5), (0, 3.5)]);
    let points = convert_date(&indicator, &data);
    let got: Vec<(String, f64, f64)> = points.iter().map(|p| (p.date.clone(), p.value, p.close)).collect();
    assert_eq!(
        got,
        vec![
            ("1970-01-01".to_string(), 3.5, 5.0),
            ("1970-01-02".to_string(), 1.5, 10.25),
            ("2021-01-01".to_string(), 2.5, 30.5),
        ]
    );
}

#[test]
fn convert_date_at_the_last_date() {
    let data = vec![bar(MAX_LABEL_TIMESTAMP, 0, 1.0)];
    let indicator = value_map(&[(MAX_LABEL_TIMESTAMP, 2.0)]);
    let points = convert_date(&indicator, &data);
    assert_eq!(points.len(), 1);
    assert_eq!(points[0].date, "+262142-12-31");
}

#[test]
fn cash_flow_url_appends_the_key() {
    assert_eq!(
        cash_flow_url("KEY123"),
        "https://financialmodelingprep.com/api/v3/financial-statement-symbol-lists?apikey=KEY123"
    );
    assert_eq!(
        cash_flow_url(""),
        "https://financialmodelingprep.com/api/v3/financial-statement-symbol-lists?apikey="
    );
}

#[test]
fn plain_records_can_be_built() {
    let dv = DirectVolume { direction: 1, volume: Some(42) };
    assert_eq!(dv.direction, 1);
    assert_eq!(dv.volume, Some(42));
    let ic = IndicatorCombination { dates: vec![1], sma: vec![1], ema: vec![0], volume: vec![1], direction: vec![0], macd: vec![1] };
    assert_eq!(ic.dates.len(), ic.macd.len());
}

#[test]
fn rsi_plan_is_the_fold_of_its_steps() {
    let signs = vec![Fall, Undefined, Rise, Rise, Fall, Rise, Fall];
    for period in [-2i16, 0, 1, 3, 7, 9] {
        let mut state = RsiState::new();
        let mut folded = Vec::new();
        for sign in &signs {
            let (next, action) = rsi_step(state, *sign, period);
            folded.push(action);
            state = next;
        }
        assert_eq!(actions(&signs, period), folded);
    }
}

#[test]
fn rsi_seed_counts_add_up_to_the_period() {
    let signs = vec![Rise, Undefined, Fall, Fall, Undefined, Rise];
    let plan = actions(&signs, 5);
    assert_eq!(plan[5], RsiAction::Seed { gains: 1, losses: 2 });
}

#[test]
fn direction_maps_hold_only_flags_for_later_bars() {
    let data = vec![bar(7, 5, 0.0), bar(8, 1, 0.0), bar(9, 9, 0.0), bar(7, 10, 0.0)];
    let growth = determine_volume_growth(&data);
    let mut keys: Vec<u64> = growth.keys().cloned().collect();
    keys.sort();
    assert_eq!(keys, vec![7, 8, 9]);
    assert!(growth.values().all(|v| *v == 0 || *v == 1));
    assert_eq!(growth[&7], 1);
    assert_eq!(growth[&8], 0);
}

#[test]
fn joined_columns_feed_grouping_and_splitting() {
    let data = sample_bars();
    let all: Vec<(u64, f64)> = data.iter().map(|b| (b.timestamp, b.close)).collect();
    let mut direction = HashMap::new();
    for (i, b) in data.iter().enumerate() {
        direction.insert(b.timestamp, (i % 2) as i8);
    }
    let c = combine_values(value_map(&all), value_map(&all), value_map(&all), direction, &data);
    assert_eq!(c.dates, vec![100, 200, 300, 400, 500]);
    assert_eq!(c.volume, vec![1, 2, 1, 1, 7]);
    let split = group_under_trend(&c);
    assert_eq!(split.positive.dates, vec![200, 400]);
    assert_eq!(split.negative.dates, vec![100, 300, 500]);
    let parts = split_data(c, 2);
    let mut dates = parts.training.dates.clone();
    dates.extend(parts.testing.dates.iter().cloned());
    assert_eq!(dates, vec![100, 200, 300, 400, 500]);
    assert_eq!(parts.training.sma.len(), 2);
    assert_eq!(parts.testing.sma.len(), 3);
}

#[test]
fn sorted_points_are_a_permutation_in_date_order() {
    let input = vec![
        point("2022-05-05", 1.0),
        point("2019-01-01", 2.0),
        point("2022-05-04", 3.0),
        point("2019-01-01", 4.0),
        point("2020-07-07", 5.0),
    ];
    let sorted = sort_by_date(input);
    assert_eq!(sorted.len(), 5);
    for w in sorted.windows(2) {
        assert!(w[0].date <= w[1].date);
    }
    let mut values: Vec<f64> = sorted.iter().map(|p| p.value).collect();
    assert_eq!(values, vec![2.0, 4.0, 5.0, 3.0, 1.0]);
    values.sort_by(|a, b| a.partial_cmp(b).unwrap());
    assert_eq!(values, vec![1.0, 2.0, 3.0, 4.0, 5.0]);
}
