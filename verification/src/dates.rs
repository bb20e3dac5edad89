use vstd::prelude::*;
use std::collections::HashMap;
use crate::records::{QuoteRecord, map_value};

verus! {

broadcast use vstd::std_specs::hash::group_hash_axioms;

/// The largest timestamp (seconds since the Unix epoch) that has a calendar
/// date: 262142-12-31T23:59:59 UTC.
pub const MAX_LABEL_TIMESTAMP: u64 = 8210266876799u64;

/// The smallest timestamp that has a calendar date: -262143-01-01T00:00:00 UTC.
pub const MIN_LABEL_TIMESTAMP: i64 = -8334601315200i64;

/// The pattern of a day label: year, month and day separated by hyphens.
pub open spec fn day_pattern() -> Seq<char> {
    "%Y-%m-%d"@
}

/// The text of the UTC date-time `timestamp` seconds after the Unix epoch,
/// formatted with the strftime-like `pattern`.
pub uninterp spec fn spec_format_timestamp(timestamp: i64, pattern: Seq<char>) -> Seq<char>;

/// Calls chrono: `DateTime::<Utc>::from_timestamp(timestamp, 0)`, which has a
/// value exactly for the timestamps of the dates -262143-01-01 to
/// 262142-12-31, and formats that value with `pattern`. The contract claims
/// that the text is a function of the timestamp and the pattern alone (UTC
/// involves no time zone, locale or clock); what the text is, is not stated.
/// Only the day pattern is admitted, since formatting with an ill-formed
/// pattern panics.
#[verifier::external_body]
fn format_timestamp(timestamp: i64, pattern: &str) -> (label: Option<String>)
    requires
        pattern@ == day_pattern(),
    ensures
        label is Some <==> MIN_LABEL_TIMESTAMP <= timestamp <= MAX_LABEL_TIMESTAMP,
        label matches Some(text) ==> text@ == spec_format_timestamp(timestamp, pattern@),
{
    match chrono::DateTime::from_timestamp(timestamp, 0) {
        Some(time) => Some(time.format(pattern).to_string()),
        None => None,
    }
}

/// An indicator value placed on the calendar: the date of its bar, the value
/// and the bar's close, both in the caller's representation `T`.
pub struct IndicatorPoint<T> {
    pub date: String,
    pub value: T,
    pub close: T,
}

impl<T> View for IndicatorPoint<T> {
    type V = (Seq<char>, T, T);

    open spec fn view(&self) -> (Seq<char>, T, T) {
        (self.date@, self.value, self.close)
    }
}

/// Strict lexicographic order of texts by character code, which for UTF-8
/// encoded strings is the byte order `String` compares with.
pub open spec fn date_less(a: Seq<char>, b: Seq<char>) -> bool
    decreases a.len(),
{
    if b.len() == 0 {
        false
    } else if a.len() == 0 {
        true
    } else if a[0] != b[0] {
        (a[0] as u32) < (b[0] as u32)
    } else {
        date_less(a.drop_first(), b.drop_first())
    }
}

/// Inserts `x` into `s` in front of the first element with a later date.
pub open spec fn insert_by_date<T>(s: Seq<(Seq<char>, T, T)>, x: (Seq<char>, T, T)) -> Seq<
    (Seq<char>, T, T),
>
    decreases s.len(),
{
    if s.len() == 0 {
        seq![x]
    } else if date_less(x.0, s[0].0) {
        seq![x] + s
    } else {
        seq![s[0]] + insert_by_date(s.drop_first(), x)
    }
}

/// `s` ordered by date, points with equal dates keeping their relative order.
pub open spec fn sorted_by_date<T>(s: Seq<(Seq<char>, T, T)>) -> Seq<(Seq<char>, T, T)>
    decreases s.len(),
{
    if s.len() == 0 {
        s
    } else {
        insert_by_date(sorted_by_date(s.drop_last()), s.last())
    }
}

/// No point has an earlier date than one before it.
pub open spec fn is_date_ordered<T>(s: Seq<(Seq<char>, T, T)>) -> bool {
    forall|i: int, j: int| 0 <= i < j < s.len() ==> !date_less(#[trigger] s[j].0, #[trigger] s[i].0)
}

/// The points for the bars that have an indicator value, in bar order: the
/// bar's date, the indicator value under its timestamp, and its close.
pub open spec fn labelled_points<T>(data: Seq<QuoteRecord<T>>, indicator: Map<u64, T>) -> Seq<
    (Seq<char>, T, T),
>
    decreases data.len(),
{
    if data.len() == 0 {
        Seq::empty()
    } else {
        let r = data.last();
        let prev = labelled_points(data.drop_last(), indicator);
        if indicator.contains_key(r.timestamp) {
            prev.push((spec_format_timestamp(r.timestamp as i64, day_pattern()), indicator[r.timestamp], r.close))
        } else {
            prev
        }
    }
}

fn date_before(a: &String, b: &String) -> (less: bool)
    ensures
        less == date_less(a@, b@),
{
    let sa = a.as_str();
    let sb = b.as_str();
    let la = sa.unicode_len();
    let lb = sb.unicode_len();
    let mut i: usize = 0;
    proof {
        assert(a@.skip(0) =~= a@);
        assert(b@.skip(0) =~= b@);
    }
    loop
        invariant
            sa@ == a@,
            sb@ == b@,
            la == a@.len(),
            lb == b@.len(),
            i <= la,
            i <= lb,
            date_less(a@, b@) == date_less(a@.skip(i as int), b@.skip(i as int)),
        decreases la - i,
    {
        if i == lb {
            return false;
        }
        if i == la {
            return true;
        }
        let ca = sa.get_char(i);
        let cb = sb.get_char(i);
        if ca != cb {
            return (ca as u32) < (cb as u32);
        }
        proof {
            assert(a@.skip(i as int).drop_first() =~= a@.skip(i + 1));
            assert(b@.skip(i as int).drop_first() =~= b@.skip(i + 1));
        }
        i = i + 1;
    }
}

proof fn lemma_insert_at_first_later<T>(s: Seq<(Seq<char>, T, T)>, x: (Seq<char>, T, T), j: int)
    requires
        0 <= j <= s.len(),
        forall|k: int| 0 <= k < j ==> !date_less(x.0, #[trigger] s[k].0),
        j < s.len() ==> date_less(x.0, s[j].0),
    ensures
        insert_by_date(s, x) == s.insert(j, x),
    decreases s.len(),
{
    if s.len() == 0 {
        assert(s.insert(j, x) =~= seq![x]);
    } else if j == 0 {
        assert(s.insert(j, x) =~= seq![x] + s);
    } else {
        let rest = s.drop_first();
        assert forall|k: int| 0 <= k < j - 1 implies !date_less(x.0, #[trigger] rest[k].0) by {
            assert(rest[k] == s[k + 1]);
        }
        lemma_insert_at_first_later(rest, x, j - 1);
        assert(seq![s[0]] + rest.insert(j - 1, x) =~= s.insert(j, x));
    }
}

/// Orders points by date; points with equal dates keep their relative order.
pub fn sort_by_date<T: Copy>(points: Vec<IndicatorPoint<T>>) -> (sorted: Vec<IndicatorPoint<T>>)
    ensures
        sorted@.map_values(|p: IndicatorPoint<T>| p@) == sorted_by_date(
            points@.map_values(|p: IndicatorPoint<T>| p@),
        ),
{
    let ghost input = points@.map_values(|p: IndicatorPoint<T>| p@);
    let mut rest = points;
    let mut sorted: Vec<IndicatorPoint<T>> = Vec::new();
    let n = rest.len();
    let mut done: usize = 0;
    while done < n
        invariant
            done <= n,
            n == input.len(),
            rest@.len() == n - done,
            forall|k: int|
                0 <= k < rest@.len() ==> #[trigger] rest@[k]@ == input[k + done as int],
            sorted@.map_values(|p: IndicatorPoint<T>| p@) == sorted_by_date(
                input.take(done as int),
            ),
        decreases n - done,
    {
        let x = rest.remove(0);
        let ghost xs = sorted@.map_values(|p: IndicatorPoint<T>| p@);
        let mut j: usize = 0;
        while j < sorted.len()
            invariant
                j <= sorted@.len(),
                xs == sorted@.map_values(|p: IndicatorPoint<T>| p@),
                forall|k: int| 0 <= k < j ==> !date_less(x@.0, #[trigger] xs[k].0),
            ensures
                j <= sorted@.len(),
                forall|k: int| 0 <= k < j ==> !date_less(x@.0, #[trigger] xs[k].0),
                j < sorted@.len() ==> date_less(x@.0, xs[j as int].0),
            decreases sorted@.len() - j,
        {
            if date_before(&x.date, &sorted[j].date) {
                break;
            }
            j = j + 1;
        }
        proof {
            lemma_insert_at_first_later(xs, x@, j as int);
            assert(input.take(done + 1).drop_last() =~= input.take(done as int));
            assert(input.take(done + 1).last() == x@);
        }
        sorted.insert(j, x);
        proof {
            assert(sorted@.map_values(|p: IndicatorPoint<T>| p@) =~= xs.insert(j as int, x@));
        }
        done = done + 1;
    }
    proof {
        assert(input.take(n as int) =~= input);
    }
    sorted
}

/// Places an indicator on the calendar: for every bar, in order, whose
/// timestamp has an indicator value, a point with the bar's date, that value
/// and the bar's close; the points are then ordered by date, points with equal
/// dates keeping their bar order.
pub fn convert_date<T: Copy>(indicator: &HashMap<u64, T>, data: &Vec<QuoteRecord<T>>) -> (points:
    Vec<IndicatorPoint<T>>)
    requires
        forall|i: int|
            0 <= i < data@.len() && #[trigger] indicator@.contains_key(data@[i].timestamp)
                ==> data@[i].timestamp <= MAX_LABEL_TIMESTAMP,
    ensures
        points@.map_values(|p: IndicatorPoint<T>| p@) == sorted_by_date(
            labelled_points(data@, indicator@),
        ),
{
    let mut company_indicator: Vec<IndicatorPoint<T>> = Vec::new();
    let n = data.len();
    for i in 0..n
        invariant
            n == data@.len(),
            forall|k: int|
                0 <= k < data@.len() && #[trigger] indicator@.contains_key(data@[k].timestamp)
                    ==> data@[k].timestamp <= MAX_LABEL_TIMESTAMP,
            company_indicator@.map_values(|p: IndicatorPoint<T>| p@) == labelled_points(
                data@.take(i as int),
                indicator@,
            ),
    {
        proof {
            assert(data@.take(i + 1).drop_last() =~= data@.take(i as int));
            assert(data@.take(i + 1).last() == data@[i as int]);
        }
        let record = &data[i];
        if indicator.contains_key(&record.timestamp) {
            let value = map_value(indicator, record.timestamp);
            let label = format_timestamp(record.timestamp as i64, "%Y-%m-%d");
            let date = label.unwrap();
            company_indicator.push(IndicatorPoint { date, value, close: record.close });
        }
        proof {
            assert(company_indicator@.map_values(|p: IndicatorPoint<T>| p@) =~= labelled_points(
                data@.take(i + 1),
                indicator@,
            ));
        }
    }
    proof {
        assert(data@.take(n as int) =~= data@);
    }
    sort_by_date(company_indicator)
}

proof fn lemma_date_less_irreflexive(a: Seq<char>)
    ensures
        !date_less(a, a),
    decreases a.len(),
{
    if a.len() > 0 {
        lemma_date_less_irreflexive(a.drop_first());
    }
}

proof fn lemma_date_less_transitive(a: Seq<char>, b: Seq<char>, c: Seq<char>)
    requires
        date_less(a, b),
        date_less(b, c),
    ensures
        date_less(a, c),
    decreases a.len(),
{
    if a.len() > 0 && b.len() > 0 && c.len() > 0 && a[0] == b[0] && b[0] == c[0] {
        lemma_date_less_transitive(a.drop_first(), b.drop_first(), c.drop_first());
    }
}

proof fn lemma_insert_contents<T>(s: Seq<(Seq<char>, T, T)>, x: (Seq<char>, T, T))
    ensures
        insert_by_date(s, x).len() == s.len() + 1,
        insert_by_date(s, x).to_multiset() == s.to_multiset().insert(x),
        forall|e: (Seq<char>, T, T)|
            #[trigger] insert_by_date(s, x).contains(e) ==> e == x || s.contains(e),
    decreases s.len(),
{
    broadcast use vstd::seq_lib::group_to_multiset_ensures;

    if s.len() == 0 {
        assert(seq![x] =~= Seq::<(Seq<char>, T, T)>::empty().push(x));
    } else if date_less(x.0, s[0].0) {
        assert(seq![x] + s =~= s.insert(0, x));
        vstd::seq_lib::lemma_seq_union_to_multiset_commutative(seq![x], s);
        vstd::seq_lib::lemma_multiset_commutative(seq![x], s);
        assert(seq![x].to_multiset() =~= vstd::multiset::Multiset::empty().insert(x)) by {
            assert(seq![x] =~= Seq::<(Seq<char>, T, T)>::empty().push(x));
        }
    } else {
        let rest = s.drop_first();
        lemma_insert_contents(rest, x);
        let r = insert_by_date(rest, x);
        assert(s =~= seq![s[0]] + rest);
        vstd::seq_lib::lemma_multiset_commutative(seq![s[0]], r);
        vstd::seq_lib::lemma_multiset_commutative(seq![s[0]], rest);
        assert forall|e: (Seq<char>, T, T)|
            #[trigger] insert_by_date(s, x).contains(e) implies e == x || s.contains(e) by {
            let k = choose|k: int| 0 <= k < insert_by_date(s, x).len() && insert_by_date(s, x)[k]
                == e;
            if k > 0 {
                assert(r[k - 1] == e);
                assert(r.contains(e));
                if e != x {
                    let m = choose|m: int| 0 <= m < rest.len() && rest[m] == e;
                    assert(s[m + 1] == e);
                }
            } else {
                assert(s[0] == e);
            }
        }
    }
}

proof fn lemma_insert_ordered<T>(s: Seq<(Seq<char>, T, T)>, x: (Seq<char>, T, T))
    requires
        is_date_ordered(s),
    ensures
        is_date_ordered(insert_by_date(s, x)),
    decreases s.len(),
{
    if s.len() == 0 {
    } else if date_less(x.0, s[0].0) {
        let r = seq![x] + s;
        assert forall|i: int, j: int| 0 <= i < j < r.len() implies !date_less(
            #[trigger] r[j].0,
            #[trigger] r[i].0,
        ) by {
            if i == 0 {
                assert(r[j] == s[j - 1]);
                if j - 1 > 0 {
                    assert(!date_less(s[j - 1].0, s[0].0));
                }
                if date_less(s[j - 1].0, x.0) {
                    lemma_date_less_transitive(s[j - 1].0, x.0, s[0].0);
                    if j - 1 == 0 {
                        lemma_date_less_irreflexive(s[0].0);
                    }
                }
            } else {
                assert(r[i] == s[i - 1] && r[j] == s[j - 1]);
            }
        }
    } else {
        let rest = s.drop_first();
        assert(is_date_ordered(rest)) by {
            assert forall|i: int, j: int| 0 <= i < j < rest.len() implies !date_less(
                #[trigger] rest[j].0,
                #[trigger] rest[i].0,
            ) by {
                assert(rest[i] == s[i + 1] && rest[j] == s[j + 1]);
            }
        }
        lemma_insert_ordered(rest, x);
        lemma_insert_contents(rest, x);
        let r = insert_by_date(rest, x);
        let whole = seq![s[0]] + r;
        assert forall|i: int, j: int| 0 <= i < j < whole.len() implies !date_less(
            #[trigger] whole[j].0,
            #[trigger] whole[i].0,
        ) by {
            if i == 0 {
                let e = r[j - 1];
                assert(r.contains(e));
                if e != x {
                    let m = choose|m: int| 0 <= m < rest.len() && rest[m] == e;
                    assert(s[m + 1] == e);
                }
            } else {
                assert(whole[i] == r[i - 1] && whole[j] == r[j - 1]);
            }
        }
    }
}

/// Law: the points handed back by the date ordering are in date order, and
/// they are the points handed in, each as often as it was there.
pub proof fn law_sorted_by_date_orders<T>(s: Seq<(Seq<char>, T, T)>)
    ensures
        is_date_ordered(sorted_by_date(s)),
        sorted_by_date(s).to_multiset() == s.to_multiset(),
        sorted_by_date(s).len() == s.len(),
    decreases s.len(),
{
    broadcast use vstd::seq_lib::group_to_multiset_ensures;

    if s.len() > 0 {
        law_sorted_by_date_orders(s.drop_last());
        lemma_insert_ordered(sorted_by_date(s.drop_last()), s.last());
        lemma_insert_contents(sorted_by_date(s.drop_last()), s.last());
        assert(s =~= s.drop_last().push(s.last()));
    }
}

/// Law: ordering is stable: when the dates are already in order, the points
/// come back as they were.
pub proof fn law_sorted_by_date_keeps_ordered<T>(s: Seq<(Seq<char>, T, T)>)
    requires
        is_date_ordered(s),
    ensures
        sorted_by_date(s) == s,
    decreases s.len(),
{
    if s.len() > 0 {
        let p = s.drop_last();
        assert(is_date_ordered(p)) by {
            assert forall|i: int, j: int| 0 <= i < j < p.len() implies !date_less(
                #[trigger] p[j].0,
                #[trigger] p[i].0,
            ) by {
                assert(p[i] == s[i] && p[j] == s[j]);
            }
        }
        law_sorted_by_date_keeps_ordered(p);
        assert forall|k: int| 0 <= k < p.len() implies !date_less(s.last().0, #[trigger] p[k].0) by {
            assert(p[k] == s[k]);
        }
        lemma_insert_at_first_later(p, s.last(), p.len() as int);
        assert(p.insert(p.len() as int, s.last()) =~= s);
    }
}

/// The points of `s` whose date is `d`, in order.
pub open spec fn points_on<T>(s: Seq<(Seq<char>, T, T)>, d: Seq<char>) -> Seq<(Seq<char>, T, T)>
    decreases s.len(),
{
    if s.len() == 0 {
        Seq::empty()
    } else {
        (if s[0].0 == d { seq![s[0]] } else { Seq::empty() }) + points_on(s.drop_first(), d)
    }
}

proof fn lemma_points_on_append<T>(a: Seq<(Seq<char>, T, T)>, b: Seq<(Seq<char>, T, T)>, d: Seq<char>)
    ensures
        points_on(a + b, d) == points_on(a, d) + points_on(b, d),
    decreases a.len(),
{
    if a.len() == 0 {
        assert(a + b =~= b);
        assert(points_on(a, d) + points_on(b, d) =~= points_on(b, d));
    } else {
        assert((a + b).drop_first() =~= a.drop_first() + b);
        assert((a + b)[0] == a[0]);
        lemma_points_on_append(a.drop_first(), b, d);
        let h = if a[0].0 == d { seq![a[0]] } else { Seq::<(Seq<char>, T, T)>::empty() };
        assert(h + (points_on(a.drop_first(), d) + points_on(b, d)) =~= (h + points_on(
            a.drop_first(),
            d,
        )) + points_on(b, d));
    }
}

proof fn lemma_points_on_none<T>(s: Seq<(Seq<char>, T, T)>, d: Seq<char>)
    requires
        forall|k: int| 0 <= k < s.len() ==> (#[trigger] s[k]).0 != d,
    ensures
        points_on(s, d) == Seq::<(Seq<char>, T, T)>::empty(),
    decreases s.len(),
{
    if s.len() > 0 {
        assert forall|k: int| 0 <= k < s.drop_first().len() implies (
        #[trigger] s.drop_first()[k]).0 != d by {
            assert(s.drop_first()[k] == s[k + 1]);
        }
        lemma_points_on_none(s.drop_first(), d);
    }
}

proof fn lemma_points_on_single<T>(x: (Seq<char>, T, T), d: Seq<char>)
    ensures
        points_on(seq![x], d) == if x.0 == d {
            seq![x]
        } else {
            Seq::<(Seq<char>, T, T)>::empty()
        },
{
    let e = Seq::<(Seq<char>, T, T)>::empty();
    assert(seq![x].drop_first() =~= e);
    assert(points_on(e, d) == e);
    let h = if x.0 == d { seq![x] } else { e };
    assert(h + e =~= h);
}

proof fn lemma_points_on_insert<T>(s: Seq<(Seq<char>, T, T)>, x: (Seq<char>, T, T), d: Seq<char>)
    requires
        is_date_ordered(s),
    ensures
        points_on(insert_by_date(s, x), d) == points_on(s, d) + if x.0 == d {
            seq![x]
        } else {
            Seq::empty()
        },
    decreases s.len(),
{
    let tail = if x.0 == d { seq![x] } else { Seq::<(Seq<char>, T, T)>::empty() };
    if s.len() == 0 {
        lemma_points_on_single(x, d);
        assert(points_on(s, d) + tail =~= tail);
    } else if date_less(x.0, s[0].0) {
        lemma_points_on_append(seq![x], s, d);
        lemma_points_on_single(x, d);
        if x.0 == d {
            assert forall|k: int| 0 <= k < s.len() implies (#[trigger] s[k]).0 != d by {
                if s[k].0 == d {
                    if k > 0 {
                        assert(!date_less(s[k].0, s[0].0));
                    } else {
                        lemma_date_less_irreflexive(d);
                    }
                }
            }
            lemma_points_on_none(s, d);
            assert(tail + points_on(s, d) =~= points_on(s, d) + tail);
        } else {
            assert(tail + points_on(s, d) =~= points_on(s, d) + tail);
        }
    } else {
        let rest = s.drop_first();
        assert(is_date_ordered(rest)) by {
            assert forall|i: int, j: int| 0 <= i < j < rest.len() implies !date_less(
                #[trigger] rest[j].0,
                #[trigger] rest[i].0,
            ) by {
                assert(rest[i] == s[i + 1] && rest[j] == s[j + 1]);
            }
        }
        lemma_points_on_insert(rest, x, d);
        lemma_points_on_append(seq![s[0]], insert_by_date(rest, x), d);
        lemma_points_on_append(seq![s[0]], rest, d);
        assert(s =~= seq![s[0]] + rest);
        let h = points_on(seq![s[0]], d);
        assert(h + (points_on(rest, d) + tail) =~= (h + points_on(rest, d)) + tail);
    }
}

/// Law: ordering by date is stable: for every date, the points carrying that
/// date come back in the order in which they were handed in.
pub proof fn law_sorted_by_date_stable<T>(s: Seq<(Seq<char>, T, T)>, d: Seq<char>)
    ensures
        points_on(sorted_by_date(s), d) == points_on(s, d),
    decreases s.len(),
{
    if s.len() > 0 {
        let p = s.drop_last();
        law_sorted_by_date_stable(p, d);
        law_sorted_by_date_orders(p);
        lemma_points_on_insert(sorted_by_date(p), s.last(), d);
        assert(s =~= p + seq![s.last()]);
        lemma_points_on_append(p, seq![s.last()], d);
        lemma_points_on_single(s.last(), d);
    }
}

/// Law: the date order is the lexicographic order of character codes: when
/// two texts agree on their first `k` characters and differ at position `k`,
/// the one with the smaller code there comes first; a proper prefix comes
/// before the longer text; and no text comes before one of its prefixes.
pub proof fn law_date_order_is_lexicographic(a: Seq<char>, b: Seq<char>, k: int)
    requires
        0 <= k <= a.len(),
        k <= b.len(),
        a.take(k) == b.take(k),
    ensures
        k < a.len() && k < b.len() && a[k] != b[k] ==> (date_less(a, b) <==> (a[k] as u32) < (
        b[k] as u32)),
        k == a.len() && k < b.len() ==> date_less(a, b),
        k == b.len() ==> !date_less(a, b),
    decreases k,
{
    if k > 0 {
        assert(a[0] == a.take(k)[0] && b[0] == b.take(k)[0]);
        assert(a.drop_first().take(k - 1) =~= a.take(k).drop_first());
        assert(b.drop_first().take(k - 1) =~= b.take(k).drop_first());
        law_date_order_is_lexicographic(a.drop_first(), b.drop_first(), k - 1);
        if k < a.len() && k < b.len() {
            assert(a[k] == a.drop_first()[k - 1] && b[k] == b.drop_first()[k - 1]);
        }
    }
}

/// Law: the points placed on the calendar are, in bar order, one per bar whose
/// timestamp has an indicator value: its day label, that value and its close.
pub proof fn law_labelled_points_one_per_bar<T>(data: Seq<QuoteRecord<T>>, indicator: Map<u64, T>)
    ensures
        labelled_points(data, indicator) == data.filter(
            |r: QuoteRecord<T>| indicator.contains_key(r.timestamp),
        ).map_values(
            |r: QuoteRecord<T>|
                (
                    spec_format_timestamp(r.timestamp as i64, "%Y-%m-%d"@),
                    indicator[r.timestamp],
                    r.close,
                ),
        ),
    decreases data.len(),
{
    reveal_with_fuel(Seq::filter, 1);
    let pred = |r: QuoteRecord<T>| indicator.contains_key(r.timestamp);
    let f = |r: QuoteRecord<T>|
        (spec_format_timestamp(r.timestamp as i64, "%Y-%m-%d"@), indicator[r.timestamp], r.close);
    if data.len() > 0 {
        law_labelled_points_one_per_bar(data.drop_last(), indicator);
        let sub = data.drop_last().filter(pred);
        if pred(data.last()) {
            assert(sub.push(data.last()).map_values(f) =~= sub.map_values(f).push(f(data.last())));
        }
    } else {
        assert(data.filter(pred).map_values(f) =~= Seq::<(Seq<char>, T, T)>::empty());
    }
}

} // verus!
