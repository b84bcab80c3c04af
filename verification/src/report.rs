//! The snapshot as the status endpoint and the clipboard hand it out: a
//! JSON document and a Markdown report, both facts only.
use vstd::prelude::*;
use vstd::multiset::Multiset;
use vstd::relations::{sorted_by, total_ordering};
use crate::json::{
    duplicate, lemma_models, model_number, model_path, model_string, push_field, push_item, string_items, Json, JsonModel,
};
use crate::json_write::write_model;
use crate::roundtrip::{lemma_json_writable, writable};
use crate::level::Level;
use crate::monitor::{overall_of, state_views, ChannelState, Snapshot, SnapshotView, StateView};
use crate::number::{lemma_half_up, milli_text, push_milli};
use crate::text::{chars_of, push_char, push_str, push_uint, uint_text, views};

verus! {

/// The dot shown for a level.
pub open spec fn icon_text(level: Level) -> Seq<char> {
    match level {
        Level::Good => "🟢"@,
        Level::Warn => "🟡"@,
        Level::Bad => "🔴"@,
        Level::Off => "⚪"@,
        Level::Unknown => "⚫"@,
    }
}

pub fn level_icon(level: Level) -> (r: &'static str)
    ensures
        r@ == icon_text(level),
{
    match level {
        Level::Good => "🟢",
        Level::Warn => "🟡",
        Level::Bad => "🔴",
        Level::Off => "⚪",
        Level::Unknown => "⚫",
    }
}

/// `p / q` rounded to the nearest integer, halves away from zero.
pub open spec fn round_div(p: int, q: int) -> int {
    if p >= 0 {
        (2 * p + q) / (2 * q)
    } else {
        -((-2 * p + q) / (2 * q))
    }
}

/// A value in thousandths rounded to one decimal of its unit, still in
/// thousandths.
pub open spec fn round1(v: int) -> int {
    round_div(v, 100) * 100
}

/// A count or a spread held in a JSON number: beyond the largest `i64` it
/// stays there.
pub open spec fn capped(x: int) -> int {
    if x > i64::MAX {
        i64::MAX as int
    } else {
        x
    }
}

/// Rounding the mean of `k` values of at most `c` keeps it at most `c`
/// plus a half of the rounding step.
proof fn lemma_rounded_mean_bound(a: int, k: int, c: int)
    requires
        k >= 1,
        c >= 0,
        0 <= a <= c * k,
    ensures
        ((2 * a + 100 * k) / (200 * k)) * 200 <= 2 * c + 100,
{
    let x = 2 * a + 100 * k;
    let d = 200 * k;
    let m = x / d;
    vstd::arithmetic::div_mod::lemma_fundamental_div_mod(x, d);
    vstd::arithmetic::div_mod::lemma_mod_pos_bound(x, d);
    assert(m * 200 <= 2 * c + 100) by (nonlinear_arith)
        requires
            x == d * m + x % d,
            x % d >= 0,
            d == 200 * k,
            x == 2 * a + 100 * k,
            a <= c * k,
            k >= 1,
    ;
}

/// The mean of `k` values that sum to `p`, rounded to a tenth of a
/// millisecond (`round_div(p, 100 k)` hundreds of thousandths).
fn rounded_mean(p: i128, k: usize) -> (r: i64)
    requires
        k >= 1,
        i64::MIN * k <= p <= i64::MAX * k,
    ensures
        r == round_div(p as int, 100 * k) * 100,
{
    let d: i128 = 100 * (k as i128);
    let a: i128 = if p < 0 { -p } else { p };
    let q: i128 = a / d;
    let rem: i128 = a % d;
    let up: i128 = if 2 * rem >= d { 1 } else { 0 };
    let m: i128 = q + up;
    proof {
        lemma_half_up(a as int, d as int);
        lemma_rounded_mean_bound(a as int, k as int, 0x8000_0000_0000_0000int);
        assert(m == (2 * a + 100 * k) / (200 * k));
    }
    let v: i128 = m * 100;
    if p < 0 {
        (-v) as i64
    } else {
        v as i64
    }
}

/// A sample rounded to a tenth of a millisecond.
pub fn round_tenth(v: i64) -> (r: i64)
    ensures
        r == round1(v as int),
{
    rounded_mean(v as i128, 1)
}

/// `n` thousands, as a JSON number holds a count.
fn thousands(n: usize) -> (r: i64)
    ensures
        r == capped(n * 1000),
{
    let m: u64 = n as u64;
    if m > 9_223_372_036_854_775 {
        i64::MAX
    } else {
        (m as i64) * 1000
    }
}

/// The distance from `low` up to `high`.
fn gap(low: i64, high: i64) -> (r: i64)
    requires
        low <= high,
    ensures
        r == capped(high - low),
{
    let d: i128 = high as i128 - low as i128;
    if d > i64::MAX as i128 {
        i64::MAX
    } else {
        d as i64
    }
}

/// The samples that succeeded, in order.
pub open spec fn samples_of(h: Seq<Option<i64>>) -> Seq<i64>
    decreases h.len(),
{
    if h.len() == 0 {
        Seq::empty()
    } else {
        let rest = samples_of(h.drop_last());
        match h.last() {
            Some(v) => rest.push(v),
            None => rest,
        }
    }
}

pub proof fn lemma_samples_of_len(h: Seq<Option<i64>>)
    ensures
        samples_of(h).len() <= h.len(),
    decreases h.len(),
{
    if h.len() > 0 {
        lemma_samples_of_len(h.drop_last());
    }
}

pub open spec fn ascending() -> spec_fn(i64, i64) -> bool {
    |a: i64, b: i64| a <= b
}

pub proof fn lemma_ascending_total()
    ensures
        total_ordering(ascending()),
{
}

/// The samples from smallest to largest.
pub open spec fn sorted_samples(h: Seq<Option<i64>>) -> Seq<i64> {
    samples_of(h).sort_by(ascending())
}

pub open spec fn total(s: Seq<i64>) -> int
    decreases s.len(),
{
    if s.len() == 0 {
        0
    } else {
        total(s.drop_last()) + s.last()
    }
}

/// Sorts samples from smallest to largest.
pub fn sort_ascending(v: &Vec<i64>) -> (r: Vec<i64>)
    ensures
        r@ == v@.sort_by(ascending()),
{
    let mut rest: Vec<i64> = Vec::new();
    let mut i: usize = 0;
    while i < v.len()
        invariant
            i <= v.len(),
            rest@ == v@.take(i as int),
        decreases v.len() - i,
    {
        rest.push(v[i]);
        assert(rest@ =~= v@.take(i + 1));
        i += 1;
    }
    assert(v@.take(i as int) =~= v@);
    let mut out: Vec<i64> = Vec::new();
    proof {
        broadcast use vstd::multiset::group_multiset_axioms;

        out@.to_multiset_ensures();
        vstd::multiset::lemma_multiset_empty_len(out@.to_multiset());
        assert(out@.to_multiset() =~= Multiset::<i64>::empty());
        assert(out@.to_multiset().add(rest@.to_multiset()) =~= v@.to_multiset());
    }
    while rest.len() > 0
        invariant
            out@.to_multiset().add(rest@.to_multiset()) == v@.to_multiset(),
            sorted_by(out@, ascending()),
            forall|a: int, b: int| 0 <= a < out@.len() && 0 <= b < rest@.len() ==> out@[a] <= rest@[b],
        decreases rest.len(),
    {
        let mut m: usize = 0;
        let mut k: usize = 1;
        while k < rest.len()
            invariant
                0 <= m < rest.len(),
                1 <= k <= rest.len(),
                forall|j: int| 0 <= j < k ==> rest@[m as int] <= rest@[j],
            decreases rest.len() - k,
        {
            if rest[k] < rest[m] {
                m = k;
            }
            k += 1;
        }
        let ghost before_rest = rest@;
        let ghost before_out = out@;
        let x = rest.remove(m);
        out.push(x);
        assert(rest@ == before_rest.remove(m as int));
        assert(out@ == before_out.push(x));
        proof {
            broadcast use vstd::multiset::group_multiset_axioms;

            before_rest.to_multiset_ensures();
            before_out.to_multiset_ensures();
            assert(before_rest[m as int] == x);
            assert(before_rest.contains(x));
            assert(before_rest.to_multiset().count(x) > 0);
            assert(rest@.to_multiset() == before_rest.to_multiset().remove(x));
            assert(out@.to_multiset() == before_out.to_multiset().insert(x));
            assert(out@.to_multiset().add(rest@.to_multiset()) =~= before_out.to_multiset().add(
                before_rest.to_multiset(),
            ));
        }
        assert forall|a: int, b: int| 0 <= a < out@.len() && 0 <= b < rest@.len() implies out@[a] <= rest@[b] by {
            if b < m {
                assert(rest@[b] == before_rest[b]);
            } else {
                assert(rest@[b] == before_rest[b + 1]);
            }
        }
        assert(sorted_by(out@, ascending())) by {
            assert forall|a: int, b: int| 0 <= a < b < out@.len() implies #[trigger] (ascending())(out@[a], out@[b]) by {
                if b == out@.len() - 1 && a < before_out.len() {
                    assert(before_out[a] <= before_rest[m as int]);
                }
            }
        }
    }
    proof {
        broadcast use vstd::multiset::group_multiset_axioms;

        rest@.to_multiset_ensures();
        vstd::multiset::lemma_multiset_empty_len(rest@.to_multiset());
        assert(out@.to_multiset() =~= v@.to_multiset());

        lemma_ascending_total();
        v@.lemma_sort_by_ensures(ascending());
        vstd::seq_lib::lemma_sorted_unique(out@, v@.sort_by(ascending()), ascending());
    }
    out
}

} // verus!

verus! {

pub open spec fn num(n: int) -> JsonModel {
    JsonModel::Num(n)
}

/// The summary of a history: counts, then, when a sample succeeded, the
/// last one, the smallest, largest and median, the mean and the spread,
/// each rounded to a tenth of a millisecond.
pub open spec fn stats_fields(h: Seq<Option<i64>>) -> Seq<(Seq<char>, JsonModel)> {
    let values = samples_of(h);
    let k = values.len() as int;
    let counts = seq![
        ("samples"@, num(capped(h.len() as int * 1000))),
        ("ok"@, num(capped(k * 1000))),
        ("failed"@, num(capped((h.len() - k) * 1000))),
    ];
    if k == 0 {
        counts
    } else {
        let sorted = sorted_samples(h);
        counts + seq![
            ("last_ms"@, num(round1(values.last() as int))),
            ("min_ms"@, num(round1(sorted[0] as int))),
            ("max_ms"@, num(round1(sorted[k - 1] as int))),
            ("median_ms"@, num(round1(sorted[k / 2] as int))),
            ("mean_ms"@, num(round_div(total(values), 100 * k) * 100)),
            ("jitter_ms"@, num(round1(capped(sorted[k - 1] - sorted[0])))),
        ]
    }
}

/// The samples that succeeded, with what is known of them.
fn successes(history: &Vec<Option<i64>>) -> (r: (Vec<i64>, i128))
    ensures
        r.0@ == samples_of(history@),
        r.1 as int == total(samples_of(history@)),
        r.0@.len() <= history@.len(),
        i64::MIN * r.0@.len() <= r.1 <= i64::MAX * r.0@.len(),
{
    let mut values: Vec<i64> = Vec::new();
    let mut sum: i128 = 0;
    let mut i: usize = 0;
    while i < history.len()
        invariant
            i <= history.len(),
            values@ == samples_of(history@.take(i as int)),
            sum as int == total(values@),
            values@.len() <= i,
            i64::MIN * values@.len() <= sum <= i64::MAX * values@.len(),
        decreases history.len() - i,
    {
        let ghost taken = history@.take(i + 1);
        assert(taken.drop_last() =~= history@.take(i as int));
        assert(taken.last() == history@[i as int]);
        match history[i] {
            Some(v) => {
                let ghost before = values@;
                values.push(v);
                assert(values@.drop_last() =~= before);
                sum = sum + v as i128;
            },
            None => {},
        }
        i += 1;
    }
    assert(history@.take(i as int) =~= history@);
    (values, sum)
}

/// The summary of a history as a JSON object.
pub fn stats(history: &Vec<Option<i64>>) -> (r: Json)
    ensures
        r.model() == JsonModel::Obj(stats_fields(history@)),
{
    let (values, sum) = successes(history);
    let k = values.len();
    let n = history.len();
    let mut fields: Vec<(String, Json)> = Vec::new();
    assert(Json::field_models(fields@) =~= Seq::<(Seq<char>, JsonModel)>::empty());
    push_field(&mut fields, "samples", Json::Num(thousands(n)));
    push_field(&mut fields, "ok", Json::Num(thousands(k)));
    push_field(&mut fields, "failed", Json::Num(thousands(n - k)));
    let ghost counts = Json::field_models(fields@);
    if k == 0 {
        assert(counts =~= stats_fields(history@));
        return Json::Obj(fields);
    }
    let sorted = sort_ascending(&values);
    proof {
        lemma_ascending_total();
        values@.lemma_sort_by_ensures(ascending());
        values@.to_multiset_ensures();
        sorted@.to_multiset_ensures();
    }
    assert(sorted@.len() == k);
    let low = sorted[0];
    let high = sorted[k - 1];
    let middle = sorted[k / 2];
    let last = values[k - 1];
    push_field(&mut fields, "last_ms", Json::Num(round_tenth(last)));
    push_field(&mut fields, "min_ms", Json::Num(round_tenth(low)));
    push_field(&mut fields, "max_ms", Json::Num(round_tenth(high)));
    push_field(&mut fields, "median_ms", Json::Num(round_tenth(middle)));
    push_field(&mut fields, "mean_ms", Json::Num(rounded_mean(sum, k)));
    proof {
        if k > 1 {
            assert((ascending())(sorted@[0], sorted@[k - 1]));
        }
    }
    assert(low <= high);
    push_field(&mut fields, "jitter_ms", Json::Num(round_tenth(gap(low, high))));
    assert(Json::field_models(fields@) =~= stats_fields(history@));
    Json::Obj(fields)
}

} // verus!

verus! {

pub open spec fn sample_json(v: Option<i64>) -> JsonModel {
    match v {
        Some(x) => num(round1(x as int)),
        None => JsonModel::Null,
    }
}

/// One channel in the JSON report.
pub open spec fn state_json(c: StateView) -> JsonModel {
    JsonModel::Obj(
        seq![
            ("name"@, JsonModel::Str(c.name)),
            ("level"@, JsonModel::Str(c.level.key_text())),
            ("level_text"@, JsonModel::Str(c.level.label_text())),
            ("status"@, JsonModel::Str(c.status)),
            ("detail"@, JsonModel::Str(c.detail)),
            ("last_latency_ms"@, sample_json(c.latency_ms)),
            ("stats"@, JsonModel::Obj(stats_fields(c.history))),
            ("history_ms"@, JsonModel::Arr(c.history.map_values(|v: Option<i64>| sample_json(v)))),
        ],
    )
}

/// The JSON report of a snapshot.
pub open spec fn report_json(s: SnapshotView) -> JsonModel {
    let (level, status) = overall_of(s.channels);
    JsonModel::Obj(
        seq![
            ("generated_at"@, JsonModel::Str(s.stamp)),
            ("overall_level"@, JsonModel::Str(level.key_text())),
            ("overall_text"@, JsonModel::Str(status)),
            ("channels"@, JsonModel::Obj(s.channels.map_values(|c: StateView| (c.key, state_json(c))))),
            (
                "environment"@,
                JsonModel::Obj(
                    seq![
                        (
                            "system_proxy"@,
                            JsonModel::Obj(
                                seq![
                                    ("enabled"@, JsonModel::Bool(s.proxy_enabled)),
                                    ("server"@, JsonModel::Str(s.proxy_server)),
                                ],
                            ),
                        ),
                        ("clash"@, JsonModel::Str(s.clash_meta)),
                        ("context"@, s.extra),
                    ],
                ),
            ),
        ],
    )
}

fn sample_value(v: Option<i64>) -> (r: Json)
    ensures
        r.model() == sample_json(v),
{
    match v {
        Some(x) => Json::Num(round_tenth(x)),
        None => Json::Null,
    }
}

fn state_value(c: &ChannelState) -> (r: Json)
    ensures
        r.model() == state_json(c@),
{
    let mut samples: Vec<Json> = Vec::new();
    let ghost want = c@.history.map_values(|v: Option<i64>| sample_json(v));
    let mut i: usize = 0;
    assert(Json::models(samples@) =~= want.take(0));
    while i < c.history.len()
        invariant
            i <= c.history.len(),
            want == c@.history.map_values(|v: Option<i64>| sample_json(v)),
            Json::models(samples@) == want.take(i as int),
        decreases c.history.len() - i,
    {
        assert(c@.history[i as int] == c.history@[i as int]);
        push_item(&mut samples, sample_value(c.history[i]));
        assert(want.take(i + 1) =~= want.take(i as int).push(sample_json(c.history@[i as int])));
        i += 1;
    }
    assert(want.take(i as int) =~= want);
    let mut f: Vec<(String, Json)> = Vec::new();
    assert(Json::field_models(f@) =~= Seq::<(Seq<char>, JsonModel)>::empty());
    push_field(&mut f, "name", Json::Str(c.name.clone()));
    push_field(&mut f, "level", Json::Str(c.level.key().to_owned()));
    push_field(&mut f, "level_text", Json::Str(c.level.text().to_owned()));
    push_field(&mut f, "status", Json::Str(c.status.clone()));
    push_field(&mut f, "detail", Json::Str(c.detail.clone()));
    push_field(&mut f, "last_latency_ms", sample_value(c.latency_ms));
    push_field(&mut f, "stats", stats(&c.history));
    push_field(&mut f, "history_ms", Json::Arr(samples));
    let ghost fields = match state_json(c@) {
        JsonModel::Obj(x) => x,
        _ => Seq::empty(),
    };
    assert(Json::field_models(f@) =~= fields);
    Json::Obj(f)
}

/// The JSON report of a snapshot, indented.
pub fn to_json(snapshot: &Snapshot) -> (r: String)
    ensures
        r@ == write_model(report_json(snapshot@), 0, true),
        writable(report_json(snapshot@)),
{
    let ghost chs = snapshot@.channels;
    let mut channels: Vec<(String, Json)> = Vec::new();
    let ghost want = chs.map_values(|c: StateView| (c.key, state_json(c)));
    let mut i: usize = 0;
    assert(Json::field_models(channels@) =~= want.take(0));
    while i < snapshot.channels.len()
        invariant
            i <= snapshot.channels.len(),
            chs == snapshot@.channels,
            want == chs.map_values(|c: StateView| (c.key, state_json(c))),
            Json::field_models(channels@) == want.take(i as int),
        decreases snapshot.channels.len() - i,
    {
        let c = &snapshot.channels[i];
        assert(chs[i as int] == c@);
        let value = state_value(c);
        push_field(&mut channels, c.key.as_str(), value);
        assert(want.take(i + 1) =~= want.take(i as int).push((c@.key, state_json(c@))));
        i += 1;
    }
    assert(want.take(i as int) =~= want);
    let (level, status) = snapshot.overall();
    let mut proxy: Vec<(String, Json)> = Vec::new();
    assert(Json::field_models(proxy@) =~= Seq::<(Seq<char>, JsonModel)>::empty());
    push_field(&mut proxy, "enabled", Json::Bool(snapshot.proxy_enabled));
    push_field(&mut proxy, "server", Json::Str(snapshot.proxy_server.clone()));
    let mut environment: Vec<(String, Json)> = Vec::new();
    assert(Json::field_models(environment@) =~= Seq::<(Seq<char>, JsonModel)>::empty());
    push_field(&mut environment, "system_proxy", Json::Obj(proxy));
    push_field(&mut environment, "clash", Json::Str(snapshot.clash_meta.clone()));
    push_field(&mut environment, "context", duplicate(&snapshot.extra));
    let mut root: Vec<(String, Json)> = Vec::new();
    assert(Json::field_models(root@) =~= Seq::<(Seq<char>, JsonModel)>::empty());
    push_field(&mut root, "generated_at", Json::Str(snapshot.stamp.clone()));
    push_field(&mut root, "overall_level", Json::Str(level.key().to_owned()));
    push_field(&mut root, "overall_text", Json::Str(status));
    push_field(&mut root, "channels", Json::Obj(channels));
    push_field(&mut root, "environment", Json::Obj(environment));
    let report = Json::Obj(root);
    let ghost top = match report_json(snapshot@) {
        JsonModel::Obj(x) => x,
        _ => Seq::empty(),
    };
    assert(Json::field_models(channels@) =~= want);
    assert(top[3] == ("channels"@, JsonModel::Obj(want)));
    assert(Json::field_models(root@)[3] == top[3]);
    assert(Json::field_models(proxy@) =~= seq![
        ("enabled"@, JsonModel::Bool(snapshot@.proxy_enabled)),
        ("server"@, JsonModel::Str(snapshot@.proxy_server)),
    ]);
    assert(Json::field_models(environment@) =~= seq![
        (
            "system_proxy"@,
            JsonModel::Obj(
                seq![
                    ("enabled"@, JsonModel::Bool(snapshot@.proxy_enabled)),
                    ("server"@, JsonModel::Str(snapshot@.proxy_server)),
                ],
            ),
        ),
        ("clash"@, JsonModel::Str(snapshot@.clash_meta)),
        ("context"@, snapshot@.extra),
    ]);
    assert(Json::field_models(root@)[4] == top[4]);
    assert(Json::field_models(root@)[1] == top[1]);
    assert(Json::field_models(root@)[2] == top[2]);
    assert(Json::field_models(root@) =~= top);
    proof {
        lemma_json_writable(report);
    }
    report.to_string_pretty()
}

} // verus!

verus! {

/// `n / 1000` rounded to an integer, halves to even, for `n >= 0`.
pub open spec fn rounded_thousandths(n: nat) -> nat {
    let q = n / 1000;
    let r = n % 1000;
    if r > 500 || (r == 500 && q % 2 == 1) {
        q + 1
    } else {
        q
    }
}

/// A value in thousandths printed with no decimals, as `{:.0}` prints the
/// number (halves go to the even neighbour; a negative value keeps its
/// sign).
pub open spec fn whole_text(v: int) -> Seq<char> {
    if v < 0 {
        seq!['-'] + uint_text(rounded_thousandths((-v) as nat))
    } else {
        uint_text(rounded_thousandths(v as nat))
    }
}

pub fn push_whole(out: &mut String, v: i64)
    ensures
        final(out)@ == old(out)@ + whole_text(v as int),
{
    let n: u64 = if v < 0 {
        if v == i64::MIN {
            9223372036854775808u64
        } else {
            (-v) as u64
        }
    } else {
        v as u64
    };
    let q = n / 1000;
    let r = n % 1000;
    let rounded = if r > 500 || (r == 500 && q % 2 == 1) { q + 1 } else { q };
    if v < 0 {
        push_char(out, '-');
    }
    push_uint(out, rounded);
}

/// A value in thousandths rounded to a tenth, printed as `{}` prints it.
pub open spec fn tenth_text(v: int) -> Seq<char> {
    milli_text(round1(v))
}

/// Items joined by a separator.
pub open spec fn join_seq(items: Seq<Seq<char>>, sep: Seq<char>) -> Seq<char>
    decreases items.len(),
{
    if items.len() == 0 {
        Seq::empty()
    } else if items.len() == 1 {
        items[0]
    } else {
        join_seq(items.drop_last(), sep) + sep + items.last()
    }
}

pub fn join_with(items: &Vec<String>, sep: &str) -> (r: String)
    ensures
        r@ == join_seq(views(items@), sep@),
{
    let mut out = String::new();
    let mut i: usize = 0;
    assert(views(items@).take(0) =~= Seq::<Seq<char>>::empty());
    while i < items.len()
        invariant
            i <= items.len(),
            out@ == join_seq(views(items@).take(i as int), sep@),
        decreases items.len() - i,
    {
        let ghost taken = views(items@).take(i + 1);
        assert(taken.drop_last() =~= views(items@).take(i as int));
        assert(taken.last() == items@[i as int]@);
        if i > 0 {
            push_str(&mut out, sep);
        } else {
            assert(taken =~= seq![items@[0]@]);
            assert(out@ =~= Seq::<char>::empty());
        }
        push_str(&mut out, items[i].as_str());
        i += 1;
    }
    assert(views(items@).take(i as int) =~= views(items@));
    out
}

/// A text with every `|` turned into `/`, so that it fits a table cell.
pub open spec fn cell_text(t: Seq<char>) -> Seq<char> {
    t.map_values(|c: char| if c == '|' { '/' } else { c })
}

fn push_cell(out: &mut String, t: &str)
    ensures
        final(out)@ == old(out)@ + cell_text(t@),
{
    let chars = chars_of(t);
    let ghost before = out@;
    let mut i: usize = 0;
    while i < chars.len()
        invariant
            i <= chars.len(),
            chars@ == t@,
            out@ == before + cell_text(t@).take(i as int),
        decreases chars.len() - i,
    {
        let c = chars[i];
        push_char(out, if c == '|' { '/' } else { c });
        assert(cell_text(t@).take(i + 1) =~= cell_text(t@).take(i as int).push(if c == '|' { '/' } else { c }));
        i += 1;
    }
    assert(cell_text(t@).take(i as int) =~= cell_text(t@));
}

/// The string items of an array value, joined by `, `; empty for
/// anything else.
pub open spec fn joined_strings(node: Option<JsonModel>) -> Seq<char> {
    match node {
        Some(JsonModel::Arr(items)) => join_seq(string_items(items), ", "@),
        _ => Seq::empty(),
    }
}

pub fn join_strings(node: Option<&Json>) -> (r: String)
    ensures
        r@ == joined_strings(
            match node {
                Some(v) => Some(v.model()),
                None => None,
            },
        ),
{
    let mut out: Vec<String> = Vec::new();
    match node {
        Some(v) => match v.as_arr() {
            Some(items) => {
                let ghost ms = Json::models(items@);
                proof {
                    lemma_models(items@);
                }
                let mut i: usize = 0;
                assert(ms.take(0) =~= Seq::<JsonModel>::empty());
                assert(views(out@) =~= Seq::<Seq<char>>::empty());
                while i < items.len()
                    invariant
                        i <= items.len(),
                        ms == Json::models(items@),
                        ms.len() == items.len(),
                        views(out@) == string_items(ms.take(i as int)),
                    decreases items.len() - i,
                {
                    proof {
                        lemma_models(items@);
                    }
                    assert(ms.take(i + 1).drop_last() =~= ms.take(i as int));
                    assert(ms.take(i + 1).last() == items@[i as int].model());
                    let ghost before = out@;
                    match items[i].as_str() {
                        Some(t) => {
                            out.push(t.to_owned());
                            assert(views(out@) =~= views(before).push(t@));
                        },
                        None => {},
                    }
                    i += 1;
                }
                assert(ms.take(items.len() as int) =~= ms);
                join_with(&out, ", ")
            },
            None => String::new(),
        },
        None => String::new(),
    }
}

} // verus!

verus! {

pub open spec fn latency_cell(v: Option<i64>) -> Seq<char> {
    match v {
        Some(x) => whole_text(x as int) + " ms"@,
        None => "-"@,
    }
}

/// Smallest, median, largest and spread of the samples that succeeded,
/// or dashes when none did.
pub open spec fn spread_cells(h: Seq<Option<i64>>) -> (Seq<char>, Seq<char>, Seq<char>, Seq<char>) {
    let s = sorted_samples(h);
    let k = s.len() as int;
    if k == 0 {
        ("-"@, "-"@, "-"@, "-"@)
    } else {
        (tenth_text(s[0] as int), tenth_text(s[k / 2] as int), tenth_text(s[k - 1] as int), tenth_text(capped(s[k - 1] - s[0])))
    }
}

/// One channel's row of the status table.
pub open spec fn row_text(c: StateView) -> Seq<char> {
    let (low, middle, high, spread) = spread_cells(c.history);
    "| "@ + c.name + " | "@ + icon_text(c.level) + " "@ + c.status + " | "@ + latency_cell(c.latency_ms) + " | "@
        + uint_text(samples_of(c.history).len()) + "/"@ + uint_text(c.history.len()) + " | "@ + low + "/"@
        + middle + "/"@ + high + " | "@ + spread + " | "@ + cell_text(c.detail) + " |"@
}

pub open spec fn sample_text(v: Option<i64>) -> Seq<char> {
    match v {
        Some(x) => whole_text(x as int),
        None => "null"@,
    }
}

/// One channel's raw samples.
pub open spec fn raw_text(c: StateView) -> Seq<char> {
    "- "@ + c.name + "：["@ + join_seq(c.history.map_values(|v: Option<i64>| sample_text(v)), ", "@) + "]"@
}

fn push_spread(out: &mut String, history: &Vec<Option<i64>>)
    ensures
        ({
            let (low, middle, high, spread) = spread_cells(history@);
            final(out)@ == old(out)@ + low + "/"@ + middle + "/"@ + high + " | "@ + spread
        }),
{
    let (values, _) = successes(history);
    let sorted = sort_ascending(&values);
    proof {
        lemma_ascending_total();
        values@.lemma_sort_by_ensures(ascending());
    }
    let k = sorted.len();
    if k == 0 {
        push_str(out, "-/-/- | -");
        proof {
            reveal_strlit("-/-/- | -");
            reveal_strlit("-");
            reveal_strlit("/");
            reveal_strlit(" | ");
        }
        return;
    }
    let low = sorted[0];
    let high = sorted[k - 1];
    proof {
        if k > 1 {
            assert((ascending())(sorted@[0], sorted@[k - 1]));
        }
    }
    push_milli(out, round_tenth(low));
    push_str(out, "/");
    push_milli(out, round_tenth(sorted[k / 2]));
    push_str(out, "/");
    push_milli(out, round_tenth(high));
    push_str(out, " | ");
    push_milli(out, round_tenth(gap(low, high)));
}

/// One channel's row of the status table.
#[verifier::spinoff_prover]
#[verifier::rlimit(50)]
pub fn channel_row(c: &ChannelState) -> (r: String)
    ensures
        r@ == row_text(c@),
{
    let mut out = "| ".to_owned();
    push_str(&mut out, c.name.as_str());
    push_str(&mut out, " | ");
    push_str(&mut out, level_icon(c.level));
    push_str(&mut out, " ");
    push_str(&mut out, c.status.as_str());
    push_str(&mut out, " | ");
    match c.latency_ms {
        Some(v) => {
            push_whole(&mut out, v);
            push_str(&mut out, " ms");
        },
        None => push_str(&mut out, "-"),
    }
    push_str(&mut out, " | ");
    let (values, _) = successes(&c.history);
    push_uint(&mut out, values.len() as u64);
    push_str(&mut out, "/");
    push_uint(&mut out, c.history.len() as u64);
    push_str(&mut out, " | ");
    push_spread(&mut out, &c.history);
    push_str(&mut out, " | ");
    push_cell(&mut out, c.detail.as_str());
    push_str(&mut out, " |");
    out
}

/// One channel's raw samples.
pub fn raw_line(c: &ChannelState) -> (r: String)
    ensures
        r@ == raw_text(c@),
{
    let mut items: Vec<String> = Vec::new();
    let ghost want = c@.history.map_values(|v: Option<i64>| sample_text(v));
    let mut i: usize = 0;
    assert(views(items@) =~= want.take(0));
    while i < c.history.len()
        invariant
            i <= c.history.len(),
            want == c@.history.map_values(|v: Option<i64>| sample_text(v)),
            views(items@) == want.take(i as int),
        decreases c.history.len() - i,
    {
        let text = match c.history[i] {
            Some(v) => {
                let mut t = String::new();
                push_whole(&mut t, v);
                t
            },
            None => "null".to_owned(),
        };
        assert(text@ == sample_text(c@.history[i as int]));
        let ghost before = views(items@);
        items.push(text);
        assert(views(items@) =~= before.push(text@));
        assert(want.take(i + 1) =~= want.take(i as int).push(text@));
        i += 1;
    }
    assert(want.take(i as int) =~= want);
    let mut out = "- ".to_owned();
    push_str(&mut out, c.name.as_str());
    push_str(&mut out, "：[");
    let joined = join_with(&items, ", ");
    push_str(&mut out, joined.as_str());
    push_str(&mut out, "]");
    out
}

} // verus!

verus! {

pub open spec fn dash(t: Seq<char>) -> Seq<char> {
    if t.len() == 0 {
        "-"@
    } else {
        t
    }
}

pub open spec fn proxy_line(s: SnapshotView) -> Seq<char> {
    "- 系统代理："@ + (if s.proxy_enabled {
        "开启"@
    } else {
        "关闭"@
    }) + (if s.proxy_server.len() == 0 {
        Seq::empty()
    } else {
        "（"@ + s.proxy_server + "）"@
    })
}

pub open spec fn vpn_text(v: JsonModel) -> Seq<char> {
    let adapter = model_string(v, "adapter"@, Seq::empty());
    "- VPN 网卡："@ + (if adapter.len() == 0 {
        "已连接"@
    } else {
        adapter
    }) + "（本机 "@ + dash(joined_strings(model_path(v, "ipv4"@))) + "，网关 "@ + dash(
        joined_strings(model_path(v, "gateway"@)),
    ) + "，DNS "@ + dash(joined_strings(model_path(v, "dns"@))) + "）"@
}

pub open spec fn target_line(t: JsonModel, key: Seq<char>) -> Seq<Seq<char>> {
    let list = joined_strings(model_path(t, key));
    if list.len() > 0 {
        seq!["- "@ + key + " 探测目标："@ + list]
    } else {
        Seq::empty()
    }
}

pub open spec fn limit_part(t: JsonModel, key: Seq<char>) -> Seq<Seq<char>> {
    match model_path(t, key) {
        Some(item) => seq![
            key + " 正常≤"@ + whole_text(model_number(item, "good"@, 0)) + "ms、偏慢≤"@ + whole_text(
                model_number(item, "warn"@, 0),
            ) + "ms"@,
        ],
        None => Seq::empty(),
    }
}

/// The environment section after the proxy line: the controller line, the
/// VPN adapter, the targets and the thresholds, each when known.
pub open spec fn environment_lines(s: SnapshotView) -> Seq<Seq<char>> {
    let meta = if s.clash_meta.len() > 0 {
        seq!["- Clash："@ + s.clash_meta]
    } else {
        Seq::empty()
    };
    let vpn = match model_path(s.extra, "vpn"@) {
        Some(v) => seq![vpn_text(v)],
        None => Seq::empty(),
    };
    let targets = match model_path(s.extra, "targets"@) {
        Some(t) => target_line(t, "clash"@) + target_line(t, "vpn"@) + target_line(t, "direct"@),
        None => Seq::empty(),
    };
    let limits = match model_path(s.extra, "thresholds"@) {
        Some(t) => {
            let parts = limit_part(t, "clash"@) + limit_part(t, "vpn"@) + limit_part(t, "direct"@);
            if parts.len() > 0 {
                seq!["- 判定阈值："@ + join_seq(parts, "；"@)]
            } else {
                Seq::empty()
            }
        },
        None => Seq::empty(),
    };
    meta + vpn + targets + limits
}

/// The longest history among the channels.
pub open spec fn longest(chs: Seq<StateView>) -> nat
    decreases chs.len(),
{
    if chs.len() == 0 {
        0
    } else {
        let a = longest(chs.drop_last());
        let b = chs.last().history.len();
        if a >= b {
            a
        } else {
            b
        }
    }
}

/// The lines of the Markdown report.
pub open spec fn report_lines(s: SnapshotView) -> Seq<Seq<char>> {
    let interval = model_number(s.extra, "interval_seconds"@, 5000);
    seq![
        "# 办公网络状态报告"@,
        Seq::empty(),
        "- 生成时间："@ + s.stamp + "（采样间隔 "@ + milli_text(interval) + " 秒，每条通道保留最近 "@ + uint_text(
            longest(s.channels),
        ) + " 次）"@,
        "- 总体状态："@ + overall_of(s.channels).1,
        Seq::empty(),
        "## 通道状态"@,
        Seq::empty(),
        "| 通道 | 状态 | 最近延迟 | 成功率 | 最小/中位/最大 | 抖动 | 说明 |"@,
        "| --- | --- | --- | --- | --- | --- | --- |"@,
    ] + s.channels.map_values(|c: StateView| row_text(c)) + seq![
        Seq::empty(),
        "> 状态含义：🟢 正常 ｜ 🟡 偏慢（超过告警阈值）｜ 🔴 极慢或不通 ｜ ⚪ 未连接 / 未启用 / 未配置"@,
        Seq::empty(),
        "## 本机环境"@,
        Seq::empty(),
        proxy_line(s),
    ] + environment_lines(s) + seq![Seq::empty(), "## 原始采样（ms，null 表示该次失败）"@, Seq::empty()]
        + s.channels.map_values(|c: StateView| raw_text(c)) + seq![Seq::<char>::empty()]
}

/// The Markdown report: its lines joined by newlines.
pub open spec fn report_markdown(s: SnapshotView) -> Seq<char> {
    join_seq(report_lines(s), seq!['\n'])
}

fn add_line(lines: &mut Vec<String>, line: String)
    ensures
        views(final(lines)@) == views(old(lines)@).push(line@),
{
    let ghost before = views(lines@);
    lines.push(line);
    assert(views(lines@) =~= before.push(line@));
}

fn add_lines(lines: &mut Vec<String>, more: Vec<String>)
    ensures
        views(final(lines)@) == views(old(lines)@) + views(more@),
{
    let ghost before = views(lines@);
    let mut i: usize = 0;
    while i < more.len()
        invariant
            i <= more.len(),
            views(lines@) == before + views(more@).take(i as int),
        decreases more.len() - i,
    {
        add_line(lines, more[i].clone());
        assert(views(more@).take(i + 1) =~= views(more@).take(i as int).push(more@[i as int]@));
        i += 1;
    }
    assert(views(more@).take(i as int) =~= views(more@));
}

fn target_lines_of(t: &Json, key: &str) -> (r: Vec<String>)
    ensures
        views(r@) == target_line(t.model(), key@),
{
    let mut r: Vec<String> = Vec::new();
    let list = join_strings(t.path(key));
    if !list.as_str().is_empty() {
        let mut line = "- ".to_owned();
        push_str(&mut line, key);
        push_str(&mut line, " 探测目标：");
        push_str(&mut line, list.as_str());
        add_line(&mut r, line);
    }
    assert(views(r@) =~= target_line(t.model(), key@));
    r
}

fn limit_part_of(t: &Json, key: &str) -> (r: Vec<String>)
    ensures
        views(r@) == limit_part(t.model(), key@),
{
    let mut r: Vec<String> = Vec::new();
    match t.path(key) {
        Some(item) => {
            let mut part = key.to_owned();
            push_str(&mut part, " 正常≤");
            push_whole(&mut part, item.number("good", 0));
            push_str(&mut part, "ms、偏慢≤");
            push_whole(&mut part, item.number("warn", 0));
            push_str(&mut part, "ms");
            add_line(&mut r, part);
        },
        None => {},
    }
    assert(views(r@) =~= limit_part(t.model(), key@));
    r
}

fn or_dash(t: String) -> (r: String)
    ensures
        r@ == dash(t@),
{
    if t.as_str().is_empty() {
        "-".to_owned()
    } else {
        t
    }
}

#[verifier::spinoff_prover]
#[verifier::rlimit(50)]
fn environment_of(s: &Snapshot) -> (r: Vec<String>)
    ensures
        views(r@) == environment_lines(s@),
{
    let mut lines: Vec<String> = Vec::new();
    assert(views(lines@) =~= Seq::<Seq<char>>::empty());
    if !s.clash_meta.as_str().is_empty() {
        let mut line = "- Clash：".to_owned();
        push_str(&mut line, s.clash_meta.as_str());
        add_line(&mut lines, line);
    }
    let ghost after_meta = views(lines@);
    match s.extra.path("vpn") {
        Some(v) => {
            let adapter = v.string("adapter", "");
            proof {
                reveal_strlit("");
            }
            let mut line = "- VPN 网卡：".to_owned();
            if adapter.as_str().is_empty() {
                push_str(&mut line, "已连接");
            } else {
                push_str(&mut line, adapter.as_str());
            }
            push_str(&mut line, "（本机 ");
            let ipv4 = or_dash(join_strings(v.path("ipv4")));
            push_str(&mut line, ipv4.as_str());
            push_str(&mut line, "，网关 ");
            let gateway = or_dash(join_strings(v.path("gateway")));
            push_str(&mut line, gateway.as_str());
            push_str(&mut line, "，DNS ");
            let dns = or_dash(join_strings(v.path("dns")));
            push_str(&mut line, dns.as_str());
            push_str(&mut line, "）");
            assert(line@ == vpn_text(v.model()));
            add_line(&mut lines, line);
        },
        None => {},
    }
    let ghost after_vpn = views(lines@);
    match s.extra.path("targets") {
        Some(t) => {
            add_lines(&mut lines, target_lines_of(t, "clash"));
            add_lines(&mut lines, target_lines_of(t, "vpn"));
            add_lines(&mut lines, target_lines_of(t, "direct"));
        },
        None => {},
    }
    let ghost after_targets = views(lines@);
    match s.extra.path("thresholds") {
        Some(t) => {
            let mut parts = limit_part_of(t, "clash");
            add_lines(&mut parts, limit_part_of(t, "vpn"));
            add_lines(&mut parts, limit_part_of(t, "direct"));
            if parts.len() > 0 {
                let mut line = "- 判定阈值：".to_owned();
                let joined = join_with(&parts, "；");
                push_str(&mut line, joined.as_str());
                add_line(&mut lines, line);
            }
        },
        None => {},
    }
    assert(views(lines@) =~= environment_lines(s@));
    lines
}

/// The longest history among the channels.
fn longest_history(chs: &Vec<ChannelState>) -> (r: usize)
    ensures
        r == longest(state_views(chs@)),
{
    let ghost sv = state_views(chs@);
    let mut best: usize = 0;
    let mut i: usize = 0;
    assert(sv.take(0) =~= Seq::<StateView>::empty());
    while i < chs.len()
        invariant
            i <= chs.len(),
            sv == state_views(chs@),
            best == longest(sv.take(i as int)),
        decreases chs.len() - i,
    {
        assert(sv.take(i + 1).drop_last() =~= sv.take(i as int));
        assert(sv.take(i + 1).last() == chs@[i as int]@);
        if chs[i].history.len() > best {
            best = chs[i].history.len();
        }
        i += 1;
    }
    assert(sv.take(i as int) =~= sv);
    best
}

/// The Markdown report of a snapshot.
#[verifier::spinoff_prover]
#[verifier::rlimit(60)]
pub fn to_markdown(snapshot: &Snapshot) -> (r: String)
    ensures
        r@ == report_markdown(snapshot@),
{
    let ghost chs = snapshot@.channels;
    let mut lines: Vec<String> = Vec::new();
    assert(views(lines@) =~= Seq::<Seq<char>>::empty());
    add_line(&mut lines, "# 办公网络状态报告".to_owned());
    add_line(&mut lines, String::new());
    let interval = snapshot.extra.number("interval_seconds", 5000);
    let mut line = "- 生成时间：".to_owned();
    push_str(&mut line, snapshot.stamp.as_str());
    push_str(&mut line, "（采样间隔 ");
    push_milli(&mut line, interval);
    push_str(&mut line, " 秒，每条通道保留最近 ");
    push_uint(&mut line, longest_history(&snapshot.channels) as u64);
    push_str(&mut line, " 次）");
    add_line(&mut lines, line);
    let (_, status) = snapshot.overall();
    let mut line = "- 总体状态：".to_owned();
    push_str(&mut line, status.as_str());
    add_line(&mut lines, line);
    add_line(&mut lines, String::new());
    add_line(&mut lines, "## 通道状态".to_owned());
    add_line(&mut lines, String::new());
    add_line(&mut lines, "| 通道 | 状态 | 最近延迟 | 成功率 | 最小/中位/最大 | 抖动 | 说明 |".to_owned());
    add_line(&mut lines, "| --- | --- | --- | --- | --- | --- | --- |".to_owned());
    let ghost head = views(lines@);
    let mut i: usize = 0;
    let ghost rows = chs.map_values(|c: StateView| row_text(c));
    assert(rows.take(0) =~= Seq::<Seq<char>>::empty());
    assert(head =~= head + rows.take(0));
    while i < snapshot.channels.len()
        invariant
            i <= snapshot.channels.len(),
            chs == snapshot@.channels,
            rows == chs.map_values(|c: StateView| row_text(c)),
            views(lines@) == head + rows.take(i as int),
        decreases snapshot.channels.len() - i,
    {
        assert(chs[i as int] == snapshot.channels@[i as int]@);
        add_line(&mut lines, channel_row(&snapshot.channels[i]));
        assert(rows.take(i + 1) =~= rows.take(i as int).push(row_text(chs[i as int])));
        i += 1;
    }
    assert(rows.take(i as int) =~= rows);
    add_line(&mut lines, String::new());
    add_line(
        &mut lines,
        "> 状态含义：🟢 正常 ｜ 🟡 偏慢（超过告警阈值）｜ 🔴 极慢或不通 ｜ ⚪ 未连接 / 未启用 / 未配置".to_owned(),
    );
    add_line(&mut lines, String::new());
    add_line(&mut lines, "## 本机环境".to_owned());
    add_line(&mut lines, String::new());
    let mut line = "- 系统代理：".to_owned();
    push_str(&mut line, if snapshot.proxy_enabled { "开启" } else { "关闭" });
    if !snapshot.proxy_server.as_str().is_empty() {
        push_str(&mut line, "（");
        push_str(&mut line, snapshot.proxy_server.as_str());
        push_str(&mut line, "）");
    }
    proof {
        reveal_strlit("");
    }
    assert(line@ =~= proxy_line(snapshot@));
    add_line(&mut lines, line);
    add_lines(&mut lines, environment_of(snapshot));
    add_line(&mut lines, String::new());
    add_line(&mut lines, "## 原始采样（ms，null 表示该次失败）".to_owned());
    add_line(&mut lines, String::new());
    let ghost mid = views(lines@);
    let ghost raws = chs.map_values(|c: StateView| raw_text(c));
    let mut i: usize = 0;
    assert(mid =~= mid + raws.take(0));
    while i < snapshot.channels.len()
        invariant
            i <= snapshot.channels.len(),
            chs == snapshot@.channels,
            raws == chs.map_values(|c: StateView| raw_text(c)),
            views(lines@) == mid + raws.take(i as int),
        decreases snapshot.channels.len() - i,
    {
        assert(chs[i as int] == snapshot.channels@[i as int]@);
        add_line(&mut lines, raw_line(&snapshot.channels[i]));
        assert(raws.take(i + 1) =~= raws.take(i as int).push(raw_text(chs[i as int])));
        i += 1;
    }
    assert(raws.take(i as int) =~= raws);
    add_line(&mut lines, String::new());
    assert(views(lines@) =~= report_lines(snapshot@));
    let nl = "\n";
    proof {
        reveal_strlit("\n");
    }
    assert(nl@ =~= seq!['\n']);
    join_with(&lines, nl)
}

} // verus!
