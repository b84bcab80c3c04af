//! What a probe's answer and a configuration item are read as: the grade of
//! a latency against a channel's own thresholds, the kind of a target, the
//! value of a hex digit, and the proxy line of the report.
use vstd::prelude::*;
use crate::config::{target_item, ChannelView, TargetKind};
use crate::json::JsonModel;
use crate::json_parse::hex_val;
use crate::level::Level;
use crate::monitor::{
    answered, best_upto, first_answered, first_ok, http_outcome, latency_key, latency_or_zero, lemma_best_upto, vpn_outcome,
    PresenceView,
};
use crate::probe::ProbeView;
use crate::report::report_lines;
use crate::roundtrip::lemma_split_plain;
use crate::text::lowercase;
use crate::monitor::SnapshotView;
use crate::config::TargetView;

verus! {

/// The grade of an answer in `latency` thousandths of a millisecond, with
/// its status word: good ("正常") up to `good`, slow ("偏慢") above `good` up
/// to `warn`, very slow ("很慢") above both.
pub open spec fn graded(level: Level, status: Seq<char>, latency: int, good: int, warn: int) -> bool {
    &&& latency <= good ==> level == Level::Good && status == "正常"@
    &&& good < latency <= warn ==> level == Level::Warn && status == "偏慢"@
    &&& (latency > good && latency > warn) ==> level == Level::Bad && status == "很慢"@
}

/// The answer's latency, zero where it has none.
pub open spec fn answer_latency(r: ProbeView) -> int {
    match r.latency_ms {
        Some(v) => v as int,
        None => 0,
    }
}

/// An HTTP channel (the proxy or the direct one) is graded by its first
/// answer: whatever came before it failed, and the channel's level is that
/// answer's latency against the channel's own `good_ms` and `warn_ms` (an
/// answer slower than both is very slow, however it came), with that
/// latency reported.
pub proof fn lemma_http_answer_graded(c: ChannelView, plan: Seq<(Seq<char>, bool)>, results: Seq<ProbeView>, i: int)
    requires
        0 <= i < results.len(),
        results[i].ok,
        forall|j: int| 0 <= j < i ==> !(#[trigger] results[j]).ok,
    ensures
        graded(
            http_outcome(c, plan, results).level,
            http_outcome(c, plan, results).status,
            answer_latency(results[i]),
            c.good_ms as int,
            c.warn_ms as int,
        ),
        http_outcome(c, plan, results).latency_ms == Some(answer_latency(results[i]) as i64),
        http_outcome(c, plan, results).sample == Some(answer_latency(results[i]) as i64),
{
    lemma_first_ok_at(results, 0, i);
    assert(latency_or_zero(results[i]) as int == answer_latency(results[i]));
}

proof fn lemma_first_ok_at(results: Seq<ProbeView>, k: int, i: int)
    requires
        0 <= k <= i < results.len(),
        results[i].ok,
        forall|j: int| 0 <= j < i ==> !(#[trigger] results[j]).ok,
    ensures
        first_ok(results, k) == i,
    decreases i - k,
{
    if k < i {
        assert(!results[k].ok);
        lemma_first_ok_at(results, k + 1, i);
    }
}

/// Of two answers that are each as fast as every answer, the latencies are
/// the same.
proof fn lemma_fastest_same_latency(a: Option<ProbeView>, b: Option<ProbeView>)
    requires
        answered(a),
        answered(b),
        latency_key(a) == latency_key(b),
    ensures
        answer_latency(a->0) == answer_latency(b->0),
{
}

/// With chosen targets, the VPN channel is graded by its fastest answer:
/// the level is that answer's latency against the channel's own `good_ms`
/// and `warn_ms` (slow between the two, very slow beyond both), whichever
/// of equally fast answers it is, and that latency is reported.
pub proof fn lemma_vpn_fastest_graded(
    c: ChannelView,
    p: PresenceView,
    targets: Seq<TargetView>,
    results: Seq<Option<ProbeView>>,
    b: int,
)
    requires
        targets.len() > 0,
        0 <= b < results.len(),
        answered(results[b]),
        forall|k: int| 0 <= k < results.len() && answered(#[trigger] results[k]) ==> latency_key(results[b]) <= latency_key(
            results[k],
        ),
    ensures
        graded(
            vpn_outcome(c, p, false, targets, results).level,
            vpn_outcome(c, p, false, targets, results).status,
            answer_latency(results[b]->0),
            c.good_ms as int,
            c.warn_ms as int,
        ),
        vpn_outcome(c, p, false, targets, results).latency_ms == Some(answer_latency(results[b]->0) as i64),
{
    lemma_best_upto(results, results.len() as int);
    let w = best_upto(results, results.len() as int);
    assert(answered(results[b]));
    assert(w >= 0);
    assert(latency_key(results[w]) <= latency_key(results[b]));
    assert(latency_key(results[b]) <= latency_key(results[w]));
    lemma_fastest_same_latency(results[w], results[b]);
    assert(latency_or_zero(results[w]->0) as int == answer_latency(results[w]->0));
}

/// With configured targets, the VPN channel is graded by the first answer,
/// in the order tried, against its own `good_ms` and `warn_ms`.
pub proof fn lemma_vpn_first_graded(
    c: ChannelView,
    p: PresenceView,
    targets: Seq<TargetView>,
    results: Seq<Option<ProbeView>>,
    i: int,
)
    requires
        targets.len() > 0,
        0 <= i < results.len(),
        answered(results[i]),
        forall|j: int| 0 <= j < i ==> !answered(#[trigger] results[j]),
    ensures
        graded(
            vpn_outcome(c, p, true, targets, results).level,
            vpn_outcome(c, p, true, targets, results).status,
            answer_latency(results[i]->0),
            c.good_ms as int,
            c.warn_ms as int,
        ),
        vpn_outcome(c, p, true, targets, results).latency_ms == Some(answer_latency(results[i]->0) as i64),
{
    lemma_first_answered_at(results, 0, i);
    assert(latency_or_zero(results[i]->0) as int == answer_latency(results[i]->0));
}

proof fn lemma_first_answered_at(results: Seq<Option<ProbeView>>, k: int, i: int)
    requires
        0 <= k <= i < results.len(),
        answered(results[i]),
        forall|j: int| 0 <= j < i ==> !answered(#[trigger] results[j]),
    ensures
        first_answered(results, k) == i,
    decreases i - k,
{
    if k < i {
        assert(!answered(results[k]));
        lemma_first_answered_at(results, k + 1, i);
    }
}

/// The report's proxy line says whether the system proxy is switched on,
/// by that switch alone ("开启" on, "关闭" off, whatever server is
/// recorded), then the recorded server in brackets when there is one.
pub proof fn lemma_proxy_line_follows_switch(s: SnapshotView)
    ensures
        ({
            let line = report_lines(s)[9 + s.channels.len() as int + 5];
            &&& line == "- 系统代理："@ + (if s.proxy_enabled {
                "开启"@
            } else {
                "关闭"@
            }) + (if s.proxy_server.len() == 0 {
                Seq::empty()
            } else {
                "（"@ + s.proxy_server + "）"@
            })
            &&& !s.proxy_enabled ==> line.subrange(7, 9) == "关闭"@
            &&& s.proxy_enabled ==> line.subrange(7, 9) == "开启"@
        }),
{
    reveal_strlit("- 系统代理：");
    reveal_strlit("开启");
    reveal_strlit("关闭");
    let n = s.channels.len() as int;
    let lines = report_lines(s);
    assert(lines[9 + n + 5] == crate::report::proxy_line(s));
    let line = lines[9 + n + 5];
    let word: Seq<char> = if s.proxy_enabled { "开启"@ } else { "关闭"@ };
    assert(line.subrange(7, 9) =~= word);
}

/// An object item of a `targets` list whose `type` reads, in lower case,
/// `icmp` or `ping` is pinged, and one whose `type` reads `tcp` is connected
/// to; either way its address is its `target`.
pub proof fn lemma_target_kind(t: Seq<char>, v: Seq<char>)
    requires
        v.len() > 0,
    ensures
        ({
            let item = JsonModel::Obj(seq![("type"@, JsonModel::Str(t)), ("target"@, JsonModel::Str(v))]);
            &&& target_item(item) is Some
            &&& target_item(item)->0.value == v
            &&& (lowercase(t) == "icmp"@ || lowercase(t) == "ping"@) ==> target_item(item)->0.kind == TargetKind::Icmp
                && target_item(item)->0.port is None
            &&& lowercase(t) == "tcp"@ ==> target_item(item)->0.kind == TargetKind::Tcp
        }),
{
    reveal_strlit("type");
    reveal_strlit("target");
    reveal_strlit("icmp");
    reveal_strlit("ping");
    reveal_strlit("tcp");
    let key_type = "type"@;
    let key_target = "target"@;
    assert forall|i: int| 0 <= i < key_type.len() implies key_type[i] != '.' by {}
    assert forall|i: int| 0 <= i < key_target.len() implies key_target[i] != '.' by {}
    lemma_split_plain(key_type, '.');
    lemma_split_plain(key_target, '.');
    let fields = seq![("type"@, JsonModel::Str(t)), ("target"@, JsonModel::Str(v))];
    assert(key_type != key_target) by {
        assert(key_type.len() != key_target.len());
    }
    assert(fields.skip(1)[0] == fields[1]);
    assert(crate::json::lookup(fields, key_type) == Some(JsonModel::Str(t)));
    assert(crate::json::lookup(fields.skip(1), key_target) == Some(JsonModel::Str(v)));
    assert(crate::json::lookup(fields, key_target) == Some(JsonModel::Str(v)));
    let item = JsonModel::Obj(fields);
    assert(crate::json::model_walk(item, seq![key_type]) == Some(JsonModel::Str(t))) by {
        assert(seq![key_type].skip(1) =~= Seq::<Seq<char>>::empty());
        assert(crate::json::model_get(item, key_type) == Some(JsonModel::Str(t)));
        assert(crate::json::model_walk(JsonModel::Str(t), Seq::empty()) == Some(JsonModel::Str(t)));
        assert(seq![key_type][0] == key_type);
    }
    assert(crate::json::model_walk(item, seq![key_target]) == Some(JsonModel::Str(v))) by {
        assert(seq![key_target].skip(1) =~= Seq::<Seq<char>>::empty());
        assert(crate::json::model_get(item, key_target) == Some(JsonModel::Str(v)));
        assert(crate::json::model_walk(JsonModel::Str(v), Seq::empty()) == Some(JsonModel::Str(v)));
        assert(seq![key_target][0] == key_target);
    }
    assert(crate::json::model_string(item, key_target, Seq::empty()) == v);
    assert(crate::json::model_string(item, key_type, "http"@) == t);
    assert(item == JsonModel::Obj(seq![("type"@, JsonModel::Str(t)), ("target"@, JsonModel::Str(v))]));
    assert(target_item(item) is Some);
    assert(target_item(item)->0.value == v);
    assert(target_item(item)->0.kind == crate::config::kind_of(lowercase(t)));
    assert("icmp"@ != "tcp"@ && "ping"@ != "tcp"@) by {
        assert("icmp"@.len() != "tcp"@.len());
        assert("ping"@.len() != "tcp"@.len());
    }
}

/// A hex digit means the same in either case: each of `A`-`F` is worth what
/// its lower-case letter is, ten to fifteen in order.
pub proof fn lemma_hex_digit_ignores_case(upper: char, lower: char)
    requires
        'A' <= upper <= 'F',
        lower as int == upper as int + 32,
    ensures
        hex_val(upper) == hex_val(lower),
        hex_val(lower) == Some((lower as int - 'a' as int + 10) as nat),
        hex_val(upper) == Some((upper as int - 'A' as int + 10) as nat),
{
}

/// The sixteen hex digits are worth zero to fifteen, in order: `0`-`9`,
/// then `a`-`f` (and `A`-`F`); nothing else is a hex digit's value above.
pub proof fn lemma_hex_digit_values(c: char)
    ensures
        '0' <= c <= '9' ==> hex_val(c) == Some((c as int - '0' as int) as nat),
        'a' <= c <= 'f' ==> hex_val(c) == Some((c as int - 'a' as int + 10) as nat),
        'A' <= c <= 'F' ==> hex_val(c) == Some((c as int - 'A' as int + 10) as nat),
        hex_val(c) matches Some(d) ==> d < 16,
{
}

} // verus!
