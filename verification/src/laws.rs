//! What holds of the monitor across calls and for every input.
use vstd::prelude::*;
use crate::bridge::{is_authorized, path_query, reply_for, target_of};
use crate::config::{ChannelView, TargetKind, TargetView};
use crate::level::{level_for, Level};
use crate::monitor::{
    answered, auto_view, best_upto, first_answered, first_ok, first_value, http_outcome, latency_key, lemma_best_upto, ordered_view,
    overall_of, overall_upto, peer_targets, plain, private_peers, recorded, vpn_label, vpn_outcome, vpn_prefix,
    Outcome, PresenceView, StateView, HISTORY_LEN,
};
use crate::monitor::{context_json, http_round, round_snapshot, vpn_round, HttpView, SnapshotView, VpnView};
use crate::json::{lookup, model_get, JsonModel};
use crate::net::is_private;
use crate::probe::{pool_added, pool_lookup, request_timeout_value, ProbeView, POOL_LIMIT};
use crate::panel::{bar_height, lemma_spark_top, recent, spark_top, spark_view, SPARK_CAPACITY};
use crate::schedule::{jittered, DRAW_SCALE};
use crate::report::{ascending, capped, round1, samples_of, lemma_samples_of_len, sorted_samples, stats_fields};

verus! {

/// A channel keeps the newest samples: after one more, it holds at most
/// `HISTORY_LEN`, the newest last, in the order they came.
pub proof fn lemma_history_keeps_newest(h: Seq<Option<i64>>, v: Option<i64>)
    requires
        h.len() <= HISTORY_LEN,
    ensures
        recorded(h, v).len() <= HISTORY_LEN,
        recorded(h, v).len() >= 1,
        recorded(h, v).last() == v,
        recorded(h, v) =~= h.push(v).skip(h.push(v).len() - recorded(h, v).len()),
        h.len() < HISTORY_LEN ==> recorded(h, v) == h.push(v),
        h.len() == HISTORY_LEN ==> recorded(h, v) == h.skip(1).push(v),
{
    let longer = h.push(v);
    if longer.len() > HISTORY_LEN {
        assert(longer.skip(longer.len() - HISTORY_LEN) =~= h.skip(1).push(v));
    } else {
        assert(longer.skip(0) =~= longer);
    }
}

/// The overall state is the worst channel's: no channel is more severe,
/// and unless every channel is `Unknown`, it is the level and status of
/// the first channel of that severity.
pub proof fn lemma_overall_is_worst(chs: Seq<StateView>)
    ensures
        forall|i: int| 0 <= i < chs.len() ==> (#[trigger] chs[i].level).spec_severity() <= overall_of(chs).0.spec_severity(),
        overall_of(chs) == (Level::Unknown, "未知"@) || exists|i: int|
            0 <= i < chs.len() && overall_of(chs) == (chs[i].level, chs[i].status) && (forall|j: int|
                0 <= j < i ==> (#[trigger] chs[j].level).spec_severity() < chs[i].level.spec_severity()),
{
    let k = overall_index(chs, chs.len() as int);
    if k >= 0 {
        assert(0 <= k < chs.len() && overall_of(chs) == (chs[k].level, chs[k].status));
    }
}

proof fn overall_index(chs: Seq<StateView>, n: int) -> (k: int)
    requires
        0 <= n <= chs.len(),
    ensures
        -1 <= k < n,
        forall|i: int| 0 <= i < n ==> (#[trigger] chs[i].level).spec_severity() <= overall_upto(chs, n).0.spec_severity(),
        k == -1 ==> overall_upto(chs, n) == (Level::Unknown, "未知"@),
        k >= 0 ==> overall_upto(chs, n) == (chs[k].level, chs[k].status),
        k >= 0 ==> forall|j: int| 0 <= j < k ==> (#[trigger] chs[j].level).spec_severity() < chs[k].level.spec_severity(),
    decreases n,
{
    if n == 0 {
        -1
    } else {
        let prev = overall_index(chs, n - 1);
        let before = overall_upto(chs, n - 1);
        if chs[n - 1].level.spec_severity() > before.0.spec_severity() {
            n - 1
        } else {
            prev
        }
    }
}

/// A slower answer never looks better: with `good <= warn`, the level's
/// severity grows with the latency.
pub proof fn lemma_level_monotone(a: int, b: int, good: int, warn: int)
    requires
        a <= b,
        good <= warn,
    ensures
        level_for(a, good, warn).spec_severity() <= level_for(b, good, warn).spec_severity(),
        level_for(a, good, warn) != Level::Off && level_for(a, good, warn) != Level::Unknown,
{
}

/// An HTTP channel records a latency exactly when one of the targets it
/// tried answered, and then it is neither off nor unknown; the target
/// that answered first is tried first next time.
pub proof fn lemma_http_success_recorded(c: ChannelView, plan: Seq<(Seq<char>, bool)>, results: Seq<ProbeView>)
    requires
        results.len() <= plan.len(),
    ensures
        http_outcome(c, plan, results).sample is Some <==> exists|i: int| 0 <= i < results.len() && (#[trigger] results[i]).ok,
        http_outcome(c, plan, results).sample is Some ==> {
            let i = first_ok(results, 0);
            &&& 0 <= i < results.len()
            &&& results[i].ok
            &&& forall|j: int| 0 <= j < i ==> !(#[trigger] results[j]).ok
            &&& http_outcome(c, plan, results).preferred == Some(plan[i].0)
            &&& http_outcome(c, plan, results).level != Level::Off
            &&& http_outcome(c, plan, results).level != Level::Unknown
        },
{
    lemma_first_ok(results, 0);
}

proof fn lemma_first_ok(results: Seq<ProbeView>, k: int)
    requires
        0 <= k <= results.len(),
    ensures
        first_ok(results, k) >= 0 <==> exists|i: int| k <= i < results.len() && (#[trigger] results[i]).ok,
        first_ok(results, k) >= 0 ==> k <= first_ok(results, k) < results.len() && results[first_ok(results, k)].ok
            && forall|j: int| k <= j < first_ok(results, k) ==> !(#[trigger] results[j]).ok,
        first_ok(results, k) >= -1,
    decreases results.len() - k,
{
    if k < results.len() && !results[k].ok {
        lemma_first_ok(results, k + 1);
    }
}

/// The target that answered last comes first and nothing else changes
/// but its place: same length, same targets.
pub proof fn lemma_preferred_first(targets: Seq<TargetView>, preferred: Seq<char>, i: int)
    requires
        preferred.len() > 0,
        0 <= i < targets.len(),
        targets[i].value == preferred,
    ensures
        ordered_view(targets, preferred).len() == targets.len(),
        ordered_view(targets, preferred)[0].value == preferred,
        ordered_view(targets, preferred).to_multiset() == targets.to_multiset(),
{
    lemma_first_value_found(targets, preferred, 0, i);
    let k = first_value(targets, preferred, 0);
    let o = seq![targets[k]] + targets.remove(k);
    assert(o.to_multiset() == targets.to_multiset()) by {
        broadcast use vstd::seq_lib::group_to_multiset_ensures, vstd::multiset::group_multiset_axioms;

        vstd::seq_lib::lemma_multiset_commutative(seq![targets[k]], targets.remove(k));
        assert(seq![targets[k]] =~= Seq::<TargetView>::empty().push(targets[k]));
        assert(targets.remove(k).to_multiset() == targets.to_multiset().remove(targets[k]));
        assert(targets.to_multiset().count(targets[k]) > 0) by {
            assert(targets.contains(targets[k]));
        }
        assert(o.to_multiset() =~= targets.to_multiset());
    }
}

proof fn lemma_first_value_found(targets: Seq<TargetView>, value: Seq<char>, k: int, i: int)
    requires
        0 <= k <= i < targets.len(),
        targets[i].value == value,
    ensures
        k <= first_value(targets, value, k) <= i,
        targets[first_value(targets, value, k)].value == value,
    decreases i - k,
{
    if targets[k].value != value {
        lemma_first_value_found(targets, value, k + 1, i);
    }
}

/// Chosen targets are probed together and the fastest answer wins: no
/// target that answered was faster, and a VPN that is up but answers
/// nowhere shows as slow, never as good.
pub proof fn lemma_fastest_answer_wins(
    c: ChannelView,
    p: PresenceView,
    targets: Seq<TargetView>,
    results: Seq<Option<ProbeView>>,
)
    requires
        targets.len() > 0,
        results.len() == targets.len(),
    ensures
        ({
            let b = best_upto(results, results.len() as int);
            &&& b >= 0 ==> answered(results[b]) && forall|k: int|
                0 <= k < results.len() && answered(#[trigger] results[k]) ==> latency_key(results[b]) <= latency_key(
                    results[k],
                )
            &&& b >= 0 ==> vpn_outcome(c, p, false, targets, results).sample is Some
            &&& (b < 0 && p.connected) ==> vpn_outcome(c, p, false, targets, results).level == Level::Warn
            &&& (b < 0 && !p.connected) ==> vpn_outcome(c, p, false, targets, results).level == Level::Off
        }),
        (forall|k: int| 0 <= k < results.len() ==> !answered(#[trigger] results[k])) ==> best_upto(
            results,
            results.len() as int,
        ) == -1,
{
    lemma_best_upto(results, results.len() as int);
}

/// The chosen targets are at most four, and the peers among them at most
/// three, all in private ranges: a full tunnel also carries public
/// traffic, which says nothing of the internal network.
pub proof fn lemma_auto_targets_bounded(peers: Seq<(Seq<char>, u16)>, p: PresenceView)
    ensures
        peer_targets(peers).len() <= 3,
        forall|i: int| 0 <= i < peer_targets(peers).len() ==> is_private(#[trigger] peer_targets(peers)[i].value),
        forall|i: int| 0 <= i < peer_targets(peers).len() ==> (#[trigger] peer_targets(peers)[i]).kind == TargetKind::Icmp,
        auto_view(peer_targets(peers), p).len() <= 4,
{
    lemma_private_peers(peers);
    let kept = private_peers(peers);
    let first = if kept.len() > 3 { kept.take(3) } else { kept };
    assert forall|i: int| 0 <= i < peer_targets(peers).len() implies is_private(#[trigger] peer_targets(peers)[i].value) by {
        assert(first[i] == kept[i]);
    }
}

proof fn lemma_private_peers(peers: Seq<(Seq<char>, u16)>)
    ensures
        forall|i: int| 0 <= i < private_peers(peers).len() ==> is_private((#[trigger] private_peers(peers)[i]).0),
    decreases peers.len(),
{
    if peers.len() > 0 {
        lemma_private_peers(peers.drop_last());
        let rest = private_peers(peers.drop_last());
        if is_private(peers.last().0) {
            assert forall|i: int| 0 <= i < private_peers(peers).len() implies is_private(
                (#[trigger] private_peers(peers)[i]).0,
            ) by {
                if i < rest.len() {
                    assert(private_peers(peers)[i] == rest[i]);
                }
            }
        }
    }
}

/// A connection kept for a host and port is found again, and the pool
/// never holds more than `POOL_LIMIT`.
pub proof fn lemma_pool_keeps_new(s: Seq<(Seq<char>, u16, u64)>, host: Seq<char>, port: u16, handle: u64)
    requires
        s.len() <= POOL_LIMIT,
        pool_lookup(s, host, port) is None,
    ensures
        pool_lookup(pool_added(s, host, port, handle), host, port) == Some(handle),
        pool_added(s, host, port, handle).len() <= POOL_LIMIT,
{
    let kept = if s.len() >= POOL_LIMIT { s.skip(1) } else { s };
    lemma_lookup_none_suffix(s, host, port, kept);
    lemma_lookup_push(kept, host, port, handle);
}

proof fn lemma_lookup_none_suffix(s: Seq<(Seq<char>, u16, u64)>, host: Seq<char>, port: u16, t: Seq<(Seq<char>, u16, u64)>)
    requires
        pool_lookup(s, host, port) is None,
        t == s || (s.len() > 0 && t == s.skip(1)),
    ensures
        pool_lookup(t, host, port) is None,
{
}

proof fn lemma_lookup_push(s: Seq<(Seq<char>, u16, u64)>, host: Seq<char>, port: u16, handle: u64)
    requires
        pool_lookup(s, host, port) is None,
    ensures
        pool_lookup(s.push((host, port, handle)), host, port) == Some(handle),
    decreases s.len(),
{
    if s.len() > 0 {
        assert(s.push((host, port, handle)).skip(1) =~= s.skip(1).push((host, port, handle)));
        lemma_lookup_push(s.skip(1), host, port, handle);
    } else {
        assert(s.push((host, port, handle))[0] == (host, port, handle));
    }
}

/// With a token set, a request without it is refused with 401; without a
/// token, no request is.
pub proof fn lemma_token_guards(request: Seq<char>, token: Seq<char>, snapshot: Option<SnapshotView>)
    ensures
        (token.len() > 0 && !is_authorized(request, path_query(target_of(request)).1, token)) ==> reply_for(
            request,
            token,
            snapshot,
        ).code == 401,
        token.len() == 0 ==> reply_for(request, token, snapshot).code != 401,
{
}

/// The report's counts add up: every sample either succeeded or failed
/// (on every history whose count, in thousandths, an `i64` holds).
pub proof fn lemma_counts_add_up(h: Seq<Option<i64>>)
    ensures
        samples_of(h).len() <= h.len(),
        ({
            let ok = samples_of(h).len() as int;
            &&& stats_fields(h)[0].1 == crate::report::num(capped(h.len() as int * 1000))
            &&& stats_fields(h)[1].1 == crate::report::num(capped(ok * 1000))
            &&& stats_fields(h)[2].1 == crate::report::num(capped((h.len() - ok) * 1000))
            &&& h.len() * 1000 <= i64::MAX ==> capped(ok * 1000) + capped((h.len() - ok) * 1000) == capped(
                h.len() as int * 1000,
            )
        }),
{
    lemma_samples_of_len(h);
}

/// Every request waits at least half a second and at most a minute, for
/// any configured timeout that an `i32` holds.
pub proof fn lemma_request_timeout_bounds(timeout_ms: u64)
    requires
        timeout_ms <= i32::MAX,
    ensures
        500 <= request_timeout_value(timeout_ms) <= 60000,
        500 <= timeout_ms <= 60000 ==> request_timeout_value(timeout_ms) == timeout_ms,
{
    let at_least: u64 = if timeout_ms < 500 { 500u64 } else { timeout_ms };
    assert(at_least as i32 == at_least) by (bit_vector)
        requires
            at_least <= 0x7fff_ffffu64,
    ;
}


/// Rounding to a tenth never turns a larger value into a smaller one.
proof fn lemma_round1_monotone(a: int, b: int)
    requires
        a <= b,
    ensures
        round1(a) <= round1(b),
{
    if a >= 0 {
        assert((2 * a + 100) / 200 <= (2 * b + 100) / 200) by (nonlinear_arith)
            requires
                0 <= a <= b,
        ;
    } else if b >= 0 {
    } else {
        assert((-2 * b + 100) / 200 <= (-2 * a + 100) / 200) by (nonlinear_arith)
            requires
                a <= b < 0,
        ;
    }
}

/// The report's smallest, median and largest samples come in that order:
/// the smallest and the largest are samples of the history and bound every
/// other one, and the spread between them is never negative.
pub proof fn lemma_stats_in_order(h: Seq<Option<i64>>)
    requires
        samples_of(h).len() > 0,
    ensures
        ({
            let v = samples_of(h);
            let s = sorted_samples(h);
            let k = v.len() as int;
            &&& s.len() == k
            &&& s[0] <= s[k / 2] <= s[k - 1]
            &&& v.contains(s[0]) && v.contains(s[k - 1])
            &&& forall|i: int| 0 <= i < k ==> s[0] <= #[trigger] v[i] <= s[k - 1]
            &&& round1(s[0] as int) <= round1(s[k / 2] as int) <= round1(s[k - 1] as int)
            &&& round1(s[k - 1] - s[0]) >= 0
        }),
{
    broadcast use vstd::seq_lib::group_to_multiset_ensures;

    let v = samples_of(h);
    let s = sorted_samples(h);
    let k = v.len() as int;
    v.lemma_sort_by_ensures(ascending());
    assert(s.len() == v.len()) by {
        assert(s.to_multiset().len() == v.to_multiset().len());
    }
    if k / 2 > 0 {
        assert(ascending()(s[0], s[k / 2]));
    }
    if k / 2 < k - 1 {
        assert(ascending()(s[k / 2], s[k - 1]));
    }
    assert(s.contains(s[0]));
    assert(s.contains(s[k - 1]));
    assert(v.to_multiset().count(s[0]) > 0);
    assert(v.to_multiset().count(s[k - 1]) > 0);
    assert forall|i: int| 0 <= i < k implies s[0] <= #[trigger] v[i] <= s[k - 1] by {
        assert(v.contains(v[i]));
        assert(s.to_multiset().count(v[i]) > 0);
        assert(s.contains(v[i]));
        let j = choose|j: int| 0 <= j < s.len() && s[j] == v[i];
        if j > 0 {
            assert(ascending()(s[0], s[j]));
        }
        if j < k - 1 {
            assert(ascending()(s[j], s[k - 1]));
        }
    }
    lemma_round1_monotone(s[0] as int, s[k / 2] as int);
    lemma_round1_monotone(s[k / 2] as int, s[k - 1] as int);
    lemma_round1_monotone(0, s[k - 1] - s[0]);
}


/// The sparkline shows the newest samples, fourteen at most, newest last:
/// a bar for each success and none for each failure, no bar taller than
/// the line nor shorter than two pixels.
pub proof fn lemma_spark_shows_newest(h: Seq<Option<i64>>, height: int)
    requires
        forall|i: int| 0 <= i < h.len() ==> (#[trigger] h[i] matches Some(v) ==> 0 <= v <= 1_000_000_000_000_000),
        height >= 2,
    ensures
        ({
            let bars = spark_view(h, height);
            let n = if h.len() > SPARK_CAPACITY { SPARK_CAPACITY as int } else { h.len() as int };
            &&& bars.len() == n
            &&& forall|i: int| 0 <= i < n ==> ((#[trigger] bars[i]) is None <==> h[h.len() - n + i] is None)
            &&& forall|i: int| 0 <= i < n ==> ((#[trigger] bars[i]) matches Some(b) ==> 2 <= b <= height)
        }),
{
    let shown = recent(h);
    let n = if h.len() > SPARK_CAPACITY { SPARK_CAPACITY as int } else { h.len() as int };
    assert(shown.len() == n);
    assert forall|i: int| 0 <= i < n implies #[trigger] shown[i] == h[h.len() - n + i] by {}
    assert forall|i: int| 0 <= i < shown.len() implies (#[trigger] shown[i] matches Some(v) ==> 0 <= v
        <= 1_000_000_000_000_000) by {
        assert(shown[i] == h[h.len() - n + i]);
    }
    lemma_spark_top(shown);
    let top = spark_top(shown);
    let bars = spark_view(h, height);
    assert forall|i: int| 0 <= i < n implies ((#[trigger] bars[i]) matches Some(b) ==> 2 <= b <= height) by {
        match shown[i] {
            Some(x) => {
                let m: int = if (x as int) < top { x as int } else { top };
                assert(0 <= m <= top);
                assert(height * m / top <= height) by (nonlinear_arith)
                    requires
                        0 <= m <= top,
                        top > 0,
                        height >= 2,
                ;
                assert(bars[i] == Some(bar_height(x as int, top, height)));
            },
            None => {},
        }
    }
}


/// The wait between rounds stays within a fifth of the interval either
/// way: four fifths of it at least (rounded down to the millisecond), six
/// fifths at most, and less than that when the interval is not zero.
pub proof fn lemma_wait_within_a_fifth(interval_ms: u64, state: u64)
    ensures
        5 * jittered(interval_ms, state) >= 4 * interval_ms - 4,
        5 * jittered(interval_ms, state) <= 6 * interval_ms,
        interval_ms > 0 ==> 5 * jittered(interval_ms, state) < 6 * interval_ms,
{
    let draw = (state >> 11u64) as int;
    assert((state >> 11u64) < DRAW_SCALE) by (bit_vector);
    let i = interval_ms as int;
    let f = 800 * DRAW_SCALE + 400 * draw;
    let d = 1000 * DRAW_SCALE;
    assert(0 <= draw < DRAW_SCALE);
    assert(800 * DRAW_SCALE <= f < 1200 * DRAW_SCALE);
    assert(jittered(interval_ms, state) == (i * f) / d);
    assert(5 * ((i * f) / d) >= 4 * i - 4 && 5 * ((i * f) / d) <= 6 * i && (i > 0 ==> 5 * ((i * f) / d) < 6 * i))
        by (nonlinear_arith)
        requires
            i >= 0,
            800 * DRAW_SCALE <= f < 1200 * DRAW_SCALE,
            d == 1000 * DRAW_SCALE,
    ;
}


proof fn lemma_first_answered(rs: Seq<Option<ProbeView>>, k: int)
    requires
        0 <= k <= rs.len(),
    ensures
        first_answered(rs, k) >= 0 <==> exists|i: int| k <= i < rs.len() && answered(#[trigger] rs[i]),
        first_answered(rs, k) >= 0 ==> k <= first_answered(rs, k) < rs.len() && answered(rs[first_answered(rs, k)])
            && forall|j: int| k <= j < first_answered(rs, k) ==> !answered(#[trigger] rs[j]),
    decreases rs.len() - k,
{
    if k < rs.len() && !answered(rs[k]) {
        lemma_first_answered(rs, k + 1);
    }
}

/// Configured VPN targets are tried in order and the first that answers
/// wins: a latency is recorded exactly when one of those tried answered,
/// that target is tried first next time, and the channel is then neither
/// off nor unknown.
pub proof fn lemma_vpn_first_answer_wins(
    c: ChannelView,
    p: PresenceView,
    targets: Seq<TargetView>,
    results: Seq<Option<ProbeView>>,
)
    requires
        targets.len() > 0,
        results.len() <= targets.len(),
    ensures
        vpn_outcome(c, p, true, targets, results).sample is Some <==> exists|i: int|
            0 <= i < results.len() && answered(#[trigger] results[i]),
        vpn_outcome(c, p, true, targets, results).sample is Some ==> {
            let i = first_answered(results, 0);
            &&& 0 <= i < results.len()
            &&& answered(results[i])
            &&& forall|j: int| 0 <= j < i ==> !answered(#[trigger] results[j])
            &&& vpn_outcome(c, p, true, targets, results).preferred == Some(targets[i].value)
            &&& vpn_outcome(c, p, true, targets, results).level != Level::Off
            &&& vpn_outcome(c, p, true, targets, results).level != Level::Unknown
        },
{
    lemma_first_answered(results, 0);
}


/// One refresh: each channel ends the round in the state its own probe
/// gives (the precheck's, or `settle`'s on the results of what `plan`
/// listed), and the round's snapshot holds the clash, VPN and direct states
/// in that order, under those keys, with the configured interval in its
/// extra data. `Engine::new` and `Engine::reload` give the HTTP channels
/// these keys; `finish_round` keeps the snapshot as the last one and leaves
/// the settings alone.
pub proof fn lemma_refresh(
    clash: HttpView,
    vpn: VpnView,
    direct: HttpView,
    interval: int,
    verify_default: bool,
    vpn_presence: PresenceView,
    clash_results: Seq<ProbeView>,
    vpn_results: Seq<Option<ProbeView>>,
    direct_results: Seq<ProbeView>,
    p: PresenceView,
    proxy_enabled: bool,
    proxy_server: Seq<char>,
    clash_meta: Seq<char>,
    stamp: Seq<char>,
)
    requires
        clash.key == "clash"@,
        direct.key == "direct"@,
    ensures
        ({
            let states = (
                http_round(clash, verify_default, clash_results),
                vpn_round(vpn, vpn_presence, vpn_results),
                http_round(direct, verify_default, direct_results),
            );
            let s = round_snapshot(
                (clash.base.config, vpn.base.config, direct.base.config),
                interval,
                p,
                states,
                proxy_enabled,
                proxy_server,
                clash_meta,
                stamp,
            );
            &&& s.channels == seq![states.0, states.1, states.2]
            &&& s.channels.len() == 3
            &&& s.channels[0].key == "clash"@ && s.channels[1].key == "vpn"@ && s.channels[2].key == "direct"@
            &&& model_get(s.extra, "interval_seconds"@) == Some(JsonModel::Num(interval))
            &&& s.stamp == stamp && s.proxy_enabled == proxy_enabled && s.proxy_server == proxy_server
        }),
{
    reveal_strlit("vpn");
    reveal_strlit("targets");
    reveal_strlit("thresholds");
    reveal_strlit("interval_seconds");
    match context_json(clash.base.config, vpn.base.config, direct.base.config, interval, p) {
        JsonModel::Obj(fields) => {
            assert("interval_seconds"@.len() == 16);
            assert(fields[0].0 == "vpn"@ && "vpn"@.len() == 3);
            assert(fields[1].0 == "targets"@ && "targets"@.len() == 7);
            assert(fields[0].0 != "interval_seconds"@);
            assert(fields[1].0 != "interval_seconds"@);
            assert(fields[2].0 != "interval_seconds"@);
            assert(fields.skip(1)[0] == fields[1]);
            assert(fields.skip(1).skip(1)[0] == fields[2]);
            assert(fields.skip(1).skip(1).skip(1)[0] == fields[3]);
            let key = "interval_seconds"@;
            let want = Some(JsonModel::Num(interval));
            assert(lookup(fields.skip(1).skip(1).skip(1), key) == want);
            assert(lookup(fields.skip(1).skip(1), key) == want);
            assert(lookup(fields.skip(1), key) == want);
            assert(lookup(fields, key) == want);
        },
        _ => {},
    }
}

} // verus!
