//! The decisions of the monitor: what each channel's state is after a
//! round of probes, how the history of samples is kept, which targets are
//! tried first, and which channel speaks for the whole.
use std::collections::VecDeque;
use vstd::prelude::*;
use crate::config::{
    copy_targets, host_port, label_of, split_host_port, target_array, target_values, target_views, ChannelConfig,
    ChannelView, Config, ConfigView,
    Target, TargetKind, TargetView,
};
use crate::json::{duplicate, model_string, push_field, push_item, str_models, string_array, Json, JsonModel};
use crate::json_parse::parse_text;
use crate::level::{level_for, level_of, status_of, status_text_of, Level};
use crate::net::{is_private, is_private_ipv4};
use crate::number::copy_range;
use crate::probe::{host_of, host_text, opt_view, peer_views, strip_suffix_chars, AdapterInfo, ProbeResult, ProbeView};
use crate::process::{running_names, running_processes};
use crate::text::{
    chars_of, contains_seq, copy_strings, find_first, find_last, last_match, lemma_last_match, lowercase, push_char,
    push_str, push_uint, string_of, text_eq, to_lower, uint_text, views,
};

verus! {

/// How many samples each channel keeps.
pub const HISTORY_LEN: usize = 28;

/// The state of one channel after a round. Latencies are in thousandths
/// of a millisecond; a `None` sample is a round that failed.
#[derive(Debug)]
pub struct ChannelState {
    pub key: String,
    pub name: String,
    pub level: Level,
    pub latency_ms: Option<i64>,
    pub status: String,
    pub detail: String,
    pub history: Vec<Option<i64>>,
}

pub struct StateView {
    pub key: Seq<char>,
    pub name: Seq<char>,
    pub level: Level,
    pub latency_ms: Option<i64>,
    pub status: Seq<char>,
    pub detail: Seq<char>,
    pub history: Seq<Option<i64>>,
}

impl View for ChannelState {
    type V = StateView;

    open spec fn view(&self) -> StateView {
        StateView {
            key: self.key@,
            name: self.name@,
            level: self.level,
            latency_ms: self.latency_ms,
            status: self.status@,
            detail: self.detail@,
            history: self.history@,
        }
    }
}

pub open spec fn state_views(s: Seq<ChannelState>) -> Seq<StateView> {
    Seq::new(s.len(), |i: int| s[i]@)
}

/// The samples of a history, oldest first.
fn deque_samples(v: &VecDeque<Option<i64>>) -> (r: Vec<Option<i64>>)
    ensures
        r@ == v@,
{
    let mut r: Vec<Option<i64>> = Vec::new();
    let mut i: usize = 0;
    while i < v.len()
        invariant
            i <= v@.len(),
            r@ == v@.take(i as int),
        decreases v@.len() - i,
    {
        r.push(v[i]);
        assert(v@.take(i + 1) =~= v@.take(i as int).push(v@[i as int]));
        i += 1;
    }
    assert(v@.take(v@.len() as int) =~= v@);
    r
}

/// A copy of a list of samples.
pub fn copy_samples(v: &Vec<Option<i64>>) -> (r: Vec<Option<i64>>)
    ensures
        r@ == v@,
{
    let mut r: Vec<Option<i64>> = Vec::new();
    let mut i: usize = 0;
    while i < v.len()
        invariant
            i <= v.len(),
            r@ == v@.take(i as int),
        decreases v.len() - i,
    {
        r.push(v[i]);
        assert(r@ =~= v@.take(i + 1));
        i += 1;
    }
    assert(v@.take(i as int) =~= v@);
    r
}

impl ChannelState {
    pub fn duplicate(&self) -> (r: ChannelState)
        ensures
            r@ == self@,
    {
        ChannelState {
            key: self.key.clone(),
            name: self.name.clone(),
            level: self.level,
            latency_ms: self.latency_ms,
            status: self.status.clone(),
            detail: self.detail.clone(),
            history: copy_samples(&self.history),
        }
    }
}

/// Whether the VPN is up, and what the adapter it runs on looks like.
#[derive(Debug)]
pub struct Presence {
    pub connected: bool,
    pub label: String,
    pub ipv4: Vec<String>,
    pub gateway: Vec<String>,
    pub dns: Vec<String>,
}

pub struct PresenceView {
    pub connected: bool,
    pub label: Seq<char>,
    pub ipv4: Seq<Seq<char>>,
    pub gateway: Seq<Seq<char>>,
    pub dns: Seq<Seq<char>>,
}

impl View for Presence {
    type V = PresenceView;

    open spec fn view(&self) -> PresenceView {
        PresenceView {
            connected: self.connected,
            label: self.label@,
            ipv4: views(self.ipv4@),
            gateway: views(self.gateway@),
            dns: views(self.dns@),
        }
    }
}

impl Presence {
    pub fn default() -> (r: Presence)
        ensures
            r@ == (PresenceView {
                connected: false,
                label: Seq::empty(),
                ipv4: Seq::empty(),
                gateway: Seq::empty(),
                dns: Seq::empty(),
            }),
    {
        let r = Presence {
            connected: false,
            label: String::new(),
            ipv4: Vec::new(),
            gateway: Vec::new(),
            dns: Vec::new(),
        };
        assert(r@.ipv4 =~= Seq::<Seq<char>>::empty());
        assert(r@.gateway =~= Seq::<Seq<char>>::empty());
        assert(r@.dns =~= Seq::<Seq<char>>::empty());
        r
    }

    pub fn duplicate(&self) -> (r: Presence)
        ensures
            r@ == self@,
    {
        Presence {
            connected: self.connected,
            label: self.label.clone(),
            ipv4: copy_strings(&self.ipv4),
            gateway: copy_strings(&self.gateway),
            dns: copy_strings(&self.dns),
        }
    }
}

/// The history after one more sample: the newest `HISTORY_LEN` samples.
pub open spec fn recorded(history: Seq<Option<i64>>, sample: Option<i64>) -> Seq<Option<i64>> {
    let longer = history.push(sample);
    if longer.len() > HISTORY_LEN {
        longer.skip(longer.len() - HISTORY_LEN)
    } else {
        longer
    }
}

/// The targets with the one that last answered moved to the front.
pub open spec fn ordered_view(targets: Seq<TargetView>, preferred: Seq<char>) -> Seq<TargetView> {
    let i = first_value(targets, preferred, 0);
    if preferred.len() > 0 && i >= 0 {
        seq![targets[i]] + targets.remove(i)
    } else {
        targets
    }
}

/// The first index from `k` on whose target has this value, or -1.
pub open spec fn first_value(targets: Seq<TargetView>, value: Seq<char>, k: int) -> int
    decreases targets.len() - k,
{
    if k < 0 || k >= targets.len() {
        -1
    } else if targets[k].value == value {
        k
    } else {
        first_value(targets, value, k + 1)
    }
}

proof fn lemma_first_value(targets: Seq<TargetView>, value: Seq<char>, k: int)
    requires
        0 <= k,
    ensures
        first_value(targets, value, k) >= 0 ==> k <= first_value(targets, value, k) < targets.len()
            && targets[first_value(targets, value, k)].value == value,
        first_value(targets, value, k) >= -1,
    decreases targets.len() - k,
{
    if k < targets.len() && targets[k].value != value {
        lemma_first_value(targets, value, k + 1);
    }
}

/// What every channel has in common: its settings, its samples and the
/// target that answered last.
pub struct ChannelBase {
    config: ChannelConfig,
    history: VecDeque<Option<i64>>,
    preferred: String,
}

pub struct BaseView {
    pub config: ChannelView,
    pub history: Seq<Option<i64>>,
    pub preferred: Seq<char>,
}

impl View for ChannelBase {
    type V = BaseView;

    closed spec fn view(&self) -> BaseView {
        BaseView { config: self.config@, history: self.history@, preferred: self.preferred@ }
    }
}

impl ChannelBase {
    #[verifier::type_invariant]
    spec fn bounded(&self) -> bool {
        self.history@.len() <= HISTORY_LEN
    }

    pub fn new(config: ChannelConfig) -> (r: ChannelBase)
        ensures
            r@ == (BaseView { config: config@, history: Seq::empty(), preferred: Seq::empty() }),
    {
        let r = ChannelBase { config, history: VecDeque::with_capacity(HISTORY_LEN), preferred: String::new() };
        assert(r@.history =~= Seq::<Option<i64>>::empty());
        r
    }

    pub fn config(&self) -> (r: &ChannelConfig)
        ensures
            r@ == self@.config,
    {
        &self.config
    }

    /// Appends a sample, dropping the oldest when the history is full.
    pub fn record(&mut self, value: Option<i64>)
        ensures
            final(self)@ == (BaseView {
                config: old(self)@.config,
                history: recorded(old(self)@.history, value),
                preferred: old(self)@.preferred,
            }),
            final(self)@.history.len() <= HISTORY_LEN,
    {
        proof {
            use_type_invariant(&*self);
        }
        let ghost before = self.history@;
        let mut history: VecDeque<Option<i64>> = VecDeque::new();
        std::mem::swap(&mut history, &mut self.history);
        if history.len() == HISTORY_LEN {
            history.pop_front();
        }
        history.push_back(value);
        assert(history@ =~= recorded(before, value));
        self.history = history;
    }

    /// The samples, oldest first; never more than `HISTORY_LEN`.
    pub fn history(&self) -> (r: Vec<Option<i64>>)
        ensures
            r@ == self@.history,
            r@.len() <= HISTORY_LEN,
    {
        proof {
            use_type_invariant(self);
        }
        deque_samples(&self.history)
    }

    /// Remembers the target that answered.
    pub fn prefer(&mut self, value: &str)
        ensures
            final(self)@ == (BaseView { config: old(self)@.config, history: old(self)@.history, preferred: value@ }),
    {
        proof {
            use_type_invariant(&*self);
        }
        self.preferred = value.to_owned();
    }

    /// The configured targets, the one that answered last first.
    pub fn ordered_targets(&self) -> (r: Vec<Target>)
        ensures
            target_views(r@) == ordered_view(self@.config.targets, self@.preferred),
    {
        let mut targets = copy_targets(&self.config.targets);
        let ghost tv = target_views(targets@);
        if self.preferred.as_str().is_empty() {
            return targets;
        }
        proof {
            lemma_first_value(tv, self.preferred@, 0);
        }
        let mut i: usize = 0;
        while i < targets.len()
            invariant
                i <= targets.len(),
                tv == target_views(targets@),
                tv == self@.config.targets,
                self.preferred@.len() > 0,
                first_value(tv, self.preferred@, 0) == first_value(tv, self.preferred@, i as int),
            decreases targets.len() - i,
        {
            if text_eq(targets[i].value.as_str(), self.preferred.as_str()) {
                assert(tv[i as int].value == self.preferred@);
                assert(first_value(tv, self.preferred@, i as int) == i);
                let ghost before = targets@;
                let item = targets.remove(i);
                assert(targets@ == before.remove(i as int));
                targets.insert(0, item);
                assert(targets@ == before.remove(i as int).insert(0, before[i as int]));
                assert(target_views(targets@) =~= seq![tv[i as int]] + tv.remove(i as int));
                return targets;
            }
            i += 1;
        }
        targets
    }

    /// The channel's state with its current history.
    pub fn state(&self, key: &str, level: Level, latency_ms: Option<i64>, status: String, detail: String) -> (r:
        ChannelState)
        ensures
            r@ == (StateView {
                key: key@,
                name: self@.config.name,
                level,
                latency_ms,
                status: status@,
                detail: detail@,
                history: self@.history,
            }),
            r@.history.len() <= HISTORY_LEN,
    {
        proof {
            use_type_invariant(self);
        }
        ChannelState {
            key: key.to_owned(),
            name: self.config.name.clone(),
            level,
            latency_ms,
            status,
            detail,
            history: deque_samples(&self.history),
        }
    }
}

} // verus!

verus! {

/// What a round decided for one channel: the state to show and the sample
/// to record, and the target to try first next time, if it changes.
pub struct Outcome {
    pub level: Level,
    pub latency_ms: Option<i64>,
    pub status: Seq<char>,
    pub detail: Seq<char>,
    pub sample: Option<i64>,
    pub preferred: Option<Seq<char>>,
}

/// The channel after a round that ended in `o`.
pub open spec fn base_after(b: BaseView, o: Outcome) -> BaseView {
    BaseView {
        config: b.config,
        history: recorded(b.history, o.sample),
        preferred: match o.preferred {
            Some(p) => p,
            None => b.preferred,
        },
    }
}

/// The state shown after a round that ended in `o`.
pub open spec fn state_after(key: Seq<char>, b: BaseView, o: Outcome) -> StateView {
    StateView {
        key,
        name: b.config.name,
        level: o.level,
        latency_ms: o.latency_ms,
        status: o.status,
        detail: o.detail,
        history: base_after(b, o).history,
    }
}

/// A state that records nothing: the channel is switched off or has
/// nothing to probe.
pub open spec fn idle_state(key: Seq<char>, b: BaseView, status: Seq<char>, detail: Seq<char>) -> StateView {
    StateView {
        key,
        name: b.config.name,
        level: Level::Off,
        latency_ms: None,
        status,
        detail,
        history: b.history,
    }
}

pub open spec fn probe_views(s: Seq<ProbeResult>) -> Seq<ProbeView> {
    Seq::new(s.len(), |i: int| s[i]@)
}

/// The first result from `k` on that succeeded, or -1.
pub open spec fn first_ok(results: Seq<ProbeView>, k: int) -> int
    decreases results.len() - k,
{
    if k < 0 || k >= results.len() {
        -1
    } else if results[k].ok {
        k
    } else {
        first_ok(results, k + 1)
    }
}

/// A result's latency, zero when it has none.
pub open spec fn latency_or_zero(r: ProbeView) -> i64 {
    match r.latency_ms {
        Some(v) => v,
        None => 0,
    }
}

pub open spec fn plan_views(s: Seq<(String, bool)>) -> Seq<(Seq<char>, bool)> {
    Seq::new(s.len(), |i: int| (s[i].0@, s[i].1))
}

/// The HTTP targets in the order to try them, each with whether its
/// certificate is checked.
pub open spec fn http_plan(targets: Seq<TargetView>, verify_default: bool) -> Seq<(Seq<char>, bool)>
    decreases targets.len(),
{
    if targets.len() == 0 {
        Seq::empty()
    } else {
        let rest = http_plan(targets.drop_last(), verify_default);
        let t = targets.last();
        if t.kind == TargetKind::Http {
            rest.push(
                (
                    t.value,
                    match t.verify {
                        Some(v) => v,
                        None => verify_default,
                    },
                ),
            )
        } else {
            rest
        }
    }
}

/// Why an HTTP channel does not probe at all, if it does not.
pub open spec fn http_precheck(c: ChannelView) -> Option<(Seq<char>, Seq<char>)> {
    if !c.enabled {
        Some(("已停用"@, "config.json 中已关闭"@))
    } else if c.targets.len() == 0 {
        Some(("未配置"@, "请在 config.json 中配置探测地址"@))
    } else {
        None
    }
}

/// The verdict of an HTTP channel on the results of the targets it tried,
/// in order: the first success wins; with none, a proxy that refused every
/// connection means the proxy is down, otherwise the last failure speaks.
pub open spec fn http_outcome(c: ChannelView, plan: Seq<(Seq<char>, bool)>, results: Seq<ProbeView>) -> Outcome {
    let i = first_ok(results, 0);
    if i >= 0 {
        let lat = latency_or_zero(results[i]);
        let level = level_for(lat as int, c.good_ms, c.warn_ms);
        Outcome {
            level,
            latency_ms: Some(lat),
            status: status_text_of(level),
            detail: host_text(plan[i].0) + " · "@ + results[i].detail,
            sample: Some(lat),
            preferred: Some(plan[i].0),
        }
    } else if results.len() == 0 {
        Outcome {
            level: Level::Off,
            latency_ms: None,
            status: "未配置"@,
            detail: "没有可用的 HTTP 目标"@,
            sample: None,
            preferred: None,
        }
    } else if c.proxy.len() > 0 && (forall|k: int| 0 <= k < results.len() ==> #[trigger] results[k].proxy_down) {
        Outcome { level: Level::Off, latency_ms: None, status: "代理未启动"@, detail: c.proxy, sample: None, preferred: None }
    } else {
        Outcome {
            level: Level::Bad,
            latency_ms: results.last().latency_ms,
            status: results.last().detail,
            detail: host_text(plan[results.len() - 1].0),
            sample: None,
            preferred: None,
        }
    }
}

/// `a · b`.
pub fn joined_with_dot(a: &str, b: &str) -> (r: String)
    ensures
        r@ == a@ + " · "@ + b@,
{
    let mut r = a.to_owned();
    push_str(&mut r, " · ");
    push_str(&mut r, b);
    r
}

/// A channel probed over HTTP, directly or through a proxy.
pub struct HttpChannel {
    key: String,
    base: ChannelBase,
}

pub struct HttpView {
    pub key: Seq<char>,
    pub base: BaseView,
}

impl View for HttpChannel {
    type V = HttpView;

    closed spec fn view(&self) -> HttpView {
        HttpView { key: self.key@, base: self.base@ }
    }
}

impl HttpChannel {
    pub fn new(key: &str, config: ChannelConfig) -> (r: HttpChannel)
        ensures
            r@ == (HttpView {
                key: key@,
                base: BaseView { config: config@, history: Seq::empty(), preferred: Seq::empty() },
            }),
    {
        HttpChannel { key: key.to_owned(), base: ChannelBase::new(config) }
    }

    pub fn base(&self) -> (r: &ChannelBase)
        ensures
            r@ == self@.base,
    {
        &self.base
    }

    /// The state of a channel that is switched off or has no target; it
    /// records no sample.
    pub fn precheck(&self) -> (r: Option<ChannelState>)
        ensures
            match r {
                Some(s) => http_precheck(self@.base.config) matches Some((status, detail)) && s@ == idle_state(
                    self@.key,
                    self@.base,
                    status,
                    detail,
                ),
                None => http_precheck(self@.base.config) is None,
            },
    {
        let config = self.base.config();
        if !config.enabled {
            return Some(self.base.state(self.key.as_str(), Level::Off, None, "已停用".to_owned(), "config.json 中已关闭".to_owned()));
        }
        if config.targets.len() == 0 {
            return Some(
                self.base.state(self.key.as_str(), Level::Off, None, "未配置".to_owned(), "请在 config.json 中配置探测地址".to_owned()),
            );
        }
        None
    }

    /// The URLs to try, in order, each with whether to check certificates.
    pub fn plan(&self, verify_default: bool) -> (r: Vec<(String, bool)>)
        ensures
            plan_views(r@) == http_plan(ordered_view(self@.base.config.targets, self@.base.preferred), verify_default),
    {
        let ordered = self.base.ordered_targets();
        let ghost tv = target_views(ordered@);
        let mut plan: Vec<(String, bool)> = Vec::new();
        let mut i: usize = 0;
        assert(tv.take(0) =~= Seq::<TargetView>::empty());
        assert(plan_views(plan@) =~= Seq::<(Seq<char>, bool)>::empty());
        while i < ordered.len()
            invariant
                i <= ordered.len(),
                tv == target_views(ordered@),
                plan_views(plan@) == http_plan(tv.take(i as int), verify_default),
            decreases ordered.len() - i,
        {
            let ghost taken = tv.take(i + 1);
            assert(taken.drop_last() =~= tv.take(i as int));
            assert(taken.last() == ordered@[i as int]@);
            if ordered[i].kind == TargetKind::Http {
                let verify = match ordered[i].verify {
                    Some(v) => v,
                    None => verify_default,
                };
                let ghost before = plan_views(plan@);
                plan.push((ordered[i].value.clone(), verify));
                assert(plan_views(plan@) =~= before.push((ordered@[i as int].value@, verify)));
            }
            i += 1;
        }
        assert(tv.take(ordered.len() as int) =~= tv);
        plan
    }

    /// Settles the round on the results of the URLs tried, in plan order
    /// (the caller stops at the first success).
    pub fn settle(&mut self, plan: &Vec<(String, bool)>, results: &Vec<ProbeResult>) -> (r: ChannelState)
        requires
            results.len() <= plan.len(),
        ensures
            final(self)@.key == old(self)@.key,
            final(self)@.base == base_after(
                old(self)@.base,
                http_outcome(old(self)@.base.config, plan_views(plan@), probe_views(results@)),
            ),
            r@ == state_after(
                old(self)@.key,
                old(self)@.base,
                http_outcome(old(self)@.base.config, plan_views(plan@), probe_views(results@)),
            ),
    {
        let ghost rv = probe_views(results@);
        let ghost pv = plan_views(plan@);
        let good = self.base.config().good_ms;
        let warn = self.base.config().warn_ms;
        let mut all_down = true;
        let mut i: usize = 0;
        while i < results.len()
            invariant
                i <= results.len() <= plan.len(),
                rv == probe_views(results@),
                pv == plan_views(plan@),
                forall|k: int| 0 <= k < i ==> !(#[trigger] rv[k]).ok,
                all_down == (forall|k: int| 0 <= k < i ==> (#[trigger] rv[k]).proxy_down),
                first_ok(rv, 0) == first_ok(rv, i as int),
                self@ == old(self)@,
                good == self@.base.config.good_ms,
                warn == self@.base.config.warn_ms,
            decreases results.len() - i,
        {
            assert(rv[i as int] == results@[i as int]@);
            if results[i].ok {
                assert(first_ok(rv, i as int) == i);
                let lat: i64 = match results[i].latency_ms {
                    Some(v) => v,
                    None => 0,
                };
                let level = level_of(lat, good, warn);
                let host = host_of(plan[i].0.as_str());
                let detail = joined_with_dot(host.as_str(), results[i].detail.as_str());
                self.base.prefer(plan[i].0.as_str());
                self.base.record(Some(lat));
                return self.base.state(self.key.as_str(), level, Some(lat), status_of(level).to_owned(), detail);
            }
            if !results[i].proxy_down {
                all_down = false;
            }
            i += 1;
        }
        assert(first_ok(rv, i as int) == -1);
        self.base.record(None);
        if results.len() == 0 {
            return self.base.state(self.key.as_str(), Level::Off, None, "未配置".to_owned(), "没有可用的 HTTP 目标".to_owned());
        }
        let proxy = self.base.config().proxy.clone();
        if !proxy.as_str().is_empty() && all_down {
            return self.base.state(self.key.as_str(), Level::Off, None, "代理未启动".to_owned(), proxy);
        }
        let last = results.len() - 1;
        let status = results[last].detail.clone();
        let host = host_of(plan[last].0.as_str());
        self.base.state(self.key.as_str(), Level::Bad, results[last].latency_ms, status, host)
    }
}

} // verus!

verus! {

pub struct AdapterView {
    pub name: Seq<char>,
    pub description: Seq<char>,
    pub up: bool,
    pub ipv4: Seq<Seq<char>>,
    pub gateway: Seq<Seq<char>>,
    pub dns: Seq<Seq<char>>,
}

impl View for AdapterInfo {
    type V = AdapterView;

    open spec fn view(&self) -> AdapterView {
        AdapterView {
            name: self.name@,
            description: self.description@,
            up: self.up,
            ipv4: views(self.ipv4@),
            gateway: views(self.gateway@),
            dns: views(self.dns@),
        }
    }
}

pub open spec fn adapter_views(s: Seq<AdapterInfo>) -> Seq<AdapterView> {
    Seq::new(s.len(), |i: int| s[i]@)
}

/// An adapter belongs to the VPN when one of the keywords occurs in its
/// name and description, case ignored.
pub open spec fn adapter_matches(a: AdapterView, keywords: Seq<Seq<char>>) -> bool {
    exists|k: int|
        0 <= k < keywords.len() && contains_seq(
            lowercase(a.name + seq![' '] + a.description),
            lowercase(#[trigger] keywords[k]),
        )
}

/// The first adapter from `k` on that belongs to the VPN, or -1.
pub open spec fn first_vpn_adapter(adapters: Seq<AdapterView>, keywords: Seq<Seq<char>>, k: int) -> int
    decreases adapters.len() - k,
{
    if k < 0 || k >= adapters.len() {
        -1
    } else if adapter_matches(adapters[k], keywords) {
        k
    } else {
        first_vpn_adapter(adapters, keywords, k + 1)
    }
}

pub open spec fn empty_presence() -> PresenceView {
    PresenceView {
        connected: false,
        label: Seq::empty(),
        ipv4: Seq::empty(),
        gateway: Seq::empty(),
        dns: Seq::empty(),
    }
}

/// What the adapters say of the VPN: the first matching adapter, labelled
/// by its description (its name when that is empty).
pub open spec fn adapter_presence(adapters: Seq<AdapterView>, keywords: Seq<Seq<char>>) -> PresenceView {
    let j = first_vpn_adapter(adapters, keywords, 0);
    if j >= 0 {
        let a = adapters[j];
        PresenceView {
            connected: a.up,
            label: if a.description.len() == 0 { a.name } else { a.description },
            ipv4: a.ipv4,
            gateway: a.gateway,
            dns: a.dns,
        }
    } else {
        empty_presence()
    }
}

/// With no labelled adapter, a running VPN program counts as connected.
pub open spec fn process_presence(found: PresenceView, names: Seq<Seq<char>>, listed: Seq<Seq<char>>) -> PresenceView {
    let running = running_names(names, listed);
    if found.label.len() == 0 && running.len() > 0 {
        PresenceView { connected: true, label: running[0], ..found }
    } else {
        found
    }
}

fn keyword_in(haystack: &Vec<char>, keywords: &Vec<String>) -> (r: bool)
    ensures
        r == (exists|k: int|
            0 <= k < keywords@.len() && contains_seq(haystack@, lowercase(#[trigger] views(keywords@)[k]))),
{
    let mut i: usize = 0;
    while i < keywords.len()
        invariant
            i <= keywords.len(),
            forall|k: int| 0 <= k < i ==> !contains_seq(haystack@, lowercase(#[trigger] views(keywords@)[k])),
        decreases keywords.len() - i,
    {
        let wanted = to_lower(keywords[i].as_str());
        let pattern = chars_of(wanted.as_str());
        assert(views(keywords@)[i as int] == keywords@[i as int]@);
        if find_first(haystack, &pattern, 0).is_some() {
            return true;
        }
        i += 1;
    }
    false
}

/// Finds the VPN among the adapters.
pub fn presence_from_adapters(adapters: &Vec<AdapterInfo>, keywords: &Vec<String>) -> (r: Presence)
    ensures
        r@ == adapter_presence(adapter_views(adapters@), views(keywords@)),
{
    let ghost av = adapter_views(adapters@);
    let mut j: usize = 0;
    while j < adapters.len()
        invariant
            j <= adapters.len(),
            av == adapter_views(adapters@),
            first_vpn_adapter(av, views(keywords@), 0) == first_vpn_adapter(av, views(keywords@), j as int),
        decreases adapters.len() - j,
    {
        let a = &adapters[j];
        let mut joined = a.name.clone();
        push_char(&mut joined, ' ');
        push_str(&mut joined, a.description.as_str());
        let lowered = to_lower(joined.as_str());
        let haystack = chars_of(lowered.as_str());
        assert(av[j as int] == a@);
        assert(joined@ == a@.name + seq![' '] + a@.description);
        if keyword_in(&haystack, keywords) {
            assert(adapter_matches(av[j as int], views(keywords@)));
            assert(first_vpn_adapter(av, views(keywords@), j as int) == j);
            let label = if a.description.as_str().is_empty() { a.name.clone() } else { a.description.clone() };
            return Presence {
                connected: a.up,
                label,
                ipv4: copy_strings(&a.ipv4),
                gateway: copy_strings(&a.gateway),
                dns: copy_strings(&a.dns),
            };
        }
        assert(!adapter_matches(av[j as int], views(keywords@)));
        j += 1;
    }
    Presence::default()
}

/// Falls back on the running programs when no adapter gave a label.
pub fn presence_with_processes(found: Presence, names: &Vec<String>, listed: &Vec<String>) -> (r: Presence)
    ensures
        r@ == process_presence(found@, views(names@), views(listed@)),
{
    if !found.label.as_str().is_empty() {
        return found;
    }
    let running = running_processes(names, listed);
    if running.len() > 0 {
        assert(views(running@)[0] == running@[0]@);
        Presence { connected: true, label: running[0].clone(), ..found }
    } else {
        found
    }
}

} // verus!

verus! {

/// How long a detected presence is reused, in milliseconds.
pub const PRESENCE_TTL_MS: u64 = 8000;

/// How long the list of peers is reused, in milliseconds.
pub const PEERS_TTL_MS: u64 = 30000;

/// Whether something taken at `at` is still fresh at `now` (a clock that
/// went back counts as no time passed).
pub open spec fn is_fresh(at: Option<u64>, now: u64, ttl: u64) -> bool {
    match at {
        Some(t) => now < t || now - t < ttl,
        None => false,
    }
}

pub fn fresh(at: Option<u64>, now: u64, ttl: u64) -> (r: bool)
    ensures
        r == is_fresh(at, now, ttl),
{
    match at {
        Some(t) => now < t || now - t < ttl,
        None => false,
    }
}

/// The decimal text of a port.
pub open spec fn port_text(port: u16) -> Seq<char> {
    uint_text(port as nat)
}

fn push_port(out: &mut String, port: u16)
    ensures
        final(out)@ == old(out)@ + port_text(port),
{
    push_uint(out, port as u64);
}

/// The `.1` address of the local network: the address up to its last dot,
/// then `.1`.
pub open spec fn gateway_guess(ip: Seq<char>) -> Option<Seq<char>> {
    let dot = last_match(ip, seq!['.']);
    if dot >= 0 {
        Some(ip.take(dot) + seq!['.', '1'])
    } else {
        None
    }
}

fn guess_gateway(ip: &String) -> (r: Option<String>)
    ensures
        opt_view(r) == gateway_guess(ip@),
{
    let chars = chars_of(ip.as_str());
    let dot = vec!['.'];
    assert(dot@ =~= seq!['.']);
    proof {
        lemma_last_match(chars@, dot@);
    }
    match find_last(&chars, &dot) {
        Some(k) => {
            let mut guess = copy_range(&chars, 0, k);
            guess.push('.');
            guess.push('1');
            assert(guess@ =~= chars@.take(k as int) + seq!['.', '1']);
            Some(string_of(&guess))
        },
        None => None,
    }
}

/// The ICMP target for an address, under a display name.
pub open spec fn icmp_target(value: Seq<char>, name: Seq<char>, port: Option<u16>) -> TargetView {
    TargetView { kind: TargetKind::Icmp, value, name, verify: None, port }
}

pub open spec fn peer_target(p: (Seq<char>, u16)) -> TargetView {
    icmp_target(p.0, "内网 "@ + p.0 + seq![':'] + port_text(p.1), Some(p.1))
}

/// The peers in private ranges, in order.
pub open spec fn private_peers(peers: Seq<(Seq<char>, u16)>) -> Seq<(Seq<char>, u16)>
    decreases peers.len(),
{
    if peers.len() == 0 {
        peers
    } else if is_private(peers.last().0) {
        private_peers(peers.drop_last()).push(peers.last())
    } else {
        private_peers(peers.drop_last())
    }
}

/// The targets kept from the peers found: the first three private ones.
pub open spec fn peer_targets(peers: Seq<(Seq<char>, u16)>) -> Seq<TargetView> {
    let kept = private_peers(peers);
    let first = if kept.len() > 3 { kept.take(3) } else { kept };
    first.map_values(|p: (Seq<char>, u16)| peer_target(p))
}

/// Where to look when no target is configured: the peers, the VPN's DNS
/// server and gateway, or else the `.1` of the local address; four at
/// most.
pub open spec fn auto_view(peers: Seq<TargetView>, p: PresenceView) -> Seq<TargetView> {
    let with_dns = if p.dns.len() > 0 {
        peers.push(icmp_target(p.dns[0], "DNS "@ + p.dns[0], None))
    } else {
        peers
    };
    let with_gateway = if p.gateway.len() > 0 {
        with_dns.push(icmp_target(p.gateway[0], "网关 "@ + p.gateway[0], None))
    } else {
        with_dns
    };
    let all = if with_gateway.len() == 0 && p.ipv4.len() > 0 {
        match gateway_guess(p.ipv4[0]) {
            Some(guess) => if guess != p.ipv4[0] {
                seq![icmp_target(guess, "网关 "@ + guess, None)]
            } else {
                with_gateway
            },
            None => with_gateway,
        }
    } else {
        with_gateway
    };
    if all.len() > 4 {
        all.take(4)
    } else {
        all
    }
}

/// The internal channel: it finds the VPN, picks what to probe and judges
/// the answers.
pub struct VpnChannel {
    base: ChannelBase,
    keywords: Vec<String>,
    process_names: Vec<String>,
    presence: Presence,
    presence_at: Option<u64>,
    peers: Vec<Target>,
    peers_at: Option<u64>,
}

pub struct VpnView {
    pub base: BaseView,
    pub keywords: Seq<Seq<char>>,
    pub process_names: Seq<Seq<char>>,
    pub presence: PresenceView,
    pub presence_at: Option<u64>,
    pub peers: Seq<TargetView>,
    pub peers_at: Option<u64>,
}

impl View for VpnChannel {
    type V = VpnView;

    closed spec fn view(&self) -> VpnView {
        VpnView {
            base: self.base@,
            keywords: views(self.keywords@),
            process_names: views(self.process_names@),
            presence: self.presence@,
            presence_at: self.presence_at,
            peers: target_views(self.peers@),
            peers_at: self.peers_at,
        }
    }
}

fn peer_target_of(ip: &String, port: u16) -> (r: Target)
    ensures
        r@ == peer_target((ip@, port)),
{
    let mut name = "内网 ".to_owned();
    push_str(&mut name, ip.as_str());
    push_char(&mut name, ':');
    push_port(&mut name, port);
    Target { kind: TargetKind::Icmp, value: ip.clone(), name, verify: None, port: Some(port) }
}

fn named(prefix: &str, value: &String) -> (r: String)
    ensures
        r@ == prefix@ + value@,
{
    let mut r = prefix.to_owned();
    push_str(&mut r, value.as_str());
    r
}

impl VpnChannel {
    pub fn new(config: ChannelConfig, keywords: Vec<String>, process_names: Vec<String>) -> (r: VpnChannel)
        ensures
            r@ == (VpnView {
                base: BaseView { config: config@, history: Seq::empty(), preferred: Seq::empty() },
                keywords: views(keywords@),
                process_names: views(process_names@),
                presence: empty_presence(),
                presence_at: None,
                peers: Seq::empty(),
                peers_at: None,
            }),
    {
        let r = VpnChannel {
            base: ChannelBase::new(config),
            keywords,
            process_names,
            presence: Presence::default(),
            presence_at: None,
            peers: Vec::new(),
            peers_at: None,
        };
        assert(r@.peers =~= Seq::<TargetView>::empty());
        r
    }

    pub fn base(&self) -> (r: &ChannelBase)
        ensures
            r@ == self@.base,
    {
        &self.base
    }

    pub fn keywords(&self) -> (r: &Vec<String>)
        ensures
            views(r@) == self@.keywords,
    {
        &self.keywords
    }

    pub fn process_names(&self) -> (r: &Vec<String>)
        ensures
            views(r@) == self@.process_names,
    {
        &self.process_names
    }

    /// Whether the last detection can be reused at `now`.
    pub fn presence_fresh(&self, now: u64) -> (r: bool)
        ensures
            r == is_fresh(self@.presence_at, now, PRESENCE_TTL_MS),
    {
        fresh(self.presence_at, now, PRESENCE_TTL_MS)
    }

    /// The presence detected last.
    pub fn cached_presence(&self) -> (r: Presence)
        ensures
            r@ == self@.presence,
    {
        self.presence.duplicate()
    }

    /// Keeps a fresh detection, taken at `now`.
    pub fn store_presence(&mut self, found: Presence, now: u64) -> (r: Presence)
        ensures
            r@ == found@,
            final(self)@ == (VpnView { presence: found@, presence_at: Some(now), ..old(self)@ }),
    {
        let copy = found.duplicate();
        self.presence = found;
        self.presence_at = Some(now);
        copy
    }

    /// Whether the peers found last can be reused at `now`.
    pub fn peers_fresh(&self, now: u64) -> (r: bool)
        ensures
            r == is_fresh(self@.peers_at, now, PEERS_TTL_MS),
    {
        fresh(self.peers_at, now, PEERS_TTL_MS)
    }

    /// Keeps the private peers among those found at `now`, three at most.
    pub fn store_peers(&mut self, peers: &Vec<(String, u16)>, now: u64)
        ensures
            final(self)@ == (VpnView {
                peers: peer_targets(peer_views(peers@)),
                peers_at: Some(now),
                ..old(self)@
            }),
    {
        let ghost pv = peer_views(peers@);
        let mut kept: Vec<Target> = Vec::new();
        let mut count: usize = 0;
        let mut i: usize = 0;
        assert(pv.take(0) =~= Seq::<(Seq<char>, u16)>::empty());
        while i < peers.len()
            invariant
                i <= peers.len(),
                pv == peer_views(peers@),
                count <= 3,
                count == kept@.len(),
                count == (if private_peers(pv.take(i as int)).len() > 3 { 3 } else { private_peers(pv.take(i as int)).len() }),
                target_views(kept@) == private_peers(pv.take(i as int)).take(count as int).map_values(
                    |p: (Seq<char>, u16)| peer_target(p),
                ),
            decreases peers.len() - i,
        {
            let ghost taken = pv.take(i + 1);
            assert(taken.drop_last() =~= pv.take(i as int));
            assert(taken.last() == (peers@[i as int].0@, peers@[i as int].1));
            if is_private_ipv4(peers[i].0.as_str()) {
                if count < 3 {
                    let ghost before = target_views(kept@);
                    let ghost pp = private_peers(pv.take(i as int));
                    assert(private_peers(pv.take(i + 1)) == pp.push(pv[i as int]));
                    assert(pp.len() == count);
                    assert(pp.take(count as int) =~= pp);
                    kept.push(peer_target_of(&peers[i].0, peers[i].1));
                    assert(target_views(kept@) =~= before.push(peer_target(pv[i as int])));
                    assert(pp.push(pv[i as int]).take(count + 1) =~= pp.push(pv[i as int]));
                    count += 1;
                    assert(target_views(kept@) =~= private_peers(pv.take(i + 1)).take(count as int).map_values(
                        |p: (Seq<char>, u16)| peer_target(p),
                    ));
                } else {
                    assert(private_peers(pv.take(i + 1)).take(3) =~= private_peers(pv.take(i as int)).take(3));
                }
            } else {
                assert(private_peers(pv.take(i + 1)) == private_peers(pv.take(i as int)));
            }
            i += 1;
        }
        assert(pv.take(peers.len() as int) =~= pv);
        assert(target_views(kept@) =~= peer_targets(pv));
        self.peers = kept;
        self.peers_at = Some(now);
    }

    /// The targets chosen when none is configured.
    pub fn auto_targets(&self, presence: &Presence) -> (r: Vec<Target>)
        ensures
            target_views(r@) == auto_view(self@.peers, presence@),
    {
        let mut targets = copy_targets(&self.peers);
        if presence.dns.len() > 0 {
            let dns = &presence.dns[0];
            targets.push(Target { kind: TargetKind::Icmp, value: dns.clone(), name: named("DNS ", dns), verify: None, port: None });
        }
        if presence.gateway.len() > 0 {
            let gateway = &presence.gateway[0];
            targets.push(
                Target { kind: TargetKind::Icmp, value: gateway.clone(), name: named("网关 ", gateway), verify: None, port: None },
            );
        }
        let ghost so_far = target_views(targets@);
        if targets.len() == 0 && presence.ipv4.len() > 0 {
            match guess_gateway(&presence.ipv4[0]) {
                Some(guess) => {
                    if !text_eq(guess.as_str(), presence.ipv4[0].as_str()) {
                        let name = named("网关 ", &guess);
                        targets.push(Target { kind: TargetKind::Icmp, value: guess, name, verify: None, port: None });
                    }
                },
                None => {},
            }
        }
        assert(target_views(targets@).len() > 4 ==> true);
        if targets.len() > 4 {
            targets.truncate(4);
        }
        assert(target_views(targets@) =~= auto_view(self@.peers, presence@));
        targets
    }
}

} // verus!

verus! {

pub open spec fn opt_probe_views(s: Seq<Option<ProbeResult>>) -> Seq<Option<ProbeView>> {
    Seq::new(
        s.len(),
        |i: int|
            match s[i] {
                Some(r) => Some(r@),
                None => None,
            },
    )
}

/// A probe that ran and succeeded.
pub open spec fn answered(r: Option<ProbeView>) -> bool {
    r matches Some(x) && x.ok
}

/// The latency by which answers are compared; none ranks after all.
pub open spec fn latency_key(r: Option<ProbeView>) -> int {
    match r {
        Some(x) => match x.latency_ms {
            Some(v) => v as int,
            None => i64::MAX as int + 1,
        },
        None => i64::MAX as int + 1,
    }
}

/// The fastest answer among the first `n`, the earliest on a tie; -1 when
/// none answered.
pub open spec fn best_upto(rs: Seq<Option<ProbeView>>, n: int) -> int
    decreases n,
{
    if n <= 0 {
        -1
    } else {
        let b = best_upto(rs, n - 1);
        if answered(rs[n - 1]) && (b < 0 || latency_key(rs[n - 1]) < latency_key(rs[b])) {
            n - 1
        } else {
            b
        }
    }
}

pub proof fn lemma_best_upto(rs: Seq<Option<ProbeView>>, n: int)
    requires
        0 <= n <= rs.len(),
    ensures
        -1 <= best_upto(rs, n) < n,
        best_upto(rs, n) >= 0 ==> answered(rs[best_upto(rs, n)]),
        forall|k: int| 0 <= k < n && answered(rs[k]) ==> best_upto(rs, n) >= 0 && latency_key(
            rs[best_upto(rs, n)],
        ) <= latency_key(#[trigger] rs[k]),
    decreases n,
{
    if n > 0 {
        lemma_best_upto(rs, n - 1);
    }
}

/// The first answer from `k` on, or -1.
pub open spec fn first_answered(rs: Seq<Option<ProbeView>>, k: int) -> int
    decreases rs.len() - k,
{
    if k < 0 || k >= rs.len() {
        -1
    } else if answered(rs[k]) {
        k
    } else {
        first_answered(rs, k + 1)
    }
}

/// Why the last target tried did not answer.
pub open spec fn last_failure(rs: Seq<Option<ProbeView>>) -> Seq<char> {
    if rs.len() == 0 {
        Seq::empty()
    } else {
        match rs.last() {
            None => "目标配置无效"@,
            Some(r) => r.detail,
        }
    }
}

pub open spec fn vpn_label(p: PresenceView) -> Seq<char> {
    if p.label.len() == 0 {
        "未检测到 VPN 网卡/进程"@
    } else {
        p.label
    }
}

/// `<local address> · `, or nothing without an address.
pub open spec fn vpn_prefix(p: PresenceView) -> Seq<char> {
    if p.ipv4.len() == 0 || p.ipv4[0].len() == 0 {
        Seq::empty()
    } else {
        p.ipv4[0] + " · "@
    }
}

pub open spec fn plain(level: Level, status: Seq<char>, detail: Seq<char>) -> Outcome {
    Outcome { level, latency_ms: None, status, detail, sample: None, preferred: None }
}

/// The verdict of the internal channel. Without targets, the presence
/// alone decides. Chosen targets were probed together and the fastest
/// answer wins; configured ones were tried in order and the first answer
/// wins. With no answer a connected VPN is slow (chosen targets) or bad
/// (configured ones), and a VPN that is not there is off.
pub open spec fn vpn_outcome(
    c: ChannelView,
    p: PresenceView,
    manual: bool,
    targets: Seq<TargetView>,
    results: Seq<Option<ProbeView>>,
) -> Outcome {
    let label = vpn_label(p);
    let prefix = vpn_prefix(p);
    if targets.len() == 0 {
        if p.connected {
            plain(Level::Good, "已连接"@, prefix + label)
        } else {
            plain(Level::Off, "未连接"@, label)
        }
    } else if !manual {
        let b = best_upto(results, results.len() as int);
        if b >= 0 {
            let r = results[b]->0;
            let lat = latency_or_zero(r);
            let level = level_for(lat as int, c.good_ms, c.warn_ms);
            Outcome {
                level,
                latency_ms: Some(lat),
                status: status_text_of(level),
                detail: prefix + label_of(targets[b]) + seq![' '] + r.detail,
                sample: Some(lat),
                preferred: None,
            }
        } else if p.connected {
            plain(Level::Warn, "已连接"@, prefix + "未测得内网延迟，可在 config.json 配置 vpn.targets"@)
        } else {
            plain(Level::Off, "未连接"@, label)
        }
    } else {
        let i = first_answered(results, 0);
        if i >= 0 {
            let r = results[i]->0;
            let lat = latency_or_zero(r);
            let level = level_for(lat as int, c.good_ms, c.warn_ms);
            Outcome {
                level,
                latency_ms: Some(lat),
                status: status_text_of(level),
                detail: prefix + targets[i].value + seq![' '] + r.detail,
                sample: Some(lat),
                preferred: Some(targets[i].value),
            }
        } else if p.connected {
            let why = last_failure(results);
            plain(Level::Bad, if why.len() == 0 { "内网不可达"@ } else { why }, prefix + label)
        } else {
            plain(Level::Off, "未连接"@, label)
        }
    }
}

fn faster(a: Option<i64>, b: Option<i64>) -> (r: bool)
    ensures
        r == (latency_key(Some(ProbeView { ok: true, latency_ms: a, detail: Seq::empty(), proxy_down: false, body: None }))
            < latency_key(Some(ProbeView { ok: true, latency_ms: b, detail: Seq::empty(), proxy_down: false, body: None }))),
{
    match (a, b) {
        (Some(x), Some(y)) => x < y,
        (Some(_), None) => true,
        (None, _) => false,
    }
}

fn concat3(a: &str, b: &str, c: &str) -> (r: String)
    ensures
        r@ == a@ + b@ + c@,
{
    let mut r = a.to_owned();
    push_str(&mut r, b);
    push_str(&mut r, c);
    r
}

impl VpnChannel {
    /// The state of a switched-off channel; it records no sample.
    pub fn precheck(&self) -> (r: Option<ChannelState>)
        ensures
            match r {
                Some(s) => !self@.base.config.enabled && s@ == idle_state(
                    "vpn"@,
                    self@.base,
                    "已停用"@,
                    "config.json 中已关闭"@,
                ),
                None => self@.base.config.enabled,
            },
    {
        if !self.base.config().enabled {
            return Some(self.base.state("vpn", Level::Off, None, "已停用".to_owned(), "config.json 中已关闭".to_owned()));
        }
        None
    }

    /// What to probe: the configured targets (the one that answered last
    /// first) or, with none configured, the chosen ones. The flag says
    /// that they are configured.
    pub fn plan(&self, presence: &Presence) -> (r: (bool, Vec<Target>))
        ensures
            r.0 == (self@.base.config.targets.len() > 0),
            target_views(r.1@) == (if r.0 {
                ordered_view(self@.base.config.targets, self@.base.preferred)
            } else {
                auto_view(self@.peers, presence@)
            }),
    {
        if self.base.config().targets.len() > 0 {
            (true, self.base.ordered_targets())
        } else {
            (false, self.auto_targets(presence))
        }
    }

    /// Settles the round. Chosen targets come with one result each (`None`
    /// where the target could not be probed); configured ones with the
    /// results of those tried, in order, up to the first answer.
    pub fn settle(
        &mut self,
        presence: &Presence,
        manual: bool,
        targets: &Vec<Target>,
        results: &Vec<Option<ProbeResult>>,
    ) -> (r: ChannelState)
        requires
            manual ==> results.len() <= targets.len(),
            !manual ==> results.len() == targets.len(),
        ensures
            final(self)@ == (VpnView {
                base: base_after(
                    old(self)@.base,
                    vpn_outcome(
                        old(self)@.base.config,
                        presence@,
                        manual,
                        target_views(targets@),
                        opt_probe_views(results@),
                    ),
                ),
                ..old(self)@
            }),
            r@ == state_after(
                "vpn"@,
                old(self)@.base,
                vpn_outcome(old(self)@.base.config, presence@, manual, target_views(targets@), opt_probe_views(results@)),
            ),
    {
        let ghost rv = opt_probe_views(results@);
        let ghost tv = target_views(targets@);
        let label: String = if presence.label.as_str().is_empty() {
            "未检测到 VPN 网卡/进程".to_owned()
        } else {
            presence.label.clone()
        };
        let prefix: String = if presence.ipv4.len() == 0 || presence.ipv4[0].as_str().is_empty() {
            String::new()
        } else {
            concat3(presence.ipv4[0].as_str(), " · ", "")
        };
        proof {
            reveal_strlit("");
            reveal_strlit(" ");
        }
        assert(label@ == vpn_label(presence@));
        assert(prefix@ =~= vpn_prefix(presence@));
        let good = self.base.config().good_ms;
        let warn = self.base.config().warn_ms;
        if targets.len() == 0 {
            self.base.record(None);
            if presence.connected {
                let detail = concat3(prefix.as_str(), label.as_str(), "");
                return self.base.state("vpn", Level::Good, None, "已连接".to_owned(), detail);
            }
            return self.base.state("vpn", Level::Off, None, "未连接".to_owned(), label);
        }
        if !manual {
            let mut best: Option<usize> = None;
            let mut i: usize = 0;
            while i < results.len()
                invariant
                    i <= results.len() == targets.len(),
                    rv == opt_probe_views(results@),
                    match best {
                        Some(b) => best_upto(rv, i as int) == b as int && b < i,
                        None => best_upto(rv, i as int) == -1,
                    },
                decreases results.len() - i,
            {
                assert(rv[i as int] == match results@[i as int] {
                    Some(r) => Some(r@),
                    None => None,
                });
                match &results[i] {
                    Some(r) => {
                        if r.ok {
                            match best {
                                Some(b) => {
                                    let current = match &results[b] {
                                        Some(x) => x.latency_ms,
                                        None => None,
                                    };
                                    assert(rv[b as int] == match results@[b as int] {
                                        Some(r) => Some(r@),
                                        None => None,
                                    });
                                    proof {
                                        lemma_best_upto(rv, i as int);
                                    }
                                    if faster(r.latency_ms, current) {
                                        best = Some(i);
                                    }
                                },
                                None => {
                                    best = Some(i);
                                },
                            }
                        }
                    },
                    None => {},
                }
                i += 1;
            }
            match best {
                Some(b) => {
                    proof {
                        lemma_best_upto(rv, results.len() as int);
                    }
                    assert(rv[b as int] == match results@[b as int] {
                        Some(r) => Some(r@),
                        None => None,
                    });
                    match &results[b] {
                        Some(r) => {
                            let lat: i64 = match r.latency_ms {
                                Some(v) => v,
                                None => 0,
                            };
                            let level = level_of(lat, good, warn);
                            let name = targets[b].label();
                            let mut detail = concat3(prefix.as_str(), name.as_str(), " ");
                            push_str(&mut detail, r.detail.as_str());
                            assert(tv[b as int] == targets@[b as int]@);
                            assert(detail@ =~= prefix@ + label_of(tv[b as int]) + seq![' '] + r@.detail);
                            self.base.record(Some(lat));
                            return self.base.state("vpn", level, Some(lat), status_of(level).to_owned(), detail);
                        },
                        None => {
                            assert(false);
                            return self.base.state("vpn", Level::Off, None, String::new(), String::new());
                        },
                    }
                },
                None => {
                    self.base.record(None);
                    if presence.connected {
                        let detail = concat3(prefix.as_str(), "未测得内网延迟，可在 config.json 配置 vpn.targets", "");
                        return self.base.state("vpn", Level::Warn, None, "已连接".to_owned(), detail);
                    }
                    return self.base.state("vpn", Level::Off, None, "未连接".to_owned(), label);
                },
            }
        }
        let mut i: usize = 0;
        while i < results.len()
            invariant
                i <= results.len() <= targets.len(),
                manual,
                rv == opt_probe_views(results@),
                tv == target_views(targets@),
                first_answered(rv, 0) == first_answered(rv, i as int),
                self@ == old(self)@,
                good == self@.base.config.good_ms,
                warn == self@.base.config.warn_ms,
                label@ == vpn_label(presence@),
                prefix@ == vpn_prefix(presence@),
            decreases results.len() - i,
        {
            assert(rv[i as int] == match results@[i as int] {
                Some(r) => Some(r@),
                None => None,
            });
            match &results[i] {
                Some(r) => {
                    if r.ok {
                        assert(first_answered(rv, i as int) == i);
                        let lat: i64 = match r.latency_ms {
                            Some(v) => v,
                            None => 0,
                        };
                        let level = level_of(lat, good, warn);
                        let mut detail = concat3(prefix.as_str(), targets[i].value.as_str(), " ");
                        push_str(&mut detail, r.detail.as_str());
                        proof {
                            reveal_strlit(" ");
                        }
                        assert(tv[i as int] == targets@[i as int]@);
                        assert(detail@ =~= prefix@ + tv[i as int].value + seq![' '] + r@.detail);
                        self.base.prefer(targets[i].value.as_str());
                        self.base.record(Some(lat));
                        return self.base.state("vpn", level, Some(lat), status_of(level).to_owned(), detail);
                    }
                },
                None => {},
            }
            i += 1;
        }
        assert(first_answered(rv, i as int) == -1);
        self.base.record(None);
        if presence.connected {
            let why: String = if results.len() == 0 {
                String::new()
            } else {
                match &results[results.len() - 1] {
                    None => "目标配置无效".to_owned(),
                    Some(r) => r.detail.clone(),
                }
            };
            assert(rv.len() > 0 ==> rv.last() == match results@[results.len() - 1] {
                Some(r) => Some(r@),
                None => None,
            });
            assert(why@ == last_failure(rv));
            let status = if why.as_str().is_empty() { "内网不可达".to_owned() } else { why };
            let detail = concat3(prefix.as_str(), label.as_str(), "");
            return self.base.state("vpn", Level::Bad, None, status, detail);
        }
        self.base.state("vpn", Level::Off, None, "未连接".to_owned(), label)
    }
}

} // verus!

verus! {

/// Everything known after a round: the three channels and what the
/// machine around them looks like.
#[derive(Debug)]
pub struct Snapshot {
    /// Local time of the round, as the report prints it.
    pub stamp: String,
    pub channels: Vec<ChannelState>,
    pub proxy_enabled: bool,
    pub proxy_server: String,
    pub clash_meta: String,
    pub extra: Json,
}

pub struct SnapshotView {
    pub stamp: Seq<char>,
    pub channels: Seq<StateView>,
    pub proxy_enabled: bool,
    pub proxy_server: Seq<char>,
    pub clash_meta: Seq<char>,
    pub extra: JsonModel,
}

impl View for Snapshot {
    type V = SnapshotView;

    open spec fn view(&self) -> SnapshotView {
        SnapshotView {
            stamp: self.stamp@,
            channels: state_views(self.channels@),
            proxy_enabled: self.proxy_enabled,
            proxy_server: self.proxy_server@,
            clash_meta: self.clash_meta@,
            extra: self.extra.model(),
        }
    }
}

/// The first channel from `k` on with this key, or -1.
pub open spec fn first_key(chs: Seq<StateView>, key: Seq<char>, k: int) -> int
    decreases chs.len() - k,
{
    if k < 0 || k >= chs.len() {
        -1
    } else if chs[k].key == key {
        k
    } else {
        first_key(chs, key, k + 1)
    }
}

/// The worst of the first `n` channels and its status: a channel replaces
/// the current one only when strictly more severe, so the first of the
/// worst speaks; with none, `Unknown`.
pub open spec fn overall_upto(chs: Seq<StateView>, n: int) -> (Level, Seq<char>)
    decreases n,
{
    if n <= 0 {
        (Level::Unknown, "未知"@)
    } else {
        let (level, status) = overall_upto(chs, n - 1);
        if chs[n - 1].level.spec_severity() > level.spec_severity() {
            (chs[n - 1].level, chs[n - 1].status)
        } else {
            (level, status)
        }
    }
}

pub open spec fn overall_of(chs: Seq<StateView>) -> (Level, Seq<char>) {
    overall_upto(chs, chs.len() as int)
}

/// The channel shown before the first round.
pub open spec fn waiting_state(key: Seq<char>, name: Seq<char>) -> StateView {
    StateView {
        key,
        name,
        level: Level::Unknown,
        latency_ms: None,
        status: "检测中…"@,
        detail: Seq::empty(),
        history: Seq::empty(),
    }
}

fn waiting(key: &str, name: &String) -> (r: ChannelState)
    ensures
        r@ == waiting_state(key@, name@),
{
    let r = ChannelState {
        key: key.to_owned(),
        name: name.clone(),
        level: Level::Unknown,
        latency_ms: None,
        status: "检测中…".to_owned(),
        detail: String::new(),
        history: Vec::new(),
    };
    assert(r@.history =~= Seq::<Option<i64>>::empty());
    r
}

/// A copy of a list of channel states.
pub fn copy_states(v: &Vec<ChannelState>) -> (r: Vec<ChannelState>)
    ensures
        state_views(r@) == state_views(v@),
{
    let mut r: Vec<ChannelState> = Vec::new();
    let mut i: usize = 0;
    while i < v.len()
        invariant
            i <= v.len(),
            r@.len() == i,
            state_views(r@) == state_views(v@).take(i as int),
        decreases v.len() - i,
    {
        let ghost prev = r@;
        r.push(v[i].duplicate());
        assert forall|k: int| 0 <= k < i + 1 implies #[trigger] state_views(r@)[k] == state_views(v@).take(i + 1)[k] by {
            if k < i {
                assert(r@[k] == prev[k]);
                assert(state_views(prev)[k] == state_views(v@).take(i as int)[k]);
            }
        }
        assert(state_views(r@) =~= state_views(v@).take(i + 1));
        i += 1;
    }
    assert(state_views(v@).take(i as int) =~= state_views(v@));
    r
}

impl Snapshot {
    /// The channel with this key.
    pub fn channel(&self, key: &str) -> (r: Option<&ChannelState>)
        ensures
            match r {
                Some(c) => first_key(self@.channels, key@, 0) >= 0 && c@ == self@.channels[first_key(
                    self@.channels,
                    key@,
                    0,
                )],
                None => first_key(self@.channels, key@, 0) == -1,
            },
    {
        let ghost chs = self@.channels;
        let mut i: usize = 0;
        while i < self.channels.len()
            invariant
                i <= self.channels.len(),
                chs == self@.channels,
                first_key(chs, key@, 0) == first_key(chs, key@, i as int),
            decreases self.channels.len() - i,
        {
            assert(chs[i as int] == self.channels@[i as int]@);
            if text_eq(self.channels[i].key.as_str(), key) {
                assert(first_key(chs, key@, i as int) == i);
                return Some(&self.channels[i]);
            }
            i += 1;
        }
        None
    }

    /// The worst channel's level and status.
    pub fn overall(&self) -> (r: (Level, String))
        ensures
            (r.0, r.1@) == overall_of(self@.channels),
    {
        let ghost chs = self@.channels;
        let mut level = Level::Unknown;
        let mut status = "未知".to_owned();
        let mut i: usize = 0;
        while i < self.channels.len()
            invariant
                i <= self.channels.len(),
                chs == self@.channels,
                (level, status@) == overall_upto(chs, i as int),
            decreases self.channels.len() - i,
        {
            assert(chs[i as int] == self.channels@[i as int]@);
            if self.channels[i].level.severity() > level.severity() {
                level = self.channels[i].level;
                status = self.channels[i].status.clone();
            }
            i += 1;
        }
        (level, status)
    }

    /// The snapshot shown before the first round.
    pub open spec fn placeholder_view(c: ConfigView, stamp: Seq<char>) -> SnapshotView {
        SnapshotView {
            stamp,
            channels: seq![
                waiting_state("clash"@, c.clash.name),
                waiting_state("vpn"@, c.vpn.name),
                waiting_state("direct"@, c.direct.name),
            ],
            proxy_enabled: false,
            proxy_server: Seq::empty(),
            clash_meta: Seq::empty(),
            extra: JsonModel::Obj(Seq::empty()),
        }
    }

    pub fn placeholder(config: &Config, stamp: &str) -> (r: Snapshot)
        ensures
            r@ == Snapshot::placeholder_view(config@, stamp@),
    {
        let mut channels: Vec<ChannelState> = Vec::new();
        channels.push(waiting("clash", &config.clash.name));
        channels.push(waiting("vpn", &config.vpn.name));
        channels.push(waiting("direct", &config.direct.name));
        let extra = Json::Obj(Vec::new());
        assert(Json::field_models(Seq::<(String, Json)>::empty()) =~= Seq::<(Seq<char>, JsonModel)>::empty());
        let r = Snapshot {
            stamp: stamp.to_owned(),
            channels,
            proxy_enabled: false,
            proxy_server: String::new(),
            clash_meta: String::new(),
            extra,
        };
        assert(r@.channels =~= seq![
            waiting_state("clash"@, config@.clash.name),
            waiting_state("vpn"@, config@.vpn.name),
            waiting_state("direct"@, config@.direct.name),
        ]);
        r
    }

    pub fn duplicate(&self) -> (r: Snapshot)
        ensures
            r@ == self@,
    {
        Snapshot {
            stamp: self.stamp.clone(),
            channels: copy_states(&self.channels),
            proxy_enabled: self.proxy_enabled,
            proxy_server: self.proxy_server.clone(),
            clash_meta: self.clash_meta.clone(),
            extra: duplicate(&self.extra),
        }
    }
}

/// The state of a channel whose probe could not finish.
pub fn unreachable_state(key: &str, message: &str) -> (r: ChannelState)
    ensures
        r@ == (StateView {
            key: key@,
            name: key@,
            level: Level::Unknown,
            latency_ms: None,
            status: "探测异常"@,
            detail: message@,
            history: Seq::empty(),
        }),
{
    let r = ChannelState {
        key: key.to_owned(),
        name: key.to_owned(),
        level: Level::Unknown,
        latency_ms: None,
        status: "探测异常".to_owned(),
        detail: message.to_owned(),
        history: Vec::new(),
    };
    assert(r@.history =~= Seq::<Option<i64>>::empty());
    r
}

} // verus!

verus! {

/// How long the controller's version and mode are reused, in milliseconds.
pub const META_TTL_MS: u64 = 300000;

pub open spec fn pair(a: Seq<char>, x: JsonModel, b: Seq<char>, y: JsonModel) -> JsonModel {
    JsonModel::Obj(seq![(a, x), (b, y)])
}

/// A channel's thresholds as the report lists them.
pub open spec fn limits_json(c: ChannelView) -> JsonModel {
    pair("good"@, JsonModel::Num(c.good_ms), "warn"@, JsonModel::Num(c.warn_ms))
}

/// The targets of the internal channel as the report lists them.
pub open spec fn vpn_targets_json(c: ChannelView) -> Seq<JsonModel> {
    if c.targets.len() == 0 {
        seq![JsonModel::Str("(未配置，按 VPN 网卡/DNS/网关自动探测)"@)]
    } else {
        target_values(c.targets)
    }
}

/// The facts the report adds about the machine and the settings.
pub open spec fn context_json(
    clash: ChannelView,
    vpn: ChannelView,
    direct: ChannelView,
    interval: int,
    p: PresenceView,
) -> JsonModel {
    JsonModel::Obj(
        seq![
            (
                "vpn"@,
                JsonModel::Obj(
                    seq![
                        ("adapter"@, JsonModel::Str(p.label)),
                        ("connected"@, JsonModel::Bool(p.connected)),
                        ("ipv4"@, JsonModel::Arr(str_models(p.ipv4))),
                        ("gateway"@, JsonModel::Arr(str_models(p.gateway))),
                        ("dns"@, JsonModel::Arr(str_models(p.dns))),
                    ],
                ),
            ),
            (
                "targets"@,
                JsonModel::Obj(
                    seq![
                        ("clash"@, JsonModel::Arr(target_values(clash.targets))),
                        ("vpn"@, JsonModel::Arr(vpn_targets_json(vpn))),
                        ("direct"@, JsonModel::Arr(target_values(direct.targets))),
                    ],
                ),
            ),
            (
                "thresholds"@,
                JsonModel::Obj(
                    seq![
                        ("clash"@, limits_json(clash)),
                        ("vpn"@, limits_json(vpn)),
                        ("direct"@, limits_json(direct)),
                    ],
                ),
            ),
            ("interval_seconds"@, JsonModel::Num(interval)),
        ],
    )
}

fn limits(c: &ChannelConfig) -> (r: Json)
    ensures
        r.model() == limits_json(c@),
{
    let mut f: Vec<(String, Json)> = Vec::new();
    assert(Json::field_models(f@) =~= Seq::<(Seq<char>, JsonModel)>::empty());
    push_field(&mut f, "good", Json::Num(c.good_ms));
    push_field(&mut f, "warn", Json::Num(c.warn_ms));
    assert(Json::field_models(f@) =~= seq![
        ("good"@, JsonModel::Num(c@.good_ms)),
        ("warn"@, JsonModel::Num(c@.warn_ms)),
    ]);
    Json::Obj(f)
}

fn vpn_targets(c: &ChannelConfig) -> (r: Json)
    ensures
        r.model() == JsonModel::Arr(vpn_targets_json(c@)),
{
    if c.targets.len() == 0 {
        let mut items: Vec<Json> = Vec::new();
        assert(Json::models(items@) =~= Seq::<JsonModel>::empty());
        push_item(&mut items, Json::Str("(未配置，按 VPN 网卡/DNS/网关自动探测)".to_owned()));
        assert(Json::models(items@) =~= seq![JsonModel::Str("(未配置，按 VPN 网卡/DNS/网关自动探测)"@)]);
        Json::Arr(items)
    } else {
        target_array(&c.targets)
    }
}

/// The engine: the three channels, the settings they came from, the
/// controller's version line and the last snapshot.
pub struct Engine {
    pub config: Config,
    pub clash: HttpChannel,
    pub vpn: VpnChannel,
    pub direct: HttpChannel,
    pub clash_meta: String,
    pub clash_meta_at: Option<u64>,
    pub last: Snapshot,
}

/// The version line of the proxy's controller, from the bodies of its
/// `/version` and `/configs` replies: nothing without a version.
pub open spec fn meta_line(version_body: Option<Seq<char>>, configs_body: Option<Seq<char>>) -> Seq<char> {
    let version = body_string(version_body, "version"@);
    let mode = body_string(configs_body, "mode"@);
    if version.len() == 0 {
        Seq::empty()
    } else {
        "Clash "@ + version + " · "@ + mode_name(mode) + " 模式"@
    }
}

/// The string at `key` of a JSON body; empty when the body is missing, is
/// no JSON or has no string there.
pub open spec fn body_string(body: Option<Seq<char>>, key: Seq<char>) -> Seq<char> {
    match body {
        Some(text) => match parse_text(text) {
            Ok(v) => model_string(v, key, Seq::empty()),
            Err(_) => Seq::empty(),
        },
        None => Seq::empty(),
    }
}

/// The proxy's routing mode in words.
pub open spec fn mode_name(mode: Seq<char>) -> Seq<char> {
    if mode == "rule"@ {
        "规则"@
    } else if mode == "global"@ {
        "全局"@
    } else if mode == "direct"@ {
        "直连"@
    } else {
        mode
    }
}

fn read_body_string(body: Option<&str>, key: &str) -> (r: String)
    ensures
        r@ == body_string(
            match body {
                Some(t) => Some(t@),
                None => None,
            },
            key@,
        ),
{
    proof {
        reveal_strlit("");
    }
    match body {
        Some(text) => match Json::parse(text) {
            Ok(v) => v.string(key, ""),
            Err(_) => String::new(),
        },
        None => String::new(),
    }
}

pub fn clash_meta_text(version_body: Option<&str>, configs_body: Option<&str>) -> (r: String)
    ensures
        r@ == meta_line(
            match version_body {
                Some(t) => Some(t@),
                None => None,
            },
            match configs_body {
                Some(t) => Some(t@),
                None => None,
            },
        ),
{
    let version = read_body_string(version_body, "version");
    if version.as_str().is_empty() {
        return String::new();
    }
    let mode = read_body_string(configs_body, "mode");
    let mode_text: String = if text_eq(mode.as_str(), "rule") {
        "规则".to_owned()
    } else if text_eq(mode.as_str(), "global") {
        "全局".to_owned()
    } else if text_eq(mode.as_str(), "direct") {
        "直连".to_owned()
    } else {
        mode
    };
    let mut r = "Clash ".to_owned();
    push_str(&mut r, version.as_str());
    push_str(&mut r, " · ");
    push_str(&mut r, mode_text.as_str());
    push_str(&mut r, " 模式");
    r
}

/// The snapshot a round ends in: the clash, VPN and direct states in that
/// order, the machine's proxy setting, the controller line and the facts
/// of `context_json`.
pub open spec fn round_snapshot(
    configs: (ChannelView, ChannelView, ChannelView),
    interval: int,
    p: PresenceView,
    states: (StateView, StateView, StateView),
    proxy_enabled: bool,
    proxy_server: Seq<char>,
    clash_meta: Seq<char>,
    stamp: Seq<char>,
) -> SnapshotView {
    SnapshotView {
        stamp,
        channels: seq![states.0, states.1, states.2],
        proxy_enabled,
        proxy_server,
        clash_meta,
        extra: context_json(configs.0, configs.1, configs.2, interval, p),
    }
}

/// The state an HTTP channel ends its round in: the one `precheck` gives
/// where it settles the round without a probe, else the one `settle` gives
/// on the results of the URLs that `plan` listed.
pub open spec fn http_round(c: HttpView, verify_default: bool, results: Seq<ProbeView>) -> StateView {
    match http_precheck(c.base.config) {
        Some((status, detail)) => idle_state(c.key, c.base, status, detail),
        None => state_after(
            c.key,
            c.base,
            http_outcome(c.base.config, http_plan(ordered_view(c.base.config.targets, c.base.preferred), verify_default), results),
        ),
    }
}

/// The state the VPN channel ends its round in: switched off, or the one
/// `settle` gives on the results for the targets that `plan` chose with the
/// VPN's presence `p`.
pub open spec fn vpn_round(c: VpnView, p: PresenceView, results: Seq<Option<ProbeView>>) -> StateView {
    if !c.base.config.enabled {
        idle_state("vpn"@, c.base, "已停用"@, "config.json 中已关闭"@)
    } else {
        let manual = c.base.config.targets.len() > 0;
        let targets = if manual {
            ordered_view(c.base.config.targets, c.base.preferred)
        } else {
            auto_view(c.peers, p)
        };
        state_after("vpn"@, c.base, vpn_outcome(c.base.config, p, manual, targets, results))
    }
}

impl Engine {
    pub fn new(config: Config, stamp: &str) -> (r: Engine)
        ensures
            r.config@ == config@,
            r.clash@ == (HttpView {
                key: "clash"@,
                base: BaseView { config: config@.clash, history: Seq::empty(), preferred: Seq::empty() },
            }),
            r.direct@ == (HttpView {
                key: "direct"@,
                base: BaseView { config: config@.direct, history: Seq::empty(), preferred: Seq::empty() },
            }),
            r.vpn@ == (VpnView {
                base: BaseView { config: config@.vpn, history: Seq::empty(), preferred: Seq::empty() },
                keywords: config@.adapter_keywords,
                process_names: config@.process_names,
                presence: empty_presence(),
                presence_at: None,
                peers: Seq::empty(),
                peers_at: None,
            }),
            r.clash_meta@ == Seq::<char>::empty(),
            r.clash_meta_at is None,
            r.last@ == Snapshot::placeholder_view(config@, stamp@),
    {
        let clash = HttpChannel::new("clash", config.clash.duplicate());
        let direct = HttpChannel::new("direct", config.direct.duplicate());
        let vpn = VpnChannel::new(
            config.vpn.duplicate(),
            copy_strings(&config.adapter_keywords),
            copy_strings(&config.process_names),
        );
        let last = Snapshot::placeholder(&config, stamp);
        Engine { config, clash, vpn, direct, clash_meta: String::new(), clash_meta_at: None, last }
    }

    /// A copy of the last snapshot.
    pub fn last(&self) -> (r: Snapshot)
        ensures
            r@ == self.last@,
    {
        self.last.duplicate()
    }

    /// Starts over with new settings: fresh channels, no controller line.
    pub fn reload(&mut self, config: Config)
        ensures
            final(self).config@ == config@,
            final(self).clash@ == (HttpView {
                key: "clash"@,
                base: BaseView { config: config@.clash, history: Seq::empty(), preferred: Seq::empty() },
            }),
            final(self).direct@ == (HttpView {
                key: "direct"@,
                base: BaseView { config: config@.direct, history: Seq::empty(), preferred: Seq::empty() },
            }),
            final(self).vpn@ == (VpnView {
                base: BaseView { config: config@.vpn, history: Seq::empty(), preferred: Seq::empty() },
                keywords: config@.adapter_keywords,
                process_names: config@.process_names,
                presence: empty_presence(),
                presence_at: None,
                peers: Seq::empty(),
                peers_at: None,
            }),
            final(self).clash_meta@ == Seq::<char>::empty(),
            final(self).clash_meta_at is None,
            final(self).last@ == old(self).last@,
    {
        self.clash = HttpChannel::new("clash", config.clash.duplicate());
        self.direct = HttpChannel::new("direct", config.direct.duplicate());
        self.vpn = VpnChannel::new(
            config.vpn.duplicate(),
            copy_strings(&config.adapter_keywords),
            copy_strings(&config.process_names),
        );
        self.config = config;
        self.clash_meta = String::new();
        self.clash_meta_at = None;
    }

    /// Takes the controller line the background query left (`shared`) and
    /// says whether to start a new query at `now`: not while the last one
    /// is fresh or still running (`busy`), nor without a controller. The
    /// answer is the controller's address without trailing slashes.
    pub fn update_meta(&mut self, shared: &str, busy: bool, now: u64) -> (r: Option<String>)
        ensures
            final(self).clash_meta@ == shared@,
            final(self).config@ == old(self).config@,
            final(self).clash@ == old(self).clash@,
            final(self).vpn@ == old(self).vpn@,
            final(self).direct@ == old(self).direct@,
            final(self).last@ == old(self).last@,
            ({
                let start = !is_fresh(old(self).clash_meta_at, now, META_TTL_MS) && !busy
                    && old(self).config@.clash.controller.len() > 0;
                &&& start ==> final(self).clash_meta_at == Some(now) && opt_view(r) == Some(
                    strip_suffix_chars(old(self).config@.clash.controller, '/'),
                )
                &&& !start ==> final(self).clash_meta_at == old(self).clash_meta_at && r is None
            }),
    {
        self.clash_meta = shared.to_owned();
        if fresh(self.clash_meta_at, now, META_TTL_MS) || busy || self.config.clash.controller.as_str().is_empty() {
            return None;
        }
        self.clash_meta_at = Some(now);
        Some(without_trailing_slashes(self.config.clash.controller.as_str()))
    }

    /// The facts the report adds: the VPN adapter, the targets, the
    /// thresholds and the interval.
    pub fn context(&self, presence: &Presence) -> (r: Json)
        ensures
            r.model() == context_json(
                self.clash@.base.config,
                self.vpn@.base.config,
                self.direct@.base.config,
                self.config@.interval as int,
                presence@,
            ),
    {
        let mut adapter: Vec<(String, Json)> = Vec::new();
        assert(Json::field_models(adapter@) =~= Seq::<(Seq<char>, JsonModel)>::empty());
        push_field(&mut adapter, "adapter", Json::Str(presence.label.clone()));
        push_field(&mut adapter, "connected", Json::Bool(presence.connected));
        push_field(&mut adapter, "ipv4", string_array(&presence.ipv4));
        push_field(&mut adapter, "gateway", string_array(&presence.gateway));
        push_field(&mut adapter, "dns", string_array(&presence.dns));
        let mut targets: Vec<(String, Json)> = Vec::new();
        assert(Json::field_models(targets@) =~= Seq::<(Seq<char>, JsonModel)>::empty());
        push_field(&mut targets, "clash", target_array(&self.clash.base().config().targets));
        push_field(&mut targets, "vpn", vpn_targets(self.vpn.base().config()));
        push_field(&mut targets, "direct", target_array(&self.direct.base().config().targets));
        let mut thresholds: Vec<(String, Json)> = Vec::new();
        assert(Json::field_models(thresholds@) =~= Seq::<(Seq<char>, JsonModel)>::empty());
        push_field(&mut thresholds, "clash", limits(self.clash.base().config()));
        push_field(&mut thresholds, "vpn", limits(self.vpn.base().config()));
        push_field(&mut thresholds, "direct", limits(self.direct.base().config()));
        let mut root: Vec<(String, Json)> = Vec::new();
        assert(Json::field_models(root@) =~= Seq::<(Seq<char>, JsonModel)>::empty());
        let adapter_json = Json::Obj(adapter);
        let targets_json = Json::Obj(targets);
        let thresholds_json = Json::Obj(thresholds);
        proof {
            let p = presence@;
            assert(Json::field_models(adapter@) =~= seq![
                ("adapter"@, JsonModel::Str(p.label)),
                ("connected"@, JsonModel::Bool(p.connected)),
                ("ipv4"@, JsonModel::Arr(str_models(p.ipv4))),
                ("gateway"@, JsonModel::Arr(str_models(p.gateway))),
                ("dns"@, JsonModel::Arr(str_models(p.dns))),
            ]);
            assert(Json::field_models(targets@) =~= seq![
                ("clash"@, JsonModel::Arr(target_values(self.clash@.base.config.targets))),
                ("vpn"@, JsonModel::Arr(vpn_targets_json(self.vpn@.base.config))),
                ("direct"@, JsonModel::Arr(target_values(self.direct@.base.config.targets))),
            ]);
            assert(Json::field_models(thresholds@) =~= seq![
                ("clash"@, limits_json(self.clash@.base.config)),
                ("vpn"@, limits_json(self.vpn@.base.config)),
                ("direct"@, limits_json(self.direct@.base.config)),
            ]);
        }
        push_field(&mut root, "vpn", adapter_json);
        push_field(&mut root, "targets", targets_json);
        push_field(&mut root, "thresholds", thresholds_json);
        push_field(&mut root, "interval_seconds", Json::Num(self.config.interval));
        let r = Json::Obj(root);
        assert(Json::field_models(root@) =~= match context_json(
            self.clash@.base.config,
            self.vpn@.base.config,
            self.direct@.base.config,
            self.config@.interval as int,
            presence@,
        ) {
            JsonModel::Obj(x) => x,
            _ => Seq::empty(),
        });
        r
    }

    /// Ends a round: the snapshot of the three channel states and the
    /// machine's proxy setting, kept as the last one.
    pub fn finish_round(
        &mut self,
        clash: ChannelState,
        vpn: ChannelState,
        direct: ChannelState,
        proxy_enabled: bool,
        proxy_server: String,
        presence: &Presence,
        stamp: String,
    ) -> (r: Snapshot)
        ensures
            r@ == round_snapshot(
                (old(self).clash@.base.config, old(self).vpn@.base.config, old(self).direct@.base.config),
                old(self).config@.interval as int,
                presence@,
                (clash@, vpn@, direct@),
                proxy_enabled,
                proxy_server@,
                old(self).clash_meta@,
                stamp@,
            ),
            final(self).last@ == r@,
            final(self).config@ == old(self).config@,
            final(self).clash@ == old(self).clash@,
            final(self).vpn@ == old(self).vpn@,
            final(self).direct@ == old(self).direct@,
            final(self).clash_meta@ == old(self).clash_meta@,
            final(self).clash_meta_at == old(self).clash_meta_at,
    {
        let extra = self.context(presence);
        let mut channels: Vec<ChannelState> = Vec::new();
        let ghost views3 = seq![clash@, vpn@, direct@];
        channels.push(clash);
        channels.push(direct);
        channels.insert(1, vpn);
        assert(state_views(channels@) =~= views3);
        let snapshot = Snapshot {
            stamp,
            channels,
            proxy_enabled,
            proxy_server,
            clash_meta: self.clash_meta.clone(),
            extra,
        };
        self.last = snapshot.duplicate();
        snapshot
    }
}

/// A text without its trailing slashes.
pub fn without_trailing_slashes(text: &str) -> (r: String)
    ensures
        r@ == strip_suffix_chars(text@, '/'),
{
    let b = chars_of(text);
    let mut end: usize = b.len();
    assert(b@.take(b.len() as int) =~= b@);
    while end > 0 && b[end - 1] == '/'
        invariant
            end <= b.len(),
            strip_suffix_chars(b@, '/') == strip_suffix_chars(b@.take(end as int), '/'),
        decreases end,
    {
        assert(b@.take(end as int).drop_last() =~= b@.take(end - 1));
        end -= 1;
    }
    let kept = copy_range(&b, 0, end);
    assert(kept@ =~= b@.take(end as int));
    string_of(&kept)
}

} // verus!

verus! {

/// One probe to run.
#[derive(Debug)]
pub enum Probe {
    Http { url: String, verify: bool },
    Tcp { host: String, port: u16, timeout_ms: u64 },
    Icmp { host: String, timeout_ms: u64 },
}

pub enum ProbeSpec {
    Http { url: Seq<char>, verify: bool },
    Tcp { host: Seq<char>, port: u16, timeout_ms: u64 },
    Icmp { host: Seq<char>, timeout_ms: u64 },
}

impl View for Probe {
    type V = ProbeSpec;

    open spec fn view(&self) -> ProbeSpec {
        match self {
            Probe::Http { url, verify } => ProbeSpec::Http { url: url@, verify: *verify },
            Probe::Tcp { host, port, timeout_ms } => ProbeSpec::Tcp { host: host@, port: *port, timeout_ms: *timeout_ms },
            Probe::Icmp { host, timeout_ms } => ProbeSpec::Icmp { host: host@, timeout_ms: *timeout_ms },
        }
    }
}

/// The longest an echo is waited for, in milliseconds.
pub const ECHO_CAP_MS: u64 = 2000;

/// The longest the TCP fallback of a silent host is waited for.
pub const FALLBACK_CAP_MS: u64 = 1200;

pub open spec fn at_most(a: u64, b: u64) -> u64 {
    if a < b {
        a
    } else {
        b
    }
}

/// How a configured target is probed: HTTP with its certificate rule, TCP
/// at its `host:port` (nothing when that does not parse), ICMP within two
/// seconds.
pub open spec fn manual_probe(t: TargetView, timeout_ms: u64, verify_default: bool) -> Option<ProbeSpec> {
    match t.kind {
        TargetKind::Http => Some(
            ProbeSpec::Http {
                url: t.value,
                verify: match t.verify {
                    Some(v) => v,
                    None => verify_default,
                },
            },
        ),
        TargetKind::Tcp => match host_port(t.value) {
            Some((h, p)) => Some(ProbeSpec::Tcp { host: h, port: p, timeout_ms }),
            None => None,
        },
        TargetKind::Icmp => Some(ProbeSpec::Icmp { host: t.value, timeout_ms: at_most(timeout_ms, ECHO_CAP_MS) }),
    }
}

/// How a chosen target is probed, and what to try when it does not
/// answer: hosts that drop pings are tried over TCP at their known port.
/// HTTP targets are not probed this way.
pub open spec fn auto_probe(t: TargetView, timeout_ms: u64) -> (Option<ProbeSpec>, Option<ProbeSpec>) {
    let first = match t.kind {
        TargetKind::Http => None,
        _ => manual_probe(t, timeout_ms, true),
    };
    let fallback = match t.port {
        Some(p) => if first is Some {
            Some(ProbeSpec::Tcp { host: t.value, port: p, timeout_ms: at_most(timeout_ms, FALLBACK_CAP_MS) })
        } else {
            None
        },
        None => None,
    };
    (first, fallback)
}

pub open spec fn opt_probe(p: Option<Probe>) -> Option<ProbeSpec> {
    match p {
        Some(x) => Some(x@),
        None => None,
    }
}

pub fn manual_probe_of(target: &Target, timeout_ms: u64, verify_default: bool) -> (r: Option<Probe>)
    ensures
        opt_probe(r) == manual_probe(target@, timeout_ms, verify_default),
{
    match target.kind {
        TargetKind::Http => Some(
            Probe::Http {
                url: target.value.clone(),
                verify: match target.verify {
                    Some(v) => v,
                    None => verify_default,
                },
            },
        ),
        TargetKind::Tcp => match split_host_port(target.value.as_str()) {
            Some((host, port)) => Some(Probe::Tcp { host, port, timeout_ms }),
            None => None,
        },
        TargetKind::Icmp => Some(
            Probe::Icmp {
                host: target.value.clone(),
                timeout_ms: if timeout_ms < ECHO_CAP_MS { timeout_ms } else { ECHO_CAP_MS },
            },
        ),
    }
}

pub fn auto_probe_of(target: &Target, timeout_ms: u64) -> (r: (Option<Probe>, Option<Probe>))
    ensures
        (opt_probe(r.0), opt_probe(r.1)) == auto_probe(target@, timeout_ms),
{
    let first = match target.kind {
        TargetKind::Http => None,
        _ => manual_probe_of(target, timeout_ms, true),
    };
    let fallback = match target.port {
        Some(p) => if first.is_some() {
            Some(
                Probe::Tcp {
                    host: target.value.clone(),
                    port: p,
                    timeout_ms: if timeout_ms < FALLBACK_CAP_MS { timeout_ms } else { FALLBACK_CAP_MS },
                },
            )
        } else {
            None
        },
        None => None,
    };
    (first, fallback)
}

} // verus!
