//! The configuration: its model, its defaults, and how it is read from and
//! written to the JSON file.
use vstd::prelude::*;
use crate::json::{
    Json, JsonModel, push_field, push_item, str_models, string_array, model_flag, model_number, model_path, model_string, model_string_list,
};
use crate::json_parse::parse_text;
use crate::text::{
    chars_of, find_last, last_match, matches_at, lemma_last_match, lowercase, parse_uint, parse_unsigned, string_of, text_eq,
    to_lower, views, is_ws, is_whitespace,
};

verus! {

/// How a target is probed.
#[derive(Clone, Copy, Debug, PartialEq, Eq, Structural)]
pub enum TargetKind {
    Http,
    Tcp,
    Icmp,
}

/// One probe target.
#[derive(Clone, Debug)]
pub struct Target {
    pub kind: TargetKind,
    pub value: String,
    pub name: String,
    pub verify: Option<bool>,
    /// TCP port to fall back on when an ICMP target does not answer.
    pub port: Option<u16>,
}

#[verifier::ext_equal]
pub struct TargetView {
    pub kind: TargetKind,
    pub value: Seq<char>,
    pub name: Seq<char>,
    pub verify: Option<bool>,
    pub port: Option<u16>,
}

impl View for Target {
    type V = TargetView;

    open spec fn view(&self) -> TargetView {
        TargetView {
            kind: self.kind,
            value: self.value@,
            name: self.name@,
            verify: self.verify,
            port: self.port,
        }
    }
}

pub open spec fn target_views(s: Seq<Target>) -> Seq<TargetView> {
    Seq::new(s.len(), |i: int| s[i]@)
}

pub open spec fn scheme_sep() -> Seq<char> {
    seq![':', '/', '/']
}

/// What a target is called on screen: its name, or else its address (for
/// HTTP without the scheme).
pub open spec fn label_of(t: TargetView) -> Seq<char> {
    if t.name.len() > 0 {
        t.name
    } else if t.kind == TargetKind::Http && last_match(t.value, scheme_sep()) >= 0 {
        t.value.skip(last_match(t.value, scheme_sep()) + 3)
    } else {
        t.value
    }
}

pub open spec fn http_target(value: Seq<char>, verify: bool) -> TargetView {
    TargetView {
        kind: TargetKind::Http,
        value,
        name: Seq::empty(),
        verify: if verify {
            None
        } else {
            Some(false)
        },
        port: None,
    }
}

/// Host and port of `host:port`, split at the last colon.
pub open spec fn host_port(v: Seq<char>) -> Option<(Seq<char>, u16)> {
    let i = last_match(v, seq![':']);
    if i < 0 {
        None
    } else {
        match parse_unsigned(v.skip(i + 1), 65535) {
            Some(p) => Some((v.take(i), p as u16)),
            None => None,
        }
    }
}

impl Target {
    pub fn label(&self) -> (r: String)
        ensures
            r@ == label_of(self@),
    {
        if !self.name.as_str().is_empty() {
            return self.name.clone();
        }
        match self.kind {
            TargetKind::Http => {
                let v = chars_of(self.value.as_str());
                let sep = vec![':', '/', '/'];
                assert(sep@ =~= scheme_sep());
                match find_last(&v, &sep) {
                    Some(i) => {
                        proof {
                            lemma_last_match(v@, sep@);
                            assert(matches_at(v@, sep@, i as int));
                            assert(sep@.len() == 3);
                            assert(i + 3 <= v.len());
                        }
                        let mut out: Vec<char> = Vec::new();
                        let mut k: usize = i + 3;
                        while k < v.len()
                            invariant
                                i + 3 <= k <= v.len(),
                                out@ == v@.subrange(i + 3, k as int),
                            decreases v.len() - k,
                        {
                            out.push(v[k]);
                            assert(out@ =~= v@.subrange(i + 3, k + 1));
                            k += 1;
                        }
                        assert(v@.skip(i + 3) =~= v@.subrange(i + 3, v.len() as int));
                        string_of(&out)
                    },
                    None => self.value.clone(),
                }
            },
            _ => self.value.clone(),
        }
    }

    /// A plain HTTP target; certificates are checked unless `verify` is
    /// false.
    pub fn http(value: &str, verify: bool) -> (r: Target)
        ensures
            r@ == http_target(value@, verify),
    {
        Target {
            kind: TargetKind::Http,
            value: value.to_owned(),
            name: String::new(),
            verify: if verify {
                None
            } else {
                Some(false)
            },
            port: None,
        }
    }

    pub fn duplicate(&self) -> (r: Target)
        ensures
            r@ == self@,
    {
        Target {
            kind: self.kind,
            value: self.value.clone(),
            name: self.name.clone(),
            verify: self.verify,
            port: self.port,
        }
    }
}

/// Splits `host:port` at the last colon; the port must be a `u16`.
pub fn split_host_port(value: &str) -> (r: Option<(String, u16)>)
    ensures
        match r {
            Some((h, p)) => host_port(value@) == Some((h@, p)),
            None => host_port(value@) is None,
        },
{
    let v = chars_of(value);
    let colon = vec![':'];
    assert(colon@ =~= seq![':']);
    match find_last(&v, &colon) {
        Some(i) => {
            proof {
                lemma_last_match(v@, colon@);
            }
            let mut host: Vec<char> = Vec::new();
            let mut k: usize = 0;
            while k < i
                invariant
                    k <= i < v.len(),
                    host@ == v@.take(k as int),
                decreases i - k,
            {
                host.push(v[k]);
                assert(host@ =~= v@.take(k + 1));
                k += 1;
            }
            let mut rest: Vec<char> = Vec::new();
            let mut k: usize = i + 1;
            while k < v.len()
                invariant
                    i + 1 <= k <= v.len(),
                    rest@ == v@.subrange(i + 1, k as int),
                decreases v.len() - k,
            {
                rest.push(v[k]);
                assert(rest@ =~= v@.subrange(i + 1, k + 1));
                k += 1;
            }
            assert(rest@ =~= v@.skip(i + 1));
            match parse_uint(rest.as_slice(), 65535) {
                Some(p) => Some((string_of(&host), p as u16)),
                None => None,
            }
        },
        None => None,
    }
}

} // verus!

verus! {

pub open spec fn kind_of(t: Seq<char>) -> TargetKind {
    if t == "tcp"@ {
        TargetKind::Tcp
    } else if t == "icmp"@ || t == "ping"@ {
        TargetKind::Icmp
    } else {
        TargetKind::Http
    }
}

/// The target an item of a `targets` list describes, if any: a plain string
/// is an HTTP address; an object names its `target`, `type`, `verify` and
/// `name`.
pub open spec fn target_item(item: JsonModel) -> Option<TargetView> {
    match item {
        JsonModel::Str(text) => Some(http_target(text, true)),
        JsonModel::Obj(_) => {
            let value = model_string(item, "target"@, Seq::empty());
            if value.len() == 0 {
                None
            } else {
                let kind = kind_of(lowercase(model_string(item, "type"@, "http"@)));
                Some(
                    TargetView {
                        kind,
                        value,
                        name: model_string(item, "name"@, Seq::empty()),
                        verify: match model_path(item, "verify"@) {
                            Some(JsonModel::Bool(b)) => Some(b),
                            _ => None,
                        },
                        port: if kind == TargetKind::Tcp {
                            match host_port(value) {
                                Some((_, p)) => Some(p),
                                None => None,
                            }
                        } else {
                            None
                        },
                    },
                )
            }
        },
        _ => None,
    }
}

pub open spec fn targets_of(items: Seq<JsonModel>) -> Seq<TargetView>
    decreases items.len(),
{
    if items.len() == 0 {
        Seq::empty()
    } else {
        let rest = targets_of(items.drop_last());
        match target_item(items.last()) {
            Some(t) => rest.push(t),
            None => rest,
        }
    }
}

/// The targets a `targets` node lists; nothing unless it is a list.
pub open spec fn targets_model(node: Option<JsonModel>) -> Seq<TargetView> {
    match node {
        Some(JsonModel::Arr(items)) => targets_of(items),
        _ => Seq::empty(),
    }
}

fn parse_target(item: &Json) -> (r: Option<Target>)
    ensures
        match r {
            Some(t) => target_item(item.model()) == Some(t@),
            None => target_item(item.model()) is None,
        },
{
    match item {
        Json::Str(text) => Some(Target::http(text.as_str(), true)),
        Json::Obj(_) => {
            proof {
                reveal_strlit("");
            }
            let value = item.string("target", "");
            if value.as_str().is_empty() {
                return None;
            }
            let kind_text = to_lower(item.string("type", "http").as_str());
            let kind = if text_eq(kind_text.as_str(), "tcp") {
                TargetKind::Tcp
            } else if text_eq(kind_text.as_str(), "icmp") || text_eq(kind_text.as_str(), "ping") {
                TargetKind::Icmp
            } else {
                TargetKind::Http
            };
            let verify = match item.path("verify") {
                Some(v) => v.as_bool(),
                None => None,
            };
            let port = if kind == TargetKind::Tcp {
                match split_host_port(value.as_str()) {
                    Some((_, p)) => Some(p),
                    None => None,
                }
            } else {
                None
            };
            let name = item.string("name", "");
            Some(Target { kind, value, name, verify, port })
        },
        _ => None,
    }
}

/// The targets listed at `node`.
pub fn parse_targets(node: Option<&Json>) -> (r: Vec<Target>)
    ensures
        target_views(r@) == targets_model(
            match node {
                Some(n) => Some(n.model()),
                None => None,
            },
        ),
{
    let mut result: Vec<Target> = Vec::new();
    let items = match node {
        Some(n) => match n.as_arr() {
            Some(items) => items,
            None => {
                assert(target_views(result@) =~= Seq::<TargetView>::empty());
                return result;
            },
        },
        None => {
            assert(target_views(result@) =~= Seq::<TargetView>::empty());
            return result;
        },
    };
    let ghost ms = Json::models(items@);
    let mut i: usize = 0;
    while i < items.len()
        invariant
            i <= items.len(),
            ms == Json::models(items@),
            target_views(result@) == targets_of(ms.take(i as int)),
        decreases items.len() - i,
    {
        proof {
            crate::json::lemma_models(items@);
        }
        assert(ms.take(i + 1).drop_last() =~= ms.take(i as int));
        assert(ms.take(i + 1).last() == items@[i as int].model());
        let ghost before = target_views(result@);
        match parse_target(&items[i]) {
            Some(t) => {
                result.push(t);
                assert(target_views(result@) =~= before.push(t@));
            },
            None => {},
        }
        i += 1;
    }
    proof {
        crate::json::lemma_models(items@);
    }
    assert(ms.take(items.len() as int) =~= ms);
    result
}

} // verus!

verus! {

/// One channel's settings. Thresholds are in thousandths of a millisecond.
#[derive(Debug)]
pub struct ChannelConfig {
    pub enabled: bool,
    pub name: String,
    pub good_ms: i64,
    pub warn_ms: i64,
    pub targets: Vec<Target>,
    pub proxy: String,
    pub controller: String,
    pub controller_secret: String,
}

#[verifier::ext_equal]
pub struct ChannelView {
    pub enabled: bool,
    pub name: Seq<char>,
    pub good_ms: int,
    pub warn_ms: int,
    pub targets: Seq<TargetView>,
    pub proxy: Seq<char>,
    pub controller: Seq<char>,
    pub controller_secret: Seq<char>,
}

impl View for ChannelConfig {
    type V = ChannelView;

    open spec fn view(&self) -> ChannelView {
        ChannelView {
            enabled: self.enabled,
            name: self.name@,
            good_ms: self.good_ms as int,
            warn_ms: self.warn_ms as int,
            targets: target_views(self.targets@),
            proxy: self.proxy@,
            controller: self.controller@,
            controller_secret: self.controller_secret@,
        }
    }
}

/// The read-only status endpoint's settings.
#[derive(Debug)]
pub struct BridgeConfig {
    pub enabled: bool,
    pub host: String,
    pub port: u16,
    pub token: String,
}

#[verifier::ext_equal]
pub struct BridgeView {
    pub enabled: bool,
    pub host: Seq<char>,
    pub port: u16,
    pub token: Seq<char>,
}

impl View for BridgeConfig {
    type V = BridgeView;

    open spec fn view(&self) -> BridgeView {
        BridgeView { enabled: self.enabled, host: self.host@, port: self.port, token: self.token@ }
    }
}

/// The whole configuration. `interval` and `timeout` are in thousandths of a
/// second.
#[derive(Debug)]
pub struct Config {
    pub path: String,
    pub interval: i64,
    pub timeout: i64,
    pub verify_ssl: bool,
    pub clash: ChannelConfig,
    pub vpn: ChannelConfig,
    pub direct: ChannelConfig,
    pub adapter_keywords: Vec<String>,
    pub process_names: Vec<String>,
    /// Whether the private network may be probed with ICMP.
    pub allow_icmp: bool,
    pub bridge: BridgeConfig,
}

#[verifier::ext_equal]
pub struct ConfigView {
    pub path: Seq<char>,
    pub interval: i64,
    pub timeout: i64,
    pub verify_ssl: bool,
    pub clash: ChannelView,
    pub vpn: ChannelView,
    pub direct: ChannelView,
    pub adapter_keywords: Seq<Seq<char>>,
    pub process_names: Seq<Seq<char>>,
    pub allow_icmp: bool,
    pub bridge: BridgeView,
}

impl View for Config {
    type V = ConfigView;

    open spec fn view(&self) -> ConfigView {
        ConfigView {
            path: self.path@,
            interval: self.interval,
            timeout: self.timeout,
            verify_ssl: self.verify_ssl,
            clash: self.clash@,
            vpn: self.vpn@,
            direct: self.direct@,
            adapter_keywords: views(self.adapter_keywords@),
            process_names: views(self.process_names@),
            allow_icmp: self.allow_icmp,
            bridge: self.bridge@,
        }
    }
}

/// The configuration written on first start.
pub open spec fn default_view() -> ConfigView {
    ConfigView {
        path: "config.json"@,
        interval: 5000,
        timeout: 2500,
        verify_ssl: true,
        clash: ChannelView {
            enabled: true,
            name: "外网 · Clash"@,
            good_ms: 600000,
            warn_ms: 1500000,
            targets: seq![
                http_target("https://www.gstatic.com/generate_204"@, true),
                http_target("https://www.cloudflare.com/cdn-cgi/trace"@, true),
            ],
            proxy: "http://127.0.0.1:7890"@,
            controller: "http://127.0.0.1:9090"@,
            controller_secret: Seq::empty(),
        },
        vpn: ChannelView {
            enabled: true,
            name: "内网 · OpenVPN"@,
            good_ms: 150000,
            warn_ms: 500000,
            targets: Seq::empty(),
            proxy: Seq::empty(),
            controller: Seq::empty(),
            controller_secret: Seq::empty(),
        },
        direct: ChannelView {
            enabled: true,
            name: "国内 · 直连"@,
            good_ms: 300000,
            warn_ms: 800000,
            targets: seq![
                http_target("https://www.baidu.com"@, true),
                http_target("https://www.qq.com"@, true),
            ],
            proxy: Seq::empty(),
            controller: Seq::empty(),
            controller_secret: Seq::empty(),
        },
        adapter_keywords: seq!["TAP-Windows"@, "OpenVPN"@, "Wintun"@, "TUN"@],
        process_names: seq!["openvpn.exe"@, "openvpn-gui.exe"@],
        allow_icmp: true,
        bridge: BridgeView {
            enabled: true,
            host: "127.0.0.1"@,
            port: 17800,
            token: Seq::empty(),
        },
    }
}

/// The settings of a channel without a section of its own.
pub open spec fn default_channel_view() -> ChannelView {
    ChannelView {
        enabled: true,
        name: Seq::empty(),
        good_ms: 300000,
        warn_ms: 800000,
        targets: Seq::empty(),
        proxy: Seq::empty(),
        controller: Seq::empty(),
        controller_secret: Seq::empty(),
    }
}

impl ChannelConfig {
    pub fn default() -> (r: ChannelConfig)
        ensures
            r@ == default_channel_view(),
    {
        let r = ChannelConfig {
            enabled: true,
            name: String::new(),
            good_ms: 300000,
            warn_ms: 800000,
            targets: Vec::new(),
            proxy: String::new(),
            controller: String::new(),
            controller_secret: String::new(),
        };
        assert(r@ =~= default_channel_view());
        r
    }
}

fn strings(items: &Vec<&str>) -> (r: Vec<String>)
    ensures
        views(r@) == Seq::new(items@.len(), |i: int| items@[i]@),
{
    let mut r: Vec<String> = Vec::new();
    let mut i: usize = 0;
    while i < items.len()
        invariant
            i <= items.len(),
            r@.len() == i,
            views(r@) == Seq::new(i as nat, |k: int| items@[k]@),
        decreases items.len() - i,
    {
        let ghost prev = r@;
        let item = items[i].to_owned();
        r.push(item);
        assert forall|k: int| 0 <= k < i + 1 implies views(r@)[k] == items@[k]@ by {
            if k < i {
                assert(r@[k] == prev[k]);
                assert(views(prev)[k] == items@[k]@);
            }
        }
        assert(views(r@) =~= Seq::new((i + 1) as nat, |k: int| items@[k]@));
        i += 1;
    }
    r
}

impl Config {
    pub fn default() -> (r: Config)
        ensures
            r@ == default_view(),
    {
        let mut clash_targets: Vec<Target> = Vec::new();
        clash_targets.push(Target::http("https://www.gstatic.com/generate_204", true));
        clash_targets.push(Target::http("https://www.cloudflare.com/cdn-cgi/trace", true));
        let mut direct_targets: Vec<Target> = Vec::new();
        direct_targets.push(Target::http("https://www.baidu.com", true));
        direct_targets.push(Target::http("https://www.qq.com", true));
        let keywords = strings(&vec!["TAP-Windows", "OpenVPN", "Wintun", "TUN"]);
        let processes = strings(&vec!["openvpn.exe", "openvpn-gui.exe"]);
        let r = Config {
            path: "config.json".to_owned(),
            interval: 5000,
            timeout: 2500,
            verify_ssl: true,
            clash: ChannelConfig {
                enabled: true,
                name: "外网 · Clash".to_owned(),
                good_ms: 600000,
                warn_ms: 1500000,
                targets: clash_targets,
                proxy: "http://127.0.0.1:7890".to_owned(),
                controller: "http://127.0.0.1:9090".to_owned(),
                controller_secret: String::new(),
            },
            vpn: ChannelConfig {
                enabled: true,
                name: "内网 · OpenVPN".to_owned(),
                good_ms: 150000,
                warn_ms: 500000,
                targets: Vec::new(),
                proxy: String::new(),
                controller: String::new(),
                controller_secret: String::new(),
            },
            direct: ChannelConfig {
                enabled: true,
                name: "国内 · 直连".to_owned(),
                good_ms: 300000,
                warn_ms: 800000,
                targets: direct_targets,
                proxy: String::new(),
                controller: String::new(),
                controller_secret: String::new(),
            },
            adapter_keywords: keywords,
            process_names: processes,
            allow_icmp: true,
            bridge: BridgeConfig {
                enabled: true,
                host: "127.0.0.1".to_owned(),
                port: 17800,
                token: String::new(),
            },
        };
        assert(r@.clash.targets =~= default_view().clash.targets);
        assert(r@.direct.targets =~= default_view().direct.targets);
        assert(r@.vpn.targets =~= default_view().vpn.targets);
        assert(r@.adapter_keywords =~= default_view().adapter_keywords);
        assert(r@.process_names =~= default_view().process_names);
        assert(r@ =~= default_view());
        r
    }
}

} // verus!

verus! {

/// A channel's settings read from the section `key`, each missing field
/// taken from `fb`; an empty name also falls back.
pub open spec fn channel_from(root: JsonModel, key: Seq<char>, fb: ChannelView) -> ChannelView {
    let name = model_string(root, key + ".name"@, Seq::empty());
    ChannelView {
        enabled: model_flag(root, key + ".enabled"@, fb.enabled),
        name: if name.len() == 0 {
            fb.name
        } else {
            name
        },
        good_ms: model_number(root, key + ".good_ms"@, fb.good_ms),
        warn_ms: model_number(root, key + ".warn_ms"@, fb.warn_ms),
        targets: targets_model(model_path(root, key + ".targets"@)),
        proxy: model_string(root, key + ".proxy"@, fb.proxy),
        controller: model_string(root, key + ".controller"@, fb.controller),
        controller_secret: model_string(root, key + ".controller_secret"@, fb.controller_secret),
    }
}

/// `key` followed by `suffix`.
fn joined(key: &str, suffix: &str) -> (r: String)
    ensures
        r@ == key@ + suffix@,
{
    let mut r = key.to_owned();
    r.append(suffix);
    r
}

fn channel_from_json(root: &Json, key: &str, fallback: &ChannelConfig) -> (r: ChannelConfig)
    ensures
        r@ == channel_from(root.model(), key@, fallback@),
{
    proof {
        reveal_strlit("");
    }
    let name = root.string(joined(key, ".name").as_str(), "");
    let targets_node = root.path(joined(key, ".targets").as_str());
    let targets = parse_targets(targets_node);
    let r = ChannelConfig {
        enabled: root.flag(joined(key, ".enabled").as_str(), fallback.enabled),
        name: if name.as_str().is_empty() {
            fallback.name.clone()
        } else {
            name
        },
        good_ms: root.number(joined(key, ".good_ms").as_str(), fallback.good_ms),
        warn_ms: root.number(joined(key, ".warn_ms").as_str(), fallback.warn_ms),
        targets,
        proxy: root.string(joined(key, ".proxy").as_str(), fallback.proxy.as_str()),
        controller: root.string(joined(key, ".controller").as_str(), fallback.controller.as_str()),
        controller_secret: root.string(
            joined(key, ".controller_secret").as_str(),
            fallback.controller_secret.as_str(),
        ),
    };
    assert(r@ =~= channel_from(root.model(), key@, fallback@));
    r
}

/// A port read as a number: `as u16` on its value, which truncates and
/// saturates.
pub open spec fn port_from_milli(m: int) -> u16 {
    if m < 1000 {
        0
    } else if m / 1000 > 65535 {
        65535
    } else {
        (m / 1000) as u16
    }
}

fn port_of_milli(m: i64) -> (r: u16)
    ensures
        r == port_from_milli(m as int),
{
    if m < 1000 {
        0
    } else if m / 1000 > 65535 {
        65535
    } else {
        (m / 1000) as u16
    }
}

/// `m`, raised to `lo` when below it.
pub open spec fn raise_to(m: int, lo: int) -> i64 {
    (if m >= lo {
        m
    } else {
        lo
    }) as i64
}

/// The configuration that a parsed file stands for: every field read from
/// its place, with the defaults where it is missing. Intervals below one
/// second and timeouts below half a second are raised; an empty keyword or
/// process list, and port 0, fall back to the defaults.
pub open spec fn config_from(path: Seq<char>, root: JsonModel) -> ConfigView {
    let d = default_view();
    let vpn = channel_from(root, "vpn"@, d.vpn);
    let keywords = model_string_list(root, "vpn.adapter_keywords"@);
    let processes = model_string_list(root, "vpn.process_names"@);
    let port = port_from_milli(model_number(root, "ai_bridge.port"@, 17800000));
    ConfigView {
        path,
        interval: raise_to(model_number(root, "interval_seconds"@, 5000), 1000),
        timeout: raise_to(model_number(root, "timeout_seconds"@, 2500), 500),
        verify_ssl: model_flag(root, "verify_ssl"@, true),
        clash: channel_from(root, "clash"@, d.clash),
        vpn,
        direct: channel_from(root, "direct"@, d.direct),
        adapter_keywords: if keywords.len() == 0 {
            d.adapter_keywords
        } else {
            keywords
        },
        process_names: if processes.len() == 0 {
            d.process_names
        } else {
            processes
        },
        allow_icmp: model_flag(root, "vpn.allow_icmp"@, true),
        bridge: BridgeView {
            enabled: model_flag(root, "ai_bridge.enabled"@, true),
            host: model_string(root, "ai_bridge.host"@, "127.0.0.1"@),
            port: if port == 0 {
                17800
            } else {
                port
            },
            token: model_string(root, "ai_bridge.token"@, Seq::empty()),
        },
    }
}

impl Config {
    /// The configuration a parsed file stands for.
    pub fn from_json(path: &str, root: &Json) -> (r: Config)
        ensures
            r@ == config_from(path@, root.model()),
            r.interval >= 1000,
            r.timeout >= 500,
            r.bridge.port != 0,
            r.adapter_keywords.len() > 0,
            r.process_names.len() > 0,
    {
        proof {
            reveal_strlit("");
        }
        let default = Config::default();
        assert(default@.adapter_keywords.len() == 4 && default@.process_names.len() == 2);
        let interval = root.number("interval_seconds", default.interval);
        let timeout = root.number("timeout_seconds", default.timeout);
        let keywords = root.string_list("vpn.adapter_keywords");
        let processes = root.string_list("vpn.process_names");
        let vpn = channel_from_json(root, "vpn", &default.vpn);
        let mut bridge = BridgeConfig {
            enabled: root.flag("ai_bridge.enabled", default.bridge.enabled),
            host: root.string("ai_bridge.host", default.bridge.host.as_str()),
            port: port_of_milli(root.number("ai_bridge.port", 17800000)),
            token: root.string("ai_bridge.token", default.bridge.token.as_str()),
        };
        if bridge.port == 0 {
            bridge.port = default.bridge.port;
        }
        let r = Config {
            path: path.to_owned(),
            interval: if interval >= 1000 {
                interval
            } else {
                1000
            },
            timeout: if timeout >= 500 {
                timeout
            } else {
                500
            },
            verify_ssl: root.flag("verify_ssl", default.verify_ssl),
            clash: channel_from_json(root, "clash", &default.clash),
            vpn,
            direct: channel_from_json(root, "direct", &default.direct),
            adapter_keywords: if keywords.len() == 0 {
                default.adapter_keywords
            } else {
                keywords
            },
            process_names: if processes.len() == 0 {
                default.process_names
            } else {
                processes
            },
            allow_icmp: root.flag("vpn.allow_icmp", default.allow_icmp),
            bridge,
        };
        assert(r@.vpn =~= config_from(path@, root.model()).vpn);
        assert(r@.bridge =~= config_from(path@, root.model()).bridge);
        assert(r@ =~= config_from(path@, root.model()));
        r
    }
}

} // verus!

verus! {

pub open spec fn target_values(t: Seq<TargetView>) -> Seq<JsonModel> {
    Seq::new(t.len(), |i: int| JsonModel::Str(t[i].value))
}

/// The section written for the direct channel.
pub open spec fn channel_json(c: ChannelView) -> JsonModel {
    JsonModel::Obj(
        seq![
            ("enabled"@, JsonModel::Bool(c.enabled)),
            ("name"@, JsonModel::Str(c.name)),
            ("targets"@, JsonModel::Arr(target_values(c.targets))),
            ("good_ms"@, JsonModel::Num(c.good_ms)),
            ("warn_ms"@, JsonModel::Num(c.warn_ms)),
        ],
    )
}

pub open spec fn clash_json(c: ChannelView) -> JsonModel {
    JsonModel::Obj(
        seq![
            ("enabled"@, JsonModel::Bool(c.enabled)),
            ("name"@, JsonModel::Str(c.name)),
            ("proxy"@, JsonModel::Str(c.proxy)),
            ("controller"@, JsonModel::Str(c.controller)),
            ("controller_secret"@, JsonModel::Str(c.controller_secret)),
            ("targets"@, JsonModel::Arr(target_values(c.targets))),
            ("good_ms"@, JsonModel::Num(c.good_ms)),
            ("warn_ms"@, JsonModel::Num(c.warn_ms)),
        ],
    )
}

pub open spec fn vpn_json(c: ConfigView) -> JsonModel {
    JsonModel::Obj(
        seq![
            ("enabled"@, JsonModel::Bool(c.vpn.enabled)),
            ("name"@, JsonModel::Str(c.vpn.name)),
            ("adapter_keywords"@, JsonModel::Arr(str_models(c.adapter_keywords))),
            ("process_names"@, JsonModel::Arr(str_models(c.process_names))),
            ("targets"@, JsonModel::Arr(Seq::empty())),
            ("allow_icmp"@, JsonModel::Bool(c.allow_icmp)),
            ("good_ms"@, JsonModel::Num(c.vpn.good_ms)),
            ("warn_ms"@, JsonModel::Num(c.vpn.warn_ms)),
        ],
    )
}

pub open spec fn bridge_json(b: BridgeView) -> JsonModel {
    JsonModel::Obj(
        seq![
            ("enabled"@, JsonModel::Bool(b.enabled)),
            ("host"@, JsonModel::Str(b.host)),
            ("port"@, JsonModel::Num(b.port * 1000)),
            ("token"@, JsonModel::Str(b.token)),
        ],
    )
}

/// The JSON text that the configuration is saved as.
pub open spec fn config_json(c: ConfigView) -> JsonModel {
    JsonModel::Obj(
        seq![
            ("interval_seconds"@, JsonModel::Num(c.interval as int)),
            ("timeout_seconds"@, JsonModel::Num(c.timeout as int)),
            ("verify_ssl"@, JsonModel::Bool(c.verify_ssl)),
            ("clash"@, clash_json(c.clash)),
            ("vpn"@, vpn_json(c)),
            ("direct"@, channel_json(c.direct)),
            ("ai_bridge"@, bridge_json(c.bridge)),
        ],
    )
}

pub fn target_array(targets: &Vec<Target>) -> (r: Json)
    ensures
        r.model() == JsonModel::Arr(target_values(target_views(targets@))),
{
    let ghost want = target_values(target_views(targets@));
    let mut items: Vec<Json> = Vec::new();
    let mut i: usize = 0;
    while i < targets.len()
        invariant
            i <= targets.len(),
            want == target_values(target_views(targets@)),
            Json::models(items@) == want.take(i as int),
        decreases targets.len() - i,
    {
        push_item(&mut items, Json::Str(targets[i].value.clone()));
        assert(want.take(i + 1) =~= want.take(i as int).push(
            JsonModel::Str(targets@[i as int].value@),
        ));
        i += 1;
    }
    assert(want.take(targets.len() as int) =~= want);
    Json::Arr(items)
}

impl ChannelConfig {
    fn section_json(&self) -> (r: Json)
        ensures
            r.model() == channel_json(self@),
    {
        let mut f: Vec<(String, Json)> = Vec::new();
        push_field(&mut f, "enabled", Json::Bool(self.enabled));
        push_field(&mut f, "name", Json::Str(self.name.clone()));
        push_field(&mut f, "targets", target_array(&self.targets));
        push_field(&mut f, "good_ms", Json::Num(self.good_ms));
        push_field(&mut f, "warn_ms", Json::Num(self.warn_ms));
        let r = Json::Obj(f);
        assert(Json::field_models(f@) =~= match channel_json(self@) {
            JsonModel::Obj(x) => x,
            _ => Seq::empty(),
        });
        r
    }

    fn clash_section_json(&self) -> (r: Json)
        ensures
            r.model() == clash_json(self@),
    {
        let mut f: Vec<(String, Json)> = Vec::new();
        push_field(&mut f, "enabled", Json::Bool(self.enabled));
        push_field(&mut f, "name", Json::Str(self.name.clone()));
        push_field(&mut f, "proxy", Json::Str(self.proxy.clone()));
        push_field(&mut f, "controller", Json::Str(self.controller.clone()));
        push_field(&mut f, "controller_secret", Json::Str(self.controller_secret.clone()));
        push_field(&mut f, "targets", target_array(&self.targets));
        push_field(&mut f, "good_ms", Json::Num(self.good_ms));
        push_field(&mut f, "warn_ms", Json::Num(self.warn_ms));
        let r = Json::Obj(f);
        assert(Json::field_models(f@) =~= match clash_json(self@) {
            JsonModel::Obj(x) => x,
            _ => Seq::empty(),
        });
        r
    }
}

impl BridgeConfig {
    fn section_json(&self) -> (r: Json)
        ensures
            r.model() == bridge_json(self@),
    {
        let mut f: Vec<(String, Json)> = Vec::new();
        push_field(&mut f, "enabled", Json::Bool(self.enabled));
        push_field(&mut f, "host", Json::Str(self.host.clone()));
        push_field(&mut f, "port", Json::Num(self.port as i64 * 1000));
        push_field(&mut f, "token", Json::Str(self.token.clone()));
        let r = Json::Obj(f);
        assert(Json::field_models(f@) =~= match bridge_json(self@) {
            JsonModel::Obj(x) => x,
            _ => Seq::empty(),
        });
        r
    }
}

impl Config {
    fn vpn_section_json(&self) -> (r: Json)
        ensures
            r.model() == vpn_json(self@),
    {
        let mut f: Vec<(String, Json)> = Vec::new();
        push_field(&mut f, "enabled", Json::Bool(self.vpn.enabled));
        push_field(&mut f, "name", Json::Str(self.vpn.name.clone()));
        push_field(&mut f, "adapter_keywords", string_array(&self.adapter_keywords));
        push_field(&mut f, "process_names", string_array(&self.process_names));
        push_field(&mut f, "targets", Json::Arr(Vec::new()));
        push_field(&mut f, "allow_icmp", Json::Bool(self.allow_icmp));
        push_field(&mut f, "good_ms", Json::Num(self.vpn.good_ms));
        push_field(&mut f, "warn_ms", Json::Num(self.vpn.warn_ms));
        let r = Json::Obj(f);
        assert(Json::models(Seq::<Json>::empty()) =~= Seq::<JsonModel>::empty());
        assert(Json::field_models(f@) =~= match vpn_json(self@) {
            JsonModel::Obj(x) => x,
            _ => Seq::empty(),
        });
        r
    }

    /// The JSON form the configuration file is saved in.
    pub fn to_json(&self) -> (r: Json)
        ensures
            r.model() == config_json(self@),
    {
        let mut f: Vec<(String, Json)> = Vec::new();
        push_field(&mut f, "interval_seconds", Json::Num(self.interval));
        push_field(&mut f, "timeout_seconds", Json::Num(self.timeout));
        push_field(&mut f, "verify_ssl", Json::Bool(self.verify_ssl));
        push_field(&mut f, "clash", self.clash.clash_section_json());
        push_field(&mut f, "vpn", self.vpn_section_json());
        push_field(&mut f, "direct", self.direct.section_json());
        push_field(&mut f, "ai_bridge", self.bridge.section_json());
        let r = Json::Obj(f);
        assert(Json::field_models(f@) =~= match config_json(self@) {
            JsonModel::Obj(x) => x,
            _ => Seq::empty(),
        });
        r
    }
}

} // verus!

verus! {

/// Whether a text holds nothing but whitespace.
pub open spec fn is_blank(t: Seq<char>) -> bool {
    forall|i: int| 0 <= i < t.len() ==> is_ws(#[trigger] t[i])
}

pub fn blank(text: &str) -> (r: bool)
    ensures
        r == is_blank(text@),
{
    let chars = chars_of(text);
    let mut i: usize = 0;
    while i < chars.len()
        invariant
            i <= chars.len(),
            chars@ == text@,
            forall|k: int| 0 <= k < i ==> is_ws(#[trigger] chars@[k]),
        decreases chars.len() - i,
    {
        if !is_whitespace(chars[i]) {
            return false;
        }
        i += 1;
    }
    true
}

impl Config {
    /// The configuration stored in the file at `path` whose text is `text`,
    /// and whether the defaults are to be written to that file. A blank file
    /// gives the defaults, under `path`, to be written there; text that is not JSON reads as an
    /// empty object.
    pub fn from_text(path: &str, text: &str) -> (r: (Config, bool))
        ensures
            is_blank(text@) ==> r.0@ == (ConfigView { path: path@, ..default_view() }) && r.1,
            !is_blank(text@) ==> !r.1 && r.0@ == config_from(
                path@,
                match parse_text(text@) {
                    Ok(v) => v,
                    Err(_) => JsonModel::Obj(Seq::empty()),
                },
            ),
            r.0.interval >= 1000,
            r.0.timeout >= 500,
            r.0.bridge.port != 0,
            r.0.adapter_keywords.len() > 0,
            r.0.process_names.len() > 0,
    {
        let root = match Json::parse(text) {
            Ok(v) => v,
            Err(_) => Json::Obj(Vec::new()),
        };
        if blank(text) {
            let mut d = Config::default();
            assert(d@.adapter_keywords.len() == 4 && d@.process_names.len() == 2);
            d.path = path.to_owned();
            (d, true)
        } else {
            let r = Config::from_json(path, &root);
            assert(Json::field_models(Seq::<(String, Json)>::empty()) =~= Seq::empty());
            (r, false)
        }
    }
}

} // verus!

verus! {

/// A copy of a list of targets.
pub fn copy_targets(v: &Vec<Target>) -> (r: Vec<Target>)
    ensures
        target_views(r@) == target_views(v@),
{
    let mut r: Vec<Target> = Vec::new();
    let mut i: usize = 0;
    while i < v.len()
        invariant
            i <= v.len(),
            r@.len() == i,
            target_views(r@) == target_views(v@).take(i as int),
        decreases v.len() - i,
    {
        let ghost prev = r@;
        r.push(v[i].duplicate());
        assert forall|k: int| 0 <= k < i + 1 implies #[trigger] target_views(r@)[k] == target_views(v@).take(i + 1)[k] by {
            if k < i {
                assert(r@[k] == prev[k]);
                assert(target_views(prev)[k] == target_views(v@).take(i as int)[k]);
            }
        }
        assert(target_views(r@) =~= target_views(v@).take(i + 1));
        i += 1;
    }
    assert(target_views(v@).take(i as int) =~= target_views(v@));
    r
}

impl ChannelConfig {
    pub fn duplicate(&self) -> (r: ChannelConfig)
        ensures
            r@ == self@,
    {
        ChannelConfig {
            enabled: self.enabled,
            name: self.name.clone(),
            good_ms: self.good_ms,
            warn_ms: self.warn_ms,
            targets: copy_targets(&self.targets),
            proxy: self.proxy.clone(),
            controller: self.controller.clone(),
            controller_secret: self.controller_secret.clone(),
        }
    }
}

} // verus!
