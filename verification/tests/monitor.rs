use netmon::config::{ChannelConfig, Config, Target, TargetKind};
use netmon::level::{level_of, level_tag, status_of, Level};
use netmon::monitor::{
    auto_probe_of, clash_meta_text, fresh, manual_probe_of, presence_from_adapters, presence_with_processes,
    unreachable_state, ChannelBase, ChannelState, Engine, HttpChannel, Presence, Probe, Snapshot, VpnChannel,
    HISTORY_LEN,
};
use netmon::probe::{AdapterInfo, ProbeResult};

fn strings(items: &[&str]) -> Vec<String> {
    items.iter().map(|s| s.to_string()).collect()
}

fn channel(targets: &[&str]) -> ChannelConfig {
    let mut c = ChannelConfig::default();
    c.name = "测试".to_string();
    c.good_ms = 300_000;
    c.warn_ms = 800_000;
    c.targets = targets.iter().map(|t| Target::http(t, true)).collect();
    c
}

fn state(key: &str, level: Level, status: &str) -> ChannelState {
    ChannelState {
        key: key.to_string(),
        name: key.to_string(),
        level,
        latency_ms: None,
        status: status.to_string(),
        detail: String::new(),
        history: Vec::new(),
    }
}

#[test]
fn levels_follow_thresholds() {
    assert_eq!(level_of(300_000, 300_000, 800_000), Level::Good);
    assert_eq!(level_of(300_001, 300_000, 800_000), Level::Warn);
    assert_eq!(level_of(800_000, 300_000, 800_000), Level::Warn);
    assert_eq!(level_of(800_001, 300_000, 800_000), Level::Bad);
    assert_eq!(status_of(Level::Bad), "很慢");
    assert_eq!(status_of(Level::Off), "未连接");
    assert_eq!(level_tag(Level::Bad), "不通");
    assert_eq!(Level::Warn.key(), "warn");
    assert_eq!(Level::Unknown.text(), "未知");
    assert_eq!(Level::Bad.severity(), 4);
    assert_eq!(Level::Unknown.severity(), 0);
}

#[test]
fn history_keeps_the_newest_samples() {
    let mut base = ChannelBase::new(channel(&["https://a"]));
    for i in 0..40 {
        base.record(Some(i));
    }
    base.record(None);
    let history = base.history();
    assert_eq!(history.len(), HISTORY_LEN);
    assert_eq!(history[0], Some(13));
    assert_eq!(history[HISTORY_LEN - 2], Some(39));
    assert_eq!(history[HISTORY_LEN - 1], None);
}

#[test]
fn the_target_that_answered_goes_first() {
    let mut base = ChannelBase::new(channel(&["https://a", "https://b", "https://c"]));
    base.prefer("https://c");
    let ordered: Vec<String> = base.ordered_targets().into_iter().map(|t| t.value).collect();
    assert_eq!(ordered, strings(&["https://c", "https://a", "https://b"]));
    base.prefer("https://zzz");
    let ordered: Vec<String> = base.ordered_targets().into_iter().map(|t| t.value).collect();
    assert_eq!(ordered, strings(&["https://a", "https://b", "https://c"]));
}

#[test]
fn http_channel_first_success_wins() {
    let mut ch = HttpChannel::new("direct", channel(&["https://a.com/x", "https://b.com"]));
    assert!(ch.precheck().is_none());
    let plan = ch.plan(true);
    assert_eq!(plan, vec![("https://a.com/x".to_string(), true), ("https://b.com".to_string(), true)]);
    let results = vec![ProbeResult::fail("超时"), ProbeResult::ok(350_000, "HTTP 200")];
    let s = ch.settle(&plan, &results);
    assert_eq!(s.key, "direct");
    assert_eq!(s.level, Level::Warn);
    assert_eq!(s.latency_ms, Some(350_000));
    assert_eq!(s.status, "偏慢");
    assert_eq!(s.detail, "b.com · HTTP 200");
    assert_eq!(s.history, vec![Some(350_000)]);
    let plan = ch.plan(false);
    assert_eq!(plan[0].0, "https://b.com");
    assert_eq!(plan[0].1, false);
}

#[test]
fn http_channel_failures() {
    let mut config = channel(&["https://a.com"]);
    config.proxy = "http://127.0.0.1:7890".to_string();
    let mut ch = HttpChannel::new("clash", config);
    let plan = ch.plan(true);
    let s = ch.settle(&plan, &vec![netmon::probe::failure_result(12029)]);
    assert_eq!(s.level, Level::Off);
    assert_eq!(s.status, "代理未启动");
    assert_eq!(s.detail, "http://127.0.0.1:7890");
    let s = ch.settle(&plan, &vec![netmon::probe::failure_result(12002)]);
    assert_eq!(s.level, Level::Bad);
    assert_eq!(s.status, "超时");
    assert_eq!(s.detail, "a.com");
    assert_eq!(s.history, vec![None, None]);
    let s = ch.settle(&Vec::new(), &Vec::new());
    assert_eq!(s.level, Level::Off);
    assert_eq!(s.status, "未配置");
    assert_eq!(s.detail, "没有可用的 HTTP 目标");
}

#[test]
fn http_channel_prechecks() {
    let mut config = channel(&[]);
    let ch = HttpChannel::new("direct", config.duplicate());
    let s = ch.precheck().unwrap();
    assert_eq!((s.level, s.status.as_str()), (Level::Off, "未配置"));
    config.enabled = false;
    let ch = HttpChannel::new("direct", config);
    let s = ch.precheck().unwrap();
    assert_eq!(s.status, "已停用");
    assert_eq!(s.detail, "config.json 中已关闭");
    let mut icmp_only = channel(&[]);
    icmp_only.targets.push(Target { kind: TargetKind::Icmp, value: "1.1.1.1".into(), name: String::new(), verify: None, port: None });
    assert!(HttpChannel::new("direct", icmp_only).plan(true).is_empty());
}

fn adapter(name: &str, description: &str, up: bool) -> AdapterInfo {
    AdapterInfo {
        name: name.to_string(),
        description: description.to_string(),
        up,
        ipv4: strings(&["10.8.0.6"]),
        gateway: strings(&["10.8.0.1"]),
        dns: strings(&["10.8.0.53"]),
    }
}

#[test]
fn presence_from_adapters_and_programs() {
    let keywords = strings(&["TAP-Windows", "Wintun"]);
    let adapters = vec![adapter("以太网", "Intel", true), adapter("OpenVPN", "TAP-WINDOWS Adapter V9", false)];
    let p = presence_from_adapters(&adapters, &keywords);
    assert!(!p.connected);
    assert_eq!(p.label, "TAP-WINDOWS Adapter V9");
    assert_eq!(p.ipv4, strings(&["10.8.0.6"]));
    let none = presence_from_adapters(&vec![adapter("x", "y", true)], &keywords);
    assert!(!none.connected && none.label.is_empty());
    let p = presence_with_processes(none, &strings(&["openvpn.exe"]), &strings(&["OpenVPN.exe"]));
    assert!(p.connected);
    assert_eq!(p.label, "openvpn.exe");
    let kept = presence_with_processes(presence_from_adapters(&adapters, &keywords), &strings(&["openvpn.exe"]), &strings(&["openvpn.exe"]));
    assert!(!kept.connected);
}

fn presence(connected: bool) -> Presence {
    Presence {
        connected,
        label: "TAP".to_string(),
        ipv4: strings(&["10.8.0.6"]),
        gateway: strings(&["10.8.0.1"]),
        dns: strings(&["10.8.0.53"]),
    }
}

#[test]
fn vpn_chooses_targets_when_none_are_configured() {
    let mut vpn = VpnChannel::new(channel(&[]), strings(&["TAP"]), Vec::new());
    assert!(!vpn.peers_fresh(0));
    vpn.store_peers(
        &vec![
            ("8.8.8.8".to_string(), 443),
            ("10.1.1.1".to_string(), 22),
            ("10.1.1.2".to_string(), 80),
            ("192.168.1.1".to_string(), 445),
            ("172.16.0.1".to_string(), 3389),
        ],
        1000,
    );
    assert!(vpn.peers_fresh(30_999));
    assert!(!vpn.peers_fresh(31_000));
    let targets = vpn.auto_targets(&presence(true));
    let values: Vec<String> = targets.iter().map(|t| t.value.clone()).collect();
    assert_eq!(values, strings(&["10.1.1.1", "10.1.1.2", "192.168.1.1", "10.8.0.53"]));
    assert_eq!(targets[0].name, "内网 10.1.1.1:22");
    assert_eq!(targets[0].port, Some(22));
    let (manual, planned) = vpn.plan(&presence(true));
    assert!(!manual);
    assert_eq!(planned.len(), 4);
    let lonely = VpnChannel::new(channel(&[]), Vec::new(), Vec::new());
    let mut p = presence(true);
    p.dns.clear();
    p.gateway.clear();
    let guess = lonely.auto_targets(&p);
    assert_eq!(guess.len(), 1);
    assert_eq!(guess[0].value, "10.8.0.1");
    assert_eq!(guess[0].name, "网关 10.8.0.1");
    p.ipv4 = strings(&["10.8.0.1"]);
    assert!(lonely.auto_targets(&p).is_empty());
}

#[test]
fn vpn_fastest_chosen_answer_wins() {
    let mut vpn = VpnChannel::new(channel(&[]), Vec::new(), Vec::new());
    let p = presence(true);
    let targets = vpn.auto_targets(&p);
    assert_eq!(targets.len(), 2);
    let results = vec![Some(ProbeResult::ok(90_000, "ICMP 可达")), Some(ProbeResult::ok(40_000, "TCP 已连接"))];
    let s = vpn.settle(&p, false, &targets, &results);
    assert_eq!(s.level, Level::Good);
    assert_eq!(s.latency_ms, Some(40_000));
    assert_eq!(s.detail, "10.8.0.6 · 网关 10.8.0.1 TCP 已连接");
    let s = vpn.settle(&p, false, &targets, &vec![Some(ProbeResult::fail("ping 无响应")), None]);
    assert_eq!(s.level, Level::Warn);
    assert_eq!(s.status, "已连接");
    assert_eq!(s.detail, "10.8.0.6 · 未测得内网延迟，可在 config.json 配置 vpn.targets");
    let s = vpn.settle(&presence(false), false, &targets, &vec![None, None]);
    assert_eq!(s.level, Level::Off);
    assert_eq!(s.detail, "TAP");
    assert_eq!(s.history, vec![Some(40_000), None, None]);
}

#[test]
fn vpn_configured_targets_in_order() {
    let mut config = channel(&[]);
    config.targets.push(Target { kind: TargetKind::Tcp, value: "10.0.0.1:22".into(), name: String::new(), verify: None, port: Some(22) });
    config.targets.push(Target { kind: TargetKind::Icmp, value: "10.0.0.2".into(), name: String::new(), verify: None, port: None });
    let mut vpn = VpnChannel::new(config, Vec::new(), Vec::new());
    let p = presence(true);
    let (manual, targets) = vpn.plan(&p);
    assert!(manual);
    let s = vpn.settle(&p, true, &targets, &vec![Some(ProbeResult::fail("连接超时")), Some(ProbeResult::ok(120_000, "ICMP 可达"))]);
    assert_eq!(s.level, Level::Good);
    assert_eq!(s.detail, "10.8.0.6 · 10.0.0.2 ICMP 可达");
    let (_, targets) = vpn.plan(&p);
    assert_eq!(targets[0].value, "10.0.0.2");
    let s = vpn.settle(&p, true, &targets, &vec![Some(ProbeResult::fail("ping 无响应")), None]);
    assert_eq!(s.level, Level::Bad);
    assert_eq!(s.status, "目标配置无效");
    assert_eq!(s.detail, "10.8.0.6 · TAP");
    let s = vpn.settle(&p, true, &targets, &vec![Some(ProbeResult::fail("ping 无响应")), Some(ProbeResult::fail(""))]);
    assert_eq!(s.status, "内网不可达");
}

#[test]
fn vpn_without_targets_or_switched_off() {
    let mut vpn = VpnChannel::new(channel(&[]), Vec::new(), Vec::new());
    let mut p = Presence::default();
    let s = vpn.settle(&p, false, &Vec::new(), &Vec::new());
    assert_eq!(s.level, Level::Off);
    assert_eq!(s.detail, "未检测到 VPN 网卡/进程");
    p.connected = true;
    p.label = "openvpn.exe".into();
    let s = vpn.settle(&p, false, &Vec::new(), &Vec::new());
    assert_eq!(s.level, Level::Good);
    assert_eq!(s.status, "已连接");
    assert_eq!(s.detail, "openvpn.exe");
    let mut off = channel(&[]);
    off.enabled = false;
    let s = VpnChannel::new(off, Vec::new(), Vec::new()).precheck().unwrap();
    assert_eq!(s.status, "已停用");
    assert!(vpn.precheck().is_none());
    assert!(!vpn.presence_fresh(5));
    let stored = vpn.store_presence(presence(true), 100);
    assert_eq!(stored.label, "TAP");
    assert!(vpn.presence_fresh(8099));
    assert!(!vpn.presence_fresh(8100));
    assert!(vpn.presence_fresh(50));
    assert_eq!(vpn.cached_presence().dns, strings(&["10.8.0.53"]));
}

#[test]
fn probes_for_each_target() {
    let tcp = Target { kind: TargetKind::Tcp, value: "h:22".into(), name: String::new(), verify: None, port: Some(22) };
    assert!(matches!(manual_probe_of(&tcp, 3000, true), Some(Probe::Tcp { ref host, port: 22, timeout_ms: 3000 }) if host == "h"));
    let bad = Target { kind: TargetKind::Tcp, value: "h".into(), name: String::new(), verify: None, port: None };
    assert!(manual_probe_of(&bad, 3000, true).is_none());
    let icmp = Target { kind: TargetKind::Icmp, value: "10.0.0.1".into(), name: String::new(), verify: None, port: Some(445) };
    assert!(matches!(manual_probe_of(&icmp, 3000, true), Some(Probe::Icmp { timeout_ms: 2000, .. })));
    let (first, fallback) = auto_probe_of(&icmp, 3000);
    assert!(matches!(first, Some(Probe::Icmp { timeout_ms: 2000, .. })));
    assert!(matches!(fallback, Some(Probe::Tcp { port: 445, timeout_ms: 1200, .. })));
    let http = Target::http("https://x", false);
    assert!(matches!(manual_probe_of(&http, 1, true), Some(Probe::Http { verify: false, .. })));
    assert!(auto_probe_of(&http, 1).0.is_none());
    assert!(fresh(Some(10), 15, 10));
    assert!(!fresh(None, 15, 10));
}

#[test]
fn overall_is_the_first_worst_channel() {
    let config = Config::default();
    let mut snapshot = Snapshot::placeholder(&config, "2026-01-01 00:00:00");
    assert_eq!(snapshot.overall(), (Level::Unknown, "未知".to_string()));
    assert_eq!(snapshot.channels[1].status, "检测中…");
    snapshot.channels = vec![state("clash", Level::Good, "正常"), state("vpn", Level::Bad, "很慢"), state("direct", Level::Bad, "超时")];
    assert_eq!(snapshot.overall(), (Level::Bad, "很慢".to_string()));
    snapshot.channels = vec![state("clash", Level::Off, "已停用"), state("vpn", Level::Good, "正常")];
    assert_eq!(snapshot.overall(), (Level::Off, "已停用".to_string()));
    assert_eq!(snapshot.channel("vpn").unwrap().status, "正常");
    assert!(snapshot.channel("direct").is_none());
    let u = unreachable_state("vpn", "探测线程崩溃");
    assert_eq!((u.name.as_str(), u.status.as_str(), u.level), ("vpn", "探测异常", Level::Unknown));
}

#[test]
fn controller_line() {
    assert_eq!(clash_meta_text(Some("{\"version\": \"v1.18\"}"), Some("{\"mode\": \"rule\"}")), "Clash v1.18 · 规则 模式");
    assert_eq!(clash_meta_text(Some("{\"version\": \"v1\"}"), Some("{\"mode\": \"Global\"}")), "Clash v1 · Global 模式");
    assert_eq!(clash_meta_text(Some("{\"version\": \"v1\"}"), None), "Clash v1 ·  模式");
    assert_eq!(clash_meta_text(Some("oops"), Some("{\"mode\": \"direct\"}")), "");
    assert_eq!(clash_meta_text(None, None), "");
}

#[test]
fn engine_rounds_and_context() {
    let mut engine = Engine::new(Config::default(), "t0");
    assert_eq!(engine.last().stamp, "t0");
    assert_eq!(engine.update_meta("", false, 0), Some("http://127.0.0.1:9090".to_string()));
    assert_eq!(engine.update_meta("Clash v1 · 规则 模式", false, 1000), None);
    assert_eq!(engine.clash_meta, "Clash v1 · 规则 模式");
    assert_eq!(engine.update_meta("x", true, 400_000), None);
    assert_eq!(engine.update_meta("x", false, 400_000), Some("http://127.0.0.1:9090".to_string()));
    let p = presence(true);
    let context = engine.context(&p);
    assert_eq!(context.string("vpn.adapter", ""), "TAP");
    assert_eq!(context.number("thresholds.clash.good", 0), 600_000);
    assert_eq!(context.number("interval_seconds", 0), 5000);
    assert_eq!(
        context.path("targets.vpn").and_then(|v| v.as_arr()).unwrap()[0].as_str(),
        Some("(未配置，按 VPN 网卡/DNS/网关自动探测)")
    );
    let snapshot = engine.finish_round(
        state("clash", Level::Good, "正常"),
        state("vpn", Level::Warn, "已连接"),
        state("direct", Level::Good, "正常"),
        true,
        "127.0.0.1:7890".to_string(),
        &p,
        "t1".to_string(),
    );
    assert_eq!(snapshot.channels.len(), 3);
    assert_eq!(snapshot.channels[1].key, "vpn");
    assert_eq!(engine.last().stamp, "t1");
    assert_eq!(engine.last().clash_meta, "x");
    let mut config = Config::default();
    config.clash.controller = "http://c:1//".to_string();
    engine.reload(config);
    assert_eq!(engine.clash_meta, "");
    assert_eq!(engine.update_meta("", false, 5), Some("http://c:1".to_string()));
}
