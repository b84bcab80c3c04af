use netmon::config::Config;
use netmon::json::Json;
use netmon::level::Level;
use netmon::monitor::{ChannelState, Engine, Presence, Snapshot};
use netmon::report::{channel_row, join_strings, level_icon, raw_line, round_tenth, sort_ascending, stats, to_json, to_markdown};

fn channel(key: &str, name: &str, level: Level, latency: Option<i64>, status: &str, detail: &str, history: Vec<Option<i64>>) -> ChannelState {
    ChannelState {
        key: key.to_string(),
        name: name.to_string(),
        level,
        latency_ms: latency,
        status: status.to_string(),
        detail: detail.to_string(),
        history,
    }
}

fn snapshot() -> Snapshot {
    let mut engine = Engine::new(Config::default(), "t0");
    let presence = Presence {
        connected: true,
        label: "TAP-Windows Adapter V9".to_string(),
        ipv4: vec!["10.17.232.44".to_string()],
        gateway: Vec::new(),
        dns: Vec::new(),
    };
    engine.finish_round(
        channel("clash", "外网 · Clash", Level::Good, Some(136_000), "正常", "www.gstatic.com · HTTP 204", vec![Some(130_400), Some(799_600), None, Some(142_100)]),
        channel("vpn", "内网 · OpenVPN", Level::Off, None, "未连接", "a|b", vec![None]),
        channel("direct", "国内 · 直连", Level::Good, Some(18_500), "正常", "", Vec::new()),
        true,
        "127.0.0.1:7890".to_string(),
        &presence,
        "2026-09-20 13:30:32".to_string(),
    )
}

#[test]
fn icons_and_rounding() {
    assert_eq!(level_icon(Level::Good), "🟢");
    assert_eq!(level_icon(Level::Warn), "🟡");
    assert_eq!(level_icon(Level::Bad), "🔴");
    assert_eq!(level_icon(Level::Off), "⚪");
    assert_eq!(level_icon(Level::Unknown), "⚫");
    assert_eq!(round_tenth(130_449), 130_400);
    assert_eq!(round_tenth(130_450), 130_500);
    assert_eq!(round_tenth(49), 0);
    assert_eq!(sort_ascending(&vec![5, -1, 3, 3, 0]), vec![-1, 0, 3, 3, 5]);
}

#[test]
fn stats_summarise_a_history() {
    let s = stats(&vec![Some(130_400), Some(799_600), None, Some(142_100)]);
    assert_eq!(s.number("samples", -1), 4000);
    assert_eq!(s.number("ok", -1), 3000);
    assert_eq!(s.number("failed", -1), 1000);
    assert_eq!(s.number("last_ms", -1), 142_100);
    assert_eq!(s.number("min_ms", -1), 130_400);
    assert_eq!(s.number("max_ms", -1), 799_600);
    assert_eq!(s.number("median_ms", -1), 142_100);
    assert_eq!(s.number("mean_ms", -1), 357_400);
    assert_eq!(s.number("jitter_ms", -1), 669_200);
    let empty = stats(&vec![None, None]);
    assert_eq!(empty.number("failed", -1), 2000);
    assert!(empty.path("min_ms").is_none());
}

#[test]
fn json_report_lists_channels_and_environment() {
    let text = to_json(&snapshot());
    let value = Json::parse(&text).unwrap();
    assert_eq!(value.string("generated_at", ""), "2026-09-20 13:30:32");
    assert_eq!(value.string("overall_level", ""), "off");
    assert_eq!(value.string("overall_text", ""), "未连接");
    assert_eq!(value.string("channels.clash.level_text", ""), "正常");
    assert_eq!(value.number("channels.clash.last_latency_ms", -1), 136_000);
    assert!(matches!(value.path("channels.vpn.last_latency_ms"), Some(Json::Null)));
    assert_eq!(value.number("channels.clash.stats.median_ms", -1), 142_100);
    assert_eq!(value.path("channels.clash.history_ms").and_then(|v| v.as_arr()).map(|a| a.len()), Some(4));
    assert_eq!(value.flag("environment.system_proxy.enabled", false), true);
    assert_eq!(value.string("environment.context.vpn.adapter", ""), "TAP-Windows Adapter V9");
    assert!(text.starts_with("{\n  \"generated_at\": \"2026-09-20 13:30:32\",\n"));
}

#[test]
fn markdown_report_rows_and_sections() {
    let text = to_markdown(&snapshot());
    let lines: Vec<&str> = text.split('\n').collect();
    assert_eq!(lines[0], "# 办公网络状态报告");
    assert_eq!(lines[2], "- 生成时间：2026-09-20 13:30:32（采样间隔 5 秒，每条通道保留最近 4 次）");
    assert_eq!(lines[3], "- 总体状态：未连接");
    assert_eq!(lines[9], "| 外网 · Clash | 🟢 正常 | 136 ms | 3/4 | 130.4/142.1/799.6 | 669.2 | www.gstatic.com · HTTP 204 |");
    assert_eq!(lines[10], "| 内网 · OpenVPN | ⚪ 未连接 | - | 0/1 | -/-/- | - | a/b |");
    assert_eq!(lines[11], "| 国内 · 直连 | 🟢 正常 | 18 ms | 0/0 | -/-/- | - |  |");
    assert!(text.contains("\n- 系统代理：开启（127.0.0.1:7890）\n"));
    assert!(text.contains("\n- VPN 网卡：TAP-Windows Adapter V9（本机 10.17.232.44，网关 -，DNS -）\n"));
    assert!(text.contains("\n- vpn 探测目标：(未配置，按 VPN 网卡/DNS/网关自动探测)\n"));
    assert!(text.contains("\n- clash 探测目标：https://www.gstatic.com/generate_204, https://www.cloudflare.com/cdn-cgi/trace\n"));
    assert!(text.contains("\n- 判定阈值：clash 正常≤600ms、偏慢≤1500ms；vpn 正常≤150ms、偏慢≤500ms；direct 正常≤300ms、偏慢≤800ms\n"));
    assert!(text.contains("\n- 外网 · Clash：[130, 800, null, 142]\n"));
    assert!(text.contains("\n- 内网 · OpenVPN：[null]\n"));
    assert!(text.ends_with("\n- 国内 · 直连：[]\n"));
    assert!(!text.contains("- Clash："));
}

#[test]
fn rows_and_raw_lines() {
    let c = channel("x", "名", Level::Warn, Some(2_500), "偏慢", "d", vec![Some(1_500), Some(2_500), Some(500)]);
    assert_eq!(channel_row(&c), "| 名 | 🟡 偏慢 | 2 ms | 3/3 | 0.5/1.5/2.5 | 2 | d |");
    assert_eq!(raw_line(&c), "- 名：[2, 2, 0]");
    let node = Json::parse("[\"a\", 1, \"b\"]").unwrap();
    assert_eq!(join_strings(Some(&node)), "a, b");
    assert_eq!(join_strings(None), "");
    assert_eq!(join_strings(Some(&Json::Null)), "");
}

#[test]
fn rounding_holds_for_every_sample() {
    assert_eq!(round_tenth(-49), 0);
    assert_eq!(round_tenth(-50), -100);
    assert_eq!(round_tenth(-130_450), -130_500);
    assert_eq!(round_tenth(i64::MAX), 9_223_372_036_854_775_800);
    assert_eq!(round_tenth(i64::MIN), -9_223_372_036_854_775_800);
}

#[test]
fn stats_of_extreme_samples() {
    let s = stats(&vec![Some(i64::MIN), Some(i64::MAX)]);
    assert_eq!(s.number("samples", -1), 2000);
    assert_eq!(s.number("min_ms", -1), -9_223_372_036_854_775_800);
    assert_eq!(s.number("max_ms", -1), 9_223_372_036_854_775_800);
    assert_eq!(s.number("mean_ms", -1), 0);
    assert_eq!(s.number("jitter_ms", -1), 9_223_372_036_854_775_800);
    let t = stats(&vec![Some(i64::MAX), Some(i64::MAX), Some(i64::MAX)]);
    assert_eq!(t.number("mean_ms", -1), 9_223_372_036_854_775_800);
    let u = stats(&vec![Some(-150), Some(-100)]);
    assert_eq!(u.number("mean_ms", -1), -100);
    assert_eq!(u.number("jitter_ms", -1), 100);
}

#[test]
fn reports_of_any_snapshot() {
    let mut engine = Engine::new(Config::default(), "t0");
    let presence = Presence { connected: false, label: String::new(), ipv4: Vec::new(), gateway: Vec::new(), dns: Vec::new() };
    let s = engine.finish_round(
        channel("clash", "外网 · Clash", Level::Bad, Some(-2_000), "x", "", vec![Some(-2_000), Some(i64::MAX)]),
        channel("vpn", "内网 · OpenVPN", Level::Off, None, "未连接", "", vec![None]),
        channel("direct", "国内 · 直连", Level::Good, Some(18_500), "正常", "", Vec::new()),
        false,
        String::new(),
        &presence,
        "t1".to_string(),
    );
    let text = to_json(&s);
    let back = Json::parse(&text).unwrap();
    assert!(matches!(back.path("channels.clash.last_latency_ms"), Some(Json::Num(-2_000))));
    assert!(matches!(back.path("channels.clash.stats.jitter_ms"), Some(Json::Num(9_223_372_036_854_775_800))));
    let md = to_markdown(&s);
    assert!(md.contains("| 外网 · Clash | 🔴 x | -2 ms | 2/2 |"));
}
