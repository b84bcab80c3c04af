use netmon::config::{parse_targets, split_host_port, Config, Target, TargetKind};
use netmon::json::Json;

#[test]
fn defaults_match_the_documented_file() {
    let config = Config::default();
    assert_eq!(config.interval, 5000);
    assert_eq!(config.timeout, 2500);
    assert!(config.verify_ssl);
    assert_eq!(config.clash.name, "外网 · Clash");
    assert_eq!(config.clash.proxy, "http://127.0.0.1:7890");
    assert_eq!(config.clash.controller, "http://127.0.0.1:9090");
    assert_eq!(config.clash.good_ms, 600_000);
    assert_eq!(config.clash.warn_ms, 1_500_000);
    assert_eq!(config.clash.targets.len(), 2);
    assert_eq!(config.vpn.name, "内网 · OpenVPN");
    assert_eq!(config.vpn.good_ms, 150_000);
    assert_eq!(config.vpn.warn_ms, 500_000);
    assert!(config.vpn.targets.is_empty());
    assert_eq!(config.direct.targets[0].value, "https://www.baidu.com");
    assert_eq!(config.adapter_keywords, vec!["TAP-Windows", "OpenVPN", "Wintun", "TUN"]);
    assert_eq!(config.process_names, vec!["openvpn.exe", "openvpn-gui.exe"]);
    assert_eq!(config.bridge.host, "127.0.0.1");
    assert_eq!(config.bridge.port, 17800);
    assert!(config.bridge.token.is_empty());
}

#[test]
fn blank_text_gives_defaults_and_asks_to_write_them() {
    let (config, write) = Config::from_text("c.json", "  \n\t ");
    assert!(write);
    assert_eq!(config.interval, 5000);
    assert_eq!(config.path, "c.json");
    let (config, write) = Config::from_text("c.json", "{}");
    assert!(!write);
    assert_eq!(config.path, "c.json");
    assert_eq!(config.bridge.port, 17800);
}

#[test]
fn values_are_clamped_and_repaired() {
    let text = "{\"interval_seconds\": 0.5, \"timeout_seconds\": 0.1, \"verify_ssl\": false,
        \"clash\": {\"name\": \"\", \"good_ms\": 100, \"proxy\": \"http://p:1\"},
        \"vpn\": {\"enabled\": false, \"adapter_keywords\": [], \"process_names\": [\"a.exe\"]},
        \"ai_bridge\": {\"port\": 0, \"token\": \"t\"}}";
    let (config, write) = Config::from_text("x.json", text);
    assert!(!write);
    assert_eq!(config.interval, 1000);
    assert_eq!(config.timeout, 500);
    assert!(!config.verify_ssl);
    assert_eq!(config.clash.name, "外网 · Clash");
    assert_eq!(config.clash.good_ms, 100_000);
    assert_eq!(config.clash.proxy, "http://p:1");
    assert!(!config.vpn.enabled);
    assert_eq!(config.adapter_keywords, vec!["TAP-Windows", "OpenVPN", "Wintun", "TUN"]);
    assert_eq!(config.process_names, vec!["a.exe"]);
    assert_eq!(config.bridge.port, 17800);
    assert_eq!(config.bridge.token, "t");
}

#[test]
fn broken_json_reads_as_empty_object() {
    let (config, write) = Config::from_text("b.json", "{not json");
    assert!(!write);
    assert_eq!(config.path, "b.json");
    assert_eq!(config.clash.name, "外网 · Clash");
    assert_eq!(config.interval, 5000);
}

#[test]
fn written_defaults_read_back_the_same() {
    let config = Config::default();
    let text = config.to_json().to_string_pretty();
    let (again, write) = Config::from_text("config.json", &text);
    assert!(!write);
    assert_eq!(again.to_json().to_string_pretty(), text);
    assert_eq!(again.clash.targets.len(), 2);
    assert_eq!(again.clash.targets[1].value, "https://www.cloudflare.com/cdn-cgi/trace");
    assert_eq!(again.clash.targets[1].verify, None);
}

#[test]
fn targets_in_every_form() {
    let node = Json::parse(
        "[\"https://a\", {\"type\": \"TCP\", \"target\": \"10.0.0.1:22\", \"name\": \"ssh\"},
          {\"type\": \"ping\", \"target\": \"10.0.0.2\"}, {\"target\": \"\"}, 5,
          {\"type\": \"http\", \"target\": \"http://x\", \"verify\": false}]",
    )
    .unwrap();
    let targets = parse_targets(Some(&node));
    assert_eq!(targets.len(), 4);
    assert_eq!(targets[0].kind, TargetKind::Http);
    assert_eq!(targets[0].verify, None);
    assert_eq!(targets[1].kind, TargetKind::Tcp);
    assert_eq!(targets[1].port, Some(22));
    assert_eq!(targets[1].name, "ssh");
    assert_eq!(targets[2].kind, TargetKind::Icmp);
    assert_eq!(targets[2].port, None);
    assert_eq!(targets[3].verify, Some(false));
    assert_eq!(targets[3].port, None);
    assert!(parse_targets(None).is_empty());
    assert!(parse_targets(Some(&Json::Bool(true))).is_empty());
}

#[test]
fn labels_and_host_ports() {
    assert_eq!(Target::http("https://www.gstatic.com/generate_204", true).label(), "www.gstatic.com/generate_204");
    assert_eq!(Target::http("plain", false).label(), "plain");
    let mut named = Target::http("https://a", true);
    named.name = "自定义".to_string();
    assert_eq!(named.label(), "自定义");
    assert_eq!(split_host_port("host:80"), Some(("host".to_string(), 80)));
    assert_eq!(split_host_port("a:b:8080"), Some(("a:b".to_string(), 8080)));
    assert_eq!(split_host_port("h:+5"), Some(("h".to_string(), 5)));
    assert_eq!(split_host_port("nocolon"), None);
    assert_eq!(split_host_port("h:70000"), None);
    assert_eq!(split_host_port("h:"), None);
}

#[test]
fn a_saved_configuration_reads_back() {
    let mut config = Config::default();
    config.interval = 7250;
    config.timeout = 900;
    config.verify_ssl = false;
    config.vpn.enabled = false;
    config.clash.good_ms = 123_456;
    config.clash.controller_secret = "s\"e\\cret".to_string();
    config.direct.targets = vec![Target::http("http://10.0.0.1:8080/health", true)];
    config.adapter_keywords = vec!["Wintun".to_string()];
    config.bridge.port = 1234;
    config.bridge.token = "tok".to_string();
    let text = config.to_json().to_string_pretty();
    let (back, write) = Config::from_text("saved.json", &text);
    assert!(!write);
    assert_eq!(back.path, "saved.json");
    assert_eq!((back.interval, back.timeout, back.verify_ssl), (7250, 900, false));
    assert!(!back.vpn.enabled);
    assert_eq!(back.clash.good_ms, 123_456);
    assert_eq!(back.clash.controller_secret, "s\"e\\cret");
    assert_eq!(back.direct.targets.len(), 1);
    assert_eq!(back.direct.targets[0].value, "http://10.0.0.1:8080/health");
    assert_eq!(back.adapter_keywords, vec!["Wintun"]);
    assert_eq!(back.process_names, config.process_names);
    assert_eq!((back.bridge.port, back.bridge.token.as_str()), (1234, "tok"));
    assert_eq!(back.to_json().to_string_pretty(), text);
}

#[test]
fn a_long_or_huge_number_keeps_the_rest_of_the_file() {
    let (config, write) = Config::from_text("c.json", "{\"timeout_seconds\": 3.00000000000000000000001, \"ai_bridge\": {\"port\": 18000}}");
    assert!(!write);
    assert_eq!(config.bridge.port, 18000);
    assert_eq!(config.timeout, 3000);
    let (config, _) = Config::from_text("c.json", "{\"interval_seconds\": 1e400, \"ai_bridge\": {\"port\": 18001}}");
    assert_eq!(config.bridge.port, 18001);
    assert_eq!(config.interval, i64::MAX);
}
