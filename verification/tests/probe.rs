use netmon::net::{from_wide, ipv4_to_u32, is_private_ipv4, port_of, u32_to_ipv4, wide, write_wide};
use netmon::probe::{
    echo_result, echo_timeout, failure_result, host_of, parse_url, proxy_host, reg_string, request_timeout,
    response_result, routable_ipv4, sockaddr_ip, tcp_peers, tcp_rows, winhttp_error, ConnectionPool, ProbeResult,
};
use netmon::process::{is_running, running_processes};

fn strings(items: &[&str]) -> Vec<String> {
    items.iter().map(|s| s.to_string()).collect()
}

#[test]
fn urls_split_into_parts() {
    let p = parse_url("https://www.gstatic.com/generate_204").unwrap();
    assert!(p.secure);
    assert_eq!(p.host, "www.gstatic.com");
    assert_eq!(p.port, 443);
    assert_eq!(p.path, "/generate_204");
    let p = parse_url("http://10.10.0.1:8080").unwrap();
    assert!(!p.secure);
    assert_eq!(p.host, "10.10.0.1");
    assert_eq!(p.port, 8080);
    assert_eq!(p.path, "/");
    assert!(parse_url("ftp://x").is_none());
    assert!(parse_url("http:///path").is_none());
    assert!(parse_url("http://h:99999/").is_none());
    assert_eq!(host_of("https://www.baidu.com"), "www.baidu.com");
    assert_eq!(host_of("10.0.0.1"), "10.0.0.1");
}

#[test]
fn proxy_text_loses_scheme_and_slashes() {
    assert_eq!(proxy_host("  http://127.0.0.1:7890/ "), "127.0.0.1:7890");
    assert_eq!(proxy_host("https://p:1//"), "p:1");
    assert_eq!(proxy_host("http://http://q"), "q");
    assert_eq!(proxy_host("   "), "");
}

#[test]
fn winhttp_codes_in_words() {
    assert_eq!(winhttp_error(12029), ("代理/主机连不上".to_string(), true));
    assert_eq!(winhttp_error(12007), ("域名解析失败".to_string(), false));
    assert_eq!(winhttp_error(12002), ("超时".to_string(), false));
    assert_eq!(winhttp_error(12175), ("证书错误".to_string(), false));
    assert_eq!(winhttp_error(12030), ("连接被中断".to_string(), false));
    assert_eq!(winhttp_error(12181), ("地址无效".to_string(), false));
    assert_eq!(winhttp_error(12006), ("地址无效".to_string(), false));
    assert_eq!(winhttp_error(5), ("连接失败(错误 5)".to_string(), false));
    let r = failure_result(12029);
    assert!(!r.ok && r.proxy_down && r.latency_ms.is_none());
}

#[test]
fn responses_by_status() {
    let r = response_result(204, 130_400, "h", None);
    assert!(r.ok);
    assert_eq!(r.latency_ms, Some(130_400));
    assert_eq!(r.detail, "HTTP 204");
    let r = response_result(0, 5, "www.x.com", Some("b".to_string()));
    assert!(!r.ok);
    assert_eq!(r.latency_ms, None);
    assert_eq!(r.detail, "响应异常 (www.x.com)");
    assert_eq!(r.body, Some("b".to_string()));
    let r = response_result(503, 7, "h", None);
    assert!(!r.ok);
    assert_eq!(r.latency_ms, Some(7));
    assert_eq!(r.detail, "HTTP 503");
    let r = response_result(399, 1, "h", None);
    assert!(r.ok);
}

#[test]
fn timeouts_are_clamped() {
    assert_eq!(request_timeout(100), 500);
    assert_eq!(request_timeout(2500), 2500);
    assert_eq!(request_timeout(120_000), 60000);
    assert_eq!(echo_timeout(50), 200);
    assert_eq!(echo_timeout(2000), 2000);
}

#[test]
fn echo_replies() {
    assert_eq!(echo_result(0, 0, 5, 9).detail, "ping 无响应");
    assert_eq!(echo_result(1, 11010, 5, 9).detail, "不可达");
    let r = echo_result(1, 0, 0, 1234);
    assert!(r.ok);
    assert_eq!(r.latency_ms, Some(1234));
    assert_eq!(echo_result(1, 0, 12, 1234).latency_ms, Some(12_000));
    let r = ProbeResult::fail("x");
    assert!(!r.ok && !r.proxy_down);
}

#[test]
fn pool_reuses_and_evicts_oldest() {
    let mut pool = ConnectionPool::new();
    assert_eq!(pool.find("a", 1), None);
    assert_eq!(pool.add("a", 1, 10), None);
    assert_eq!(pool.add("b", 1, 11), None);
    assert_eq!(pool.add("c", 1, 12), None);
    assert_eq!(pool.add("d", 1, 13), None);
    assert_eq!(pool.find("a", 1), Some(10));
    assert_eq!(pool.find("a", 2), None);
    assert_eq!(pool.add("e", 1, 14), Some(10));
    assert_eq!(pool.find("a", 1), None);
    assert_eq!(pool.find("e", 1), Some(14));
    assert_eq!(pool.handles(), vec![11, 12, 13, 14]);
}

#[test]
fn addresses_in_memory_order() {
    assert_eq!(ipv4_to_u32("10.17.232.44"), Some(u32::from_ne_bytes([10, 17, 232, 44])));
    assert_eq!(ipv4_to_u32(" 1. 2 .3.4 "), Some(u32::from_ne_bytes([1, 2, 3, 4])));
    assert_eq!(ipv4_to_u32("1.2.3"), None);
    assert_eq!(ipv4_to_u32("1.2.3.4.5"), None);
    assert_eq!(ipv4_to_u32("1.2.3.256"), None);
    assert_eq!(u32_to_ipv4(u32::from_ne_bytes([192, 168, 0, 1])), "192.168.0.1");
    assert_eq!(port_of(0x5000), 80);
    assert_eq!(port_of(0xFFFF_BB01), 443);
}

#[test]
fn private_ranges() {
    assert!(is_private_ipv4("10.1.2.3"));
    assert!(is_private_ipv4("172.16.0.1"));
    assert!(is_private_ipv4("172.31.255.255"));
    assert!(!is_private_ipv4("172.32.0.1"));
    assert!(is_private_ipv4("192.168.1.1"));
    assert!(!is_private_ipv4("8.8.8.8"));
    assert!(!is_private_ipv4("10.1.2"));
}

#[test]
fn wide_strings() {
    assert_eq!(wide("a€"), vec![0x61, 0x20AC, 0]);
    assert_eq!(wide("😀"), vec![0xD83D, 0xDE00, 0]);
    assert_eq!(from_wide(&[0x61, 0x62, 0, 0x63]), "ab");
    assert_eq!(from_wide(&[0xD800, 0x61]), "\u{FFFD}a");
    let mut buffer = [7u16; 4];
    write_wide(&mut buffer, "hello");
    assert_eq!(buffer, [0x68, 0x65, 0x6C, 0]);
    let mut buffer = [7u16; 4];
    write_wide(&mut buffer, "h");
    assert_eq!(buffer, [0x68, 0, 0, 0]);
    let mut empty: [u16; 0] = [];
    write_wide(&mut empty, "x");
}

#[test]
fn socket_addresses_and_link_local() {
    assert_eq!(sockaddr_ip(&[2, 0, 0, 0, 10, 0, 0, 7]), Some("10.0.0.7".to_string()));
    assert_eq!(sockaddr_ip(&[23, 0, 0, 0, 10, 0, 0, 7]), None);
    assert_eq!(sockaddr_ip(&[2, 0, 0, 0]), None);
    assert_eq!(
        routable_ipv4(&strings(&["169.254.1.1", "10.0.0.2", "169.25.0.1"])),
        strings(&["10.0.0.2", "169.25.0.1"])
    );
}

fn row(state: u32, local: [u8; 4], remote: [u8; 4], port: u16) -> Vec<u8> {
    let mut out = Vec::new();
    out.extend_from_slice(&state.to_le_bytes());
    out.extend_from_slice(&local);
    out.extend_from_slice(&0u32.to_le_bytes());
    out.extend_from_slice(&remote);
    let raw = u16::from_be(port) as u32;
    out.extend_from_slice(&raw.to_le_bytes());
    out.extend_from_slice(&4242u32.to_le_bytes());
    out
}

#[test]
fn peers_from_the_tcp_table() {
    let mut table = 6u32.to_le_bytes().to_vec();
    table.extend(row(5, [10, 0, 0, 5], [10, 1, 1, 1], 443));
    table.extend(row(5, [10, 0, 0, 5], [10, 1, 1, 1], 443));
    table.extend(row(2, [10, 0, 0, 5], [10, 1, 1, 2], 22));
    table.extend(row(5, [10, 0, 0, 9], [10, 1, 1, 3], 22));
    table.extend(row(5, [10, 0, 0, 5], [127, 0, 0, 1], 80));
    table.extend(row(5, [10, 0, 0, 5], [10, 1, 1, 4], 3389));
    let rows = tcp_rows(&table);
    assert_eq!(rows.len(), 6);
    assert_eq!(rows[0].state, 5);
    assert_eq!(rows[0].owning_pid, 4242);
    let local = strings(&["10.0.0.5"]);
    let peers = tcp_peers(&table, &local, 8);
    assert_eq!(peers, vec![("10.1.1.1".to_string(), 443), ("10.1.1.4".to_string(), 3389)]);
    let peers = tcp_peers(&table, &local, 1);
    assert_eq!(peers, vec![("10.1.1.1".to_string(), 443)]);
    assert!(tcp_peers(&table, &Vec::new(), 8).is_empty());
    let mut short = 9u32.to_le_bytes().to_vec();
    short.extend(row(5, [10, 0, 0, 5], [10, 1, 1, 1], 443));
    short.extend_from_slice(&[0, 0, 0]);
    assert_eq!(tcp_rows(&short).len(), 1);
}

#[test]
fn registry_strings() {
    let bytes: Vec<u8> = "127.0.0.1:7890".encode_utf16().flat_map(|u| u.to_le_bytes()).chain([0, 0, 9, 9]).collect();
    assert_eq!(reg_string(&bytes), "127.0.0.1:7890");
    assert_eq!(reg_string(&[0x41, 0x00, 0x42]), "A");
}

#[test]
fn running_programs_ignore_case() {
    let listed = strings(&["System", "OpenVPN.EXE", "explorer.exe"]);
    assert!(is_running("openvpn.exe", &listed));
    assert!(!is_running("openvpn-gui.exe", &listed));
    assert_eq!(
        running_processes(&strings(&["openvpn.exe", "openvpn-gui.exe", "EXPLORER.exe"]), &listed),
        strings(&["openvpn.exe", "EXPLORER.exe"])
    );
    assert!(running_processes(&Vec::new(), &listed).is_empty());
}

#[test]
fn texts_and_addresses_read_back() {
    for text in ["", "网络 ok", "emoji 😀 tail", "TAP-Windows Adapter V9"] {
        assert_eq!(from_wide(&wide(text)), text);
    }
    for value in [0u32, 1, 0x0100_000A, 0xFFFF_FFFF, u32::from_ne_bytes([10, 17, 232, 1])] {
        assert_eq!(ipv4_to_u32(&u32_to_ipv4(value)), Some(value));
    }
    assert_eq!(ipv4_to_u32("10.17.232.1"), Some(u32::from_ne_bytes([10, 17, 232, 1])));
    assert_eq!(ipv4_to_u32("1.2.3"), None);
    assert_eq!(ipv4_to_u32("1.2.3.4.5"), None);
    assert_eq!(ipv4_to_u32("256.0.0.1"), None);
}
