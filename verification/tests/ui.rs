use netmon::clock::{clock_string, time_string, SYSTEMTIME};
use netmon::config::Config;
use netmon::gdiplus::{argb, argb_to_gdi, COLOR_BAD, COLOR_GOOD, COLOR_OFF, COLOR_WARN};
use netmon::level::Level;
use netmon::monitor::{ChannelState, Snapshot};
use netmon::panel::{
    card_line, footer_line, hides_on_focus_loss, hit_test, latency_number, level_color, panel_position, panel_size, spark_bars, truncate,
    BTN_CLOSE, BTN_COPY, BTN_REFRESH,
};
use netmon::schedule::{jittered_wait, next_state, seed};
use netmon::tray::tooltip_text;

fn state(key: &str, level: Level, latency: Option<i64>) -> ChannelState {
    ChannelState {
        key: key.to_string(),
        name: key.to_string(),
        level,
        latency_ms: latency,
        status: String::new(),
        detail: String::new(),
        history: Vec::new(),
    }
}

#[test]
fn tooltip_one_part_per_channel() {
    let mut snapshot = Snapshot::placeholder(&Config::default(), "t");
    assert_eq!(tooltip_text(&snapshot), "外网 … — · 内网 … — · 国内 … —");
    snapshot.channels = vec![
        state("clash", Level::Good, Some(128_400)),
        state("vpn", Level::Off, None),
        state("direct", Level::Bad, Some(18_500)),
        state("other", Level::Warn, Some(0)),
    ];
    assert_eq!(tooltip_text(&snapshot), "外网 √ 128ms · 内网 ○ — · 国内 × 18ms · 国内 ! 0ms");
}

#[test]
fn colours() {
    assert_eq!(argb(255, 23, 27, 35), 0xFF17_1B23);
    assert_eq!(argb(0, 0, 0, 0), 0);
    assert_eq!(argb_to_gdi(0xFF3D_DC84), 0x0084_DC3D);
    assert_eq!(argb_to_gdi(0x0012_3456), 0x0056_3412);
    assert_eq!(level_color(Level::Good), COLOR_GOOD);
    assert_eq!(level_color(Level::Warn), COLOR_WARN);
    assert_eq!(level_color(Level::Bad), COLOR_BAD);
    assert_eq!(level_color(Level::Unknown), COLOR_OFF);
}

#[test]
fn panel_geometry() {
    assert_eq!(panel_size(96), (344, 320));
    assert_eq!(panel_size(120), (430, 400));
    assert_eq!(panel_size(144), (516, 480));
    assert_eq!(panel_position(344, 320, 1920, 1040), (1564, 712));
    assert_eq!(panel_position(344, 320, 0, 0), (924, 392));
    assert_eq!(panel_position(344, 320, 100, 100), (0, 0));
    assert_eq!(hit_test(330, 10, 96), BTN_CLOSE);
    assert_eq!(hit_test(20, 270, 96), BTN_REFRESH);
    assert_eq!(hit_test(200, 270, 96), BTN_COPY);
    assert_eq!(hit_test(170, 270, 96), 0);
    assert_eq!(hit_test(20, 100, 96), 0);
    assert_eq!(hit_test(420, 5, 120), BTN_CLOSE);
}

#[test]
fn panel_texts() {
    assert_eq!(truncate("abcdef", 4), "abc…");
    assert_eq!(truncate("abc", 3), "abc");
    assert_eq!(truncate("abc", 0), "…");
    assert_eq!(card_line("正常", ""), "正常");
    assert_eq!(card_line("正常", "www.baidu.com · HTTP 200"), "正常 · www.baidu.com · HTTP 200");
    assert_eq!(card_line("x", "0123456789012345678901234567890"), "x · 0123456789012345678901234…");
    assert_eq!(latency_number(Some(130_500)), "130");
    assert_eq!(latency_number(None), "—");
    assert_eq!(footer_line("", true, "", None), "系统代理 开启");
    assert_eq!(
        footer_line("Clash v1 · 规则 模式", false, "127.0.0.1:7890", Some("http://127.0.0.1:17800")),
        "Clash v1 · 规则 模式 · 系统代理 127.0.0.1:7890 · 接口 1…"
    );
}

#[test]
fn sparkline_bars() {
    let history: Vec<Option<i64>> = (0..20).map(|i| if i == 19 { None } else { Some(i * 10_000) }).collect();
    let bars = spark_bars(&history, 16);
    assert_eq!(bars.len(), 14);
    assert_eq!(bars[0], Some(5));
    assert_eq!(bars[12], Some(16));
    assert_eq!(bars[13], None);
    assert_eq!(spark_bars(&vec![Some(1_000)], 16), vec![Some(2)]);
    assert!(spark_bars(&Vec::new(), 16).is_empty());
}

#[test]
fn local_time_text() {
    let t = SYSTEMTIME { year: 2026, month: 9, day_of_week: 0, day: 20, hour: 3, minute: 0, second: 32, milliseconds: 5 };
    assert_eq!(time_string(&t), "2026-09-20 03:00:32");
    assert_eq!(clock_string(&t), "03:00:32");
    let early = SYSTEMTIME { year: 7, month: 12, day_of_week: 0, day: 1, hour: 23, minute: 59, second: 9, milliseconds: 0 };
    assert_eq!(time_string(&early), "0007-12-01 23:59:09");
}

#[test]
fn jittered_schedule() {
    assert_eq!(next_state(1), 1082269761);
    assert_eq!(seed(0, 8), 9);
    assert_eq!(seed(5, 8), 5);
    assert_eq!(jittered_wait(5000, 0), 4000);
    assert_eq!(jittered_wait(5000, u64::MAX), 5999);
    assert_eq!(jittered_wait(5000, 1 << 63), 5000);
}

#[test]
fn focus_loss_hides_after_focus_or_grace() {
    assert!(hides_on_focus_loss(true, Some(10)));
    assert!(!hides_on_focus_loss(false, Some(400)));
    assert!(hides_on_focus_loss(false, Some(401)));
    assert!(!hides_on_focus_loss(false, None));
}
