//! The status panel's layout and texts, at a given screen density.
use vstd::prelude::*;
use crate::gdiplus::{COLOR_BAD, COLOR_GOOD, COLOR_OFF, COLOR_WARN};
use crate::level::Level;
use crate::number::copy_range;
use crate::probe::{strip_prefixes, strip_all_prefixes};
use crate::report::{push_whole, round_div, whole_text};
use crate::text::{chars_of, push_char, push_str, string_of};

verus! {

pub const WIDTH: i64 = 344;
pub const RADIUS: i64 = 14;
pub const PAD: i64 = 10;
pub const HEADER_H: i64 = 42;
pub const CARD_H: i64 = 62;
pub const CARD_GAP: i64 = 6;
pub const FOOTER_H: i64 = 74;

pub const BTN_REFRESH: i32 = 1;
pub const BTN_COPY: i32 = 2;
pub const BTN_CLOSE: i32 = 3;

/// The densest screen the panel lays out, in dots per inch.
pub const DPI_LIMIT: i64 = 100_000;

/// The colour of a level.
pub open spec fn color_of(level: Level) -> u32 {
    match level {
        Level::Good => COLOR_GOOD,
        Level::Warn => COLOR_WARN,
        Level::Bad => COLOR_BAD,
        _ => COLOR_OFF,
    }
}

pub fn level_color(level: Level) -> (r: u32)
    ensures
        r == color_of(level),
{
    match level {
        Level::Good => COLOR_GOOD,
        Level::Warn => COLOR_WARN,
        Level::Bad => COLOR_BAD,
        _ => COLOR_OFF,
    }
}

/// A length in design pixels at `dpi` dots per inch (96 is one to one),
/// rounded to the nearest pixel.
pub open spec fn px(v: int, dpi: int) -> int {
    round_div(v * dpi, 96)
}

pub fn scale_px(v: i64, dpi: i64) -> (r: i64)
    requires
        0 <= v <= 1000,
        0 <= dpi <= DPI_LIMIT,
    ensures
        r == px(v as int, dpi as int),
        0 <= r <= 1000 * DPI_LIMIT,
{
    assert(0 <= v * dpi <= 1000 * DPI_LIMIT) by (nonlinear_arith)
        requires
            0 <= v <= 1000,
            0 <= dpi <= DPI_LIMIT,
    ;
    (2 * (v * dpi) + 96) / 192
}

/// The panel's width and height.
pub open spec fn panel_size_view(dpi: int) -> (int, int) {
    (px(WIDTH as int, dpi), px(HEADER_H + 3 * (CARD_H + CARD_GAP) + FOOTER_H, dpi))
}

pub fn panel_size(dpi: i64) -> (r: (i64, i64))
    requires
        0 <= dpi <= DPI_LIMIT,
    ensures
        (r.0 as int, r.1 as int) == panel_size_view(dpi as int),
{
    (scale_px(WIDTH, dpi), scale_px(HEADER_H + 3 * (CARD_H + CARD_GAP) + FOOTER_H, dpi))
}

/// Where the panel goes: above the bottom right corner of the work area
/// (1280 by 720 when the system gives none), never off its top or left.
pub open spec fn panel_position_view(width: int, height: int, right: int, bottom: int) -> (int, int) {
    let r = if right == 0 { 1280 } else { right };
    let b = if bottom == 0 { 720 } else { bottom };
    let margin = if width >= 0 { (12 * width) / 344 } else { -((12 * -width) / 344) };
    let x = r - width - margin;
    let y = b - height - 8;
    (if x > 0 { x } else { 0 }, if y > 0 { y } else { 0 })
}

pub fn panel_position(width: i32, height: i32, right: i32, bottom: i32) -> (r: (i64, i64))
    ensures
        (r.0 as int, r.1 as int) == panel_position_view(width as int, height as int, right as int, bottom as int),
{
    let r: i64 = if right == 0 { 1280 } else { right as i64 };
    let b: i64 = if bottom == 0 { 720 } else { bottom as i64 };
    let w = width as i64;
    let margin: i64 = if w >= 0 { (12 * w) / 344 } else { -((12 * -w) / 344) };
    let x = r - w - margin;
    let y = b - height as i64 - 8;
    (if x > 0 { x } else { 0 }, if y > 0 { y } else { 0 })
}

/// Which button a point of the panel is on: close, refresh, copy, or none
/// (0).
pub open spec fn hit_view(x: int, y: int, dpi: int) -> i32 {
    let footer_top = px(HEADER_H + 3 * (CARD_H + CARD_GAP), dpi) + px(2, dpi) + px(20, dpi);
    if x >= px(WIDTH - 40, dpi) && y <= px(HEADER_H as int, dpi) {
        BTN_CLOSE
    } else if y >= footer_top && y <= footer_top + px(26, dpi) && x >= px(14, dpi) && x <= px(14, dpi) + px(
        152,
        dpi,
    ) {
        BTN_REFRESH
    } else if y >= footer_top && y <= footer_top + px(26, dpi) && x >= px(14, dpi) + px(152, dpi) + px(10, dpi)
        && x <= px(14, dpi) + px(152, dpi) * 2 + px(10, dpi) {
        BTN_COPY
    } else {
        0
    }
}

pub fn hit_test(x: i32, y: i32, dpi: i64) -> (r: i32)
    requires
        0 <= dpi <= DPI_LIMIT,
    ensures
        r == hit_view(x as int, y as int, dpi as int),
{
    let x = x as i64;
    let y = y as i64;
    if x >= scale_px(WIDTH - 40, dpi) && y <= scale_px(HEADER_H, dpi) {
        return BTN_CLOSE;
    }
    let footer_top = scale_px(HEADER_H + 3 * (CARD_H + CARD_GAP), dpi) + scale_px(2, dpi) + scale_px(20, dpi);
    let left = scale_px(14, dpi);
    let button = scale_px(152, dpi);
    let gap = scale_px(10, dpi);
    if y >= footer_top && y <= footer_top + scale_px(26, dpi) {
        if x >= left && x <= left + button {
            return BTN_REFRESH;
        }
        if x >= left + button + gap && x <= left + button * 2 + gap {
            return BTN_COPY;
        }
    }
    0
}

/// A text cut to `max` characters, the last one an ellipsis when cut.
pub open spec fn truncated(t: Seq<char>, max: nat) -> Seq<char> {
    if t.len() <= max {
        t
    } else {
        t.take(if max >= 1 { max - 1 } else { 0 }) + seq!['…']
    }
}

pub fn truncate(text: &str, max_chars: usize) -> (r: String)
    ensures
        r@ == truncated(text@, max_chars as nat),
{
    let chars = chars_of(text);
    if chars.len() <= max_chars {
        return text.to_owned();
    }
    let keep = if max_chars >= 1 { max_chars - 1 } else { 0 };
    let mut kept = copy_range(&chars, 0, keep);
    kept.push('…');
    assert(kept@ =~= text@.take(keep as int) + seq!['…']);
    string_of(&kept)
}

/// The second line of a channel's card: status and detail, cut to thirty
/// characters.
pub open spec fn card_line_view(status: Seq<char>, detail: Seq<char>) -> Seq<char> {
    truncated(if detail.len() == 0 { status } else { status + " · "@ + detail }, 30)
}

pub fn card_line(status: &str, detail: &str) -> (r: String)
    ensures
        r@ == card_line_view(status@, detail@),
{
    if detail.is_empty() {
        truncate(status, 30)
    } else {
        let mut text = status.to_owned();
        push_str(&mut text, " · ");
        push_str(&mut text, detail);
        truncate(text.as_str(), 30)
    }
}

/// The big number of a card: whole milliseconds, or a dash.
pub open spec fn latency_number_view(latency_ms: Option<i64>) -> Seq<char> {
    match latency_ms {
        Some(v) => whole_text(v as int),
        None => "—"@,
    }
}

pub fn latency_number(latency_ms: Option<i64>) -> (r: String)
    ensures
        r@ == latency_number_view(latency_ms),
{
    match latency_ms {
        Some(v) => {
            let mut r = String::new();
            push_whole(&mut r, v);
            proof {
                reveal_strlit("");
            }
            assert(r@ =~= whole_text(v as int));
            r
        },
        None => "—".to_owned(),
    }
}

/// The panel's footer line: the controller line, the system proxy and the
/// endpoint, cut to forty-six characters.
pub open spec fn footer_view(clash_meta: Seq<char>, proxy_enabled: bool, proxy_server: Seq<char>, bridge_url: Option<Seq<char>>) -> Seq<
    char,
> {
    let meta = if clash_meta.len() > 0 { clash_meta + " · "@ } else { Seq::empty() };
    let proxy = "系统代理 "@ + if proxy_server.len() == 0 {
        if proxy_enabled {
            "开启"@
        } else {
            "关闭"@
        }
    } else {
        proxy_server
    };
    let endpoint = match bridge_url {
        Some(u) => " · 接口 "@ + strip_prefixes(u, "http://"@),
        None => Seq::empty(),
    };
    truncated(meta + proxy + endpoint, 46)
}

pub fn footer_line(clash_meta: &str, proxy_enabled: bool, proxy_server: &str, bridge_url: Option<&str>) -> (r: String)
    ensures
        r@ == footer_view(
            clash_meta@,
            proxy_enabled,
            proxy_server@,
            match bridge_url {
                Some(u) => Some(u@),
                None => None,
            },
        ),
{
    let mut text = String::new();
    proof {
        reveal_strlit("");
    }
    if !clash_meta.is_empty() {
        push_str(&mut text, clash_meta);
        push_str(&mut text, " · ");
    }
    push_str(&mut text, "系统代理 ");
    if proxy_server.is_empty() {
        push_str(&mut text, if proxy_enabled { "开启" } else { "关闭" });
    } else {
        push_str(&mut text, proxy_server);
    }
    match bridge_url {
        Some(u) => {
            push_str(&mut text, " · 接口 ");
            proof {
                reveal_strlit("http://");
            }
            let bare = strip_all_prefixes(u, "http://");
            push_str(&mut text, bare.as_str());
        },
        None => {},
    }
    truncate(text.as_str(), 46)
}

} // verus!

verus! {

/// How many samples the sparkline shows.
pub const SPARK_CAPACITY: usize = 14;

/// The newest samples, as many as the sparkline shows.
pub open spec fn recent(h: Seq<Option<i64>>) -> Seq<Option<i64>> {
    if h.len() > SPARK_CAPACITY {
        h.skip(h.len() - SPARK_CAPACITY)
    } else {
        h
    }
}

/// The top of the sparkline's scale: the largest sample, and at least
/// fifty milliseconds.
pub open spec fn spark_top(h: Seq<Option<i64>>) -> int
    decreases h.len(),
{
    if h.len() == 0 {
        50000
    } else {
        let rest = spark_top(h.drop_last());
        match h.last() {
            Some(v) => if v > rest {
                v as int
            } else {
                rest
            },
            None => rest,
        }
    }
}

/// The height of a sample's bar: its share of the scale, at least two
/// pixels.
pub open spec fn bar_height(v: int, top: int, height: int) -> int {
    let share = (height * (if v < top { v } else { top })) / top;
    if share > 2 { share } else { 2 }
}

/// The bars of the sparkline: a height for each sample that succeeded,
/// `None` for each failure, newest last.
pub open spec fn spark_view(h: Seq<Option<i64>>, height: int) -> Seq<Option<int>> {
    let shown = recent(h);
    let top = spark_top(shown);
    shown.map_values(
        |v: Option<i64>|
            match v {
                Some(x) => Some(bar_height(x as int, top, height)),
                None => None,
            },
    )
}

pub proof fn lemma_spark_top(h: Seq<Option<i64>>)
    requires
        forall|i: int| 0 <= i < h.len() ==> (#[trigger] h[i] matches Some(v) ==> 0 <= v <= 1_000_000_000_000_000),
    ensures
        50000 <= spark_top(h) <= 1_000_000_000_000_000,
        forall|i: int| 0 <= i < h.len() ==> (#[trigger] h[i] matches Some(v) ==> v <= spark_top(h)),
    decreases h.len(),
{
    if h.len() > 0 {
        lemma_spark_top(h.drop_last());
        assert forall|i: int| 0 <= i < h.len() implies (#[trigger] h[i] matches Some(v) ==> v <= spark_top(h)) by {
            if i < h.len() - 1 {
                assert(h.drop_last()[i] == h[i]);
            }
        }
    }
}

pub fn spark_bars(history: &Vec<Option<i64>>, height: i64) -> (r: Vec<Option<i64>>)
    requires
        forall|i: int|
            0 <= i < history@.len() ==> (#[trigger] history@[i] matches Some(v) ==> 0 <= v <= 1_000_000_000_000_000),
        0 <= height <= 1_000_000,
    ensures
        r@.map_values(|v: Option<i64>| match v {
            Some(x) => Some(x as int),
            None => None,
        }) == spark_view(history@, height as int),
{
    let start: usize = if history.len() > SPARK_CAPACITY { history.len() - SPARK_CAPACITY } else { 0 };
    let ghost shown = recent(history@);
    assert(shown =~= history@.subrange(start as int, history@.len() as int));
    let mut top: i64 = 50000;
    let mut i: usize = start;
    assert(shown.take(0) =~= Seq::<Option<i64>>::empty());
    while i < history.len()
        invariant
            start <= i <= history.len(),
            shown == history@.subrange(start as int, history@.len() as int),
            forall|k: int|
                0 <= k < history@.len() ==> (#[trigger] history@[k] matches Some(v) ==> 0 <= v <= 1_000_000_000_000_000),
            top == spark_top(shown.take(i - start)),
        decreases history.len() - i,
    {
        assert(shown.take(i + 1 - start).drop_last() =~= shown.take(i - start));
        assert(shown.take(i + 1 - start).last() == history@[i as int]);
        match history[i] {
            Some(v) => {
                if v > top {
                    top = v;
                }
            },
            None => {},
        }
        i += 1;
    }
    assert(shown.take(i - start) =~= shown);
    proof {
        assert forall|k: int| 0 <= k < shown.len() implies (#[trigger] shown[k] matches Some(v) ==> 0 <= v
            <= 1_000_000_000_000_000) by {
            assert(shown[k] == history@[start + k]);
        }
        lemma_spark_top(shown);
    }
    let ghost want = spark_view(history@, height as int);
    assert(want.len() == shown.len());
    let mut bars: Vec<Option<i64>> = Vec::new();
    let mut j: usize = start;
    while j < history.len()
        invariant
            start <= j <= history.len(),
            shown == history@.subrange(start as int, history@.len() as int),
            top == spark_top(shown),
            50000 <= top <= 1_000_000_000_000_000,
            forall|k: int| 0 <= k < shown.len() ==> (#[trigger] shown[k] matches Some(v) ==> 0 <= v <= top),
            0 <= height <= 1_000_000,
            want == spark_view(history@, height as int),
            shown.len() == history@.len() - start,
            want.len() == shown.len(),
            forall|k: int|
                0 <= k < shown.len() ==> #[trigger] want[k] == match shown[k] {
                    Some(x) => Some(bar_height(x as int, top as int, height as int)),
                    None => None,
                },
            bars@.map_values(|v: Option<i64>| match v {
                Some(x) => Some(x as int),
                None => None,
            }) == want.take(j - start),
        decreases history.len() - j,
    {
        assert(shown[j - start] == history@[j as int]);
        let bar: Option<i64> = match history[j] {
            Some(v) => {
                let capped: i128 = if v < top { v as i128 } else { top as i128 };
                assert(0 <= capped <= top);
                assert(0 <= height as i128 * capped <= 1_000_000 * 1_000_000_000_000_000) by (nonlinear_arith)
                    requires
                        0 <= height <= 1_000_000,
                        0 <= capped <= 1_000_000_000_000_000,
                ;
                let share: i128 = (height as i128 * capped) / top as i128;
                assert(share <= height) by (nonlinear_arith)
                    requires
                        0 <= capped <= top,
                        top > 0,
                        0 <= height,
                        share as int == (height as int * capped as int) / (top as int),
                ;
                let h: i64 = if share > 2 { share as i64 } else { 2 };
                Some(h)
            },
            None => None,
        };
        let ghost before = bars@;
        assert(want[j - start] == match bar {
            Some(x) => Some(x as int),
            None => None,
        });
        bars.push(bar);
        assert(want.take(j + 1 - start) =~= want.take(j - start).push(want[j - start]));
        assert(bars@.map_values(|v: Option<i64>| match v {
            Some(x) => Some(x as int),
            None => None,
        }) =~= before.map_values(|v: Option<i64>| match v {
            Some(x) => Some(x as int),
            None => None,
        }).push(want[j - start]));
        assert(bars@.map_values(|v: Option<i64>| match v {
            Some(x) => Some(x as int),
            None => None,
        }) =~= want.take(j + 1 - start));
        j += 1;
    }
    assert(want.take(j - start) =~= want);
    bars
}

} // verus!

verus! {

/// How long after it is shown the panel ignores a lost focus, in
/// milliseconds.
pub const FOCUS_GRACE_MS: u64 = 400;

/// Whether losing the focus hides the panel: a new window is told once
/// that it lost the focus as it is shown, so only a loss after the panel
/// had the focus, or after the grace period, means a click went elsewhere.
/// `shown_ms` is how long ago it was shown, when that is known.
pub fn hides_on_focus_loss(activated: bool, shown_ms: Option<u64>) -> (r: bool)
    ensures
        r == (activated || (shown_ms matches Some(t) && t > FOCUS_GRACE_MS)),
{
    if activated {
        return true;
    }
    match shown_ms {
        Some(t) => t > FOCUS_GRACE_MS,
        None => false,
    }
}

} // verus!
