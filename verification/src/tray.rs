//! The tray icon's one-line summary.
use vstd::prelude::*;
use crate::level::Level;
use crate::monitor::{ChannelState, Snapshot, StateView, state_views};
use crate::report::{join_seq, join_with, push_whole, whole_text};
use crate::text::{push_str, text_eq, views};

verus! {

/// The mark of a level in the summary.
pub open spec fn mark_text(level: Level) -> Seq<char> {
    match level {
        Level::Good => "√"@,
        Level::Warn => "!"@,
        Level::Bad => "×"@,
        Level::Off => "○"@,
        Level::Unknown => "…"@,
    }
}

/// The short name of a channel in the summary.
pub open spec fn short_name(key: Seq<char>) -> Seq<char> {
    if key == "clash"@ {
        "外网"@
    } else if key == "vpn"@ {
        "内网"@
    } else {
        "国内"@
    }
}

/// One channel in the summary: name, mark and latency.
pub open spec fn tooltip_part(c: StateView) -> Seq<char> {
    short_name(c.key) + " "@ + mark_text(c.level) + " "@ + match c.latency_ms {
        Some(v) => whole_text(v as int) + "ms"@,
        None => "—"@,
    }
}

/// The summary shown when the pointer rests on the icon.
pub open spec fn tooltip_view(chs: Seq<StateView>) -> Seq<char> {
    join_seq(chs.map_values(|c: StateView| tooltip_part(c)), " · "@)
}

fn part_of(c: &ChannelState) -> (r: String)
    ensures
        r@ == tooltip_part(c@),
{
    let short = if text_eq(c.key.as_str(), "clash") {
        "外网"
    } else if text_eq(c.key.as_str(), "vpn") {
        "内网"
    } else {
        "国内"
    };
    let mark = match c.level {
        Level::Good => "√",
        Level::Warn => "!",
        Level::Bad => "×",
        Level::Off => "○",
        Level::Unknown => "…",
    };
    let mut r = short.to_owned();
    push_str(&mut r, " ");
    push_str(&mut r, mark);
    push_str(&mut r, " ");
    match c.latency_ms {
        Some(v) => {
            push_whole(&mut r, v);
            push_str(&mut r, "ms");
        },
        None => push_str(&mut r, "—"),
    }
    r
}

pub fn tooltip_text(snapshot: &Snapshot) -> (r: String)
    ensures
        r@ == tooltip_view(snapshot@.channels),
{
    let ghost chs = snapshot@.channels;
    let ghost want = chs.map_values(|c: StateView| tooltip_part(c));
    let mut parts: Vec<String> = Vec::new();
    let mut i: usize = 0;
    assert(views(parts@) =~= want.take(0));
    while i < snapshot.channels.len()
        invariant
            i <= snapshot.channels.len(),
            chs == snapshot@.channels,
            want == chs.map_values(|c: StateView| tooltip_part(c)),
            views(parts@) == want.take(i as int),
        decreases snapshot.channels.len() - i,
    {
        assert(chs[i as int] == snapshot.channels@[i as int]@);
        let part = part_of(&snapshot.channels[i]);
        let ghost before = views(parts@);
        parts.push(part);
        assert(views(parts@) =~= before.push(tooltip_part(chs[i as int])));
        assert(want.take(i + 1) =~= want.take(i as int).push(tooltip_part(chs[i as int])));
        i += 1;
    }
    assert(want.take(i as int) =~= want);
    join_with(&parts, " · ")
}

} // verus!
