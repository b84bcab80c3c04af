use vstd::prelude::*;

verus! {

/// Health of one channel, from the best to the worst case.
#[derive(Clone, Copy, Debug, PartialEq, Eq)]
pub enum Level {
    Good,
    Warn,
    Bad,
    Off,
    Unknown,
}

impl Level {
    /// Rank used to pick the worst channel.
    pub open spec fn spec_severity(self) -> u8 {
        match self {
            Level::Unknown => 0,
            Level::Good => 1,
            Level::Off => 2,
            Level::Warn => 3,
            Level::Bad => 4,
        }
    }

    /// The machine-readable name used in reports.
    pub open spec fn key_text(self) -> Seq<char> {
        match self {
            Level::Good => "good"@,
            Level::Warn => "warn"@,
            Level::Bad => "bad"@,
            Level::Off => "off"@,
            Level::Unknown => "unknown"@,
        }
    }

    /// The label shown to people.
    pub open spec fn label_text(self) -> Seq<char> {
        match self {
            Level::Good => "正常"@,
            Level::Warn => "偏慢"@,
            Level::Bad => "不通"@,
            Level::Off => "未连接"@,
            Level::Unknown => "未知"@,
        }
    }

    pub fn key(self) -> (r: &'static str)
        ensures
            r@ == self.key_text(),
    {
        match self {
            Level::Good => "good",
            Level::Warn => "warn",
            Level::Bad => "bad",
            Level::Off => "off",
            Level::Unknown => "unknown",
        }
    }

    pub fn text(self) -> (r: &'static str)
        ensures
            r@ == self.label_text(),
    {
        match self {
            Level::Good => "正常",
            Level::Warn => "偏慢",
            Level::Bad => "不通",
            Level::Off => "未连接",
            Level::Unknown => "未知",
        }
    }

    pub fn severity(self) -> (r: u8)
        ensures
            r == self.spec_severity(),
    {
        match self {
            Level::Unknown => 0,
            Level::Good => 1,
            Level::Off => 2,
            Level::Warn => 3,
            Level::Bad => 4,
        }
    }
}


/// The level of a measured latency: good up to `good_ms`, slow up to
/// `warn_ms`, bad beyond. All three in thousandths of a millisecond.
pub open spec fn level_for(latency_ms: int, good_ms: int, warn_ms: int) -> Level {
    if latency_ms <= good_ms {
        Level::Good
    } else if latency_ms <= warn_ms {
        Level::Warn
    } else {
        Level::Bad
    }
}

pub fn level_of(latency_ms: i64, good_ms: i64, warn_ms: i64) -> (r: Level)
    ensures
        r == level_for(latency_ms as int, good_ms as int, warn_ms as int),
{
    if latency_ms <= good_ms {
        Level::Good
    } else if latency_ms <= warn_ms {
        Level::Warn
    } else {
        Level::Bad
    }
}

/// The status line of a channel at a level.
pub open spec fn status_text_of(level: Level) -> Seq<char> {
    match level {
        Level::Good => "正常"@,
        Level::Warn => "偏慢"@,
        Level::Bad => "很慢"@,
        Level::Off => "未连接"@,
        Level::Unknown => "未知"@,
    }
}

pub fn status_of(level: Level) -> (r: &'static str)
    ensures
        r@ == status_text_of(level),
{
    match level {
        Level::Good => "正常",
        Level::Warn => "偏慢",
        Level::Bad => "很慢",
        Level::Off => "未连接",
        Level::Unknown => "未知",
    }
}

/// The tag printed by the self-test.
pub fn level_tag(level: Level) -> (r: &'static str)
    ensures
        r@ == level.label_text(),
{
    match level {
        Level::Good => "正常",
        Level::Warn => "偏慢",
        Level::Bad => "不通",
        Level::Off => "未连接",
        Level::Unknown => "未知",
    }
}

} // verus!
