//! Log severity levels.
use vstd::prelude::*;

verus! {

/// Severity of a log message, from the least to the most severe.
#[derive(Clone, Copy, Debug, PartialEq, Eq)]
pub enum Level {
    Debug,
    Info,
    Warn,
    Error,
}

/// Position of a level in the order of severity.
pub open spec fn severity(l: Level) -> int {
    match l {
        Level::Debug => 0,
        Level::Info => 1,
        Level::Warn => 2,
        Level::Error => 3,
    }
}

impl Level {
    /// Position of the level in the order of severity.
    pub fn severity(&self) -> (r: u8)
        ensures
            r == severity(*self),
    {
        match self {
            Level::Debug => 0,
            Level::Info => 1,
            Level::Warn => 2,
            Level::Error => 3,
        }
    }

    /// Whether this level is less severe than `other`.
    pub fn is_below(&self, other: &Level) -> (r: bool)
        ensures
            r == (severity(*self) < severity(*other)),
    {
        self.severity() < other.severity()
    }

    /// The label a log line carries for this level.
    pub fn as_str(&self) -> (r: &'static str)
        ensures
            r@ == level_label(*self),
    {
        match self {
            Level::Debug => "DEBUG",
            Level::Info => "INFO",
            Level::Warn => "WARN",
            Level::Error => "ERROR",
        }
    }
}

/// The label of each level.
pub open spec fn level_label(l: Level) -> Seq<char> {
    match l {
        Level::Debug => "DEBUG"@,
        Level::Info => "INFO"@,
        Level::Warn => "WARN"@,
        Level::Error => "ERROR"@,
    }
}

/// Whether a message of level `level` is logged when the threshold is
/// `threshold`: messages below the threshold are dropped.
pub fn should_log(level: Level, threshold: Level) -> (r: bool)
    ensures
        r == (severity(level) >= severity(threshold)),
        r == (level == threshold || level == Level::Error || threshold == Level::Debug || (level
            == Level::Warn && threshold == Level::Info)),
{
    !level.is_below(&threshold)
}

/// Filtering keeps the more severe messages: whenever a level is logged,
/// every more severe level is logged too.
pub proof fn lemma_more_severe_logged(level: Level, more: Level, threshold: Level)
    requires
        severity(level) >= severity(threshold),
        severity(more) >= severity(level),
    ensures
        severity(more) >= severity(threshold),
{
}

/// The levels rank Debug, Info, Warn, Error, from the least to the most
/// severe: each is strictly more severe than the one before it. So with a
/// threshold, exactly that level and the ones after it are logged: under
/// the default Info threshold, info, warning and error messages are
/// logged and debug messages are dropped.
pub proof fn lemma_severity_order(level: Level)
    ensures
        severity(Level::Debug) < severity(Level::Info),
        severity(Level::Info) < severity(Level::Warn),
        severity(Level::Warn) < severity(Level::Error),
        (severity(level) >= severity(Level::Info)) <==> level != Level::Debug,
        (severity(level) >= severity(Level::Warn)) <==> (level == Level::Warn || level
            == Level::Error),
        (severity(level) >= severity(Level::Error)) <==> level == Level::Error,
        severity(level) >= severity(Level::Debug),
{
}

} // verus!
