//! Log levels, and the lines that a log is made of.

use vstd::prelude::*;
use vstd::string::*;

verus! {

/// How important a log record is, the most important first.
#[derive(Clone, Copy, Debug, PartialEq, Eq, Structural)]
pub enum LogLevel {
    Error,
    Warn,
    Info,
    Debug,
    Trace,
}

/// Which records are let through: none, or those up to a level.
#[derive(Clone, Copy, Debug, PartialEq, Eq, Structural)]
pub enum LogLevelFilter {
    Off,
    Error,
    Warn,
    Info,
    Debug,
    Trace,
}

impl LogLevel {
    /// The place of the level in the order of levels: less important is greater.
    pub open spec fn rank_spec(self) -> nat {
        match self {
            LogLevel::Error => 1,
            LogLevel::Warn => 2,
            LogLevel::Info => 3,
            LogLevel::Debug => 4,
            LogLevel::Trace => 5,
        }
    }

    fn rank(self) -> (r: usize)
        ensures
            r == self.rank_spec(),
    {
        match self {
            LogLevel::Error => 1,
            LogLevel::Warn => 2,
            LogLevel::Info => 3,
            LogLevel::Debug => 4,
            LogLevel::Trace => 5,
        }
    }

    /// The filter that lets this level and the more important ones through.
    pub fn to_log_level_filter(self) -> (r: LogLevelFilter)
        ensures
            r.rank_spec() == self.rank_spec(),
    {
        match self {
            LogLevel::Error => LogLevelFilter::Error,
            LogLevel::Warn => LogLevelFilter::Warn,
            LogLevel::Info => LogLevelFilter::Info,
            LogLevel::Debug => LogLevelFilter::Debug,
            LogLevel::Trace => LogLevelFilter::Trace,
        }
    }
}

impl LogLevelFilter {
    /// The rank of the least important level that is let through; no level has rank zero.
    pub open spec fn rank_spec(self) -> nat {
        match self {
            LogLevelFilter::Off => 0,
            LogLevelFilter::Error => 1,
            LogLevelFilter::Warn => 2,
            LogLevelFilter::Info => 3,
            LogLevelFilter::Debug => 4,
            LogLevelFilter::Trace => 5,
        }
    }

    /// Whether records of a level are let through.
    pub open spec fn allows(self, level: LogLevel) -> bool {
        level.rank_spec() <= self.rank_spec()
    }
}

/// The letter that stands for a level in a log line.
pub open spec fn severity_spec(level: LogLevel) -> &'static str {
    match level {
        LogLevel::Trace => "T",
        LogLevel::Debug => "D",
        LogLevel::Info => "I",
        LogLevel::Warn => "W",
        LogLevel::Error => "E",
    }
}

/// The letter that stands for a level in a log line.
pub fn severity(level: LogLevel) -> (r: &'static str)
    ensures
        r@ == severity_spec(level)@,
{
    match level {
        LogLevel::Trace => "T",
        LogLevel::Debug => "D",
        LogLevel::Info => "I",
        LogLevel::Warn => "W",
        LogLevel::Error => "E",
    }
}

/// The level that a verbosity stands for.
pub open spec fn level_of(v: nat) -> LogLevel {
    if v == 0 {
        LogLevel::Error
    } else if v == 1 {
        LogLevel::Warn
    } else if v == 2 {
        LogLevel::Info
    } else if v == 3 {
        LogLevel::Debug
    } else {
        LogLevel::Trace
    }
}

/// The level that a verbosity stands for: errors only at zero, everything from four on.
pub fn from_usize(v: usize) -> (r: LogLevel)
    ensures
        r == level_of(v as nat),
{
    match v {
        0 => LogLevel::Error,
        1 => LogLevel::Warn,
        2 => LogLevel::Info,
        3 => LogLevel::Debug,
        _ => LogLevel::Trace,
    }
}

/// The name of a thread in a log line: eight characters, cut off or filled up with blanks.
pub open spec fn thread_column(name: Seq<char>) -> Seq<char> {
    if name.len() >= 8 {
        name.take(8)
    } else {
        name + Seq::new((8 - name.len()) as nat, |i: int| ' ')
    }
}

/// What stands for the name of a thread that has none.
pub open spec fn thread_name(name: Option<Seq<char>>) -> Seq<char> {
    match name {
        Some(name) => name,
        None => "<unnamed>"@,
    }
}

/// A log line.
pub open spec fn line_spec(
    level: LogLevel,
    now: Seq<char>,
    thread: Option<Seq<char>>,
    message: Seq<char>,
) -> Seq<char> {
    severity_spec(level)@ + ", "@ + now + " -- "@ + thread_column(thread_name(thread)) + " : "@
        + message
}

fn append_thread_column(line: &mut String, name: &str)
    ensures
        final(line)@ == old(line)@ + thread_column(name@),
{
    let len = name.unicode_len();
    if len >= 8 {
        line.append(name.substring_char(0, 8));
        assert(name@.subrange(0, 8) =~= name@.take(8));
    } else {
        line.append(name);
        let ghost start = old(line)@ + name@;
        let mut i: usize = len;
        assert(line@ =~= start + Seq::new(0, |i: int| ' '));
        while i < 8
            invariant
                len <= i <= 8,
                line@ == start + Seq::new((i - len) as nat, |i: int| ' '),
            decreases 8 - i,
        {
            proof {
                reveal_strlit(" ");
            }
            line.append(" ");
            i = i + 1;
            assert(line@ =~= start + Seq::new((i - len) as nat, |i: int| ' '));
        }
        assert(line@ =~= old(line)@ + thread_column(name@));
    }
}

/// Writes records up to a level.
#[derive(Clone, Copy, Debug, PartialEq, Eq, Structural)]
pub struct Logger {
    pub level: LogLevel,
}

impl Logger {
    /// A logger that writes records up to `level`.
    pub fn new(level: LogLevel) -> (r: Logger)
        ensures
            r == (Logger { level }),
    {
        Logger { level }
    }

    /// Whether records of a level are written.
    pub open spec fn enabled_spec(self, level: LogLevel) -> bool {
        level.rank_spec() <= self.level.rank_spec()
    }

    /// Whether records of a level are written.
    pub fn enabled(&self, level: LogLevel) -> (r: bool)
        ensures
            r == self.enabled_spec(level),
    {
        level.rank() <= self.level.rank()
    }

    /// The line to write for a record, if it is to be written. `now` is the time of the
    /// record and `thread` is the name of the thread that it comes from.
    pub fn log(&self, level: LogLevel, now: &str, thread: Option<&str>, message: &str) -> (r:
        Option<String>)
        ensures
            match r {
                Some(line) => self.enabled_spec(level) && line@ == line_spec(
                    level,
                    now@,
                    match thread {
                        Some(name) => Some(name@),
                        None => None,
                    },
                    message@,
                ),
                None => !self.enabled_spec(level),
            },
    {
        if self.enabled(level) {
            let mut line = severity(level).to_owned();
            line.append(", ");
            line.append(now);
            line.append(" -- ");
            match thread {
                Some(name) => append_thread_column(&mut line, name),
                None => append_thread_column(&mut line, "<unnamed>"),
            }
            line.append(" : ");
            line.append(message);
            Some(line)
        } else {
            None
        }
    }
}

/// What has to be installed as the log of the program.
#[derive(Clone, Copy, Debug, PartialEq, Eq, Structural)]
pub struct Installation {
    /// What is dropped before it reaches the logger.
    pub max: LogLevelFilter,
    pub logger: Logger,
}

/// What has to be installed to have records up to `level` written.
pub fn init(level: LogLevel) -> (r: Installation)
    ensures
        r.max.rank_spec() == level.rank_spec(),
        r.logger == (Logger { level }),
{
    Installation { max: level.to_log_level_filter(), logger: Logger::new(level) }
}

/// A higher verbosity never hides a record that a lower one shows.
pub proof fn law_verbosity_is_monotone(v: nat, w: nat, level: LogLevel)
    requires
        v <= w,
        (Logger { level: level_of(v) }).enabled_spec(level),
    ensures
        (Logger { level: level_of(w) }).enabled_spec(level),
{
}

/// The filter that is installed lets exactly those records through that the logger writes.
pub proof fn law_filter_agrees_with_logger(installed: Installation, level: LogLevel)
    requires
        installed.max.rank_spec() == installed.logger.level.rank_spec(),
    ensures
        installed.max.allows(level) == installed.logger.enabled_spec(level),
{
}

/// Different levels have different letters.
pub proof fn law_severity_tells_levels_apart(a: LogLevel, b: LogLevel)
    requires
        severity_spec(a)@ == severity_spec(b)@,
    ensures
        a == b,
{
    reveal_strlit("T");
    reveal_strlit("D");
    reveal_strlit("I");
    reveal_strlit("W");
    reveal_strlit("E");
    assert("T"@[0] == 'T');
    assert("D"@[0] == 'D');
    assert("I"@[0] == 'I');
    assert("W"@[0] == 'W');
    assert("E"@[0] == 'E');
}

/// Every log line has the name of its thread in a column of eight characters.
pub proof fn law_thread_column_is_eight_wide(name: Seq<char>)
    ensures
        thread_column(name).len() == 8,
{
}

/// Levels are ordered from errors to traces, and filters likewise, with one below all levels that
/// lets nothing through.
pub proof fn law_levels_are_ordered(level: LogLevel)
    ensures
        LogLevel::Error.rank_spec() == 1,
        LogLevel::Warn.rank_spec() == 2,
        LogLevel::Info.rank_spec() == 3,
        LogLevel::Debug.rank_spec() == 4,
        LogLevel::Trace.rank_spec() == 5,
        LogLevelFilter::Off.rank_spec() == 0,
        LogLevelFilter::Error.rank_spec() == 1,
        LogLevelFilter::Warn.rank_spec() == 2,
        LogLevelFilter::Info.rank_spec() == 3,
        LogLevelFilter::Debug.rank_spec() == 4,
        LogLevelFilter::Trace.rank_spec() == 5,
        !LogLevelFilter::Off.allows(level),
{
}

/// A logger writes the records of its level and of the more important ones, and no others.
pub proof fn law_logger_writes_up_to_its_level(logger: Logger, level: LogLevel)
    ensures
        logger.enabled_spec(level) <==> level.rank_spec() <= logger.level.rank_spec(),
        logger.enabled_spec(LogLevel::Error),
        logger.enabled_spec(logger.level),
        logger.level is Error && !(level is Error) ==> !logger.enabled_spec(level),
        logger.level is Trace ==> logger.enabled_spec(level),
{
}

/// Each verbosity shows one level more, from errors at zero to everything at four and above.
pub proof fn law_verbosity_adds_a_level(v: nat)
    ensures
        v <= 4 ==> level_of(v).rank_spec() == v + 1,
        v > 4 ==> level_of(v).rank_spec() == 5,
{
}

/// A level is told by the first letter of its name.
pub proof fn law_severity_is_the_first_letter()
    ensures
        severity_spec(LogLevel::Error)@ == "E"@,
        severity_spec(LogLevel::Warn)@ == "W"@,
        severity_spec(LogLevel::Info)@ == "I"@,
        severity_spec(LogLevel::Debug)@ == "D"@,
        severity_spec(LogLevel::Trace)@ == "T"@,
{
}

/// The name of a thread stands at the left of its column, cut off or followed by blanks; a thread
/// without a name is called unnamed.
pub proof fn law_thread_column_shows_the_name(name: Seq<char>, i: int)
    ensures
        0 <= i < 8 && i < name.len() ==> thread_column(name)[i] == name[i],
        name.len() <= i < 8 ==> thread_column(name)[i] == ' ',
        thread_column(name).len() == 8,
        thread_name(Some(name)) == name,
        thread_name(None) == "<unnamed>"@,
{
}

/// A line tells the level, the time, the thread and the message, in this order.
pub proof fn law_line_tells_the_record(
    level: LogLevel,
    now: Seq<char>,
    thread: Option<Seq<char>>,
    message: Seq<char>,
)
    ensures
        line_spec(level, now, thread, message) == severity_spec(level)@ + (", "@ + now + (" -- "@
            + thread_column(thread_name(thread)) + (" : "@ + message))),
{
    assert(line_spec(level, now, thread, message) =~= severity_spec(level)@ + (", "@ + now + (
    " -- "@ + thread_column(thread_name(thread)) + (" : "@ + message))));
}

} // verus!
