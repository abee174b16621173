//! Logging that can be turned up and down while the service runs.
//!
//! Two settings are kept side by side: the level above which a record is dropped, and
//! which of the "started/stopped speaking" transitions are worth a line. A lone
//! participant's own mic check is the loudest and least useful source of those, so the
//! second is split by whether the room had anyone else to mix against.

use crate::calendar;
use crate::calendar::civil_from_days;
use crate::text;
use crate::text::{push_padded, quoted, same_text};
use vstd::prelude::*;

verus! {

/// The most verbose records that are let through.
#[derive(Clone, Copy, Debug, PartialEq, Eq, Structural)]
pub enum LevelFilter {
    Off,
    Error,
    Warn,
    Info,
    Debug,
    Trace,
}

/// How verbose one record is.
#[derive(Clone, Copy, Debug, PartialEq, Eq, Structural)]
pub enum Level {
    Error,
    Warn,
    Info,
    Debug,
    Trace,
}

/// Which speaking transitions are logged.
#[derive(Clone, Copy, Debug, PartialEq, Eq, Structural)]
pub enum MicLogMode {
    Off,
    MixedOnly,
    SoloOnly,
    All,
}

/// The two settings, each as its code.
pub struct LogControl {
    level: u8,
    mic: u8,
}

// ---- codes and names ----

pub open spec fn filter_code(l: LevelFilter) -> u8 {
    match l {
        LevelFilter::Off => 0,
        LevelFilter::Error => 1,
        LevelFilter::Warn => 2,
        LevelFilter::Info => 3,
        LevelFilter::Debug => 4,
        LevelFilter::Trace => 5,
    }
}

pub open spec fn filter_of_code(v: u8) -> LevelFilter {
    match v {
        0 => LevelFilter::Off,
        1 => LevelFilter::Error,
        2 => LevelFilter::Warn,
        3 => LevelFilter::Info,
        4 => LevelFilter::Debug,
        _ => LevelFilter::Trace,
    }
}

pub open spec fn filter_name(l: LevelFilter) -> Seq<char> {
    match l {
        LevelFilter::Off => "off"@,
        LevelFilter::Error => "error"@,
        LevelFilter::Warn => "warn"@,
        LevelFilter::Info => "info"@,
        LevelFilter::Debug => "debug"@,
        LevelFilter::Trace => "trace"@,
    }
}

/// The filter that a text names, in whatever case.
pub open spec fn filter_named(s: Seq<char>) -> Option<LevelFilter> {
    let name = text::lower(s);
    if name == "off"@ {
        Some(LevelFilter::Off)
    } else if name == "error"@ {
        Some(LevelFilter::Error)
    } else if name == "warn"@ {
        Some(LevelFilter::Warn)
    } else if name == "info"@ {
        Some(LevelFilter::Info)
    } else if name == "debug"@ {
        Some(LevelFilter::Debug)
    } else if name == "trace"@ {
        Some(LevelFilter::Trace)
    } else {
        None
    }
}

/// The words that refuse a text that names no level.
pub open spec fn level_error(s: Seq<char>) -> Seq<char> {
    "unknown level "@ + text::debug_form(text::lower(s))
        + ": expected off|error|warn|info|debug|trace"@
}

pub open spec fn mic_code(m: MicLogMode) -> u8 {
    match m {
        MicLogMode::Off => 0,
        MicLogMode::MixedOnly => 1,
        MicLogMode::SoloOnly => 2,
        MicLogMode::All => 3,
    }
}

pub open spec fn mic_of_code(v: u8) -> MicLogMode {
    match v {
        0 => MicLogMode::Off,
        1 => MicLogMode::MixedOnly,
        2 => MicLogMode::SoloOnly,
        _ => MicLogMode::All,
    }
}

pub open spec fn mic_name(m: MicLogMode) -> Seq<char> {
    match m {
        MicLogMode::Off => "off"@,
        MicLogMode::MixedOnly => "mixed"@,
        MicLogMode::SoloOnly => "solo"@,
        MicLogMode::All => "all"@,
    }
}

/// The mode that a text names, in whatever case.
pub open spec fn mic_named(s: Seq<char>) -> Option<MicLogMode> {
    let name = text::lower(s);
    if name == "off"@ {
        Some(MicLogMode::Off)
    } else if name == "mixed"@ {
        Some(MicLogMode::MixedOnly)
    } else if name == "solo"@ {
        Some(MicLogMode::SoloOnly)
    } else if name == "all"@ {
        Some(MicLogMode::All)
    } else {
        None
    }
}

/// The words that refuse a text that names no mode.
pub open spec fn mic_error(s: Seq<char>) -> Seq<char> {
    "unknown mic-log mode "@ + text::debug_form(text::lower(s))
        + ": expected off|mixed|solo|all"@
}

impl MicLogMode {
    /// The mode of a code; codes above the last mean `All`.
    pub fn from_u8(v: u8) -> (r: Self)
        ensures
            r == mic_of_code(v),
    {
        match v {
            0 => MicLogMode::Off,
            1 => MicLogMode::MixedOnly,
            2 => MicLogMode::SoloOnly,
            _ => MicLogMode::All,
        }
    }

    /// The code of a mode.
    pub fn code(self) -> (r: u8)
        ensures
            r == mic_code(self),
    {
        match self {
            MicLogMode::Off => 0,
            MicLogMode::MixedOnly => 1,
            MicLogMode::SoloOnly => 2,
            MicLogMode::All => 3,
        }
    }

    /// The name of a mode.
    pub fn name(self) -> (r: &'static str)
        ensures
            r@ == mic_name(self),
    {
        match self {
            MicLogMode::Off => "off",
            MicLogMode::MixedOnly => "mixed",
            MicLogMode::SoloOnly => "solo",
            MicLogMode::All => "all",
        }
    }
}

/// The filter of a code; codes above the last mean `Trace`.
pub fn level_filter_from_u8(v: u8) -> (r: LevelFilter)
    ensures
        r == filter_of_code(v),
{
    match v {
        0 => LevelFilter::Off,
        1 => LevelFilter::Error,
        2 => LevelFilter::Warn,
        3 => LevelFilter::Info,
        4 => LevelFilter::Debug,
        _ => LevelFilter::Trace,
    }
}

/// The code of a filter.
pub fn level_code(l: LevelFilter) -> (r: u8)
    ensures
        r == filter_code(l),
{
    match l {
        LevelFilter::Off => 0,
        LevelFilter::Error => 1,
        LevelFilter::Warn => 2,
        LevelFilter::Info => 3,
        LevelFilter::Debug => 4,
        LevelFilter::Trace => 5,
    }
}

/// The name of a filter.
pub fn level_name(l: LevelFilter) -> (r: &'static str)
    ensures
        r@ == filter_name(l),
{
    match l {
        LevelFilter::Off => "off",
        LevelFilter::Error => "error",
        LevelFilter::Warn => "warn",
        LevelFilter::Info => "info",
        LevelFilter::Debug => "debug",
        LevelFilter::Trace => "trace",
    }
}

/// Reads the name of a level, in whatever case.
pub fn parse_level(s: &str) -> (r: Result<LevelFilter, String>)
    ensures
        r is Ok <==> filter_named(s@) is Some,
        r matches Ok(l) ==> filter_named(s@) == Some(l),
        r matches Err(e) ==> e@ == level_error(s@),
{
    let name = s.to_ascii_lowercase();
    let name = name.as_str();
    if same_text(name, "off") {
        Ok(LevelFilter::Off)
    } else if same_text(name, "error") {
        Ok(LevelFilter::Error)
    } else if same_text(name, "warn") {
        Ok(LevelFilter::Warn)
    } else if same_text(name, "info") {
        Ok(LevelFilter::Info)
    } else if same_text(name, "debug") {
        Ok(LevelFilter::Debug)
    } else if same_text(name, "trace") {
        Ok(LevelFilter::Trace)
    } else {
        let mut e = "unknown level ".to_owned();
        e.append(quoted(name).as_str());
        e.append(": expected off|error|warn|info|debug|trace");
        Err(e)
    }
}

/// Reads the name of a mic-log mode, in whatever case.
pub fn parse_mic_mode(s: &str) -> (r: Result<MicLogMode, String>)
    ensures
        r is Ok <==> mic_named(s@) is Some,
        r matches Ok(m) ==> mic_named(s@) == Some(m),
        r matches Err(e) ==> e@ == mic_error(s@),
{
    let name = s.to_ascii_lowercase();
    let name = name.as_str();
    if same_text(name, "off") {
        Ok(MicLogMode::Off)
    } else if same_text(name, "mixed") {
        Ok(MicLogMode::MixedOnly)
    } else if same_text(name, "solo") {
        Ok(MicLogMode::SoloOnly)
    } else if same_text(name, "all") {
        Ok(MicLogMode::All)
    } else {
        let mut e = "unknown mic-log mode ".to_owned();
        e.append(quoted(name).as_str());
        e.append(": expected off|mixed|solo|all");
        Err(e)
    }
}

// ---- the settings ----

impl LogControl {
    /// The level in force.
    pub closed spec fn filter(&self) -> LevelFilter {
        filter_of_code(self.level)
    }

    /// The mic-log mode in force.
    pub closed spec fn mic_mode(&self) -> MicLogMode {
        mic_of_code(self.mic)
    }

    /// The settings that the service starts with: errors only, and the transitions of
    /// rooms with more than one member. Noise is opt-in.
    pub fn new() -> (r: Self)
        ensures
            r.filter() == LevelFilter::Error,
            r.mic_mode() == MicLogMode::MixedOnly,
    {
        LogControl { level: level_code(LevelFilter::Error), mic: MicLogMode::MixedOnly.code() }
    }
}

/// Sets the level by its name and hands back the name, or leaves the settings as they
/// are where the text names no level.
pub fn set_level(ctl: &mut LogControl, s: &str) -> (r: Result<&'static str, String>)
    ensures
        final(ctl).mic_mode() == old(ctl).mic_mode(),
        match filter_named(s@) {
            Some(l) => final(ctl).filter() == l && r is Ok && r->Ok_0@ == filter_name(l),
            None => final(ctl).filter() == old(ctl).filter() && r is Err && r->Err_0@
                == level_error(s@),
        },
{
    match parse_level(s) {
        Ok(l) => {
            ctl.level = level_code(l);
            Ok(level_name(l))
        },
        Err(e) => Err(e),
    }
}

/// The name of the level in force.
pub fn get_level(ctl: &LogControl) -> (r: &'static str)
    ensures
        r@ == filter_name(ctl.filter()),
{
    level_name(level_filter_from_u8(ctl.level))
}

/// Sets the mic-log mode by its name and hands back the name, or leaves the settings as
/// they are where the text names no mode.
pub fn set_mic_mode(ctl: &mut LogControl, s: &str) -> (r: Result<&'static str, String>)
    ensures
        final(ctl).filter() == old(ctl).filter(),
        match mic_named(s@) {
            Some(m) => final(ctl).mic_mode() == m && r is Ok && r->Ok_0@ == mic_name(m),
            None => final(ctl).mic_mode() == old(ctl).mic_mode() && r is Err && r->Err_0@
                == mic_error(s@),
        },
{
    match parse_mic_mode(s) {
        Ok(m) => {
            ctl.mic = m.code();
            Ok(m.name())
        },
        Err(e) => Err(e),
    }
}

/// The name of the mic-log mode in force.
pub fn get_mic_mode(ctl: &LogControl) -> (r: &'static str)
    ensures
        r@ == mic_name(ctl.mic_mode()),
{
    MicLogMode::from_u8(ctl.mic).name()
}

/// Whether a mode lets a speaking transition through, given whether the room had another
/// member to mix against.
pub open spec fn mic_allowed(m: MicLogMode, mixed: bool) -> bool {
    match m {
        MicLogMode::Off => false,
        MicLogMode::MixedOnly => mixed,
        MicLogMode::SoloOnly => !mixed,
        MicLogMode::All => true,
    }
}

/// Whether a speaking transition is to be logged, given whether the room had another
/// member to mix against.
pub fn mic_log_allowed(ctl: &LogControl, mixed: bool) -> (r: bool)
    ensures
        r == mic_allowed(ctl.mic_mode(), mixed),
{
    match MicLogMode::from_u8(ctl.mic) {
        MicLogMode::Off => false,
        MicLogMode::MixedOnly => mixed,
        MicLogMode::SoloOnly => !mixed,
        MicLogMode::All => true,
    }
}

// ---- records ----

pub open spec fn level_rank(l: Level) -> u8 {
    match l {
        Level::Error => 1,
        Level::Warn => 2,
        Level::Info => 3,
        Level::Debug => 4,
        Level::Trace => 5,
    }
}

/// The name of a level, filled up with blanks to five columns.
pub open spec fn level_column(l: Level) -> Seq<char> {
    match l {
        Level::Error => "ERROR"@,
        Level::Warn => "WARN "@,
        Level::Info => "INFO "@,
        Level::Debug => "DEBUG"@,
        Level::Trace => "TRACE"@,
    }
}

/// Whether a record of that level passes the level in force.
pub fn enabled(ctl: &LogControl, level: Level) -> (r: bool)
    ensures
        r == (level_rank(level) <= filter_code(ctl.filter())),
{
    let rank: u8 = match level {
        Level::Error => 1,
        Level::Warn => 2,
        Level::Info => 3,
        Level::Debug => 4,
        Level::Trace => 5,
    };
    rank <= level_code(level_filter_from_u8(ctl.level))
}

/// One line of the log: `[<time> <LEVEL> <target>] <message>`.
pub fn log_line(time: &str, level: Level, target: &str, message: &str) -> (r: String)
    ensures
        r@ == "["@ + time@ + " "@ + level_column(level) + " "@ + target@ + "] "@ + message@,
{
    let column = match level {
        Level::Error => "ERROR",
        Level::Warn => "WARN ",
        Level::Info => "INFO ",
        Level::Debug => "DEBUG",
        Level::Trace => "TRACE",
    };
    let mut out = "[".to_owned();
    out.append(time);
    out.append(" ");
    out.append(column);
    out.append(" ");
    out.append(target);
    out.append("] ");
    out.append(message);
    out
}

/// `YYYY-MM-DDTHH:MM:SS.mmmZ`, for a number of seconds after the start of 1970 and the
/// milliseconds past that second.
pub open spec fn timestamp(secs: nat, millis: nat) -> Seq<char> {
    let (y, m, d) = calendar::date_after(secs / 86400);
    let sod = secs % 86400;
    text::padded(y as nat, 4) + "-"@ + text::padded(m as nat, 2) + "-"@
        + text::padded(d as nat, 2) + "T"@ + text::padded(sod / 3600, 2) + ":"@
        + text::padded((sod / 60) % 60, 2) + ":"@ + text::padded(sod % 60, 2) + "."@
        + text::padded(millis, 3) + "Z"@
}

/// The time of a record in UTC. The clock counts its seconds in an `i64`.
pub fn iso_timestamp(secs: u64, millis: u32) -> (r: String)
    requires
        secs <= i64::MAX,
    ensures
        r@ == timestamp(secs as nat, millis as nat),
{
    let sod: u64 = secs % 86400;
    let (y, m, d) = civil_from_days(secs / 86400);
    let mut out = String::new();
    push_padded(&mut out, y, 4);
    out.append("-");
    push_padded(&mut out, m, 2);
    out.append("-");
    push_padded(&mut out, d, 2);
    out.append("T");
    push_padded(&mut out, sod / 3600, 2);
    out.append(":");
    push_padded(&mut out, (sod / 60) % 60, 2);
    out.append(":");
    push_padded(&mut out, sod % 60, 2);
    out.append(".");
    push_padded(&mut out, millis as u64, 3);
    out.append("Z");
    assert(out@ =~= timestamp(secs as nat, millis as nat));
    out
}

// ---- laws ----

/// The name that is handed out for a level names that level again: setting the level to
/// what was read changes nothing.
pub proof fn law_level_name_reads_back(l: LevelFilter)
    ensures
        filter_named(filter_name(l)) == Some(l),
{
    reveal_strlit("off");
    reveal_strlit("error");
    reveal_strlit("warn");
    reveal_strlit("info");
    reveal_strlit("debug");
    reveal_strlit("trace");
    let name = filter_name(l);
    assert(text::lower(name) =~= name);
    assert("warn"@[0] != "info"@[0]);
    assert("error"@[0] != "debug"@[0]);
    assert("error"@[0] != "trace"@[0]);
    assert("debug"@[0] != "trace"@[0]);
}

/// The name that is handed out for a mic-log mode names that mode again.
pub proof fn law_mic_name_reads_back(m: MicLogMode)
    ensures
        mic_named(mic_name(m)) == Some(m),
{
    reveal_strlit("off");
    reveal_strlit("mixed");
    reveal_strlit("solo");
    reveal_strlit("all");
    let name = mic_name(m);
    assert(text::lower(name) =~= name);
    assert("off"@[0] != "all"@[0]);
}

/// Names are read without regard to ASCII case.
pub proof fn law_names_ignore_case(a: Seq<char>, b: Seq<char>)
    requires
        text::lower(a) == text::lower(b),
    ensures
        filter_named(a) == filter_named(b),
        mic_named(a) == mic_named(b),
{
}

/// Up to the year 9999 a timestamp is 24 characters long, with its separators where a
/// reader expects them.
#[verifier::spinoff_prover]
pub proof fn law_timestamp_shape(secs: nat, millis: nat)
    requires
        calendar::date_after(secs / 86400).0 <= 9999,
        millis < 1000,
    ensures
        timestamp(secs, millis).len() == 24,
        timestamp(secs, millis)[4] == '-',
        timestamp(secs, millis)[7] == '-',
        timestamp(secs, millis)[10] == 'T',
        timestamp(secs, millis)[13] == ':',
        timestamp(secs, millis)[16] == ':',
        timestamp(secs, millis)[19] == '.',
        timestamp(secs, millis)[23] == 'Z',
{
    calendar::law_date_is_of_the_calendar(secs / 86400);
    reveal_strlit("-");
    reveal_strlit("T");
    reveal_strlit(":");
    reveal_strlit(".");
    reveal_strlit("Z");
    reveal_with_fuel(text::decimal, 5);
    let (y, m, d) = calendar::date_after(secs / 86400);
    let sod = secs % 86400;
    assert(text::padded(y as nat, 4).len() == 4);
    assert(text::padded(m as nat, 2).len() == 2);
    assert(text::padded(d as nat, 2).len() == 2);
    assert(text::padded(sod / 3600, 2).len() == 2);
    assert(text::padded((sod / 60) % 60, 2).len() == 2);
    assert(text::padded(sod % 60, 2).len() == 2);
    assert(text::padded(millis, 3).len() == 3);
}

/// The instant that a timestamp names, in milliseconds after the start of 1970.
pub open spec fn instant(t: Seq<char>) -> int {
    let days = calendar::days_until(
        text::number(t.subrange(0, 4)) as int,
        text::number(t.subrange(5, 7)) as int,
        text::number(t.subrange(8, 10)) as int,
    );
    let h = text::number(t.subrange(11, 13));
    let m = text::number(t.subrange(14, 16));
    let s = text::number(t.subrange(17, 19));
    (days * 86400 + h * 3600 + m * 60 + s) * 1000 + text::number(t.subrange(20, 23))
}

/// A timestamp reads back to its instant, up to the year 9999.
#[verifier::spinoff_prover]
pub proof fn law_timestamp_reads_back(secs: nat, millis: nat)
    requires
        calendar::date_after(secs / 86400).0 <= 9999,
        millis < 1000,
    ensures
        instant(timestamp(secs, millis)) == secs * 1000 + millis,
{
    calendar::law_date_is_of_the_calendar(secs / 86400);
    calendar::law_date_reads_back(secs / 86400);
    reveal_strlit("-");
    reveal_strlit("T");
    reveal_strlit(":");
    reveal_strlit(".");
    reveal_strlit("Z");
    let (y, m, d) = calendar::date_after(secs / 86400);
    let sod = secs % 86400;
    text::law_numbers_read_back(y as nat, 4);
    text::law_numbers_read_back(m as nat, 2);
    text::law_numbers_read_back(d as nat, 2);
    text::law_numbers_read_back(sod / 3600, 2);
    text::law_numbers_read_back((sod / 60) % 60, 2);
    text::law_numbers_read_back(sod % 60, 2);
    text::law_numbers_read_back(millis, 3);
    let t = timestamp(secs, millis);
    assert(t.subrange(0, 4) =~= text::padded(y as nat, 4));
    assert(t.subrange(5, 7) =~= text::padded(m as nat, 2));
    assert(t.subrange(8, 10) =~= text::padded(d as nat, 2));
    assert(t.subrange(11, 13) =~= text::padded(sod / 3600, 2));
    assert(t.subrange(14, 16) =~= text::padded((sod / 60) % 60, 2));
    assert(t.subrange(17, 19) =~= text::padded(sod % 60, 2));
    assert(t.subrange(20, 23) =~= text::padded(millis, 3));
    assert((sod / 3600) * 3600 + ((sod / 60) % 60) * 60 + sod % 60 == sod);
}

/// Timestamps of one start, whose next numbers are in order, are in order.
proof fn lemma_next_number(
    start: Seq<char>,
    a: nat,
    b: nat,
    width: nat,
    t: Seq<char>,
    u: Seq<char>,
)
    requires
        2 <= width <= 4,
        a < b < text::power10(width),
        start.len() + width <= t.len(),
        start.len() + width <= u.len(),
        t.take((start.len() + width) as int) == start + text::padded(a, width),
        u.take((start.len() + width) as int) == start + text::padded(b, width),
    ensures
        text::precedes(t, u),
{
    let n = (start.len() + width) as int;
    text::law_numbers_are_in_order(a, b, width);
    text::law_numbers_read_back(a, width);
    text::law_numbers_read_back(b, width);
    text::lemma_order_in_place(
        start,
        text::padded(a, width),
        text::padded(b, width),
        t.skip(n),
        u.skip(n),
    );
    assert(t =~= start + text::padded(a, width) + t.skip(n));
    assert(u =~= start + text::padded(b, width) + u.skip(n));
}

/// What a timestamp starts with, up to and with each of its seven numbers, and what
/// follows that number.
spec fn starts(y: nat, m: nat, d: nat, h: nat, mi: nat, s: nat) -> Seq<Seq<char>> {
    let a = Seq::<char>::empty();
    let b = a + text::padded(y, 4) + "-"@;
    let c = b + text::padded(m, 2) + "-"@;
    let e = c + text::padded(d, 2) + "T"@;
    let f = e + text::padded(h, 2) + ":"@;
    let g = f + text::padded(mi, 2) + ":"@;
    let i = g + text::padded(s, 2) + "."@;
    seq![a, b, c, e, f, g, i]
}

#[verifier::spinoff_prover]
proof fn lemma_starts(secs: nat, millis: nat)
    requires
        calendar::date_after(secs / 86400).0 <= 9999,
        millis < 1000,
    ensures
        ({
            let (y, m, d) = calendar::date_after(secs / 86400);
            let sod = secs % 86400;
            let t = timestamp(secs, millis);
            let p = starts(y as nat, m as nat, d as nat, sod / 3600, (sod / 60) % 60, sod % 60);
            &&& t.len() == 24
            &&& p[0].len() == 0 && p[1].len() == 5 && p[2].len() == 8 && p[3].len() == 11
            &&& p[4].len() == 14 && p[5].len() == 17 && p[6].len() == 20
            &&& t.take(4) == p[0] + text::padded(y as nat, 4)
            &&& t.take(7) == p[1] + text::padded(m as nat, 2)
            &&& t.take(10) == p[2] + text::padded(d as nat, 2)
            &&& t.take(13) == p[3] + text::padded(sod / 3600, 2)
            &&& t.take(16) == p[4] + text::padded((sod / 60) % 60, 2)
            &&& t.take(19) == p[5] + text::padded(sod % 60, 2)
            &&& t.take(23) == p[6] + text::padded(millis, 3)
        }),
{
    calendar::law_date_is_of_the_calendar(secs / 86400);
    reveal_strlit("-");
    reveal_strlit("T");
    reveal_strlit(":");
    reveal_strlit(".");
    reveal_strlit("Z");
    let (y, m, d) = calendar::date_after(secs / 86400);
    let sod = secs % 86400;
    text::law_numbers_read_back(y as nat, 4);
    text::law_numbers_read_back(m as nat, 2);
    text::law_numbers_read_back(d as nat, 2);
    text::law_numbers_read_back(sod / 3600, 2);
    text::law_numbers_read_back((sod / 60) % 60, 2);
    text::law_numbers_read_back(sod % 60, 2);
    text::law_numbers_read_back(millis, 3);
    let t = timestamp(secs, millis);
    let p = starts(y as nat, m as nat, d as nat, sod / 3600, (sod / 60) % 60, sod % 60);
    assert(t.take(4) =~= p[0] + text::padded(y as nat, 4));
    assert(t.take(7) =~= p[1] + text::padded(m as nat, 2));
    assert(t.take(10) =~= p[2] + text::padded(d as nat, 2));
    assert(t.take(13) =~= p[3] + text::padded(sod / 3600, 2));
    assert(t.take(16) =~= p[4] + text::padded((sod / 60) % 60, 2));
    assert(t.take(19) =~= p[5] + text::padded(sod % 60, 2));
    assert(t.take(23) =~= p[6] + text::padded(millis, 3));
}

/// The time of day in hours, minutes and seconds is in order.
proof fn lemma_time_of_day(a: nat, b: nat)
    requires
        a <= b < 86400,
    ensures
        b / 3600 < 24,
        (a / 60) % 60 < 60,
        (b / 60) % 60 < 60,
        a / 3600 <= b / 3600,
        a / 3600 == b / 3600 ==> (a / 60) % 60 <= (b / 60) % 60,
        a / 3600 == b / 3600 && (a / 60) % 60 == (b / 60) % 60 ==> a % 60 <= b % 60,
        a / 3600 == b / 3600 && (a / 60) % 60 == (b / 60) % 60 && a % 60 == b % 60 ==> a == b,
{
}

/// Timestamps of different days are in order.
#[verifier::spinoff_prover]
proof fn lemma_days_in_order(secs: nat, millis: nat, secs2: nat, millis2: nat)
    requires
        calendar::date_after(secs / 86400).0 <= 9999,
        calendar::date_after(secs2 / 86400).0 <= 9999,
        millis < 1000,
        millis2 < 1000,
        secs / 86400 < secs2 / 86400,
    ensures
        text::precedes(timestamp(secs, millis), timestamp(secs2, millis2)),
{
    let t = timestamp(secs, millis);
    let u = timestamp(secs2, millis2);
    let (y, m, d) = calendar::date_after(secs / 86400);
    let (y2, m2, d2) = calendar::date_after(secs2 / 86400);
    let sod = secs % 86400;
    let p = starts(y as nat, m as nat, d as nat, sod / 3600, (sod / 60) % 60, sod % 60);
    lemma_starts(secs, millis);
    lemma_starts(secs2, millis2);
    calendar::law_date_is_of_the_calendar(secs / 86400);
    calendar::law_date_is_of_the_calendar(secs2 / 86400);
    calendar::law_dates_are_in_order(secs / 86400, secs2 / 86400);
    if y < y2 {
        lemma_next_number(p[0], y as nat, y2 as nat, 4, t, u);
    } else if m < m2 {
        lemma_next_number(p[1], m as nat, m2 as nat, 2, t, u);
    } else {
        lemma_next_number(p[2], d as nat, d2 as nat, 2, t, u);
    }
}

/// Different timestamps of one day are in order.
#[verifier::spinoff_prover]
proof fn lemma_times_in_order(secs: nat, millis: nat, secs2: nat, millis2: nat)
    requires
        calendar::date_after(secs / 86400).0 <= 9999,
        millis < 1000,
        millis2 < 1000,
        secs / 86400 == secs2 / 86400,
        secs % 86400 < secs2 % 86400 || (secs % 86400 == secs2 % 86400 && millis < millis2),
    ensures
        text::precedes(timestamp(secs, millis), timestamp(secs2, millis2)),
{
    let t = timestamp(secs, millis);
    let u = timestamp(secs2, millis2);
    let (y, m, d) = calendar::date_after(secs / 86400);
    let (sod, sod2) = (secs % 86400, secs2 % 86400);
    let (h, mi, s) = (sod / 3600, (sod / 60) % 60, sod % 60);
    let (h2, mi2, s2) = (sod2 / 3600, (sod2 / 60) % 60, sod2 % 60);
    let p = starts(y as nat, m as nat, d as nat, h, mi, s);
    lemma_starts(secs, millis);
    lemma_starts(secs2, millis2);
    lemma_time_of_day(sod, sod2);
    if h < h2 {
        lemma_next_number(p[3], h, h2, 2, t, u);
    } else if mi < mi2 {
        lemma_next_number(p[4], mi, mi2, 2, t, u);
    } else if s < s2 {
        lemma_next_number(p[5], s, s2, 2, t, u);
    } else {
        lemma_next_number(p[6], millis, millis2, 3, t, u);
    }
}

/// Timestamps order as instants do, up to the year 9999: the text of an earlier instant
/// comes before that of a later one.
pub proof fn law_timestamps_are_in_order(secs: nat, millis: nat, secs2: nat, millis2: nat)
    requires
        calendar::date_after(secs / 86400).0 <= 9999,
        calendar::date_after(secs2 / 86400).0 <= 9999,
        millis < 1000,
        millis2 < 1000,
        secs * 1000 + millis <= secs2 * 1000 + millis2,
    ensures
        timestamp(secs, millis) == timestamp(secs2, millis2) || text::precedes(
            timestamp(secs, millis),
            timestamp(secs2, millis2),
        ),
{
    if secs / 86400 < secs2 / 86400 {
        lemma_days_in_order(secs, millis, secs2, millis2);
    } else if secs != secs2 || millis != millis2 {
        lemma_times_in_order(secs, millis, secs2, millis2);
    }
}

} // verus!
