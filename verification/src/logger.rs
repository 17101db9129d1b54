//! Log lines, log file names and the retention rule of the application log.

use vstd::prelude::*;
use vstd::string::StringExecFns;
use crate::text::{
    has_suffix, joined, pieces, str_ends_with, str_trim_end_matches, texts, trim_suffixes,
};

verus! {

/// Severity of a log line.
#[derive(Clone, Copy, PartialEq, Eq, Debug, Structural)]
pub enum LogLevel {
    Info,
    Error,
    Warn,
}

/// The tag under which a level is written.
pub open spec fn level_text(level: LogLevel) -> Seq<char> {
    match level {
        LogLevel::Info => "INFO"@,
        LogLevel::Error => "ERROR"@,
        LogLevel::Warn => "WARN"@,
    }
}

/// The tag under which a level is written.
pub fn level_name(level: LogLevel) -> (name: &'static str)
    ensures
        name@ == level_text(level),
{
    match level {
        LogLevel::Info => "INFO",
        LogLevel::Error => "ERROR",
        LogLevel::Warn => "WARN",
    }
}

/// One line of the log file: `[timestamp] [LEVEL] message` and a line feed.
pub open spec fn log_line_text(timestamp: Seq<char>, level: LogLevel, message: Seq<char>) -> Seq<char> {
    "["@ + timestamp + "] ["@ + level_text(level) + "] "@ + message + "\n"@
}

/// Whether `line` is the log line of `message` at `level` for some timestamp.
pub open spec fn is_log_line(line: Seq<char>, level: LogLevel, message: Seq<char>) -> bool {
    exists|timestamp: Seq<char>| line == #[trigger] log_line_text(timestamp, level, message)
}

/// The name of the log file of a day: the date and the extension `.log`.
pub open spec fn log_file_name_text(date: Seq<char>) -> Seq<char> {
    date + ".log"@
}

/// The day number of a date written as `%Y-%m-%d`, as
/// `chrono::NaiveDate::parse_from_str` reads it and `Datelike::num_days_from_ce`
/// counts it; nothing where the text is no such date.
pub uninterp spec fn parsed_day_number(text: Seq<char>) -> Option<i32>;

/// `chrono::Local::now` with `DateTime::format`: the local time as text. The
/// two formats admitted are the date and the timestamp of the log; nothing is
/// claimed about the text, which depends on the clock and the time zone.
#[verifier::external_body]
fn local_time_text(format: &str) -> (text: String)
    requires
        format@ == "%Y-%m-%d"@ || format@ == "%Y-%m-%d %H:%M:%S%.3f"@,
{
    chrono::Local::now().format(format).to_string()
}

/// `chrono::NaiveDate::parse_from_str` with the format `%Y-%m-%d`: whether the
/// text is a date is a function of the text alone, and so is the date, handed
/// on as its `num_days_from_ce`.
#[verifier::external_body]
fn parse_day_number(text: &str) -> (day: Option<i32>)
    ensures
        day == parsed_day_number(text@),
{
    match chrono::NaiveDate::parse_from_str(text, "%Y-%m-%d") {
        Ok(date) => Some(chrono::Datelike::num_days_from_ce(&date)),
        Err(_) => None,
    }
}

/// `chrono::Local::now` less `chrono::Duration::days(keep_days)`, as the day
/// number of its local date. Nothing is claimed about the result, which depends
/// on the clock; the bound keeps the subtraction inside chrono's range of dates
/// for every clock between the years 1970 and 10000.
#[verifier::external_body]
fn day_number_days_ago(keep_days: i64) -> (day: i32)
    requires
        -90000000 <= keep_days <= 90000000,
{
    chrono::Datelike::num_days_from_ce(
        &(chrono::Local::now() - chrono::Duration::days(keep_days)).date_naive(),
    )
}

/// Formats one line of the log file.
pub fn format_log_line(timestamp: &str, level: LogLevel, message: &str) -> (line: String)
    ensures
        line@ == log_line_text(timestamp@, level, message@),
{
    let mut line = String::from_str("[");
    line.append(timestamp);
    line.append("] [");
    line.append(level_name(level));
    line.append("] ");
    line.append(message);
    line.append("\n");
    line
}

fn log_now(level: LogLevel, message: &str) -> (line: String)
    ensures
        is_log_line(line@, level, message@),
{
    let timestamp = local_time_text("%Y-%m-%d %H:%M:%S%.3f");
    let line = format_log_line(timestamp.as_str(), level, message);
    assert(line@ == log_line_text(timestamp@, level, message@));
    line
}

/// The line to append to the log for an informational message, stamped with
/// the local time.
pub fn log_info(message: &str) -> (line: String)
    ensures
        is_log_line(line@, LogLevel::Info, message@),
{
    log_now(LogLevel::Info, message)
}

/// The line to append to the log for an error, stamped with the local time.
pub fn log_error(message: &str) -> (line: String)
    ensures
        is_log_line(line@, LogLevel::Error, message@),
{
    log_now(LogLevel::Error, message)
}

/// The line to append to the log for a warning, stamped with the local time.
pub fn log_warn(message: &str) -> (line: String)
    ensures
        is_log_line(line@, LogLevel::Warn, message@),
{
    log_now(LogLevel::Warn, message)
}

/// The name of the log file of the day written as `date`.
pub fn log_file_name(date: &str) -> (name: String)
    ensures
        name@ == log_file_name_text(date@),
{
    let mut name = String::from_str(date);
    name.append(".log");
    name
}

/// The name of today's log file: some date followed by `.log`.
pub fn todays_log_file_name() -> (name: String)
    ensures
        has_suffix(name@, ".log"@),
{
    let date = local_time_text("%Y-%m-%d");
    let name = log_file_name(date.as_str());
    proof {
        assert((date@ + ".log"@).subrange((date@ + ".log"@).len() - ".log"@.len(), (date@ + ".log"@).len() as int)
            =~= ".log"@);
    }
    name
}

/// Whether a log file is past retention: its name ends in `.log`, what stands
/// before the extension is a date, and the date lies before the cutoff day.
pub open spec fn log_expired(name: Seq<char>, cutoff_day: i32) -> bool {
    has_suffix(name, ".log"@) && date_expired(parsed_day_number(trim_suffixes(name, ".log"@)), cutoff_day)
}

/// Whether a parsed date lies before the cutoff day; no date never does.
pub open spec fn date_expired(day: Option<i32>, cutoff_day: i32) -> bool {
    match day {
        Some(day) => day < cutoff_day,
        None => false,
    }
}

/// Decides on a parsed date whether it lies before the cutoff day.
pub fn is_expired_date(day: Option<i32>, cutoff_day: i32) -> (expired: bool)
    ensures
        expired == date_expired(day, cutoff_day),
{
    match day {
        Some(day) => day < cutoff_day,
        None => false,
    }
}

/// Decides whether the log file called `name` is past retention.
pub fn is_expired_log(name: &str, cutoff_day: i32) -> (expired: bool)
    ensures
        expired == log_expired(name@, cutoff_day),
{
    proof {
        reveal_strlit(".log");
    }
    if str_ends_with(name, ".log") {
        let date = str_trim_end_matches(name, ".log");
        is_expired_date(parse_day_number(date), cutoff_day)
    } else {
        false
    }
}

/// The longest retention that [`cleanup_old_logs`] accepts, in days towards the
/// past or, where negative, towards the future.
pub const MAX_KEEP_DAYS: i64 = 90000000;

/// Picks, among the names found in the log directory, the log files that are
/// older than `keep_days` days, in the order in which they were given.
///
/// Every name returned was given and every name given that is past retention is
/// returned, for one cutoff day taken from the clock.
pub fn cleanup_old_logs(names: &Vec<String>, keep_days: i64) -> (expired: Vec<String>)
    requires
        -MAX_KEEP_DAYS <= keep_days <= MAX_KEEP_DAYS,
    ensures
        exists|cutoff_day: i32| texts(expired@) == #[trigger] expired_among(texts(names@), cutoff_day),
{
    let cutoff_day = day_number_days_ago(keep_days);
    let expired = select_expired(names, cutoff_day);
    assert(texts(expired@) == expired_among(texts(names@), cutoff_day));
    expired
}

/// The names that are past retention for the cutoff day, in order.
pub open spec fn expired_among(names: Seq<Seq<char>>, cutoff_day: i32) -> Seq<Seq<char>>
    decreases names.len(),
{
    if names.len() == 0 {
        Seq::empty()
    } else if log_expired(names.last(), cutoff_day) {
        expired_among(names.drop_last(), cutoff_day).push(names.last())
    } else {
        expired_among(names.drop_last(), cutoff_day)
    }
}

/// Picks the names that are past retention for the given cutoff day.
pub fn select_expired(names: &Vec<String>, cutoff_day: i32) -> (expired: Vec<String>)
    ensures
        texts(expired@) == expired_among(texts(names@), cutoff_day),
{
    let ghost all = texts(names@);
    let mut expired: Vec<String> = Vec::new();
    let mut i: usize = 0;
    assert(all.take(0) =~= Seq::<Seq<char>>::empty());
    assert(texts(expired@) =~= expired_among(all.take(0), cutoff_day));
    while i < names.len()
        invariant
            i <= names.len(),
            all == texts(names@),
            texts(expired@) == expired_among(all.take(i as int), cutoff_day),
        decreases names.len() - i,
    {
        let ghost before = texts(expired@);
        proof {
            assert(all.take(i + 1).drop_last() =~= all.take(i as int));
            assert(all.take(i + 1).last() == names@[i as int]@);
        }
        if is_expired_log(names[i].as_str(), cutoff_day) {
            expired.push(names[i].clone());
            assert(texts(expired@) =~= before.push(names@[i as int]@));
        }
        i += 1;
    }
    assert(all.take(i as int) =~= all);
    expired
}

/// A line without the carriage return that stood before its line feed.
pub open spec fn without_carriage_return(line: Seq<char>) -> Seq<char> {
    if line.len() > 0 && line.last() == '\r' {
        line.drop_last()
    } else {
        line
    }
}

/// The lines of a text, as `str::lines` splits it: the text is split at line
/// feeds, a carriage return right before a line feed belongs to the line
/// ending, and what follows the last line feed is a line only where it is not
/// empty.
pub open spec fn text_lines(text: Seq<char>) -> Seq<Seq<char>> {
    let parts = pieces(text, '\n');
    let ended = Seq::new((parts.len() - 1) as nat, |i: int| without_carriage_return(parts[i]));
    if parts.last().len() == 0 {
        ended
    } else {
        ended.push(parts.last())
    }
}

/// `str::lines`: the lines of a text without their line endings, a line ending
/// being a line feed or a carriage return followed by a line feed, and the
/// final line ending being optional.
#[verifier::external_body]
fn str_lines(text: &str) -> (lines: Vec<String>)
    ensures
        texts(lines@) == text_lines(text@),
{
    text.lines().map(|line| line.to_string()).collect()
}

/// How many lines of the log are shown where no number is asked for.
pub const DEFAULT_RECENT_LINES: usize = 100;

/// The last `max_lines` of the lines, or all of them where there are fewer.
pub open spec fn last_lines(lines: Seq<Seq<char>>, max_lines: usize) -> Seq<Seq<char>> {
    if lines.len() <= max_lines {
        lines
    } else {
        lines.subrange(lines.len() - max_lines, lines.len() as int)
    }
}

/// Joins the last `max_lines` of the lines with line feeds.
pub fn join_last_lines(lines: &Vec<String>, max_lines: usize) -> (text: String)
    ensures
        text@ == joined(last_lines(texts(lines@), max_lines), "\n"@),
{
    let count = lines.len();
    let start = if count <= max_lines {
        0
    } else {
        count - max_lines
    };
    let ghost all = texts(lines@);
    let ghost shown = last_lines(all, max_lines);
    assert(shown =~= all.subrange(start as int, count as int));
    let mut text = String::new();
    let mut i = start;
    assert(all.subrange(start as int, start as int) =~= Seq::<Seq<char>>::empty());
    while i < count
        invariant
            start <= i <= count,
            count == lines.len(),
            all == texts(lines@),
            text@ == joined(all.subrange(start as int, i as int), "\n"@),
        decreases count - i,
    {
        let ghost before = all.subrange(start as int, i as int);
        let ghost next = all.subrange(start as int, i + 1);
        proof {
            assert(next.drop_last() =~= before);
            assert(next.last() == lines@[i as int]@);
        }
        if i > start {
            text.append("\n");
        }
        text.append(lines[i].as_str());
        proof {
            if i == start {
                assert(next[0] == lines@[i as int]@);
                assert(text@ =~= next[0]);
            } else {
                assert(text@ =~= joined(before, "\n"@) + "\n"@ + next.last());
            }
        }
        i += 1;
    }
    text
}

/// The number of lines to show: the number asked for, or the default.
pub fn recent_line_count(lines: Option<usize>) -> (count: usize)
    ensures
        count == (match lines {
            Some(count) => count,
            None => DEFAULT_RECENT_LINES,
        }),
{
    match lines {
        Some(count) => count,
        None => DEFAULT_RECENT_LINES,
    }
}

/// The end of a log: its last lines, as many as asked for or the default
/// number, joined with line feeds.
pub fn recent_logs(content: &str, lines: Option<usize>) -> (text: String)
    ensures
        text@ == joined(
            last_lines(
                text_lines(content@),
                match lines {
                    Some(count) => count,
                    None => DEFAULT_RECENT_LINES,
                },
            ),
            "\n"@,
        ),
{
    let all = str_lines(content);
    join_last_lines(&all, recent_line_count(lines))
}

/// What is shown where today's log does not exist.
pub fn no_logs_message() -> (text: String)
    ensures
        text@ == "暂无日志"@,
{
    String::from_str("暂无日志")
}

} // verus!
