//! The time of a log line. A date that lacks its year or its offset is never
//! completed by a guess.

use crate::outside::clock::{
    instant, instant_text, is_dated, keeps_order, moment, parse_moment, parse_reading, reading,
    Fraction, Moment, Reading, ReadingView,
};
use crate::outside::pattern::{
    compile, group_at, group_by_index, group_by_name, group_named, group_views, pattern_fault,
    pattern_groups, pattern_names, Pattern, PatternView,
};
use crate::rules::model::{Rule, RuleView};
use crate::text::{
    byte_head, byte_head_of, concat2, contains, has, head, head_of, opt_view, parse_unsigned,
    replace_char, same, split, split_text, swap_char, trim, trimmed, unsigned, views, words,
    words_of, Class,
};
use vstd::prelude::*;

verus! {

/// A date and time, with or without an offset, as logs write it.
pub const FULL_TIME: &'static str =
    "(?P<time>\\d{4}-\\d\\d-\\d\\d[T ]\\d\\d:\\d\\d:\\d\\d(?:\\.\\d+)?(?:Z|[+-]\\d\\d:\\d\\d)?)";

/// A date without its year, or the seconds since the kernel started, at the
/// start of a line.
pub const PARTIAL_TIME: &'static str =
    "^(?:[A-Z][a-z]{2}\\s+\\d{1,2}\\s+\\d\\d:\\d\\d:\\d\\d|\\[\\s*\\d+\\.\\d+\\])";

pub const DEFAULT_FORMAT: &'static str = "%Y-%m-%d %H:%M:%S%.f";

pub const SECOND_FORMAT: &'static str = "%Y-%m-%d %H:%M:%S";

/// The two expressions that times are looked for with.
pub struct TimePatterns {
    pub full: Option<Pattern>,
    pub partial: Option<Pattern>,
}

/// The expression, where it compiles.
pub open spec fn usable(source: Seq<char>) -> Option<PatternView> {
    if pattern_fault(source, false) is None {
        Some(PatternView { source, insensitive: false })
    } else {
        None
    }
}

/// The groups of the first match of an expression, where there is one.
pub open spec fn found(p: Option<PatternView>, text: Seq<char>) -> Option<Seq<Option<Seq<char>>>> {
    match p {
        Some(p) => pattern_groups(p.source, p.insensitive, text),
        None => None,
    }
}

impl TimePatterns {
    pub open spec fn wf(self) -> bool {
        &&& opt_view(self.full) == usable(FULL_TIME@)
        &&& opt_view(self.partial) == usable(PARTIAL_TIME@)
    }

    pub fn new() -> (r: Self)
        ensures
            r.wf(),
    {
        TimePatterns { full: compile_plain(FULL_TIME), partial: compile_plain(PARTIAL_TIME) }
    }
}

/// The compiled expression, or nothing where it does not compile.
pub fn compile_plain(source: &str) -> (r: Option<Pattern>)
    ensures
        opt_view(r) == usable(source@),
{
    match compile(source, false) {
        Ok(p) => Some(p),
        Err(_) => None,
    }
}

/// The part of the match that holds the time: the group named `time`, else the
/// first group, else the whole match.
pub open spec fn time_group(
    names: Seq<Option<Seq<char>>>,
    groups: Seq<Option<Seq<char>>>,
) -> Seq<char> {
    match group_named(names, groups, "time"@) {
        Some(s) => s,
        None => match group_at(groups, 1) {
            Some(s) => s,
            None => match group_at(groups, 0) {
                Some(s) => s,
                None => Seq::empty(),
            },
        },
    }
}

/// The time that the line holds, as it is written there.
pub open spec fn raw_time(line: Seq<char>, custom: Option<PatternView>) -> Option<Seq<char>> {
    let p = if custom is Some {
        custom
    } else {
        usable(FULL_TIME@)
    };
    match found(p, line) {
        Some(groups) => Some(
            time_group(pattern_names(p->0.source, p->0.insensitive), groups),
        ),
        None => None,
    }
}

/// The time of a line and, where it is complete, its text in UTC.
pub open spec fn time_of(
    line: Seq<char>,
    custom: Option<PatternView>,
    format: Seq<char>,
    zone: Seq<char>,
) -> (Seq<char>, Option<Seq<char>>) {
    match raw_time(line, custom) {
        Some(s) => timed(s, format, zone),
        None => match found(usable(PARTIAL_TIME@), line) {
            Some(groups) => ((match group_at(groups, 0) {
                Some(s) => s,
                None => Seq::empty(),
            }) + "（时间不完整）"@, None),
            None => ("时间未识别"@, None),
        },
    }
}

/// What a written time stands for: one with an offset is complete; one without
/// is completed by the zone of the rule alone.
pub open spec fn timed(s: Seq<char>, format: Seq<char>, zone: Seq<char>) -> (
    Seq<char>,
    Option<Seq<char>>,
) {
    match moment(swap_char(s, ' ', 'T')) {
        Some(m) => (s, instant(m.timestamp, m.nanos, Fraction::Nine)),
        None => match reading(
            s,
            if format.len() == 0 {
                DEFAULT_FORMAT@
            } else {
                format
            },
        ) {
            Some(d) => if zone.len() == 0 {
                (s, None)
            } else {
                match moment(d.iso + zone) {
                    Some(m) => (d.iso + zone, instant(m.timestamp, m.nanos, Fraction::Nine)),
                    None => (s, None),
                }
            },
            None => (s, None),
        },
    }
}

/// The moment that a written time stands for, where it is complete.
pub open spec fn full_moment(s: Seq<char>, format: Seq<char>, zone: Seq<char>) -> Option<Moment> {
    match moment(swap_char(s, ' ', 'T')) {
        Some(m) => Some(m),
        None => match reading(
            s,
            if format.len() == 0 {
                DEFAULT_FORMAT@
            } else {
                format
            },
        ) {
            Some(d) => if zone.len() == 0 {
                None
            } else {
                moment(d.iso + zone)
            },
            None => None,
        },
    }
}

/// The moment of a line, where its time is complete.
pub open spec fn line_moment(
    line: Seq<char>,
    custom: Option<PatternView>,
    format: Seq<char>,
    zone: Seq<char>,
) -> Option<Moment> {
    match raw_time(line, custom) {
        Some(s) => full_moment(s, format, zone),
        None => None,
    }
}

/// Whether a key is that of a moment: its text in UTC, which stands to the keys of
/// other moments as the moment stands to them.
pub open spec fn is_key(key: Option<Seq<char>>, m: Option<Moment>) -> bool {
    match m {
        Some(m) => {
            &&& key == instant(m.timestamp, m.nanos, Fraction::Nine)
            &&& is_dated(m.timestamp, m.nanos) ==> key is Some && keeps_order(
                key->0,
                m.timestamp,
                m.nanos,
            )
        },
        None => key is None,
    }
}

/// The expression that the rule names for its times, where it names one that
/// compiles.
pub open spec fn custom_time(r: RuleView) -> Option<PatternView> {
    if r.time_regex.len() == 0 {
        None
    } else {
        usable(r.time_regex)
    }
}

pub open spec fn pair_of(r: (String, Option<String>)) -> (Seq<char>, Option<Seq<char>>) {
    (r.0@, opt_view(r.1))
}

/// The time of a line by the rule's own expression and format.
pub fn event_time(line: &str, r: &Rule) -> (t: (String, Option<String>))
    ensures
        pair_of(t) == time_of(line@, custom_time(r@), r.time_format@, r.timezone@),
        is_key(
            opt_view(t.1),
            line_moment(line@, custom_time(r@), r.time_format@, r.timezone@),
        ),
{
    let times = TimePatterns::new();
    let custom = time_pattern(r);
    event_time_prepared(line, r, &custom, &times)
}

pub fn time_pattern(r: &Rule) -> (p: Option<Pattern>)
    ensures
        opt_view(p) == custom_time(r@),
{
    if r.time_regex.as_str().is_empty() {
        None
    } else {
        compile_plain(r.time_regex.as_str())
    }
}

/// The time of a line, with expressions that were compiled before.
pub fn event_time_prepared(
    line: &str,
    r: &Rule,
    custom: &Option<Pattern>,
    times: &TimePatterns,
) -> (t: (String, Option<String>))
    requires
        times.wf(),
    ensures
        pair_of(t) == time_of(line@, opt_view(*custom), r.time_format@, r.timezone@),
        is_key(
            opt_view(t.1),
            line_moment(line@, opt_view(*custom), r.time_format@, r.timezone@),
        ),
{
    line_time(line, custom, r.time_format.as_str(), r.timezone.as_str(), times)
}

pub fn line_time(
    line: &str,
    custom: &Option<Pattern>,
    format: &str,
    zone: &str,
    times: &TimePatterns,
) -> (t: (String, Option<String>))
    requires
        times.wf(),
    ensures
        pair_of(t) == time_of(line@, opt_view(*custom), format@, zone@),
        is_key(opt_view(t.1), line_moment(line@, opt_view(*custom), format@, zone@)),
{
    let raw = match custom {
        Some(p) => raw_by(p, line),
        None => match &times.full {
            Some(p) => raw_by(p, line),
            None => None,
        },
    };
    match raw {
        Some(s) => time_text(s, format, zone),
        None => match &times.partial {
            Some(p) => match p.groups(line) {
                Some(groups) => {
                    let whole = match group_by_index(&groups, 0) {
                        Some(s) => s,
                        None => String::new(),
                    };
                    (concat2(whole.as_str(), "（时间不完整）"), None)
                },
                None => ("时间未识别".to_owned(), None),
            },
            None => ("时间未识别".to_owned(), None),
        },
    }
}

fn raw_by(p: &Pattern, line: &str) -> (r: Option<String>)
    ensures
        opt_view(r) == (match found(Some(p@), line@) {
            Some(groups) => Some(
                time_group(pattern_names(p@.source, p@.insensitive), groups),
            ),
            None => None,
        }),
{
    match p.groups(line) {
        Some(groups) => Some(time_in_match(&p.names(), &groups)),
        None => None,
    }
}

/// The part of a match that holds the time.
pub fn time_in_match(names: &Vec<Option<String>>, groups: &Vec<Option<String>>) -> (r: String)
    ensures
        r@ == time_group(group_views(names@), group_views(groups@)),
{
    match group_by_name(names, groups, "time") {
        Some(s) => s,
        None => match group_by_index(groups, 1) {
            Some(s) => s,
            None => match group_by_index(groups, 0) {
                Some(s) => s,
                None => String::new(),
            },
        },
    }
}

/// What a written time stands for.
pub fn time_text(s: String, format: &str, zone: &str) -> (t: (String, Option<String>))
    ensures
        pair_of(t) == timed(s@, format@, zone@),
        is_key(opt_view(t.1), full_moment(s@, format@, zone@)),
{
    let joined = replace_char(s.as_str(), ' ', 'T');
    if let Some(m) = parse_moment(joined.as_str()) {
        return (s, instant_text(m.timestamp, m.nanos, Fraction::Nine));
    }
    let used = if format.is_empty() {
        DEFAULT_FORMAT
    } else {
        format
    };
    if let Some(d) = parse_reading(s.as_str(), used) {
        if !zone.is_empty() {
            let full = concat2(d.iso.as_str(), zone);
            if let Some(m) = parse_moment(full.as_str()) {
                return (full, instant_text(m.timestamp, m.nanos, Fraction::Nine));
            }
        }
    }
    (s, None)
}

/// The month that an abbreviation stands for.
pub open spec fn month_of(s: Seq<char>) -> Option<u32> {
    if s == "Jan"@ {
        Some(1)
    } else if s == "Feb"@ {
        Some(2)
    } else if s == "Mar"@ {
        Some(3)
    } else if s == "Apr"@ {
        Some(4)
    } else if s == "May"@ {
        Some(5)
    } else if s == "Jun"@ {
        Some(6)
    } else if s == "Jul"@ {
        Some(7)
    } else if s == "Aug"@ {
        Some(8)
    } else if s == "Sep"@ {
        Some(9)
    } else if s == "Oct"@ {
        Some(10)
    } else if s == "Nov"@ {
        Some(11)
    } else if s == "Dec"@ {
        Some(12)
    } else {
        None
    }
}

fn month_number(s: &str) -> (r: Option<u32>)
    ensures
        r == month_of(s@),
{
    if same(s, "Jan") {
        Some(1)
    } else if same(s, "Feb") {
        Some(2)
    } else if same(s, "Mar") {
        Some(3)
    } else if same(s, "Apr") {
        Some(4)
    } else if same(s, "May") {
        Some(5)
    } else if same(s, "Jun") {
        Some(6)
    } else if same(s, "Jul") {
        Some(7)
    } else if same(s, "Aug") {
        Some(8)
    } else if same(s, "Sep") {
        Some(9)
    } else if same(s, "Oct") {
        Some(10)
    } else if same(s, "Nov") {
        Some(11)
    } else if same(s, "Dec") {
        Some(12)
    } else {
        None
    }
}

/// A day of a month and the seconds since its midnight.
pub type Clock = (u32, u32, u64);

pub open spec fn number32(s: Seq<char>) -> Option<nat> {
    unsigned(s, 0xffff_ffff)
}

/// The seconds since midnight of hours, minutes and seconds between colons.
pub open spec fn day_seconds(s: Seq<char>) -> Option<u64> {
    let parts = split(s, Class::One(':'));
    if parts.len() < 3 {
        None
    } else {
        match (number32(parts[0]), number32(parts[1]), number32(parts[2])) {
            (Some(h), Some(m), Some(s)) => Some((h * 3600 + m * 60 + s) as u64),
            _ => None,
        }
    }
}

/// The day and clock of a date without its year.
pub open spec fn partial_clock_of(value: Seq<char>) -> Option<Clock> {
    let parts = words(trim(head(value, Class::One('（')), Class::White));
    if parts.len() < 3 {
        None
    } else {
        match (month_of(parts[0]), number32(parts[1]), day_seconds(parts[2])) {
            (Some(month), Some(day), Some(seconds)) => Some((month, day as u32, seconds)),
            _ => None,
        }
    }
}

fn seconds_of_day(s: &str) -> (r: Option<u64>)
    ensures
        r == day_seconds(s@),
{
    let parts = split_text(s, Class::One(':'));
    if parts.len() < 3 {
        return None;
    }
    proof {
        assert(views(parts@)[0] == parts@[0]@);
        assert(views(parts@)[1] == parts@[1]@);
        assert(views(parts@)[2] == parts@[2]@);
    }
    let h = parse_unsigned(parts[0].as_str(), 0xffff_ffff);
    let m = parse_unsigned(parts[1].as_str(), 0xffff_ffff);
    let s = parse_unsigned(parts[2].as_str(), 0xffff_ffff);
    match (h, m, s) {
        (Some(h), Some(m), Some(s)) => Some(h * 3600 + m * 60 + s),
        _ => None,
    }
}

pub fn partial_clock(value: &str) -> (r: Option<Clock>)
    ensures
        r == partial_clock_of(value@),
{
    let raw = head_of(value, Class::One('（'));
    let raw = trimmed(raw.as_str(), Class::White);
    let parts = words_of(raw.as_str());
    if parts.len() < 3 {
        return None;
    }
    proof {
        assert(views(parts@)[0] == parts@[0]@);
        assert(views(parts@)[1] == parts@[1]@);
        assert(views(parts@)[2] == parts@[2]@);
    }
    let month = month_number(parts[0].as_str());
    let day = parse_unsigned(parts[1].as_str(), 0xffff_ffff);
    let seconds = seconds_of_day(parts[2].as_str());
    match (month, day, seconds) {
        (Some(month), Some(day), Some(seconds)) => Some((month, day as u32, seconds)),
        _ => None,
    }
}

/// The first nineteen bytes, or the whole text where they do not end with a
/// character.
pub open spec fn date_part(value: Seq<char>) -> Seq<char> {
    match byte_head(value, 19) {
        Some(s) => s,
        None => value,
    }
}

/// The day and clock that a time shows, in whatever form it is written.
pub open spec fn clock_of(value: Seq<char>) -> Option<Clock> {
    shown_clock(value, moment(value), reading(date_part(value), SECOND_FORMAT@))
}

/// The day and clock that a time shows, given the moment and the reading that it
/// gives.
pub open spec fn shown_clock(
    value: Seq<char>,
    whole: Option<Moment>,
    bare: Option<ReadingView>,
) -> Option<Clock> {
    match whole {
        Some(m) => Some((m.month, m.day, m.clock as u64)),
        None => match bare {
            Some(d) => Some((d.month, d.day, d.clock as u64)),
            None => partial_clock_of(value),
        },
    }
}

/// The day and clock that a time shows, given the moment and the reading that it
/// gives.
pub fn clock_value(value: &str, whole: &Option<Moment>, bare: &Option<Reading>) -> (r: Option<
    Clock,
>)
    ensures
        r == shown_clock(value@, *whole, opt_view(*bare)),
{
    match whole {
        Some(m) => Some((m.month, m.day, m.clock as u64)),
        None => match bare {
            Some(d) => Some((d.month, d.day, d.clock as u64)),
            None => partial_clock(value),
        },
    }
}

pub fn local_clock_value(value: &str) -> (r: Option<Clock>)
    ensures
        r == clock_of(value@),
{
    let bare = match byte_head_of(value, 19) {
        Some(s) => parse_reading(s.as_str(), SECOND_FORMAT),
        None => parse_reading(value, SECOND_FORMAT),
    };
    clock_value(value, &parse_moment(value), &bare)
}

/// Eight hours, by which `CST` is ahead of UTC.
pub const EAST_SECONDS: i64 = 28800;

/// The key of a boot time that the vendor writes: taken eight hours east of UTC
/// where it says `CST`, else as UTC.
pub open spec fn vendor_key(boot_time: Option<Seq<char>>) -> Option<Seq<char>> {
    match boot_time {
        Some(t) => match byte_head(t, 19) {
            Some(s) => match reading(s, SECOND_FORMAT@) {
                Some(d) => {
                    let utc = if has(t, "CST"@) {
                        d.timestamp - EAST_SECONDS
                    } else {
                        d.timestamp as int
                    };
                    if utc < i64::MIN {
                        None
                    } else {
                        instant(utc as i64, d.nanos, Fraction::Short)
                    }
                },
                None => None,
            },
            None => None,
        },
        None => None,
    }
}

pub fn parse_vendor_boot_key(boot_time: &Option<String>) -> (r: Option<String>)
    ensures
        opt_view(r) == vendor_key(opt_view(*boot_time)),
{
    match boot_time {
        Some(t) => match byte_head_of(t.as_str(), 19) {
            Some(s) => match parse_reading(s.as_str(), SECOND_FORMAT) {
                Some(d) => {
                    let ahead = if contains(t.as_str(), "CST") {
                        EAST_SECONDS
                    } else {
                        0
                    };
                    match d.timestamp.checked_sub(ahead) {
                        Some(utc) => instant_text(utc, d.nanos, Fraction::Short),
                        None => None,
                    }
                },
                None => None,
            },
            None => None,
        },
        None => None,
    }
}

/// Whether two keys are no more than `seconds` apart; keys that give no moment
/// must be equal.
pub open spec fn near(a: Option<Seq<char>>, b: Option<Seq<char>>, seconds: int) -> bool {
    match (a, b) {
        (Some(a), Some(b)) => moments_near(a, moment(a), b, moment(b), seconds),
        _ => false,
    }
}

/// Whether two keys are no more than `seconds` apart, given the moments that they
/// give.
pub open spec fn moments_near(
    a: Seq<char>,
    x: Option<Moment>,
    b: Seq<char>,
    y: Option<Moment>,
    seconds: int,
) -> bool {
    match (x, y) {
        (Some(x), Some(y)) => -seconds <= x.timestamp - y.timestamp <= seconds,
        _ => a == b,
    }
}

/// Whether two keys are no more than `seconds` apart, given the moments that they
/// give.
pub fn are_near(a: &str, x: &Option<Moment>, b: &str, y: &Option<Moment>, seconds: i64) -> (r: bool)
    ensures
        r == moments_near(a@, *x, b@, *y, seconds as int),
{
    match (x, y) {
        (Some(x), Some(y)) => {
            let apart: i128 = x.timestamp as i128 - y.timestamp as i128;
            -(seconds as i128) <= apart && apart <= seconds as i128
        },
        _ => same(a, b),
    }
}

pub fn same_time_window(a: &Option<String>, b: &Option<String>, seconds: i64) -> (r: bool)
    ensures
        r == near(opt_view(*a), opt_view(*b), seconds as int),
{
    match (a, b) {
        (Some(a), Some(b)) => are_near(
            a.as_str(),
            &parse_moment(a.as_str()),
            b.as_str(),
            &parse_moment(b.as_str()),
            seconds,
        ),
        _ => false,
    }
}

} // verus!
