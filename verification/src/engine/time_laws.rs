//! How the keys of log lines are ordered.

use crate::engine::time::{
    is_key, month_of, partial_clock_of, raw_time, shown_clock, timed, vendor_key,
};
use crate::order_laws::law_texts_are_ordered;
use crate::outside::clock::{
    instant, is_dated, is_earlier, moment, reading, Fraction, Moment, ReadingView,
};
use crate::outside::pattern::{pattern_fault, pattern_groups, pattern_names, PatternView};
use crate::text::{before, byte_head, has, swap_char, unsigned};
use vstd::prelude::*;

verus! {

/// Keys are ordered as texts exactly as the moments are that they stand for, and
/// two keys are equal exactly where both stand for the same time, whatever the
/// offsets with which it was written.
pub proof fn law_keys_are_ordered_as_their_moments(
    a: Moment,
    x: Seq<char>,
    b: Moment,
    y: Seq<char>,
)
    requires
        is_key(Some(x), Some(a)),
        is_key(Some(y), Some(b)),
        is_dated(a.timestamp, a.nanos),
        is_dated(b.timestamp, b.nanos),
    ensures
        before(x, y) <==> is_earlier(a.timestamp, a.nanos, b.timestamp, b.nanos),
        x == y <==> a.timestamp == b.timestamp && a.nanos == b.nanos,
{
    law_texts_are_ordered();
    assert(before(x, y) == is_earlier(a.timestamp, a.nanos, b.timestamp, b.nanos));
    assert(before(y, x) == is_earlier(b.timestamp, b.nanos, a.timestamp, a.nanos));
}

/// A written time with an offset is complete, whether a `T` or a blank stands in it:
/// it is shown as it is written and its key is its time in UTC.
pub proof fn law_times_with_an_offset_are_complete(
    s: Seq<char>,
    format: Seq<char>,
    zone: Seq<char>,
    m: Moment,
)
    requires
        moment(swap_char(s, ' ', 'T')) == Some(m),
    ensures
        timed(s, format, zone) == (s, instant(m.timestamp, m.nanos, Fraction::Nine)),
{
}

/// A written time without an offset has a key only by the zone of the rule: then it
/// is shown with that zone. It is read in the rule's format, or in the usual one
/// where the rule has none, and never completed by a guess.
pub proof fn law_times_are_completed_by_the_zone_alone(
    s: Seq<char>,
    format: Seq<char>,
    zone: Seq<char>,
)
    requires
        moment(swap_char(s, ' ', 'T')) is None,
    ensures
        ({
            let used = if format.len() > 0 {
                format
            } else {
                "%Y-%m-%d %H:%M:%S%.f"@
            };
            &&& zone.len() == 0 || reading(s, used) is None ==> timed(s, format, zone) == (
                s,
                None::<Seq<char>>,
            )
            &&& zone.len() > 0 && reading(s, used) is Some ==> {
                let full = reading(s, used)->0.iso + zone;
                match moment(full) {
                    Some(m) => timed(s, format, zone) == (
                        full,
                        instant(m.timestamp, m.nanos, Fraction::Nine),
                    ),
                    None => timed(s, format, zone) == (s, None::<Seq<char>>),
                }
            }
        }),
{
}

/// The time of a line is what the expression matches first in it: its group named
/// `time`, else its first group, else the whole match. There is none where nothing
/// matches or the expression does not compile.
pub proof fn law_times_are_matched(line: Seq<char>, p: PatternView, k: int)
    ensures
        ({
            let groups = pattern_groups(p.source, p.insensitive, line);
            let names = pattern_names(p.source, p.insensitive);
            &&& groups is None ==> raw_time(line, Some(p)) is None
            &&& groups matches Some(g) ==> {
                &&& 0 <= k < names.len() && k < g.len() && names[k] == Some("time"@) && (forall|
                    j: int,
                |
                    0 <= j < k ==> #[trigger] names[j] != Some("time"@)) && g[k] is Some ==> raw_time(
                    line,
                    Some(p),
                ) == g[k]
                &&& (forall|j: int| 0 <= j < names.len() ==> #[trigger] names[j] != Some("time"@))
                    ==> {
                    &&& g.len() > 1 && g[1] is Some ==> raw_time(line, Some(p)) == g[1]
                    &&& (g.len() == 1 || (g.len() > 1 && g[1] is None)) && g[0] is Some
                        ==> raw_time(line, Some(p)) == g[0]
                }
            }
            &&& pattern_fault(crate::engine::time::FULL_TIME@, false) is Some ==> raw_time(
                line,
                None,
            ) is None
        }),
{
    crate::text::lemma_index_from(
        pattern_names(p.source, p.insensitive),
        Some("time"@),
        0,
    );
}

/// The vendor's boot times are read from their first nineteen bytes, as times eight
/// hours east of UTC where they say `CST`, and as times in UTC where they do not.
pub proof fn law_vendor_times_say_their_zone(t: Seq<char>, s: Seq<char>, d: ReadingView)
    requires
        byte_head(t, 19) == Some(s),
        reading(s, "%Y-%m-%d %H:%M:%S"@) == Some(d),
        d.timestamp - 8 * 3600 >= i64::MIN,
    ensures
        has(t, "CST"@) ==> vendor_key(Some(t)) == instant(
            (d.timestamp - 8 * 3600) as i64,
            d.nanos,
            Fraction::Short,
        ),
        has(t, "CST"@) == false ==> vendor_key(Some(t)) == instant(
            d.timestamp,
            d.nanos,
            Fraction::Short,
        ),
        vendor_key(None) is None,
{
}

/// The months by their abbreviations.
pub open spec fn abbreviation(n: int) -> Seq<char> {
    if n == 1 {
        "Jan"@
    } else if n == 2 {
        "Feb"@
    } else if n == 3 {
        "Mar"@
    } else if n == 4 {
        "Apr"@
    } else if n == 5 {
        "May"@
    } else if n == 6 {
        "Jun"@
    } else if n == 7 {
        "Jul"@
    } else if n == 8 {
        "Aug"@
    } else if n == 9 {
        "Sep"@
    } else if n == 10 {
        "Oct"@
    } else if n == 11 {
        "Nov"@
    } else {
        "Dec"@
    }
}

/// A month has its number by its abbreviation, and no other word has one.
pub proof fn law_months_have_their_numbers(n: int, s: Seq<char>)
    requires
        1 <= n <= 12,
    ensures
        month_of(abbreviation(n)) == Some(n as u32),
        month_of(s) matches Some(k) ==> 1 <= k <= 12 && s == abbreviation(k as int),
{
    reveal_strlit("Jan");
    reveal_strlit("Feb");
    reveal_strlit("Mar");
    reveal_strlit("Apr");
    reveal_strlit("May");
    reveal_strlit("Jun");
    reveal_strlit("Jul");
    reveal_strlit("Aug");
    reveal_strlit("Sep");
    reveal_strlit("Oct");
    reveal_strlit("Nov");
    reveal_strlit("Dec");
    assert("Jan"@[0] == 'J' && "Jan"@[1] == 'a');
    assert("Feb"@[0] == 'F');
    assert("Mar"@[0] == 'M' && "Mar"@[2] == 'r');
    assert("Apr"@[0] == 'A' && "Apr"@[1] == 'p');
    assert("May"@[0] == 'M' && "May"@[2] == 'y');
    assert("Jun"@[0] == 'J' && "Jun"@[1] == 'u' && "Jun"@[2] == 'n');
    assert("Jul"@[0] == 'J' && "Jul"@[1] == 'u' && "Jul"@[2] == 'l');
    assert("Aug"@[0] == 'A' && "Aug"@[1] == 'u');
    assert("Sep"@[0] == 'S');
    assert("Oct"@[0] == 'O');
    assert("Nov"@[0] == 'N');
    assert("Dec"@[0] == 'D');
}

/// A time without its year shows the day and the clock of its first three words, as
/// far as a bracket that says that it is incomplete: an hour has sixty minutes and a
/// minute sixty seconds.
pub proof fn law_partial_times_show_their_clock(
    value: Seq<char>,
    parts: Seq<Seq<char>>,
    clock: Seq<Seq<char>>,
    month: u32,
    day: nat,
    h: nat,
    m: nat,
    s: nat,
)
    requires
        parts == crate::text::words(
            crate::text::trim(
                crate::text::head(value, crate::text::Class::One('（')),
                crate::text::Class::White,
            ),
        ),
        parts.len() >= 3,
        month_of(parts[0]) == Some(month),
        unsigned(parts[1], 0xffff_ffff) == Some(day),
        clock == crate::text::split(parts[2], crate::text::Class::One(':')),
        clock.len() >= 3,
        unsigned(clock[0], 0xffff_ffff) == Some(h),
        unsigned(clock[1], 0xffff_ffff) == Some(m),
        unsigned(clock[2], 0xffff_ffff) == Some(s),
        h <= 0xffff_ffff && m <= 0xffff_ffff && s <= 0xffff_ffff && day <= 0xffff_ffff,
    ensures
        partial_clock_of(value) matches Some(c) && c.0 == month && c.1 == day && c.2 == 60 * (60 * h
            + m) + s,
{
}

/// The clock that a time shows is that of the moment that it gives, else that of its
/// reading, else that of its words.
pub proof fn law_clocks_are_those_of_the_moment(
    value: Seq<char>,
    whole: Option<Moment>,
    bare: Option<ReadingView>,
)
    ensures
        whole matches Some(m) ==> (shown_clock(value, whole, bare) matches Some(c) && c.0 == m.month
            && c.1 == m.day && c.2 == m.clock),
        whole is None ==> (bare matches Some(d) ==> (shown_clock(value, whole, bare) matches Some(c)
            && c.0 == d.month && c.1 == d.day && c.2 == d.clock)),
        whole is None && bare is None ==> shown_clock(value, whole, bare) == partial_clock_of(value),
{
}

} // verus!
