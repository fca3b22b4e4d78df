//! Facts of the timeline: what a log line or a block of a reset record says.
//! They state what was seen and draw no conclusion.

use crate::engine::model::{Event, EventView, Fragment, FragmentView, LogLine, LogLineView};
use crate::engine::time::{line_time, parse_vendor_boot_key, time_of, vendor_key, TimePatterns};
use crate::text::{
    after_prefix, behind, behind_text, chars_begin, chars_hold, chars_of, concat2, concat3,
    contains, cut, duplicate_range, first_result, group_views, has, begins, head, head_of, join,
    joined, lines, lines_of, lower, lower_chars, opt_view, same, same_ignoring_case, split_once,
    strip_prefix, trim, trimmed, views, Class,
};
use vstd::prelude::*;
use vstd::string::*;

verus! {

/// The text in which a rule's event is recognised.
pub open spec fn event_text(name: Seq<char>, text: Seq<char>) -> Seq<char> {
    lower(name + " "@ + text)
}

/// Whether the text, in small letters, tells of a crash of the kernel.
pub open spec fn tells_crash(s: Seq<char>) -> bool {
    ||| has(s, "panic - not syncing"@)
    ||| has(s, " oops:"@)
    ||| begins(s, "oops:"@)
    ||| has(s, " call trace:"@)
    ||| begins(s, "call trace:"@)
}

/// The type of the event that a text in small letters tells of.
pub open spec fn event_kind(s: Seq<char>) -> Seq<char> {
    if has(s, "kernel panic"@) || tells_crash(s) {
        "kernel_panic"@
    } else if has(s, "watchdog"@) {
        "watchdog_reset"@
    } else if has(s, "do poweroff proc info"@) || has(s, "reached target shutdown"@) || has(
        s,
        "systemd-shutdown"@,
    ) || has(s, "powering off"@) || has(s, "关机流程"@) {
        "shutdown_request"@
    } else if has(s, "do reboot proc info"@) || has(s, "reached target reboot"@) || has(
        s,
        "reboot: restarting system"@,
    ) || has(s, "重启流程"@) {
        "reboot_request"@
    } else if has(s, "linux version"@) {
        "boot"@
    } else if has(s, "recovery complete"@) {
        "filesystem_recovery"@
    } else if has(s, "sata link up"@) || has(s, "attached scsi"@) {
        "device_reenumeration"@
    } else if has(s, "unknown"@) {
        "reset_reason"@
    } else {
        "evidence"@
    }
}

fn holds_crash(s: &Vec<char>) -> (r: bool)
    ensures
        r == tells_crash(s@),
{
    chars_hold(s, "panic - not syncing") || chars_hold(s, " oops:") || chars_begin(s, "oops:")
        || chars_hold(s, " call trace:") || chars_begin(s, "call trace:")
}

/// The type of the event that a rule's name and a line tell of. What cannot be
/// told stays `evidence`.
pub fn classify_timeline_event(name: &str, text: &str) -> (r: String)
    ensures
        r@ == event_kind(event_text(name@, text@)),
{
    let whole = concat3(name, " ", text);
    let s = lower_chars(whole.as_str());
    let kind = if chars_hold(&s, "kernel panic") || holds_crash(&s) {
        "kernel_panic"
    } else if chars_hold(&s, "watchdog") {
        "watchdog_reset"
    } else if chars_hold(&s, "do poweroff proc info") || chars_hold(&s, "reached target shutdown")
        || chars_hold(&s, "systemd-shutdown") || chars_hold(&s, "powering off") || chars_hold(
        &s,
        "关机流程",
    ) {
        "shutdown_request"
    } else if chars_hold(&s, "do reboot proc info") || chars_hold(&s, "reached target reboot")
        || chars_hold(&s, "reboot: restarting system") || chars_hold(&s, "重启流程") {
        "reboot_request"
    } else if chars_hold(&s, "linux version") {
        "boot"
    } else if chars_hold(&s, "recovery complete") {
        "filesystem_recovery"
    } else if chars_hold(&s, "sata link up") || chars_hold(&s, "attached scsi") {
        "device_reenumeration"
    } else if chars_hold(&s, "unknown") {
        "reset_reason"
    } else {
        "evidence"
    };
    kind.to_owned()
}

/// What a line shows of itself: the type of the event, its name and how strong
/// the evidence is.
pub open spec fn line_fact(s: Seq<char>) -> Option<(Seq<char>, Seq<char>, Seq<char>)> {
    if has(s, "linux version"@) {
        Some(("boot"@, "系统启动"@, "strong"@))
    } else if tells_crash(s) {
        Some(("kernel_panic"@, "Kernel Panic / Oops"@, "strong"@))
    } else if (has(s, "watchdog"@) && (has(s, "reset"@) || has(s, "reboot"@))) || has(
        s,
        "hard lockup"@,
    ) || has(s, "soft lockup"@) {
        Some(("watchdog_reset"@, "Watchdog 复位"@, "strong"@))
    } else if has(s, "reached target shutdown"@) || has(s, "systemd-shutdown"@) || has(
        s,
        "powering off"@,
    ) || has(s, "do poweroff proc info"@) {
        Some(("shutdown_request"@, "系统关机流程"@, "strong"@))
    } else if has(s, "reached target reboot"@) || has(s, "reboot: restarting system"@) || has(
        s,
        "systemd reboot"@,
    ) {
        Some(("reboot_request"@, "系统重启流程"@, "strong"@))
    } else if has(s, "recovery complete"@) || has(s, "recovering journal"@) || (has(s, "ext4-fs"@)
        && has(s, "recovery"@)) {
        Some(("filesystem_recovery"@, "文件系统恢复"@, "medium"@))
    } else if has(s, "sata link up"@) || has(s, "attached scsi disk"@) || has(
        s,
        "ata[0-9].*link up"@,
    ) {
        Some(("device_reenumeration"@, "存储设备重新枚举"@, "medium"@))
    } else if (has(s, " md"@) || has(s, "raid"@)) && (has(s, "assemble"@) || has(s, "started"@)
        || has(s, "recovery"@)) {
        Some(("device_reenumeration"@, "RAID 阵列重新组装"@, "medium"@))
    } else {
        None
    }
}

fn fact_of_line(s: &Vec<char>) -> (r: Option<(&'static str, &'static str, &'static str)>)
    ensures
        (match r {
            Some((a, b, c)) => line_fact(s@) == Some((a@, b@, c@)),
            None => line_fact(s@) is None,
        }),
{
    if chars_hold(s, "linux version") {
        Some(("boot", "系统启动", "strong"))
    } else if holds_crash(s) {
        Some(("kernel_panic", "Kernel Panic / Oops", "strong"))
    } else if (chars_hold(s, "watchdog") && (chars_hold(s, "reset") || chars_hold(s, "reboot")))
        || chars_hold(s, "hard lockup") || chars_hold(s, "soft lockup") {
        Some(("watchdog_reset", "Watchdog 复位", "strong"))
    } else if chars_hold(s, "reached target shutdown") || chars_hold(s, "systemd-shutdown")
        || chars_hold(s, "powering off") || chars_hold(s, "do poweroff proc info") {
        Some(("shutdown_request", "系统关机流程", "strong"))
    } else if chars_hold(s, "reached target reboot") || chars_hold(s, "reboot: restarting system")
        || chars_hold(s, "systemd reboot") {
        Some(("reboot_request", "系统重启流程", "strong"))
    } else if chars_hold(s, "recovery complete") || chars_hold(s, "recovering journal") || (
    chars_hold(s, "ext4-fs") && chars_hold(s, "recovery")) {
        Some(("filesystem_recovery", "文件系统恢复", "medium"))
    } else if chars_hold(s, "sata link up") || chars_hold(s, "attached scsi disk") || chars_hold(
        s,
        "ata[0-9].*link up",
    ) {
        Some(("device_reenumeration", "存储设备重新枚举", "medium"))
    } else if (chars_hold(s, " md") || chars_hold(s, "raid")) && (chars_hold(s, "assemble")
        || chars_hold(s, "started") || chars_hold(s, "recovery")) {
        Some(("device_reenumeration", "RAID 阵列重新组装", "medium"))
    } else {
        None
    }
}

/// A fragment of one line that is a hit.
pub open spec fn one_line(
    file: Seq<char>,
    number: usize,
    text: Seq<char>,
    ranges: Seq<(usize, usize)>,
    time: Seq<char>,
    annotation: Seq<char>,
) -> FragmentView {
    FragmentView {
        file,
        lines: seq![LogLineView { number, text, hit: true, ranges }],
        time,
        annotation,
    }
}

pub fn one_line_fragment(
    file: &str,
    number: usize,
    text: &str,
    ranges: Vec<(usize, usize)>,
    time: &str,
    annotation: &str,
) -> (r: Fragment)
    ensures
        r@ == one_line(file@, number, text@, ranges@, time@, annotation@),
{
    let line = LogLine { number, text: text.to_owned(), hit: true, ranges };
    let ghost lv = line@;
    let mut lines: Vec<LogLine> = Vec::new();
    lines.push(line);
    proof {
        assert(views(lines@) =~= seq![lv]);
    }
    Fragment { file: file.to_owned(), lines, time: time.to_owned(), annotation: annotation.to_owned() }
}

/// How exact a time is that may have a key.
pub open spec fn precision(key: Option<Seq<char>>) -> Seq<char> {
    if key is Some {
        "exact"@
    } else {
        "partial"@
    }
}

pub fn precision_text(key: &Option<String>) -> (r: String)
    ensures
        r@ == precision(opt_view(*key)),
{
    if key.is_some() {
        "exact".to_owned()
    } else {
        "partial".to_owned()
    }
}

/// The event of a fact, given its kind, name and strength and the time of the
/// line that shows it.
pub open spec fn fact_event(
    file: Seq<char>,
    line: Seq<char>,
    number: usize,
    fact: (Seq<char>, Seq<char>, Seq<char>),
    time: (Seq<char>, Option<Seq<char>>),
) -> EventView {
    EventView {
        name: fact.1,
        group: "系统时间线事实"@,
        time: time.0,
        key: time.1,
        note: "由通用 Linux 日志结构识别，需结合其他事实推断会话结束原因"@,
        sources: seq![
            one_line(file, number, line, Seq::empty(), Seq::empty(), "自动识别的日志事实"@),
        ],
        event_type: fact.0,
        evidence_strength: fact.2,
        time_precision: precision(time.1),
    }
}

/// The fact that a line shows without any rule.
pub open spec fn line_event(file: Seq<char>, line: Seq<char>, number: usize) -> Option<EventView> {
    match line_fact(lower(line)) {
        Some(fact) => Some(
            fact_event(file, line, number, fact, time_of(line, None, Seq::empty(), Seq::empty())),
        ),
        None => None,
    }
}

/// The event of a fact, given its kind, name and strength and the time of the
/// line that shows it.
pub fn event_of_fact(
    file: &str,
    line: &str,
    number: usize,
    fact: (&str, &str, &str),
    time: (String, Option<String>),
) -> (r: Event)
    ensures
        r@ == fact_event(
            file@,
            line@,
            number,
            (fact.0@, fact.1@, fact.2@),
            (time.0@, opt_view(time.1)),
        ),
{
    let (event_type, name, strength) = fact;
    let (time, key) = time;
    let none = String::new();
    let time_precision = precision_text(&key);
    let source = one_line_fragment(
        file,
        number,
        line,
        Vec::new(),
        none.as_str(),
        "自动识别的日志事实",
    );
    let ghost sv = source@;
    let mut sources: Vec<Fragment> = Vec::new();
    sources.push(source);
    proof {
        assert(views(sources@) =~= seq![sv]);
        assert(none@ =~= Seq::<char>::empty());
    }
    Event {
        name: name.to_owned(),
        group: "系统时间线事实".to_owned(),
        time,
        key,
        note: "由通用 Linux 日志结构识别，需结合其他事实推断会话结束原因".to_owned(),
        sources,
        event_type: event_type.to_owned(),
        evidence_strength: strength.to_owned(),
        time_precision,
    }
}

/// Recognises a few lines of the Linux life cycle that need no rule.
pub fn automatic_timeline_event(file: &str, line: &str, number: usize, times: &TimePatterns) -> (r:
    Option<Event>)
    requires
        times.wf(),
    ensures
        opt_view(r) == line_event(file@, line@, number),
{
    let s = lower_chars(line);
    match fact_of_line(&s) {
        Some(fact) => {
            let none = String::new();
            proof {
                assert(none@ =~= Seq::<char>::empty());
            }
            let time = line_time(line, &None, none.as_str(), none.as_str(), times);
            Some(event_of_fact(file, line, number, fact, time))
        },
        None => None,
    }
}

pub const BLOCK_BEGIN: &'static str = "# BEGIN ug_reset_reason";

pub const BLOCK_END: &'static str = "# END ug_reset_reason";

/// How sources of events that come from a reset record are annotated.
pub const RESET_RECORD: &'static str = "pstore 结构化复位原因块";

/// The blocks of a reset record from line `i` on, as ranges of lines; `open` is
/// where the block starts that is being read. A block that starts inside
/// another takes its place, and the last one may lack its end.
pub open spec fn blocks(lines: Seq<Seq<char>>, i: int, open: Option<int>) -> Seq<(int, int)>
    decreases lines.len() - i,
{
    if i >= lines.len() {
        match open {
            Some(s) => seq![(s, lines.len() as int)],
            None => Seq::empty(),
        }
    } else {
        let now = if has(lines[i], BLOCK_BEGIN@) {
            Some(i)
        } else {
            open
        };
        if has(lines[i], BLOCK_END@) {
            (match now {
                Some(s) => seq![(s, i + 1)],
                None => Seq::empty(),
            }) + blocks(lines, i + 1, None)
        } else {
            blocks(lines, i + 1, now)
        }
    }
}

/// The text behind a label at the start of the line.
pub open spec fn label_text(line: Seq<char>, label: Seq<char>) -> Option<Seq<char>> {
    match after_prefix(line, label) {
        Some(v) => Some(trim(v, Class::White)),
        None => None,
    }
}

/// The text behind a label and the first blank that follows it.
pub open spec fn column_text(line: Seq<char>, label: Seq<char>) -> Option<Seq<char>> {
    match after_prefix(line, label) {
        Some(v) => match cut(v, Class::One(' ')) {
            Some((_, b)) => Some(trim(b, Class::White)),
            None => None,
        },
        None => None,
    }
}

pub open spec fn label_in(block: Seq<Seq<char>>, label: Seq<char>) -> Option<Seq<char>> {
    first_result(block, |l: Seq<char>| label_text(l, label), 0)
}

pub open spec fn column_in(block: Seq<Seq<char>>, label: Seq<char>) -> Option<Seq<char>> {
    first_result(block, |l: Seq<char>| column_text(l, label), 0)
}

fn find_label(block: &Vec<String>, label: &str) -> (r: Option<String>)
    ensures
        opt_view(r) == label_in(views(block@), label@),
{
    let ghost f = |l: Seq<char>| label_text(l, label@);
    let mut i: usize = 0;
    while i < block.len()
        invariant
            f == (|l: Seq<char>| label_text(l, label@)),
            i <= block.len(),
            first_result(views(block@), f, 0) == first_result(views(block@), f, i as int),
        decreases block.len() - i,
    {
        if let Some(v) = strip_prefix(block[i].as_str(), label) {
            let found = trimmed(v.as_str(), Class::White);
            proof {
                assert(f(views(block@)[i as int]) == Some(found@));
            }
            return Some(found);
        }
        proof {
            assert(f(views(block@)[i as int]) is None);
        }
        i += 1;
    }
    None
}

fn find_column(block: &Vec<String>, label: &str) -> (r: Option<String>)
    ensures
        opt_view(r) == column_in(views(block@), label@),
{
    let ghost f = |l: Seq<char>| column_text(l, label@);
    let mut i: usize = 0;
    while i < block.len()
        invariant
            f == (|l: Seq<char>| column_text(l, label@)),
            i <= block.len(),
            first_result(views(block@), f, 0) == first_result(views(block@), f, i as int),
        decreases block.len() - i,
    {
        if let Some(v) = strip_prefix(block[i].as_str(), label) {
            if let Some((_, b)) = split_once(v.as_str(), Class::One(' ')) {
                let found = trimmed(b.as_str(), Class::White);
                proof {
                    assert(f(views(block@)[i as int]) == Some(found@));
                }
                return Some(found);
            }
        }
        proof {
            assert(f(views(block@)[i as int]) is None);
        }
        i += 1;
    }
    None
}

/// Whether the reason is given and is the word, whatever its case.
pub open spec fn reason_is(reason: Option<Seq<char>>, word: Seq<char>) -> bool {
    match reason {
        Some(r) => lower(r) == lower(word),
        None => false,
    }
}

/// The type of the event that a cause and a reason stand for. A cause that is
/// not known is no other cause.
pub open spec fn reset_kind(cause: Seq<char>, reason: Option<Seq<char>>) -> Seq<char> {
    if has(cause, "Kernel Panic"@) || reason_is(reason, "kernel_panic"@) {
        "kernel_panic"@
    } else if has(cause, "NORMAL — Shutdown"@) || reason_is(reason, "poweroff"@) {
        "shutdown_complete"@
    } else if has(cause, "NORMAL — Reboot"@) || reason_is(reason, "normal_reboot"@) {
        "reboot_complete"@
    } else if has(cause, "POWER"@) || has(cause, "Power"@) || reason_is(reason, "power_loss"@) {
        "power_loss_hint"@
    } else if has(lower(cause), "watchdog"@) || reason_is(reason, "watchdog"@) {
        "watchdog_reset"@
    } else if has(lower(cause), "hardware"@) || reason_is(reason, "hardware_reset"@) {
        "hardware_reset"@
    } else {
        "reset_reason"@
    }
}

fn is_reason(reason: &Option<String>, word: &str) -> (r: bool)
    ensures
        r == reason_is(opt_view(*reason), word@),
{
    match reason {
        Some(v) => same_ignoring_case(v.as_str(), word),
        None => false,
    }
}

fn kind_of_reset(cause: &str, reason: &Option<String>) -> (r: &'static str)
    ensures
        r@ == reset_kind(cause@, opt_view(*reason)),
{
    let c = chars_of(cause);
    let small = lower_chars(cause);
    if chars_hold(&c, "Kernel Panic") || is_reason(reason, "kernel_panic") {
        "kernel_panic"
    } else if chars_hold(&c, "NORMAL — Shutdown") || is_reason(reason, "poweroff") {
        "shutdown_complete"
    } else if chars_hold(&c, "NORMAL — Reboot") || is_reason(reason, "normal_reboot") {
        "reboot_complete"
    } else if chars_hold(&c, "POWER") || chars_hold(&c, "Power") || is_reason(reason, "power_loss") {
        "power_loss_hint"
    } else if chars_hold(&small, "watchdog") || is_reason(reason, "watchdog") {
        "watchdog_reset"
    } else if chars_hold(&small, "hardware") || is_reason(reason, "hardware_reset") {
        "hardware_reset"
    } else {
        "reset_reason"
    }
}

pub open spec fn or_else(v: Option<Seq<char>>, other: Seq<char>) -> Seq<char> {
    match v {
        Some(v) => v,
        None => other,
    }
}

fn text_or(v: &Option<String>, other: &str) -> (r: String)
    ensures
        r@ == or_else(opt_view(*v), other@),
{
    match v {
        Some(v) => v.clone(),
        None => other.to_owned(),
    }
}

pub open spec fn reset_note(
    boot_id: Seq<char>,
    cause: Seq<char>,
    source: Seq<char>,
    sw: Seq<char>,
    hw: Seq<char>,
) -> Seq<char> {
    "boot_id："@ + boot_id + "；原始复位原因："@ + cause + "；Source："@ + source + "；SW："@ + sw
        + "；HW："@ + hw
}

/// The event that a block of a reset record stands for; none where it gives
/// neither a cause nor a reason.
pub open spec fn reset_event(name: Seq<char>, block: Seq<Seq<char>>, number: usize) -> Option<
    EventView,
> {
    let boot_time = column_in(block, "  Boot Time"@);
    let reason = column_in(block, "  Reason"@);
    let given = label_in(block, "│ REBOOT CAUSE:"@);
    let cause = if given is Some {
        given
    } else {
        reason
    };
    match cause {
        Some(cause) => {
            let kind = reset_kind(cause, reason);
            let time = or_else(boot_time, "时间未识别"@);
            Some(
                EventView {
                    name: "厂商复位原因："@ + cause,
                    group: "系统事件"@,
                    time,
                    key: vendor_key(boot_time),
                    note: reset_note(
                        or_else(label_in(block, "# boot_id:"@), "未提供"@),
                        cause,
                        or_else(column_in(block, "  Source"@), "未提供"@),
                        or_else(column_in(block, "  SW"@), "未提供"@),
                        or_else(column_in(block, "  HW"@), "未提供"@),
                    ),
                    sources: seq![
                        one_line(
                            name,
                            number,
                            joined(block, "\n"@),
                            Seq::empty(),
                            time,
                            RESET_RECORD@,
                        ),
                    ],
                    event_type: kind,
                    evidence_strength: if kind == "reset_reason"@ {
                        "high"@
                    } else {
                        "strong"@
                    },
                    time_precision: if boot_time is Some {
                        "exact"@
                    } else {
                        "unknown"@
                    },
                },
            )
        },
        None => None,
    }
}

fn event_of_block(name: &str, block: &Vec<String>, number: usize) -> (r: Option<Event>)
    ensures
        opt_view(r) == reset_event(name@, views(block@), number),
{
    let boot_time = find_column(block, "  Boot Time");
    let reason = find_column(block, "  Reason");
    let given = find_label(block, "│ REBOOT CAUSE:");
    let cause = match given {
        Some(c) => c,
        None => match &reason {
            Some(c) => c.clone(),
            None => {
                return None;
            },
        },
    };
    let kind = kind_of_reset(cause.as_str(), &reason);
    let time = text_or(&boot_time, "时间未识别");
    let boot_id = text_or(&find_label(block, "# boot_id:"), "未提供");
    let origin = text_or(&find_column(block, "  Source"), "未提供");
    let sw = text_or(&find_column(block, "  SW"), "未提供");
    let hw = text_or(&find_column(block, "  HW"), "未提供");
    let mut note = concat2("boot_id：", boot_id.as_str());
    note.append("；原始复位原因：");
    note.append(cause.as_str());
    note.append("；Source：");
    note.append(origin.as_str());
    note.append("；SW：");
    note.append(sw.as_str());
    note.append("；HW：");
    note.append(hw.as_str());
    let whole = join(block, "\n");
    let source = one_line_fragment(
        name,
        number,
        whole.as_str(),
        Vec::new(),
        time.as_str(),
        RESET_RECORD,
    );
    let ghost sv = source@;
    let mut sources: Vec<Fragment> = Vec::new();
    sources.push(source);
    proof {
        assert(views(sources@) =~= seq![sv]);
    }
    let key = parse_vendor_boot_key(&boot_time);
    let strength = if same(kind, "reset_reason") {
        "high"
    } else {
        "strong"
    };
    let exact = if boot_time.is_some() {
        "exact"
    } else {
        "unknown"
    };
    Some(
        Event {
            name: concat2("厂商复位原因：", cause.as_str()),
            group: "系统事件".to_owned(),
            time,
            key,
            note,
            sources,
            event_type: kind.to_owned(),
            evidence_strength: strength.to_owned(),
            time_precision: exact.to_owned(),
        },
    )
}

/// The events of the blocks, in their order.
pub open spec fn block_events(
    name: Seq<char>,
    lines: Seq<Seq<char>>,
    ranges: Seq<(int, int)>,
) -> Seq<EventView>
    decreases ranges.len(),
{
    if ranges.len() == 0 {
        Seq::empty()
    } else {
        let (s, e) = ranges[0];
        (match reset_event(name, lines.subrange(s, e), (s + 1) as usize) {
            Some(v) => seq![v],
            None => Seq::empty(),
        }) + block_events(name, lines, ranges.skip(1))
    }
}

/// The events of a reset record.
pub open spec fn reset_events(name: Seq<char>, text: Seq<char>) -> Seq<EventView> {
    block_events(name, lines(text), blocks(lines(text), 0, None))
}

fn push_block(name: &str, lines: &Vec<String>, from: usize, to: usize, events: &mut Vec<Event>)
    requires
        from < to <= lines.len(),
    ensures
        views(final(events)@) == views(old(events)@) + (match reset_event(
            name@,
            views(lines@).subrange(from as int, to as int),
            (from + 1) as usize,
        ) {
            Some(v) => seq![v],
            None => Seq::empty(),
        }),
{
    broadcast use group_views;

    let block = duplicate_range(lines, from, to);
    match event_of_block(name, &block, from + 1) {
        Some(e) => {
            let ghost before = views(events@);
            let ghost ev = e@;
            events.push(e);
            proof {
                assert(views(events@) =~= before + seq![ev]);
            }
        },
        None => {
            proof {
                assert(views(events@) =~= views(events@) + Seq::<EventView>::empty());
            }
        },
    }
}

/// Reads the vendor's reset record block by block; each block keeps its boot
/// identity and its reason together.
pub fn parse_reset_reason_blocks(name: &str, text: &str) -> (r: Vec<Event>)
    ensures
        views(r@) == reset_events(name@, text@),
{
    let all = lines_of(text);
    let ghost ls = views(all@);
    let mut events: Vec<Event> = Vec::new();
    let mut open: Option<usize> = None;
    let mut i: usize = 0;
    proof {
        assert(views(events@) =~= Seq::<EventView>::empty());
        assert(views(events@) + block_events(name@, ls, blocks(ls, 0, None)) =~= reset_events(
            name@,
            text@,
        ));
    }
    while i < all.len()
        invariant
            ls == views(all@),
            ls == lines(text@),
            i <= all.len(),
            open matches Some(s) ==> s < i,
            views(events@) + block_events(
                name@,
                ls,
                blocks(
                    ls,
                    i as int,
                    match open {
                        Some(s) => Some(s as int),
                        None => None,
                    },
                ),
            ) == reset_events(name@, text@),
        decreases all.len() - i,
    {
        if contains(all[i].as_str(), BLOCK_BEGIN) {
            open = Some(i);
        }
        if contains(all[i].as_str(), BLOCK_END) {
            if let Some(s) = open {
                let ghost before = views(events@);
                push_block(name, &all, s, i + 1, &mut events);
                proof {
                    let rest = blocks(ls, i + 1, None);
                    let here = seq![(s as int, i + 1)] + rest;
                    assert(here.skip(1) =~= rest);
                    assert(here[0] == (s as int, i + 1));
                    assert(before + block_events(name@, ls, here) =~= views(events@)
                        + block_events(name@, ls, rest));
                }
            } else {
                proof {
                    assert(Seq::<(int, int)>::empty() + blocks(ls, i + 1, None) =~= blocks(
                        ls,
                        i + 1,
                        None,
                    ));
                }
            }
            open = None;
        }
        i += 1;
    }
    if let Some(s) = open {
        let ghost before = views(events@);
        push_block(name, &all, s, i, &mut events);
        proof {
            let here = seq![(s as int, i as int)];
            assert(here.skip(1) =~= Seq::empty());
            assert(block_events(name@, ls, here.skip(1)) =~= Seq::empty());
            assert(before + block_events(name@, ls, here) =~= views(events@));
        }
    } else {
        proof {
            assert(views(events@) + Seq::<EventView>::empty() =~= views(events@));
        }
    }
    events
}

/// The boot identity that an event's note names.
pub open spec fn boot_id_of(note: Seq<char>) -> Option<Seq<char>> {
    match behind(note, "boot_id："@) {
        Some(v) => {
            let id = trim(head(v, Class::One('；')), Class::White);
            if id.len() == 0 || id == "未提供"@ {
                None
            } else {
                Some(id)
            }
        },
        None => None,
    }
}

pub fn extract_boot_id(event: &Event) -> (r: Option<String>)
    ensures
        opt_view(r) == boot_id_of(event.note@),
{
    match behind_text(event.note.as_str(), "boot_id：") {
        Some(v) => {
            let first = head_of(v.as_str(), Class::One('；'));
            let id = trimmed(first.as_str(), Class::White);
            if id.as_str().is_empty() || same(id.as_str(), "未提供") {
                None
            } else {
                Some(id)
            }
        },
        None => None,
    }
}

} // verus!
