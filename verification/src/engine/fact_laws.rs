//! What a line, an event or a reset record is taken for, by the marks in its text.

use crate::engine::ending_laws::lemma_kinds;
use crate::engine::facts::{
    block_events, blocks, boot_id_of, event_kind, event_text, line_event, reset_event, reset_events,
    reset_kind,
};
use crate::engine::model::EventView;
use crate::engine::time::time_of;
use crate::text::{begins, behind, has, joined, lower, trim, Class};
use vstd::prelude::*;

verus! {

/// Whether a text does not stand in another.
pub open spec fn lacks(s: Seq<char>, p: Seq<char>) -> bool {
    has(s, p) == false
}

/// The marks of a crash of the kernel.
pub open spec fn marks_crash(s: Seq<char>) -> bool {
    has(s, "panic - not syncing"@) || has(s, " oops:"@) || begins(s, "oops:"@) || has(
        s,
        " call trace:"@,
    ) || begins(s, "call trace:"@)
}

/// The marks of a watchdog or a lockup.
pub open spec fn marks_lockup(s: Seq<char>) -> bool {
    has(s, "hard lockup"@) || has(s, "soft lockup"@) || (has(s, "watchdog"@) && (has(s, "reset"@)
        || has(s, "reboot"@)))
}

/// The marks of a shutdown.
pub open spec fn marks_shutdown(s: Seq<char>) -> bool {
    has(s, "reached target shutdown"@) || has(s, "systemd-shutdown"@) || has(s, "powering off"@)
        || has(s, "do poweroff proc info"@)
}

/// The marks of a file system that was recovered.
pub open spec fn marks_recovery(s: Seq<char>) -> bool {
    has(s, "recovery complete"@) || has(s, "recovering journal"@) || (has(s, "ext4-fs"@) && has(
        s,
        "recovery"@,
    ))
}

/// The marks of a disk that was found again.
pub open spec fn marks_disk(s: Seq<char>) -> bool {
    has(s, "sata link up"@) || has(s, "attached scsi disk"@) || has(s, "ata[0-9].*link up"@)
}

/// The marks of an array that was put together again.
pub open spec fn marks_array(s: Seq<char>) -> bool {
    (has(s, " md"@) || has(s, "raid"@)) && (has(s, "assemble"@) || has(s, "started"@) || has(
        s,
        "recovery"@,
    ))
}

/// A line shows a fact exactly where it holds a mark of one, in letters of either
/// case, and the fact is of the type of the first mark that counts: a boot, a crash,
/// a lockup, a shutdown, a reboot, a recovered file system, a disk or an array.
pub proof fn law_lines_show_what_their_marks_say(file: Seq<char>, line: Seq<char>, number: usize)
    ensures
        ({
            let s = lower(line);
            let boot = has(s, "linux version"@);
            let crash = !boot && marks_crash(s);
            let dog = !boot && !marks_crash(s) && marks_lockup(s);
            let open = !boot && !marks_crash(s) && !marks_lockup(s);
            let restart = has(s, "reached target reboot"@) || has(s, "reboot: restarting system"@)
                || has(s, "systemd reboot"@);
            let off = open && marks_shutdown(s);
            let again = open && !marks_shutdown(s) && restart;
            let quiet = open && !marks_shutdown(s) && !restart;
            let journal = quiet && marks_recovery(s);
            let device = quiet && !marks_recovery(s) && (marks_disk(s) || marks_array(s));
            match line_event(file, line, number) {
                Some(e) => {
                    &&& e.event_type == "boot"@ <==> boot
                    &&& e.event_type == "kernel_panic"@ <==> crash
                    &&& e.event_type == "watchdog_reset"@ <==> dog
                    &&& e.event_type == "shutdown_request"@ <==> off
                    &&& e.event_type == "reboot_request"@ <==> again
                    &&& e.event_type == "filesystem_recovery"@ <==> journal
                    &&& e.event_type == "device_reenumeration"@ <==> device
                    &&& boot || crash || dog || off || again || journal || device
                },
                None => !boot && !crash && !dog && !off && !again && !journal && !device,
            }
        }),
{
    lemma_kinds();
}

/// The event of a line is named after its type, is strong evidence where it tells
/// of a boot or an ending and medium evidence otherwise, has the time of the line,
/// exact only where that is complete, and shows the line itself under its number.
pub proof fn law_line_facts_show_their_line(file: Seq<char>, line: Seq<char>, number: usize)
    ensures
        line_event(file, line, number) matches Some(e) ==> {
            &&& e.event_type == "boot"@ ==> e.name == "系统启动"@
            &&& e.event_type == "kernel_panic"@ ==> e.name == "Kernel Panic / Oops"@
            &&& e.event_type == "watchdog_reset"@ ==> e.name == "Watchdog 复位"@
            &&& e.event_type == "shutdown_request"@ ==> e.name == "系统关机流程"@
            &&& e.event_type == "reboot_request"@ ==> e.name == "系统重启流程"@
            &&& e.event_type == "filesystem_recovery"@ ==> e.name == "文件系统恢复"@
            &&& e.event_type == "device_reenumeration"@ ==> e.name == (if marks_disk(lower(line)) {
                "存储设备重新枚举"@
            } else {
                "RAID 阵列重新组装"@
            })
            &&& e.evidence_strength == (if e.event_type == "filesystem_recovery"@ || e.event_type
                == "device_reenumeration"@ {
                "medium"@
            } else {
                "strong"@
            })
            &&& (e.time, e.key) == time_of(line, None, Seq::empty(), Seq::empty())
            &&& e.time_precision == (if e.key is Some {
                "exact"@
            } else {
                "partial"@
            })
            &&& e.sources.len() == 1
            &&& e.sources[0].file == file
            &&& e.sources[0].lines.len() == 1
            &&& e.sources[0].lines[0].text == line
            &&& e.sources[0].lines[0].number == number
            &&& e.sources[0].lines[0].hit
        },
{
    lemma_kinds();
}

/// The event of a rule is of the type that its name and its text tell, in letters of
/// either case: a crash before a watchdog, then a shutdown, a reboot, a boot, a
/// recovered file system, a disk, and a cause that is not known.
pub proof fn law_events_are_what_their_text_says(name: Seq<char>, text: Seq<char>)
    ensures
        ({
            let s = lower(name + " "@ + text);
            let kind = event_kind(event_text(name, text));
            let crash = has(s, "kernel panic"@) || marks_crash(s);
            let dog = has(s, "watchdog"@);
            let off = marks_shutdown(s) || has(s, "关机流程"@);
            let again = has(s, "do reboot proc info"@) || has(s, "reached target reboot"@) || has(
                s,
                "reboot: restarting system"@,
            ) || has(s, "重启流程"@);
            let boot = has(s, "linux version"@);
            let journal = has(s, "recovery complete"@);
            let disk = has(s, "sata link up"@) || has(s, "attached scsi"@);
            let unknown = has(s, "unknown"@);
            &&& kind == "kernel_panic"@ <==> crash
            &&& kind == "watchdog_reset"@ <==> !crash && dog
            &&& kind == "shutdown_request"@ <==> !crash && !dog && off
            &&& kind == "reboot_request"@ <==> !crash && !dog && !off && again
            &&& kind == "boot"@ <==> !crash && !dog && !off && !again && boot
            &&& kind == "filesystem_recovery"@ <==> !crash && !dog && !off && !again && !boot
                && journal
            &&& kind == "device_reenumeration"@ <==> !crash && !dog && !off && !again && !boot
                && !journal && disk
            &&& kind == "reset_reason"@ <==> !crash && !dog && !off && !again && !boot && !journal
                && !disk && unknown
            &&& kind == "evidence"@ <==> !crash && !dog && !off && !again && !boot && !journal
                && !disk && !unknown
        }),
{
    lemma_kinds();
}

/// Whether a reason is given and is a word, in letters of either case.
pub open spec fn gives_reason(reason: Option<Seq<char>>, word: Seq<char>) -> bool {
    reason matches Some(r) && lower(r) == lower(word)
}

/// The vendor's record is of the type that its cause or its reason names: a crash
/// before a shutdown, then a reboot, a power loss, a watchdog and a hardware reset;
/// any other cause is none of these.
pub proof fn law_records_are_what_they_say(cause: Seq<char>, reason: Option<Seq<char>>)
    ensures
        ({
            let kind = reset_kind(cause, reason);
            let crash = has(cause, "Kernel Panic"@) || gives_reason(reason, "kernel_panic"@);
            let off = has(cause, "NORMAL — Shutdown"@) || gives_reason(reason, "poweroff"@);
            let again = has(cause, "NORMAL — Reboot"@) || gives_reason(reason, "normal_reboot"@);
            let power = has(cause, "POWER"@) || has(cause, "Power"@) || gives_reason(
                reason,
                "power_loss"@,
            );
            let dog = has(lower(cause), "watchdog"@) || gives_reason(reason, "watchdog"@);
            let reset = has(lower(cause), "hardware"@) || gives_reason(reason, "hardware_reset"@);
            &&& kind == "kernel_panic"@ <==> crash
            &&& kind == "shutdown_complete"@ <==> !crash && off
            &&& kind == "reboot_complete"@ <==> !crash && !off && again
            &&& kind == "power_loss_hint"@ <==> !crash && !off && !again && power
            &&& kind == "watchdog_reset"@ <==> !crash && !off && !again && !power && dog
            &&& kind == "hardware_reset"@ <==> !crash && !off && !again && !power && !dog && reset
            &&& kind == "reset_reason"@ <==> !crash && !off && !again && !power && !dog && !reset
        }),
{
    lemma_kinds();
}

/// Whether a line gives the value of a label: the label stands at its start, and
/// what follows it, without white space around it, is the value.
pub open spec fn labels(line: Seq<char>, label: Seq<char>, value: Seq<char>) -> bool {
    exists|rest: Seq<char>| line == #[trigger] (label + rest) && value == trim(rest, Class::White)
}

/// Whether a line gives the value of a column: the label stands at its start, and
/// what follows the next blank, without white space around it, is the value.
pub open spec fn columns(line: Seq<char>, label: Seq<char>, value: Seq<char>) -> bool {
    exists|more: Seq<char>, rest: Seq<char>|
        line == #[trigger] (label + more + " "@ + rest) && !crate::text::has_char(more, ' ')
            && value == trim(rest, Class::White)
}

/// Whether a block gives the value of a label in a line, and in none before it.
pub open spec fn gives_label(block: Seq<Seq<char>>, label: Seq<char>, value: Seq<char>) -> bool {
    exists|i: int|
        0 <= i < block.len() && labels(#[trigger] block[i], label, value) && forall|j: int|
            0 <= j < i ==> !begins(#[trigger] block[j], label)
}

proof fn lemma_label(line: Seq<char>, label: Seq<char>)
    ensures
        crate::engine::facts::label_text(line, label) is Some <==> begins(line, label),
        crate::engine::facts::label_text(line, label) matches Some(v) ==> labels(line, label, v),
{
    if begins(line, label) {
        let rest = line.subrange(label.len() as int, line.len() as int);
        assert(line =~= label + rest);
        assert(labels(line, label, trim(rest, Class::White)));
    }
}

proof fn lemma_first_label(block: Seq<Seq<char>>, label: Seq<char>, i: int)
    requires
        0 <= i <= block.len(),
        forall|j: int| 0 <= j < i ==> !begins(#[trigger] block[j], label),
    ensures
        ({
            let f = |l: Seq<char>| crate::engine::facts::label_text(l, label);
            match crate::text::first_result(block, f, i) {
                Some(v) => gives_label(block, label, v),
                None => forall|j: int| 0 <= j < block.len() ==> !begins(#[trigger] block[j], label),
            }
        }),
    decreases block.len() - i,
{
    let f = |l: Seq<char>| crate::engine::facts::label_text(l, label);
    if i < block.len() {
        lemma_label(block[i], label);
        if f(block[i]) is Some {
            assert(labels(block[i], label, f(block[i])->0));
        } else {
            lemma_first_label(block, label, i + 1);
        }
    }
}

/// The boot identity of a record is the text that its line `# boot_id:` gives, and
/// can be read again from the note of its event.
pub proof fn law_records_name_their_boot(name: Seq<char>, block: Seq<Seq<char>>, number: usize)
    ensures
        reset_event(name, block, number) matches Some(e) ==> {
            match crate::engine::facts::label_in(block, "# boot_id:"@) {
                Some(id) => gives_label(block, "# boot_id:"@, id) && begins(
                    e.note,
                    "boot_id："@ + id + "；原始复位原因："@,
                ),
                None => (forall|j: int|
                    0 <= j < block.len() ==> !begins(#[trigger] block[j], "# boot_id:"@)) && begins(
                    e.note,
                    "boot_id：未提供；原始复位原因："@,
                ),
            }
        },
{
    lemma_first_label(block, "# boot_id:"@, 0);
    if let Some(e) = reset_event(name, block, number) {
        let id = crate::engine::facts::or_else(
            crate::engine::facts::label_in(block, "# boot_id:"@),
            "未提供"@,
        );
        let start = "boot_id："@ + id + "；原始复位原因："@;
        assert(e.note.subrange(0, start.len() as int) =~= start);
        reveal_strlit("boot_id：未提供；原始复位原因：");
        reveal_strlit("boot_id：");
        reveal_strlit("未提供");
        reveal_strlit("；原始复位原因：");
        assert("boot_id："@ + "未提供"@ + "；原始复位原因："@
            =~= "boot_id：未提供；原始复位原因："@);
    }
}

/// A record gives an event exactly where it gives a cause or a reason. Its cause is
/// that of the line `│ REBOOT CAUSE:`, else its reason; the event is named after it,
/// is of the type that both tell, has the time of the boot that the record gives,
/// and shows the record.
pub proof fn law_records_give_their_cause(name: Seq<char>, block: Seq<Seq<char>>, number: usize)
    ensures
        ({
            let given = crate::engine::facts::label_in(block, "│ REBOOT CAUSE:"@);
            let reason = crate::engine::facts::column_in(block, "  Reason"@);
            let boot = crate::engine::facts::column_in(block, "  Boot Time"@);
            &&& given matches Some(c) ==> gives_label(block, "│ REBOOT CAUSE:"@, c)
            &&& given is None ==> forall|j: int|
                0 <= j < block.len() ==> !begins(#[trigger] block[j], "│ REBOOT CAUSE:"@)
            &&& match reset_event(name, block, number) {
                Some(e) => {
                    let cause = if given is Some {
                        given->0
                    } else {
                        reason->0
                    };
                    &&& given is Some || reason is Some
                    &&& e.name == "厂商复位原因："@ + cause
                    &&& e.event_type == reset_kind(cause, reason)
                    &&& e.evidence_strength == (if e.event_type == "reset_reason"@ {
                        "high"@
                    } else {
                        "strong"@
                    })
                    &&& boot matches Some(t) ==> e.time == t && e.time_precision == "exact"@
                    &&& boot is None ==> e.time == "时间未识别"@ && e.time_precision == "unknown"@
                        && e.key is None
                    &&& e.sources.len() == 1
                    &&& e.sources[0].file == name
                    &&& e.sources[0].annotation == "pstore 结构化复位原因块"@
                    &&& e.sources[0].lines.len() == 1
                    &&& e.sources[0].lines[0].number == number
                    &&& e.sources[0].lines[0].text == joined(block, "\n"@)
                },
                None => given is None && reason is None,
            }
        }),
{
    lemma_first_label(block, "│ REBOOT CAUSE:"@, 0);
}

/// Whether the lines from one place up to another are a record: it begins where its
/// first line says so, no other begins within it, and it ends with the line that
/// says so, or with the text.
pub open spec fn is_record(lines: Seq<Seq<char>>, from: int, to: int) -> bool {
    &&& 0 <= from < to <= lines.len()
    &&& has(lines[from], "# BEGIN ug_reset_reason"@)
    &&& forall|j: int| from < j < to ==> lacks(#[trigger] lines[j], "# BEGIN ug_reset_reason"@)
    &&& forall|j: int| from <= j < to - 1 ==> lacks(#[trigger] lines[j], "# END ug_reset_reason"@)
    &&& has(lines[to - 1], "# END ug_reset_reason"@) || to == lines.len()
}

/// Whether a record may be open at a line: it began before and did not end.
pub open spec fn is_open(lines: Seq<Seq<char>>, i: int, from: int) -> bool {
    &&& 0 <= from < i
    &&& has(lines[from], "# BEGIN ug_reset_reason"@)
    &&& forall|j: int| from < j < i ==> lacks(#[trigger] lines[j], "# BEGIN ug_reset_reason"@)
    &&& forall|j: int| from <= j < i ==> lacks(#[trigger] lines[j], "# END ug_reset_reason"@)
}

proof fn lemma_blocks(lines: Seq<Seq<char>>, i: int, open: Option<int>)
    requires
        0 <= i <= lines.len(),
        open matches Some(s) ==> is_open(lines, i, s),
    ensures
        ({
            let b = blocks(lines, i, open);
            &&& forall|k: int|
                0 <= k < b.len() ==> is_record(lines, (#[trigger] b[k]).0, b[k].1) && (b[k].0 >= i
                    || open == Some(b[k].0))
            &&& forall|s: int, e: int|
                (s >= i || open == Some(s)) && #[trigger] is_record(lines, s, e) ==> b.contains(
                    (s, e),
                )
        }),
    decreases lines.len() - i,
{
    let b = blocks(lines, i, open);
    if i >= lines.len() {
        assert forall|s: int, e: int|
            (s >= i || open == Some(s)) && #[trigger] is_record(lines, s, e) implies b.contains(
            (s, e),
        ) by {
            if e < lines.len() {
                assert(has(lines[e - 1], "# END ug_reset_reason"@));
            }
            assert(b[0] == (s, e));
        }
    } else {
        let now = if has(lines[i], "# BEGIN ug_reset_reason"@) {
            Some(i)
        } else {
            open
        };
        if has(lines[i], "# END ug_reset_reason"@) {
            lemma_blocks(lines, i + 1, None);
            let rest = blocks(lines, i + 1, None);
            let first = match now {
                Some(s) => seq![(s, i + 1)],
                None => Seq::empty(),
            };
            assert(b == first + rest);
            assert forall|k: int| 0 <= k < b.len() implies is_record(
                lines,
                (#[trigger] b[k]).0,
                b[k].1,
            ) && (b[k].0 >= i || open == Some(b[k].0)) by {
                if k >= first.len() {
                    assert(b[k] == rest[k - first.len()]);
                } else {
                    assert(b[k] == first[0]);
                }
            }
            assert forall|s: int, e: int|
                (s >= i || open == Some(s)) && #[trigger] is_record(lines, s, e) implies b.contains(
                (s, e),
            ) by {
                if s > i {
                    assert(rest.contains((s, e)));
                    let k = choose|k: int| 0 <= k < rest.len() && rest[k] == (s, e);
                    assert(b[first.len() + k] == (s, e));
                } else {
                    if e <= i {
                        assert(lacks(lines[e - 1], "# END ug_reset_reason"@));
                    }
                    if e > i + 1 {
                        assert(lacks(lines[i], "# END ug_reset_reason"@));
                    }
                    assert(now == Some(s));
                    assert(b[0] == (s, e));
                }
            }
        } else {
            assert(now matches Some(s) ==> is_open(lines, i + 1, s));
            lemma_blocks(lines, i + 1, now);
            assert(b == blocks(lines, i + 1, now));
            assert forall|s: int, e: int|
                (s >= i || open == Some(s)) && #[trigger] is_record(lines, s, e) implies b.contains(
                (s, e),
            ) by {
                if s < i {
                    if e <= i {
                        assert(lacks(lines[e - 1], "# END ug_reset_reason"@));
                    } else {
                        assert(lacks(lines[i], "# BEGIN ug_reset_reason"@));
                    }
                    assert(now == Some(s));
                }
            }
        }
    }
}

/// Whether the event is that of a record of the lines.
pub open spec fn is_event_of(
    e: EventView,
    name: Seq<char>,
    lines: Seq<Seq<char>>,
    from: int,
    to: int,
) -> bool {
    is_record(lines, from, to) && reset_event(
        name,
        lines.subrange(from, to),
        (from + 1) as usize,
    ) == Some(e)
}

proof fn lemma_block_events(name: Seq<char>, lines: Seq<Seq<char>>, ranges: Seq<(int, int)>)
    ensures
        forall|e: EventView| #[trigger]
            block_events(name, lines, ranges).contains(e) <==> exists|k: int|
                0 <= k < ranges.len() && reset_event(
                    name,
                    lines.subrange((#[trigger] ranges[k]).0, ranges[k].1),
                    (ranges[k].0 + 1) as usize,
                ) == Some(e),
    decreases ranges.len(),
{
    let all = block_events(name, lines, ranges);
    if ranges.len() > 0 {
        let rest = ranges.skip(1);
        lemma_block_events(name, lines, rest);
        let tail = block_events(name, lines, rest);
        let (s, t) = ranges[0];
        let made = reset_event(name, lines.subrange(s, t), (s + 1) as usize);
        let first = match made {
            Some(v) => seq![v],
            None => Seq::empty(),
        };
        assert(all == first + tail);
        assert forall|e: EventView| #[trigger] all.contains(e) <==> exists|k: int|
            0 <= k < ranges.len() && reset_event(
                name,
                lines.subrange((#[trigger] ranges[k]).0, ranges[k].1),
                (ranges[k].0 + 1) as usize,
            ) == Some(e) by {
            if all.contains(e) {
                let i = choose|i: int| 0 <= i < all.len() && all[i] == e;
                if i < first.len() {
                    assert(ranges[0] == (s, t));
                } else {
                    assert(tail[i - first.len()] == e);
                    assert(tail.contains(e));
                    let k = choose|k: int|
                        0 <= k < rest.len() && reset_event(
                            name,
                            lines.subrange((#[trigger] rest[k]).0, rest[k].1),
                            (rest[k].0 + 1) as usize,
                        ) == Some(e);
                    assert(ranges[k + 1] == rest[k]);
                }
            }
            if exists|k: int|
                0 <= k < ranges.len() && reset_event(
                    name,
                    lines.subrange((#[trigger] ranges[k]).0, ranges[k].1),
                    (ranges[k].0 + 1) as usize,
                ) == Some(e) {
                let k = choose|k: int|
                    0 <= k < ranges.len() && reset_event(
                        name,
                        lines.subrange((#[trigger] ranges[k]).0, ranges[k].1),
                        (ranges[k].0 + 1) as usize,
                    ) == Some(e);
                if k == 0 {
                    assert(all[0] == e);
                } else {
                    assert(rest[k - 1] == ranges[k]);
                    assert(tail.contains(e));
                    let i = choose|i: int| 0 <= i < tail.len() && tail[i] == e;
                    assert(all[first.len() + i] == e);
                }
            }
        }
    }
}

/// The events of a reset file are those of its records, and of all of them.
pub proof fn law_every_record_is_read(name: Seq<char>, text: Seq<char>, e: EventView)
    ensures
        reset_events(name, text).contains(e) <==> exists|from: int, to: int| #[trigger]
            is_event_of(e, name, crate::text::lines(text), from, to),
{
    let ls = crate::text::lines(text);
    let b = blocks(ls, 0, None);
    lemma_blocks(ls, 0, None);
    lemma_block_events(name, ls, b);
    if reset_events(name, text).contains(e) {
        let k = choose|k: int|
            0 <= k < b.len() && reset_event(
                name,
                ls.subrange((#[trigger] b[k]).0, b[k].1),
                (b[k].0 + 1) as usize,
            ) == Some(e);
        assert(is_event_of(e, name, ls, b[k].0, b[k].1));
    }
    if exists|from: int, to: int| #[trigger] is_event_of(e, name, ls, from, to) {
        let (from, to) = choose|from: int, to: int| #[trigger] is_event_of(e, name, ls, from, to);
        assert(b.contains((from, to)));
        let k = choose|k: int| 0 <= k < b.len() && b[k] == (from, to);
        assert(b[k].0 == from);
    }
}

proof fn lemma_find_first(s: Seq<char>, p: Seq<char>, i: int, k: int)
    requires
        0 <= i <= k,
        crate::text::occurs_at(s, p, k),
    ensures
        crate::text::find(s, p, i) matches Some(j) && i <= j <= k && crate::text::occurs_at(s, p, j),
    decreases k - i,
{
    if !crate::text::occurs_at(s, p, i) {
        lemma_find_first(s, p, i + 1, k);
    }
}

/// The boot identity that a note names: what stands behind `boot_id：` up to the
/// next `；`, without white space around it; none where it says that none is given.
pub proof fn law_notes_give_their_boot(front: Seq<char>, id: Seq<char>, rest: Seq<char>)
    requires
        lacks(front + "boot_id："@.drop_last(), "boot_id："@),
        !crate::text::has_char(id, '；'),
    ensures
        boot_id_of(front + "boot_id："@ + id + "；"@ + rest) == (if trim(id, Class::White).len() == 0
            || trim(id, Class::White) == "未提供"@ {
            None
        } else {
            Some(trim(id, Class::White))
        }),
{
    reveal_strlit("boot_id：");
    reveal_strlit("；");
    let p = "boot_id："@;
    let s = front + p + id + "；"@ + rest;
    let v = id + "；"@ + rest;
    assert(s.subrange(front.len() as int, front.len() as int + p.len()) =~= p);
    assert(crate::text::occurs_at(s, p, front.len() as int));
    lemma_find_first(s, p, 0, front.len() as int);
    assert(behind(s, p) is Some);
    let j = crate::text::find(s, p, 0)->0;
    if j < front.len() {
        let h = front + p.drop_last();
        assert(h.subrange(j, j + p.len()) =~= s.subrange(j, j + p.len()));
        assert(crate::text::occurs_at(h, p, j));
    }
    assert(j == front.len());
    assert(behind(s, p)->0 =~= v);
    crate::text::lemma_seek_bounds(v, Class::One('；'), true, 0);
    let k = crate::text::seek(v, Class::One('；'), true, 0);
    assert(v[id.len() as int] == '；');
    if k < id.len() {
        assert(id[k] == v[k]);
    }
    if id.len() < k {
        assert(Class::One('；').holds(v[id.len() as int]));
    }
    assert(crate::text::head(v, Class::One('；')) =~= id);
}

/// A column is what stands behind its label and the first blank that follows it, in
/// the first line that has both.
pub proof fn law_columns_stand_behind_their_label(
    block: Seq<Seq<char>>,
    label: Seq<char>,
    value: Seq<char>,
    i: int,
)
    ensures
        0 <= i < block.len() && columns(block[i], label, value) && (forall|j: int|
            0 <= j < i ==> !begins(#[trigger] block[j], label))
            ==> crate::engine::facts::column_in(block, label) == Some(value),
        (forall|j: int| 0 <= j < block.len() ==> !begins(#[trigger] block[j], label))
            ==> crate::engine::facts::column_in(block, label) is None,
{
    let f = |l: Seq<char>| crate::engine::facts::column_text(l, label);
    if 0 <= i < block.len() && columns(block[i], label, value) && (forall|j: int|
        0 <= j < i ==> !begins(#[trigger] block[j], label)) {
        let (more, rest) = choose|more: Seq<char>, rest: Seq<char>|
            block[i] == #[trigger] (label + more + " "@ + rest) && !crate::text::has_char(more, ' ')
                && value == trim(rest, Class::White);
        reveal_strlit(" ");
        assert(" "@ =~= seq![' ']);
        let l = block[i];
        assert(l.subrange(0, label.len() as int) =~= label);
        let v = l.subrange(label.len() as int, l.len() as int);
        assert(v =~= more + seq![' '] + rest);
        assert(crate::text_laws::none_in(more, Class::One(' ')));
        crate::text_laws::law_texts_are_cut_at_the_character(more, ' ', rest, Class::One(' '));
        assert(f(l) == Some(value));
        lemma_first_found(block, f, 0, i);
    }
    if forall|j: int| 0 <= j < block.len() ==> !begins(#[trigger] block[j], label) {
        lemma_none_found(block, f, 0);
    }
}

proof fn lemma_first_found(
    s: Seq<Seq<char>>,
    f: spec_fn(Seq<char>) -> Option<Seq<char>>,
    i: int,
    j: int,
)
    requires
        0 <= i <= j < s.len(),
        f(s[j]) is Some,
        forall|k: int| 0 <= k < j ==> f(#[trigger] s[k]) is None,
    ensures
        crate::text::first_result(s, f, i) == f(s[j]),
    decreases j - i,
{
    if i < j {
        assert(f(s[i]) is None);
        lemma_first_found(s, f, i + 1, j);
    }
}

proof fn lemma_none_found(s: Seq<Seq<char>>, f: spec_fn(Seq<char>) -> Option<Seq<char>>, i: int)
    requires
        0 <= i <= s.len(),
        forall|k: int| 0 <= k < s.len() ==> f(#[trigger] s[k]) is None,
    ensures
        crate::text::first_result(s, f, i) is None,
    decreases s.len() - i,
{
    if i < s.len() {
        assert(f(s[i]) is None);
        lemma_none_found(s, f, i + 1);
    }
}

/// The note of a record gives its boot, its cause, its source and both reset registers
/// as the record has them, and says of each that is missing that it was not given.
pub proof fn law_notes_give_what_the_record_has(name: Seq<char>, block: Seq<Seq<char>>, number: usize)
    ensures
        reset_event(name, block, number) matches Some(e) ==> {
            let id = crate::engine::facts::label_in(block, "# boot_id:"@);
            let given = crate::engine::facts::label_in(block, "│ REBOOT CAUSE:"@);
            let reason = crate::engine::facts::column_in(block, "  Reason"@);
            let source = crate::engine::facts::column_in(block, "  Source"@);
            let sw = crate::engine::facts::column_in(block, "  SW"@);
            let hw = crate::engine::facts::column_in(block, "  HW"@);
            e.note == "boot_id："@ + as_given(id) + "；原始复位原因："@ + (if given is Some {
                given->0
            } else {
                reason->0
            }) + "；Source："@ + as_given(source) + "；SW："@ + as_given(sw) + "；HW："@ + as_given(hw)
        },
{
}

/// What is shown of a value that may be missing.
pub open spec fn as_given(v: Option<Seq<char>>) -> Seq<char> {
    match v {
        Some(s) => s,
        None => "未提供"@,
    }
}

} // verus!
