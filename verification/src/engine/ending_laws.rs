//! How a boot session ended, told from its facts alone.

use crate::engine::model::EventView;
use crate::engine::sessions::{caveats, clock_before, earliest, ending, incident, latest};
use crate::engine::time::clock_of;
use crate::select::{lemma_kept_source, lemma_kept_there};
use crate::text::kept;
use vstd::prelude::*;

verus! {

/// Whether one of the facts is of a type.
pub open spec fn tells(facts: Seq<EventView>, kind: Seq<char>) -> bool {
    exists|i: int| 0 <= i < facts.len() && (#[trigger] facts[i]).event_type == kind
}

/// The types of facts differ: by their first letters, or by their lengths.
pub proof fn lemma_kinds()
    ensures
        "kernel_panic"@[0] == 'k' && "kernel_panic"@.len() == 12,
        "watchdog_reset"@[0] == 'w' && "watchdog_reset"@.len() == 14,
        "hardware_reset"@[0] == 'h' && "hardware_reset"@.len() == 14,
        "reboot_request"@[0] == 'r' && "reboot_request"@.len() == 14,
        "reboot_complete"@[0] == 'r' && "reboot_complete"@.len() == 15,
        "reset_reason"@[0] == 'r' && "reset_reason"@.len() == 12,
        "shutdown_request"@[0] == 's' && "shutdown_request"@.len() == 16,
        "shutdown_complete"@[0] == 's' && "shutdown_complete"@.len() == 17,
        "filesystem_recovery"@[0] == 'f' && "filesystem_recovery"@.len() == 19,
        "device_reenumeration"@[0] == 'd' && "device_reenumeration"@.len() == 20,
        "power_loss_hint"@[0] == 'p' && "power_loss_hint"@.len() == 15,
        "boot"@[0] == 'b' && "boot"@.len() == 4,
        "evidence"@[0] == 'e' && "evidence"@.len() == 8,
{
    reveal_strlit("kernel_panic");
    reveal_strlit("watchdog_reset");
    reveal_strlit("hardware_reset");
    reveal_strlit("reboot_request");
    reveal_strlit("reboot_complete");
    reveal_strlit("reset_reason");
    reveal_strlit("shutdown_request");
    reveal_strlit("shutdown_complete");
    reveal_strlit("filesystem_recovery");
    reveal_strlit("device_reenumeration");
    reveal_strlit("power_loss_hint");
    reveal_strlit("boot");
    reveal_strlit("evidence");
}

/// The names of endings differ.
pub proof fn lemma_endings()
    ensures
        "Kernel Panic 重启"@[0] == 'K',
        "Watchdog 重启"@[0] == 'W',
        "硬件复位"@[0] == '硬',
        "正常重启"@[0] == '正' && "正常重启"@[2] == '重',
        "正常关机"@[0] == '正' && "正常关机"@[2] == '关',
        "疑似断电"@[0] == '疑',
        "未知复位"@[0] == '未',
{
    reveal_strlit("Kernel Panic 重启");
    reveal_strlit("Watchdog 重启");
    reveal_strlit("硬件复位");
    reveal_strlit("正常重启");
    reveal_strlit("正常关机");
    reveal_strlit("疑似断电");
    reveal_strlit("未知复位");
}

/// Each ending is named exactly where its facts are there and none of those that
/// weigh more: a crash of the kernel before a watchdog, a watchdog before a
/// hardware reset, then a reboot, then a shutdown, then traces of a power loss.
pub proof fn law_each_ending_has_its_facts(facts: Seq<EventView>)
    ensures
        ({
            let class = ending(facts).0;
            let panic = tells(facts, "kernel_panic"@);
            let dog = tells(facts, "watchdog_reset"@);
            let reset = tells(facts, "hardware_reset"@);
            let reboot = tells(facts, "reboot_request"@) || tells(facts, "reboot_complete"@);
            let shutdown = tells(facts, "shutdown_request"@) || tells(facts, "shutdown_complete"@);
            let trace = tells(facts, "filesystem_recovery"@) || tells(
                facts,
                "device_reenumeration"@,
            );
            &&& class == "Kernel Panic 重启"@ <==> panic
            &&& class == "Watchdog 重启"@ <==> !panic && dog
            &&& class == "硬件复位"@ <==> !panic && !dog && reset
            &&& class == "正常重启"@ <==> !panic && !dog && !reset && reboot
            &&& class == "正常关机"@ <==> !panic && !dog && !reset && !reboot && shutdown
            &&& class == "疑似断电"@ <==> !panic && !dog && !reset && !reboot && !shutdown && trace
            &&& class == "未知复位"@ <==> !panic && !dog && !reset && !reboot && !shutdown && !trace
        }),
{
    lemma_endings();
    lemma_tells(facts, "kernel_panic"@);
    lemma_tells(facts, "watchdog_reset"@);
    lemma_tells(facts, "hardware_reset"@);
    lemma_tells(facts, "reboot_request"@);
    lemma_tells(facts, "reboot_complete"@);
    lemma_tells(facts, "shutdown_request"@);
    lemma_tells(facts, "shutdown_complete"@);
    lemma_tells(facts, "filesystem_recovery"@);
    lemma_tells(facts, "device_reenumeration"@);
}

proof fn lemma_tells(facts: Seq<EventView>, kind: Seq<char>)
    ensures
        crate::engine::sessions::has_kind(facts, kind) == tells(facts, kind),
{
    let f = |e: EventView| e.event_type == kind;
    if tells(facts, kind) {
        let i = choose|i: int| 0 <= i < facts.len() && (#[trigger] facts[i]).event_type == kind;
        assert(f(facts[i]));
    }
}

/// How sure an ending is and why it is named: a known ending is sure and rests on
/// the record that was found, a suspected power loss names each of its traces and
/// that no regular ending was found, and an unknown one says that too little is
/// known.
pub proof fn law_endings_say_why(facts: Seq<EventView>)
    ensures
        ({
            let (class, sure, why) = ending(facts);
            &&& class == "Kernel Panic 重启"@ ==> sure == "高"@ && why == seq![
                "发现系统内核崩溃记录"@,
            ]
            &&& class == "Watchdog 重启"@ ==> sure == "高"@ && why == seq![
                "系统在无响应后触发了自动复位"@,
            ]
            &&& class == "硬件复位"@ ==> sure == "高"@ && why == seq!["设备记录到硬件复位"@]
            &&& class == "正常重启"@ ==> sure == "高"@ && why == seq!["找到完整的正常重启记录"@]
            &&& class == "正常关机"@ ==> sure == "高"@ && why == seq!["找到正常关机流程记录"@]
            &&& class == "疑似断电"@ ==> sure == "中"@ && why.last()
                == "没有找到正常关机或重启记录"@ && (why.contains("硬盘在启动过程中被重新识别"@)
                <==> tells(facts, "device_reenumeration"@)) && (why.contains(
                "文件系统执行过异常中断恢复"@,
            ) <==> tells(facts, "filesystem_recovery"@))
            &&& class == "未知复位"@ ==> sure == "低"@ && why == seq![
                "没有足够记录判断上次关机原因"@,
            ]
        }),
{
    lemma_endings();
    lemma_tells(facts, "filesystem_recovery"@);
    lemma_tells(facts, "device_reenumeration"@);
    reveal_strlit("硬盘在启动过程中被重新识别");
    reveal_strlit("文件系统执行过异常中断恢复");
    reveal_strlit("没有找到正常关机或重启记录");
    let (class, sure, why) = ending(facts);
    if class == "疑似断电"@ {
        let a = "硬盘在启动过程中被重新识别"@;
        let b = "文件系统执行过异常中断恢复"@;
        let c = "没有找到正常关机或重启记录"@;
        assert(a[0] == '硬' && b[0] == '文' && c[0] == '没');
        let d = tells(facts, "device_reenumeration"@);
        let f = tells(facts, "filesystem_recovery"@);
        if d && f {
            assert(why =~= seq![a, b, c]);
            assert(why[0] == a && why[1] == b);
        } else if d {
            assert(why =~= seq![a, c]);
            assert(why[0] == a);
        } else {
            assert(why =~= seq![b, c]);
            assert(why[0] == b);
        }
    }
}

/// Whether a fact of this type settles an ending of this name.
pub open spec fn settles(class: Seq<char>, kind: Seq<char>) -> bool {
    ||| class == "Kernel Panic 重启"@ && kind == "kernel_panic"@
    ||| class == "Watchdog 重启"@ && kind == "watchdog_reset"@
    ||| class == "硬件复位"@ && kind == "hardware_reset"@
    ||| class == "正常重启"@ && (kind == "reboot_request"@ || kind == "reboot_complete"@)
    ||| class == "正常关机"@ && (kind == "shutdown_request"@ || kind == "shutdown_complete"@)
}

/// Whether a fact settles the ending and none that does stands later on the clock.
pub open spec fn settled_last(class: Seq<char>, facts: Seq<EventView>, i: int) -> bool {
    &&& 0 <= i < facts.len()
    &&& settles(class, facts[i].event_type)
    &&& forall|j: int|
        0 <= j < facts.len() && settles(class, (#[trigger] facts[j]).event_type) ==> !stands_before(
            clock_of(facts[i].time),
            clock_of(facts[j].time),
        )
}

/// The order of clocks: by month, day and seconds; a missing one comes first.
pub open spec fn stands_before(
    a: Option<crate::engine::time::Clock>,
    b: Option<crate::engine::time::Clock>,
) -> bool {
    match (a, b) {
        (_, None) => false,
        (None, Some(_)) => true,
        (Some(x), Some(y)) => if x.0 != y.0 {
            x.0 < y.0
        } else if x.1 != y.1 {
            x.1 < y.1
        } else {
            x.2 < y.2
        },
    }
}

proof fn lemma_latest(s: Seq<EventView>) -> (k: int)
    requires
        s.len() > 0,
    ensures
        0 <= k < s.len(),
        latest(s) == s[k],
        forall|j: int|
            0 <= j < s.len() ==> !stands_before(
                clock_of(s[k].time),
                clock_of((#[trigger] s[j]).time),
            ),
    decreases s.len(),
{
    if s.len() == 1 {
        0
    } else {
        let m = lemma_latest(s.drop_last());
        let e = s.drop_last()[m];
        let last = clock_of(s.last().time);
        assert(clock_before(last, clock_of(e.time)) == stands_before(last, clock_of(e.time)));
        if clock_before(last, clock_of(e.time)) {
            assert forall|j: int| 0 <= j < s.len() implies !stands_before(
                clock_of(s[m].time),
                clock_of((#[trigger] s[j]).time),
            ) by {
                if j < s.len() - 1 {
                    assert(s[j] == s.drop_last()[j]);
                }
            }
            m
        } else {
            assert forall|j: int| 0 <= j < s.len() implies !stands_before(
                last,
                clock_of((#[trigger] s[j]).time),
            ) by {
                if j < s.len() - 1 {
                    assert(s[j] == s.drop_last()[j]);
                    assert(!stands_before(clock_of(e.time), clock_of(s[j].time)));
                }
            }
            s.len() - 1
        }
    }
}

proof fn lemma_earliest(s: Seq<EventView>) -> (k: int)
    requires
        s.len() > 0,
    ensures
        0 <= k < s.len(),
        earliest(s) == s[k],
        forall|j: int|
            0 <= j < s.len() ==> !stands_before(
                clock_of((#[trigger] s[j]).time),
                clock_of(s[k].time),
            ),
    decreases s.len(),
{
    if s.len() == 1 {
        0
    } else {
        let m = lemma_earliest(s.drop_last());
        let e = s.drop_last()[m];
        let last = clock_of(s.last().time);
        assert(clock_before(last, clock_of(e.time)) == stands_before(last, clock_of(e.time)));
        if clock_before(last, clock_of(e.time)) {
            assert forall|j: int| 0 <= j < s.len() implies !stands_before(
                clock_of((#[trigger] s[j]).time),
                last,
            ) by {
                if j < s.len() - 1 {
                    assert(s[j] == s.drop_last()[j]);
                    assert(!stands_before(clock_of(s[j].time), clock_of(e.time)));
                }
            }
            s.len() - 1
        } else {
            assert forall|j: int| 0 <= j < s.len() implies !stands_before(
                clock_of((#[trigger] s[j]).time),
                clock_of(s[m].time),
            ) by {
                if j < s.len() - 1 {
                    assert(s[j] == s.drop_last()[j]);
                }
            }
            m
        }
    }
}

/// A session that ended in a known way ended when the last of the facts that
/// settle it was recorded: exactly where that fact has a complete time, else about
/// then.
pub proof fn law_known_endings_have_the_time_of_their_fact(
    facts: Seq<EventView>,
    boot: EventView,
    next: Option<EventView>,
    window: int,
)
    requires
        ending(facts).0 != "疑似断电"@,
        ending(facts).0 != "未知复位"@,
    ensures
        ({
            let class = ending(facts).0;
            let (from, to, exact) = incident(class, facts, boot, next, window);
            exists|i: int| #[trigger]
                settled_last(class, facts, i) && from == facts[i].time && to is None && exact == (
                if facts[i].key is Some {
                    "exact"@
                } else {
                    "approximate"@
                })
        }),
{
    lemma_endings();
    lemma_kinds();
    law_each_ending_has_its_facts(facts);
    let class = ending(facts).0;
    let f = |e: EventView| crate::engine::sessions::decisive(class, e.event_type);
    assert forall|e: EventView| #[trigger] f(e) == settles(class, e.event_type) by {}
    let settled = kept(facts, f, 0);
    assert(exists|i: int| 0 <= i < facts.len() && settles(class, (#[trigger] facts[i]).event_type));
    let x = choose|i: int| 0 <= i < facts.len() && settles(class, (#[trigger] facts[i]).event_type);
    assert(f(facts[x]));
    let y = lemma_kept_there(facts, f, x);
    let k = lemma_latest(settled);
    let i = lemma_kept_source(facts, f, k);
    assert(settled_last(class, facts, i)) by {
        assert forall|j: int|
            0 <= j < facts.len() && settles(class, (#[trigger] facts[j]).event_type) implies
            !stands_before(clock_of(facts[i].time), clock_of(facts[j].time)) by {
            assert(f(facts[j]));
            let z = lemma_kept_there(facts, f, j);
            assert(settled[z] == facts[j]);
        }
    }
}

/// Whether a fact is a trace of a power loss within the window before a boot.
pub open spec fn is_trace(e: EventView, boot: EventView, window: int) -> bool {
    &&& e.event_type == "filesystem_recovery"@ || e.event_type == "device_reenumeration"@
        || e.event_type == "power_loss_hint"@
    &&& crate::engine::sessions::lead(e, boot) matches Some(s) && s <= window
}

/// A suspected power loss lies between its first trace within the window before the
/// next boot and that boot; without such a trace, or without a next boot, nothing
/// more exact than a boot is claimed. What is unknown has the time of a boot, too.
pub proof fn law_power_losses_lie_before_the_boot(
    facts: Seq<EventView>,
    boot: EventView,
    next: Option<EventView>,
    window: int,
)
    requires
        ending(facts).0 == "疑似断电"@ || ending(facts).0 == "未知复位"@,
    ensures
        ({
            let class = ending(facts).0;
            let (from, to, exact) = incident(class, facts, boot, next, window);
            let last = if next is Some {
                next->0.time
            } else {
                boot.time
            };
            if class == "疑似断电"@ && next is Some {
                &&& to == Some(next->0.time)
                &&& exact == "range"@
                &&& (exists|i: int|
                    0 <= i < facts.len() && is_trace(#[trigger] facts[i], next->0, window)) ==> (
                exists|i: int|
                    0 <= i < facts.len() && is_trace(#[trigger] facts[i], next->0, window) && from
                        == facts[i].time && forall|j: int|
                        0 <= j < facts.len() && is_trace(#[trigger] facts[j], next->0, window)
                            ==> !stands_before(
                            clock_of(facts[j].time),
                            clock_of(facts[i].time),
                        ))
                &&& !(exists|i: int|
                    0 <= i < facts.len() && is_trace(#[trigger] facts[i], next->0, window)) ==> from
                    == next->0.time
            } else {
                from == last && to is None && exact == "unknown"@
            }
        }),
{
    lemma_endings();
    let class = ending(facts).0;
    if class == "疑似断电"@ && next is Some {
        let f = |e: EventView| crate::engine::sessions::loss_trace(e, next->0, window);
        assert forall|e: EventView| #[trigger] f(e) == is_trace(e, next->0, window) by {}
        let traces = kept(facts, f, 0);
        if exists|i: int| 0 <= i < facts.len() && is_trace(#[trigger] facts[i], next->0, window) {
            let x = choose|i: int|
                0 <= i < facts.len() && is_trace(#[trigger] facts[i], next->0, window);
            assert(f(facts[x]));
            let y = lemma_kept_there(facts, f, x);
            let k = lemma_earliest(traces);
            let i = lemma_kept_source(facts, f, k);
            assert(is_trace(facts[i], next->0, window));
            assert forall|j: int|
                0 <= j < facts.len() && is_trace(#[trigger] facts[j], next->0, window) implies
                !stands_before(clock_of(facts[j].time), clock_of(facts[i].time)) by {
                assert(f(facts[j]));
                let z = lemma_kept_there(facts, f, j);
                assert(traces[z] == facts[j]);
            }
        } else if traces.len() > 0 {
            let i = lemma_kept_source(facts, f, 0);
            assert(is_trace(facts[i], next->0, window));
        }
    } else {
        let f = |e: EventView| crate::engine::sessions::decisive(class, e.event_type);
        if kept(facts, f, 0).len() > 0 {
            let i = lemma_kept_source(facts, f, 0);
        }
    }
}

/// What a reader is told to bear in mind: that the vendor gives no reason where its
/// record gives none, that a power loss was not recorded where one is suspected,
/// and that times are inexact where one is incomplete.
pub proof fn law_caveats_name_what_is_uncertain(
    class: Seq<char>,
    facts: Seq<EventView>,
    boot: EventView,
)
    ensures
        ({
            let c = caveats(class, facts, boot);
            &&& c.contains("设备自身没有记录明确原因"@) <==> tells(facts, "reset_reason"@)
            &&& c.contains("没有直接的电源状态记录"@) <==> class == "疑似断电"@
            &&& c.contains("部分日志时间可能存在少量偏差"@) <==> boot.key is None || exists|i: int|
                0 <= i < facts.len() && (#[trigger] facts[i]).time_precision == "partial"@
            &&& c.len() <= 3
        }),
{
    lemma_tells(facts, "reset_reason"@);
    reveal_strlit("设备自身没有记录明确原因");
    reveal_strlit("没有直接的电源状态记录");
    reveal_strlit("部分日志时间可能存在少量偏差");
    let x = "设备自身没有记录明确原因"@;
    let y = "没有直接的电源状态记录"@;
    let z = "部分日志时间可能存在少量偏差"@;
    assert(x[0] == '设' && y[0] == '没' && z[0] == '部');
    let p = |e: EventView| e.time_precision == "partial"@;
    let a = tells(facts, "reset_reason"@);
    let b = class == "疑似断电"@;
    let d = boot.key is None || crate::text::any(facts, p);
    if crate::text::any(facts, p) {
        let i = choose|i: int| 0 <= i < facts.len() && p(#[trigger] facts[i]);
        assert(facts[i].time_precision == "partial"@);
    }
    if exists|i: int| 0 <= i < facts.len() && (#[trigger] facts[i]).time_precision == "partial"@ {
        let i = choose|i: int|
            0 <= i < facts.len() && (#[trigger] facts[i]).time_precision == "partial"@;
        assert(p(facts[i]));
    }
    let c = caveats(class, facts, boot);
    let first = if a {
        seq![x]
    } else {
        Seq::empty()
    };
    let second = if b {
        seq![y]
    } else {
        Seq::empty()
    };
    let third = if d {
        seq![z]
    } else {
        Seq::empty()
    };
    assert(c =~= first + second + third);
    if a {
        assert(c[0] == x);
    }
    if b {
        assert(c[first.len() as int] == y);
    }
    if d {
        assert(c[(first.len() + second.len()) as int] == z);
    }
}

} // verus!
