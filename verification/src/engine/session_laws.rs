//! What the boot timeline claims, and what it does not.

use crate::engine::facts::{event_kind, line_fact, reason_is, reset_kind};
use crate::engine::model::EventView;
use crate::engine::sessions::{
    belongs, by_key, caveats, ending, has_kind, record_of_boot, session_facts, sessions, starts,
    timed_facts,
};
use crate::order::sorted;
use crate::order_laws::{
    by_text, in_order, law_sorting_keeps_elements, law_sorting_puts_in_order, law_texts_are_ordered,
    orders,
};
use crate::select::lemma_kept_holds;
use crate::text::{before, has, kept};
use vstd::prelude::*;

verus! {

/// The types of facts that end a session in a known way.
pub open spec fn known_ending(facts: Seq<EventView>) -> bool {
    has_kind(facts, "kernel_panic"@) || has_kind(facts, "watchdog_reset"@) || has_kind(
        facts,
        "hardware_reset"@,
    ) || has_kind(facts, "reboot_request"@) || has_kind(facts, "reboot_complete"@) || has_kind(
        facts,
        "shutdown_request"@,
    ) || has_kind(facts, "shutdown_complete"@)
}

/// The names of endings differ.
proof fn lemma_endings_differ()
    ensures
        "疑似断电"@ != "Kernel Panic 重启"@,
        "疑似断电"@ != "Watchdog 重启"@,
        "疑似断电"@ != "硬件复位"@,
        "疑似断电"@ != "正常重启"@,
        "疑似断电"@ != "正常关机"@,
        "疑似断电"@ != "未知复位"@,
        "未知复位"@ != "Kernel Panic 重启"@,
        "未知复位"@ != "Watchdog 重启"@,
        "未知复位"@ != "硬件复位"@,
        "未知复位"@ != "正常重启"@,
        "未知复位"@ != "正常关机"@,
{
    reveal_strlit("疑似断电");
    reveal_strlit("Kernel Panic 重启");
    reveal_strlit("Watchdog 重启");
    reveal_strlit("硬件复位");
    reveal_strlit("正常重启");
    reveal_strlit("正常关机");
    reveal_strlit("未知复位");
    assert("疑似断电"@[0] == '疑');
    assert("Kernel Panic 重启"@[0] == 'K');
    assert("Watchdog 重启"@[0] == 'W');
    assert("硬件复位"@[0] == '硬');
    assert("正常重启"@[0] == '正');
    assert("正常关机"@[0] == '正');
    assert("未知复位"@[0] == '未');
}

/// A session is called a suspected power loss exactly where traces of one were
/// found and nothing tells of another ending; then it says that there is no
/// direct record, and is never sure.
pub proof fn law_power_loss_needs_traces(facts: Seq<EventView>, boot: EventView)
    ensures
        ending(facts).0 == "疑似断电"@ <==> (has_kind(facts, "filesystem_recovery"@) || has_kind(
            facts,
            "device_reenumeration"@,
        )) && !known_ending(facts),
        ending(facts).0 == "疑似断电"@ ==> ending(facts).1 == "中"@,
        ending(facts).0 == "疑似断电"@ ==> caveats(ending(facts).0, facts, boot).contains(
            "没有直接的电源状态记录"@,
        ),
{
    lemma_endings_differ();
    if ending(facts).0 == "疑似断电"@ {
        let c = caveats(ending(facts).0, facts, boot);
        let first = if has_kind(facts, "reset_reason"@) {
            seq!["设备自身没有记录明确原因"@]
        } else {
            Seq::empty()
        };
        assert(c[first.len() as int] == "没有直接的电源状态记录"@);
    }
}

/// A reset of unknown cause stays one: without traces and without a known ending
/// nothing else is claimed.
pub proof fn law_unknown_reset_stays_unknown(facts: Seq<EventView>)
    ensures
        ending(facts).0 == "未知复位"@ <==> !known_ending(facts) && !has_kind(
            facts,
            "filesystem_recovery"@,
        ) && !has_kind(facts, "device_reenumeration"@),
        ending(facts).0 == "未知复位"@ ==> ending(facts).1 == "低"@,
{
    lemma_endings_differ();
}

/// The vendor's record is called a hint at a power loss only where it says so.
pub proof fn law_unknown_cause_is_no_power_loss(cause: Seq<char>, reason: Option<Seq<char>>)
    requires
        has(cause, "POWER"@) == false,
        has(cause, "Power"@) == false,
        !reason_is(reason, "power_loss"@),
    ensures
        reset_kind(cause, reason) != "power_loss_hint"@,
{
    reveal_strlit("power_loss_hint");
    reveal_strlit("kernel_panic");
    reveal_strlit("shutdown_complete");
    reveal_strlit("reboot_complete");
    reveal_strlit("watchdog_reset");
    reveal_strlit("hardware_reset");
    reveal_strlit("reset_reason");
    assert("power_loss_hint"@[0] == 'p');
    assert("kernel_panic"@[0] == 'k');
    assert("shutdown_complete"@[0] == 's');
    assert("reboot_complete"@[0] == 'r');
    assert("watchdog_reset"@[0] == 'w');
    assert("hardware_reset"@[0] == 'h');
    assert("reset_reason"@[0] == 'r');
}

/// No line of a log is by itself taken for a power loss.
pub proof fn law_lines_never_claim_power_loss(s: Seq<char>)
    ensures
        event_kind(s) != "power_loss_hint"@,
        line_fact(s) matches Some((kind, _, _)) ==> kind != "power_loss_hint"@,
{
    reveal_strlit("power_loss_hint");
    reveal_strlit("kernel_panic");
    reveal_strlit("watchdog_reset");
    reveal_strlit("shutdown_request");
    reveal_strlit("reboot_request");
    reveal_strlit("boot");
    reveal_strlit("filesystem_recovery");
    reveal_strlit("device_reenumeration");
    reveal_strlit("reset_reason");
    reveal_strlit("evidence");
    assert("power_loss_hint"@[0] == 'p');
    assert("kernel_panic"@[0] == 'k');
    assert("watchdog_reset"@[0] == 'w');
    assert("shutdown_request"@[0] == 's');
    assert("reboot_request"@[0] == 'r');
    assert("boot"@[0] == 'b');
    assert("filesystem_recovery"@[0] == 'f');
    assert("device_reenumeration"@[0] == 'd');
    assert("reset_reason"@[0] == 'r');
    assert("evidence"@[0] == 'e');
}

/// The comparison of facts orders them: those without a complete time first,
/// then by their times.
pub proof fn law_facts_are_ordered()
    ensures
        orders(by_key()),
{
    law_texts_are_ordered();
    let t = by_text();
    let lt = by_key();
    assert forall|a: EventView, b: EventView| #[trigger] lt(a, b) implies !lt(b, a) by {
        assert(t(a.time, b.time) == before(a.time, b.time));
        if a.key is Some && b.key is Some {
            assert(t(a.key->0, b.key->0) == before(a.key->0, b.key->0));
            assert(t(b.key->0, a.key->0) == before(b.key->0, a.key->0));
        }
    }
    assert forall|a: EventView, b: EventView, c: EventView| #[trigger] lt(a, c) implies
        #[trigger] lt(a, b) || lt(b, c) by {
        assert(t(a.time, c.time) == before(a.time, c.time));
        assert(t(a.time, b.time) == before(a.time, b.time));
        assert(t(b.time, c.time) == before(b.time, c.time));
        if a.key is Some && b.key is Some && c.key is Some {
            let x = a.key->0;
            let y = b.key->0;
            let z = c.key->0;
            assert(t(x, z) == before(x, z));
            assert(t(x, y) == before(x, y));
            assert(t(y, z) == before(y, z));
            assert(!before(x, y) && !before(y, x) ==> x == y);
            assert(!before(y, z) && !before(z, y) ==> y == z);
            assert(t(y, x) == before(y, x));
            assert(t(z, y) == before(z, y));
            if x == z {
                assert(!before(x, y) && !before(y, z) ==> x == y);
            }
        }
    }
}

/// The facts of a session are facts of the log: each lies within the session, or
/// is the vendor's record of its boot. They stand in the order of their times.
pub proof fn law_session_facts_are_found(
    s: Seq<EventView>,
    boot: EventView,
    next: Option<EventView>,
    window: int,
    k: int,
)
    requires
        0 <= k < session_facts(s, boot, next, window).len(),
    ensures
        s.contains(session_facts(s, boot, next, window)[k]),
        belongs(session_facts(s, boot, next, window)[k], boot, next) || record_of_boot(
            session_facts(s, boot, next, window)[k],
            timed_facts(s, boot, next),
            boot,
            window,
        ),
        in_order(session_facts(s, boot, next, window), by_key()),
{
    broadcast use vstd::seq_lib::group_to_multiset_ensures;

    let f = |e: EventView| belongs(e, boot, next);
    let facts = timed_facts(s, boot, next);
    let g = |e: EventView| record_of_boot(e, facts, boot, window);
    let records = kept(s, g, 0);
    let both = facts + records;
    let out = session_facts(s, boot, next, window);
    law_facts_are_ordered();
    law_sorting_puts_in_order(both, by_key());
    law_sorting_keeps_elements(both, by_key());
    assert(out.to_multiset().count(out[k]) > 0) by {
        assert(out.contains(out[k]));
    }
    assert(both.contains(out[k]));
    let m = choose|m: int| 0 <= m < both.len() && both[m] == out[k];
    lemma_kept_holds(s, f, 0);
    lemma_kept_holds(s, g, 0);
    if m < facts.len() {
        let all = kept(s, f, 0);
        assert(facts[m] == all[m]);
        assert(f(all[m]));
        let j = choose|j: int| 0 <= j < s.len() && s[j] == all[m];
        assert(s[j] == out[k]);
    } else {
        let r = m - facts.len();
        assert(both[m] == records[r]);
        assert(g(records[r]));
        let j = choose|j: int| 0 <= j < s.len() && s[j] == records[r];
        assert(s[j] == out[k]);
    }
}

/// There is one session for each start that was found, and each claims what its
/// facts tell.
pub proof fn law_sessions_claim_what_their_facts_tell(events: Seq<EventView>, window: int, i: int)
    requires
        0 <= i < sessions(events, window).len(),
    ensures
        sessions(events, window).len() == starts(sorted(events, by_key())).len(),
        ({
            let t = sessions(events, window)[i];
            &&& t.end_classification == ending(t.facts).0
            &&& t.confidence == ending(t.facts).1
            &&& t.supporting_evidence == ending(t.facts).2
        }),
{
}

} // verus!
