//! Times, facts and the sessions between boots.

use tracefox::engine::facts::{
    automatic_timeline_event, classify_timeline_event, extract_boot_id, parse_reset_reason_blocks,
};
use tracefox::engine::model::{Event, Fragment, LogLine};
use tracefox::engine::sessions::{
    build_timeline_sessions, event_belongs_to_session, seconds_before, session_incident_time,
};
use tracefox::engine::time::{
    event_time, local_clock_value, parse_vendor_boot_key, partial_clock, same_time_window,
    TimePatterns,
};
use tracefox::rules::Rule;

#[test]
fn incomplete_time_not_invented() {
    let r = Rule::default();
    let (t, k) = event_time("Sep 09 08:01:46 kernel: Linux version", &r);
    assert!(k.is_none());
    assert!(t.contains("不完整"));
}

#[test]
fn timezone_required_for_merge() {
    let r = Rule::default();
    assert!(event_time("2026-09-09 08:00:00", &r).1.is_none());
    let r = Rule { timezone: "+08:00".into(), ..r };
    assert!(event_time("2026-09-09 08:00:00", &r).1.is_some());
}

#[test]
fn complete_times_have_one_key_whatever_their_zone() {
    let r = Rule::default();
    let a = event_time("2026-09-09T10:00:00+08:00 boot", &r);
    let b = event_time("2026-09-09T02:00:00Z boot", &r);
    assert_eq!(a.0, "2026-09-09T10:00:00+08:00");
    assert_eq!(a.1, b.1);
    assert_eq!(a.1.as_deref(), Some("2026-09-09T02:00:00.000000000Z"));
    assert!(event_time("no time here", &r).1.is_none());
}

#[test]
fn parses_vendor_reset_reason_blocks_without_overclaiming_unknown() {
    let text = "# BEGIN ug_reset_reason\n# boot_id: abc\n  Boot Time  2026-09-08 08:53:26 CST\n│ REBOOT CAUSE: UNKNOWN — Insufficient Data                  │\n  Reason     unknown\n# END ug_reset_reason\n# BEGIN ug_reset_reason\n# boot_id: def\n  Boot Time  2026-09-08 08:23:08 CST\n│ REBOOT CAUSE: NORMAL — Shutdown                            │\n  Reason     poweroff\n# END ug_reset_reason";
    let events = parse_reset_reason_blocks("pstore/ug_reset_reason.log", text);
    assert_eq!(events.len(), 2);
    assert_eq!(events[0].event_type, "reset_reason");
    assert_eq!(events[1].event_type, "shutdown_complete");
    assert_eq!(events[0].evidence_strength, "high");
    assert!(events[0].key.is_some());
    assert_eq!(extract_boot_id(&events[0]).as_deref(), Some("abc"));
}

#[test]
fn reset_causes_have_their_types() {
    for (cause, kind) in [
        ("Kernel Panic", "kernel_panic"),
        ("NORMAL — Reboot", "reboot_complete"),
        ("POWER LOSS", "power_loss_hint"),
        ("Watchdog Timeout", "watchdog_reset"),
        ("Hardware Reset", "hardware_reset"),
        ("UNKNOWN", "reset_reason"),
    ] {
        let text = format!("# BEGIN ug_reset_reason\n│ REBOOT CAUSE: {cause}\n# END ug_reset_reason");
        let events = parse_reset_reason_blocks("x", &text);
        assert_eq!(events[0].event_type, kind, "{cause}");
    }
}

#[test]
fn automatic_facts_cover_boot_recovery_and_do_not_call_unknown_power_loss() {
    let times = TimePatterns::new();
    let boot = automatic_timeline_event(
        "var/log/kern.log",
        "2026-09-08T08:50:00+08:00 Linux version 6.1.0",
        1,
        &times,
    )
    .unwrap();
    let recovery = automatic_timeline_event(
        "var/log/kern.log",
        "2026-09-08T08:51:13+08:00 EXT4-fs: recovery complete",
        2,
        &times,
    )
    .unwrap();
    let next_boot = automatic_timeline_event(
        "var/log/kern.log",
        "2026-09-08T08:53:26+08:00 Linux version 6.1.0",
        3,
        &times,
    )
    .unwrap();
    assert_eq!(boot.event_type, "boot");
    assert_eq!(recovery.event_type, "filesystem_recovery");
    let sessions = build_timeline_sessions(&vec![boot, recovery, next_boot], 300);
    assert_eq!(sessions.len(), 2);
    assert_eq!(sessions[0].end_classification, "疑似断电");
    assert_ne!(sessions[0].end_classification, "断电");
    assert_eq!(sessions[0].incident_time_start, "2026-09-08T08:51:13+08:00");
    assert_eq!(sessions[0].incident_time_end.as_deref(), Some("2026-09-08T08:53:26+08:00"));
    assert_eq!(sessions[0].incident_time_precision, "range");
    assert!(sessions[0]
        .supporting_evidence
        .contains(&"文件系统执行过异常中断恢复".to_string()));
    assert!(sessions[0].limitations.contains(&"没有直接的电源状态记录".to_string()));
    assert_eq!(sessions[0].confidence, "中");
}

#[test]
fn vendor_boot_id_is_kept_on_session_when_time_matches_boot() {
    let times = TimePatterns::new();
    let mut boot = automatic_timeline_event(
        "var/log/kern.log",
        "2026-09-08T08:53:26+08:00 Linux version 6.1.0",
        1,
        &times,
    )
    .unwrap();
    let vendor = parse_reset_reason_blocks(
        "pstore/ug_reset_reason.log",
        "# BEGIN ug_reset_reason\n# boot_id: abc\n  Boot Time  2026-09-08 08:53:26 CST\n│ REBOOT CAUSE: UNKNOWN — Insufficient Data │\n  Reason unknown\n# END ug_reset_reason",
    )
    .pop()
    .unwrap();
    boot.key = Some("2026-09-08T00:53:26Z".into());
    let sessions = build_timeline_sessions(&vec![boot, vendor], 300);
    assert_eq!(sessions[0].boot_id.as_deref(), Some("abc"));
    assert_eq!(sessions[0].end_classification, "未知复位");
}

fn fact(kind: &str, key: Option<&str>, time: &str) -> Event {
    Event {
        name: kind.into(),
        group: "系统".into(),
        time: time.into(),
        key: key.map(String::from),
        note: String::new(),
        sources: vec![Fragment {
            file: "kern.log".into(),
            lines: vec![LogLine { number: 1, text: kind.into(), hit: true, ranges: vec![] }],
            time: time.into(),
            annotation: String::new(),
        }],
        event_type: kind.into(),
        evidence_strength: "strong".into(),
        time_precision: "exact".into(),
    }
}

#[test]
fn known_endings_come_before_suspected_power_loss() {
    for (kind, class) in [
        ("kernel_panic", "Kernel Panic 重启"),
        ("watchdog_reset", "Watchdog 重启"),
        ("hardware_reset", "硬件复位"),
        ("reboot_request", "正常重启"),
        ("shutdown_request", "正常关机"),
    ] {
        let t = |m: u32| format!("2026-09-08T00:{m:02}:00.000000000Z");
        let events = vec![
            fact("boot", Some(&t(0)), &t(0)),
            fact("filesystem_recovery", Some(&t(1)), &t(1)),
            fact(kind, Some(&t(2)), &t(2)),
            fact("boot", Some(&t(3)), &t(3)),
        ];
        let s = build_timeline_sessions(&events, 300);
        assert_eq!(s[0].end_classification, class);
        assert_eq!(s[0].incident_time_start, t(2));
        assert_eq!(s[0].incident_time_precision, "exact");
        assert_eq!(s[0].confidence, "高");
        assert_eq!(s[0].session_id, "session-1");
    }
}

#[test]
fn facts_belong_between_two_boots() {
    let t = |m: u32| format!("2026-09-08T00:{m:02}:00.000000000Z");
    let boot = fact("boot", Some(&t(10)), &t(10));
    let next = fact("boot", Some(&t(20)), &t(20));
    assert!(event_belongs_to_session(&fact("x", Some(&t(10)), ""), &boot, Some(&next)));
    assert!(!event_belongs_to_session(&fact("x", Some(&t(20)), ""), &boot, Some(&next)));
    assert!(!event_belongs_to_session(&fact("x", Some(&t(9)), ""), &boot, Some(&next)));
    assert_eq!(seconds_before(&boot, &next), Some(600));
    assert_eq!(seconds_before(&next, &boot), None);
    let r = session_incident_time("未知复位", &vec![], &boot, Some(&next), 300);
    assert_eq!(r, (t(20), None, "unknown".to_string()));
}

#[test]
fn clocks_and_windows() {
    assert_eq!(partial_clock("Sep 09 08:01:46"), Some((9, 9, 8 * 3600 + 60 + 46)));
    assert_eq!(partial_clock("nothing"), None);
    assert_eq!(local_clock_value("2026-09-08T08:51:13+08:00"), Some((9, 8, 8 * 3600 + 51 * 60 + 13)));
    assert_eq!(
        parse_vendor_boot_key(&Some("2026-09-08 08:53:26 CST".into())).as_deref(),
        Some("2026-09-08T00:53:26Z")
    );
    let a = Some("2026-09-08T00:00:00Z".to_string());
    let b = Some("2026-09-08T00:05:00Z".to_string());
    assert!(same_time_window(&a, &b, 300));
    assert!(!same_time_window(&a, &b, 299));
    assert!(!same_time_window(&a, &None, 300));
}

#[test]
fn texts_are_classified() {
    assert_eq!(classify_timeline_event("启动", "Linux version 6"), "boot");
    assert_eq!(classify_timeline_event("", "Kernel panic - not syncing"), "kernel_panic");
    assert_eq!(classify_timeline_event("重启流程", ""), "reboot_request");
    assert_eq!(classify_timeline_event("", "sata link up 6.0"), "device_reenumeration");
    assert_eq!(classify_timeline_event("", "power cable"), "evidence");
}

#[test]
fn keys_are_ordered_as_their_moments() {
    let r = Rule { timezone: "+08:00".into(), ..Rule::default() };
    let key = |line: &str| event_time(line, &r).1.unwrap();
    let lines = [
        "0001-01-01T00:00:00Z",
        "0999-12-31T23:59:59.999999999Z",
        "2026-09-09T10:00:00+09:00",
        "2026-09-09 09:00:00.000000001",
        "2026-09-09T01:00:00.5Z",
        "2026-09-09T01:00:01-00:30",
        "9998-12-31T23:59:59Z",
    ];
    for pair in lines.windows(2) {
        assert!(key(pair[0]) < key(pair[1]), "{} {}", pair[0], pair[1]);
    }
    assert_eq!(key("2026-09-09 09:00:00"), key("2026-09-09T10:00:00+09:00"));
}
