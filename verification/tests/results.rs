//! What follows from results that were found elsewhere: matches, moments, hits.

use tracefox::engine::facts::event_of_fact;
use tracefox::engine::findings::volume_of_match;
use tracefox::engine::preview::preview_marked;
use tracefox::engine::report::name_of_raid;
use tracefox::engine::scan::{scan_marked, Mark};
use tracefox::engine::sessions::{clocks_apart, is_clock_between, moments_apart};
use tracefox::engine::time::{are_near, clock_value, time_in_match};
use tracefox::extract::extractor::PreparedExtractor;
use tracefox::extract::format::{cell, group_text};
use tracefox::fault::{Fault, FaultKind};
use tracefox::outside::address::Address;
use tracefox::outside::clock::{Moment, Reading};
use tracefox::rules::matcher::{any_word, are_enough};
use tracefox::rules::validate::refuse_rule;
use tracefox::rules::{Field, Rule, Source, SystemRule};
use tracefox::webdav::{check_server, origin_of, WebDavSettings};

fn mark(hit: bool) -> Mark {
    Mark {
        hit,
        ranges: if hit { vec![(0, 3)] } else { vec![] },
        time: if hit { "t".into() } else { String::new() },
        key: None,
    }
}

fn texts(n: usize) -> Vec<String> {
    (1..=n).map(|i| format!("line {i}")).collect()
}

fn groups(texts: &[Option<&str>]) -> Vec<Option<String>> {
    texts.iter().map(|t| t.map(str::to_string)).collect()
}

fn moment(timestamp: i64, day: u32, clock: u32) -> Moment {
    Moment { timestamp, nanos: 0, year: 2026, month: 9, day, clock }
}

fn no_sizes(_: &str, _: bool) -> Option<String> {
    None
}

#[test]
fn marked_lines_become_fragments() {
    let rule = Rule { before: 1, after: 1, target: "both".into(), ..Rule::default() };
    let marks: Vec<Mark> =
        [false, true, false, true, false, false, false, true].into_iter().map(mark).collect();
    let (fragments, count, events) = scan_marked("syslog", &rule, &texts(8), &marks);
    assert_eq!(count, 3);
    assert_eq!(events.len(), 3);
    assert_eq!(events[2].sources[0].lines[0].number, 8);
    let numbers: Vec<Vec<usize>> =
        fragments.iter().map(|f| f.lines.iter().map(|l| l.number).collect()).collect();
    assert_eq!(numbers, [vec![1, 2, 3, 4, 5], vec![7, 8]]);
    let hits: Vec<bool> = fragments[0].lines.iter().map(|l| l.hit).collect();
    assert_eq!(hits, [false, true, false, true, false]);
    assert_eq!(fragments[0].lines[1].ranges, [(0, 3)]);
    assert_eq!(fragments[0].time, "t");
}

#[test]
fn a_preview_shows_each_hit_by_itself() {
    let rule = Rule { before: 1, after: 0, target: "keywords".into(), ..Rule::default() };
    let marks: Vec<Mark> = [true, true, false].into_iter().map(mark).collect();
    let (finding, events) = preview_marked(&rule, &texts(3), &marks);
    assert!(events.is_empty());
    assert_eq!(finding.count, 2);
    assert_eq!(finding.status, "已匹配");
    let numbers: Vec<Vec<usize>> =
        finding.fragments.iter().map(|f| f.lines.iter().map(|l| l.number).collect()).collect();
    assert_eq!(numbers, [vec![1], vec![1, 2]]);
    let (none, _) = preview_marked(&rule, &texts(1), &vec![mark(false)]);
    assert_eq!(none.status, "未匹配");
}

#[test]
fn terms_are_enough() {
    assert!(are_enough(&vec![false, true], false));
    assert!(!are_enough(&vec![false, true], true));
    assert!(are_enough(&vec![true, true], true));
    assert!(!are_enough(&vec![], true));
    assert!(!are_enough(&vec![], false));
    assert!(any_word("disk error", &vec!["none".into(), "err".into()]));
    assert!(!any_word("disk error", &vec!["none".into()]));
    assert!(!any_word("disk error", &vec![]));
}

#[test]
fn servers_are_told_apart() {
    let at = |scheme: &str, host: Option<&str>, port: u16| {
        Some(Address {
            scheme: scheme.into(),
            host: host.map(str::to_string),
            port: Some(port),
            path: "/".into(),
        })
    };
    let base = || at("https", Some("a"), 443);
    let kind = |base: Option<Address>, path: &str, file: Option<Option<Address>>| {
        let own = match &base {
            Some(b) => origin_of(at(&b.scheme, b.host.as_deref(), b.port.unwrap())),
            None => None,
        };
        check_server(&base, &own, path, &file.map(origin_of)).err().map(|f| f.kind)
    };
    assert_eq!(kind(base(), "rules.json", Some(base())), None);
    assert_eq!(kind(None, "rules.json", None), Some(FaultKind::AddressFormat));
    assert_eq!(
        kind(at("ftp", Some("a"), 21), "rules.json", None),
        Some(FaultKind::AddressScheme)
    );
    assert_eq!(kind(at("http", None, 80), "rules.json", None), Some(FaultKind::AddressScheme));
    assert_eq!(kind(base(), " / ", Some(base())), Some(FaultKind::RemotePathMissing));
    assert_eq!(kind(base(), "rules.json", None), Some(FaultKind::RemotePathInvalid));
    for other in [at("https", Some("b"), 443), at("https", Some("a"), 8443), at("x", None, 0)] {
        assert_eq!(kind(base(), "rules.json", Some(other)), Some(FaultKind::RemotePathElsewhere));
    }
}

#[test]
fn nested_addresses_name_the_inner_server() {
    let blob = |path: String| {
        origin_of(Some(Address { scheme: "blob".into(), host: None, port: None, path }))
    };
    let inner = blob("blob:https://a.example:8443/x".into()).unwrap();
    assert_eq!((inner.scheme.as_str(), inner.host.as_str(), inner.port), ("https", "a.example", 8443));
    let usual = blob("http://a.example/<>".into()).unwrap();
    assert_eq!(usual.port, 80);
    assert!(blob("nothing".into()).is_none());
    assert!(blob("file:///x".into()).is_none());
    assert!(blob("blob:".repeat(2000)).is_none());
    let settings = |path: &str| WebDavSettings {
        enabled: true,
        url: "https://a.example/dav/".into(),
        remote_path: path.into(),
        username: String::new(),
    };
    assert!(settings("blob:https://a.example/rules.json").validate().is_ok());
    let e = settings("blob:https://b.example/rules.json").validate().unwrap_err();
    assert_eq!(e.kind, FaultKind::RemotePathElsewhere);
}

#[test]
fn moments_and_clocks_are_compared() {
    let (a, b) = (moment(100, 9, 100), moment(160, 9, 160));
    assert_eq!(moments_apart(&Some(moment(100, 9, 100)), &Some(moment(160, 9, 160))), Some(60));
    assert_eq!(moments_apart(&Some(moment(160, 9, 0)), &Some(moment(100, 9, 0))), None);
    assert_eq!(moments_apart(&None, &Some(moment(100, 9, 0))), None);
    assert_eq!(clocks_apart(&Some((9, 9, 5)), &Some((9, 9, 30))), Some(25));
    assert_eq!(clocks_apart(&Some((9, 8, 5)), &Some((9, 9, 30))), None);
    assert!(are_near("a", &Some(moment(100, 9, 0)), "b", &Some(moment(160, 9, 0)), 60));
    assert!(!are_near("a", &Some(moment(100, 9, 0)), "b", &Some(moment(161, 9, 0)), 60));
    assert!(are_near("a", &None, "a", &None, 0));
    assert!(!are_near("a", &None, "b", &Some(moment(0, 9, 0)), 60));
    assert!(is_clock_between("Sep  9 00:02:00", &a, &b));
    assert!(!is_clock_between("Sep  9 00:02:40", &a, &b));
    assert!(!is_clock_between("Sep  8 00:02:00", &a, &b));
    let bare = Reading {
        timestamp: 0,
        nanos: 0,
        month: 1,
        day: 2,
        clock: 3,
        iso: "1970-01-02T00:00:03".into(),
    };
    assert_eq!(clock_value("x", &Some(moment(0, 9, 7)), &None), Some((9, 9, 7)));
    assert_eq!(clock_value("x", &None, &Some(bare)), Some((1, 2, 3)));
    assert_eq!(clock_value("Sep  9 00:00:10", &None, &None), Some((9, 9, 10)));
    assert_eq!(clock_value("x", &None, &None), None);
}

#[test]
fn matches_tell_times_sizes_and_arrays() {
    let found = groups(&[Some("whole"), Some("first"), Some("named")]);
    assert_eq!(time_in_match(&groups(&[None, None, Some("time")]), &found), "named");
    assert_eq!(time_in_match(&groups(&[None, None, None]), &found), "first");
    assert_eq!(time_in_match(&groups(&[None]), &groups(&[Some("whole")])), "whole");
    assert_eq!(name_of_raid(true, &Some(found)).as_deref(), Some("JBOD"));
    let level = groups(&[Some("raid5"), Some("5")]);
    assert_eq!(name_of_raid(false, &Some(level)).as_deref(), Some("RAID5"));
    assert_eq!(name_of_raid(false, &None), None);
    let volumes = |a: &str, b: &str, c: &str| Some(format!("{a}/{b}/{c}"));
    let three = groups(&[Some("x"), Some("1"), Some("2"), Some("3")]);
    assert_eq!(volume_of_match(&Some(three), &volumes).as_deref(), Some("1/2/3"));
    assert_eq!(volume_of_match(&Some(groups(&[Some("x"), Some("1")])), &volumes), None);
    assert_eq!(volume_of_match(&None, &volumes), None);
}

#[test]
fn cells_are_shaped() {
    let field = |format: &str, unit: &str| Field {
        name: "n".into(),
        path: "p".into(),
        format: format.into(),
        unit: unit.into(),
        missing: "-".into(),
        wide: false,
        view: String::new(),
        capture: String::new(),
    };
    let sizes = |s: &str, kib: bool| Some(format!("{s}:{kib}"));
    assert_eq!(cell("".into(), &field("", "W"), None, &sizes), "-");
    assert_eq!(cell("5".into(), &field("", "W"), None, &sizes), "5 W");
    assert_eq!(cell("5".into(), &field("kib", ""), None, &sizes), "5:true");
    assert_eq!(cell("5".into(), &field("bytes", ""), None, &no_sizes), "5");
    assert_eq!(cell("5".into(), &field("unix", ""), Some("then".into()), &sizes), "then");
    assert_eq!(cell("5".into(), &field("unix", ""), None, &sizes), "5");
    assert_eq!(group_text(&Some(groups(&[Some("a"), Some("b")]))), "b");
    assert_eq!(group_text(&Some(groups(&[Some("a"), None]))), "");
    assert_eq!(group_text(&None), "");
    let rule = SystemRule {
        kind: "regex".into(),
        pattern: "(?P<p>x)".into(),
        fields: vec![field("", "")],
        ..SystemRule::default()
    };
    let prepared = PreparedExtractor::new(&rule).unwrap();
    let rows = prepared.matched_rows(
        &groups(&[None, Some("p")]),
        &vec![groups(&[Some("x"), Some("x")]), groups(&[Some("y"), None])],
        &no_sizes,
    );
    assert_eq!(rows[0].get("n").map(|s| s.as_str()), Some("x"));
    assert_eq!(rows[1].get("n").map(|s| s.as_str()), Some("-"));
}

#[test]
fn facts_become_events() {
    let e = event_of_fact(
        "kern.log",
        "Linux version 6",
        3,
        ("boot", "系统启动", "strong"),
        ("2026".into(), Some("k".into())),
    );
    assert_eq!(e.event_type, "boot");
    assert_eq!(e.name, "系统启动");
    assert_eq!(e.evidence_strength, "strong");
    assert_eq!(e.time, "2026");
    assert_eq!(e.time_precision, "exact");
    assert_eq!(e.sources[0].file, "kern.log");
    assert_eq!(e.sources[0].lines[0].number, 3);
    assert_eq!(e.sources[0].annotation, "自动识别的日志事实");
}

#[test]
fn a_rule_is_refused_for_its_first_fault() {
    let good = Rule {
        name: "r".into(),
        terms: vec!["x".into()],
        sources: vec![Source { pattern: "syslog".into(), mode: "prefix".into() }],
        ..Rule::default()
    };
    let fault = |kind| Some(Fault::new(kind, "r"));
    let kind = |f: Option<Fault>| f.map(|f| f.kind);
    assert_eq!(kind(refuse_rule(&good, None, None, true, None)), None);
    assert_eq!(
        kind(refuse_rule(&good, Some("e".into()), None, true, None)),
        Some(FaultKind::RulePattern)
    );
    assert_eq!(
        kind(refuse_rule(&good, None, fault(FaultKind::Timezone), false, None)),
        Some(FaultKind::Timezone)
    );
    assert_eq!(kind(refuse_rule(&good, None, None, false, None)), Some(FaultKind::TimeFormat));
    assert_eq!(
        kind(refuse_rule(&good, None, None, true, fault(FaultKind::TimePattern))),
        Some(FaultKind::TimePattern)
    );
    let mut bad = good.clone();
    bad.mode = "some".into();
    assert_eq!(kind(refuse_rule(&bad, None, None, true, None)), Some(FaultKind::RuleOptions));
    bad.terms.clear();
    assert_eq!(
        kind(refuse_rule(&bad, Some("e".into()), None, true, None)),
        Some(FaultKind::RuleTerms)
    );
}
