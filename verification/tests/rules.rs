//! Rule packages: matching, validation, the catalogue, groups and merges.

use tracefox::fault::FaultKind;
use tracefox::rules::{
    swap_groups, Field, Layout, LogFile, Matcher, Rule, RuleSet, Source, SystemRule,
    TimelineConfig, TimelineEventRule, TimelineJudgementRule,
};

fn file(id: &str, name: &str, path: &str) -> LogFile {
    LogFile {
        id: id.into(),
        name: name.into(),
        path: path.into(),
        mode: "exact".into(),
        container: "diagnostic_archive".into(),
    }
}

fn catalogued() -> RuleSet {
    RuleSet {
        version: 3,
        log_files: vec![file("one", "系统日志", "log/a.log")],
        rules: vec![Rule {
            id: "rule".into(),
            group: "internal-group".into(),
            source_file_ids: vec!["one".into()],
            sources: vec![],
            terms: vec!["error".into()],
            ..Rule::default()
        }],
        system: vec![],
        layout: Layout::default(),
        timeline: TimelineConfig::default(),
    }
}

fn column(name: &str, path: &str) -> Field {
    Field {
        name: name.into(),
        path: path.into(),
        format: String::new(),
        unit: String::new(),
        missing: String::new(),
        wide: false,
        view: String::new(),
        capture: String::new(),
    }
}

fn table(id: &str) -> SystemRule {
    SystemRule {
        id: id.into(),
        name: id.into(),
        group: "基本信息".into(),
        source_file_id: "one".into(),
        fields: vec![column("值", "value")],
        ..SystemRule::default()
    }
}

fn searching() -> RuleSet {
    let mut set = catalogued();
    set.log_files = vec![LogFile {
        id: "fixture-0".into(),
        name: "测试日志 0".into(),
        path: "syslog".into(),
        mode: "prefix".into(),
        container: "diagnostic_archive".into(),
    }];
    set.rules = vec![Rule {
        terms: vec!["error".into()],
        source_file_ids: vec!["fixture-0".into()],
        before: 1,
        after: 1,
        ..Rule::default()
    }];
    set
}

fn shown<T: std::fmt::Debug>(value: &T) -> String {
    format!("{value:?}")
}

#[test]
fn combination_exclusion_and_case() {
    let r = Rule {
        terms: vec!["ATA".into(), "reset".into()],
        mode: "all".into(),
        exclude: vec!["success".into()],
        case_sensitive: false,
        ..Rule::default()
    };
    let m = Matcher::new(&r).unwrap();
    assert!(m.matches("ata reset"));
    assert!(!m.matches("ata reset success"));
    assert!(!m.matches("ata"));
}

#[test]
fn ranges_are_those_of_each_term_in_bytes() {
    let r = Rule {
        terms: vec!["err".into(), "error".into(), "中".into()],
        ..Rule::default()
    };
    let m = Matcher::new(&r).unwrap();
    assert_eq!(m.ranges("中 error"), vec![(4, 7), (4, 9), (0, 3)]);
    assert_eq!(m.ranges("nothing"), Vec::<(usize, usize)>::new());
}

#[test]
fn terms_are_literal_unless_they_are_expressions() {
    let mut r = Rule { terms: vec!["a.c".into()], ..Rule::default() };
    assert!(!Matcher::new(&r).unwrap().matches("abc"));
    assert!(Matcher::new(&r).unwrap().matches("a.c"));
    r.regex = true;
    assert!(Matcher::new(&r).unwrap().matches("abc"));
    r.terms = vec!["[".into()];
    assert!(Matcher::new(&r).is_err());
}

#[test]
fn sources_match_by_prefix_path_or_exactly() {
    let source = |pattern: &str, mode: &str| Source { pattern: pattern.into(), mode: mode.into() };
    assert!(source("syslog", "prefix").matches("diag/log/syslog.1"));
    assert!(!source("syslog", "prefix").matches("diag/log/mysyslog"));
    assert!(source("log/sys", "path").matches("diag/log/syslog"));
    assert!(source("cmd/info.json", "exact").matches("diag/cmd/info.json"));
    assert!(!source("cmd/info.json", "exact").matches("diag/other/info.json"));
    assert!(source("appLog/cloud_serv", "prefix").matches("diag/appLog/cloud_serv.slog.1"));
    assert!(!source("appLog/cloud_serv", "prefix").matches("diag/appLog/cloud_serv_log/data.gz"));
}

#[test]
fn directory_edits_are_atomic_and_protect_references() {
    let mut r = catalogued();
    r.resolve_sources().unwrap();
    assert!(r.delete_log_file("one").unwrap_err().message().contains("引用"));
    r.save_log_file(file("two", "其他日志", "log/b.log")).unwrap();
    r.delete_log_file("two").unwrap();
    let before = shown(&r);
    assert!(r.save_log_file(file("two", "系统日志", "log/b.log")).is_err());
    assert_eq!(before, shown(&r));
    assert!(r.save_log_file(file("two", "其他日志", "log/a.log")).is_err());
    r.save_log_file(file("one", "更名后的日志", "log/b.log")).unwrap();
    assert_eq!(r.rules[0].source_file_ids, ["one"]);
    assert_eq!(r.rules[0].group, "internal-group");
    assert_eq!(r.rules[0].sources[0].pattern, "log/b.log");
    assert!(r.source_label(&r.rules[0].source_file_ids).contains("更名后的日志"));
    assert_eq!(r.source_label(&r.rules[0].source_file_ids), "更名后的日志 · b.log");
}

#[test]
fn saved_entries_are_found_and_deleted_ones_are_not() {
    let mut r = catalogued();
    r.save_log_file(file("two", "其他日志", "log/b.log")).unwrap();
    assert_eq!(r.log_file("two").unwrap().path, "log/b.log");
    assert_eq!(r.log_file("one").unwrap().path, "log/a.log");
    r.layout.file_order = vec!["two".into(), "one".into()];
    r.delete_log_file("two").unwrap();
    assert_eq!(r.log_file("two").unwrap_err().kind, FaultKind::NoSuchFile);
    assert_eq!(r.layout.file_order, ["one"]);
    assert_eq!(r.delete_log_file("two").unwrap_err().kind, FaultKind::NoSuchFile);
}

#[test]
fn invalid_catalog_options_and_zip_are_rejected() {
    for (property, value) in [
        ("mode", "unknown"),
        ("container", "unknown"),
        ("path", "../escape"),
        ("path", "/root/log"),
        ("name", ""),
    ] {
        let mut r = catalogued();
        match property {
            "mode" => r.log_files[0].mode = value.into(),
            "container" => r.log_files[0].container = value.into(),
            "path" => r.log_files[0].path = value.into(),
            _ => r.log_files[0].name = value.into(),
        }
        assert!(RuleSet::import(Some(r)).is_err(), "{property}");
    }
    let mut r = catalogued();
    let mut duplicate_path = r.clone();
    duplicate_path.log_files.push(LogFile {
        id: "two".into(),
        name: "第二日志".into(),
        path: duplicate_path.log_files[0].path.clone(),
        mode: "exact".into(),
        container: "diagnostic_archive".into(),
    });
    assert!(duplicate_path.validate().is_err());
    r.log_files[0].container = "zip".into();
    assert!(r.validate().unwrap_err().message().contains("暂不支持 ZIP"));
    r.log_files[0].container = "diagnostic_archive".into();
    r.layout.file_panel_width = 999;
    assert!(r.validate().is_err());
    let error = tracefox::engine::archive::check_archive("diagnostic_archive", b"PK\x03\x04");
    assert!(error.unwrap_err().message().contains("ZIP"));
}

#[test]
fn persisted_rules_only_contain_references_and_reload_from_directory() {
    let mut r = catalogued();
    r.layout.file_panel_width = 310;
    let loaded = RuleSet::import(Some(r.clone())).unwrap();
    assert_eq!(loaded.rules[0].sources[0].pattern, "log/a.log");
    assert_eq!(loaded.layout.file_panel_width, 310);
    let mut invalid = r.clone();
    invalid.rules[0].source_file_ids = vec!["missing".into()];
    assert!(RuleSet::import(Some(invalid.clone())).is_err());
    invalid.rules[0].source_file_ids = vec![];
    assert!(RuleSet::import(Some(invalid)).is_err());
    assert!(RuleSet::import(None).is_err());
}

#[test]
fn invalid_log_batch_size_is_rejected() {
    for value in [0, 9, 5001] {
        let mut rules = catalogued();
        rules.layout.log_lines_per_batch = value;
        let error = rules.validate().unwrap_err().message();
        assert!(error.contains("每批显示行数需为 10 至 5000"), "{error}");
    }
}

#[test]
fn imports_remap_directory_ids_without_losing_multi_file_references() {
    let r = catalogued();
    let mut incoming = catalogued();
    incoming.log_files[0].id = "remote".into();
    incoming.rules[0].id = "remote-rule".into();
    incoming.rules[0].name = r.rules[0].name.clone();
    incoming.rules[0].source_file_ids = vec!["remote".into()];
    incoming.log_files.push(file("two", "第二日志", "log/b.log"));
    incoming.rules[0].source_file_ids.push("two".into());
    let merged = r.merge(&incoming, false).unwrap();
    assert_eq!(merged.log_files.len(), 2);
    let rule = merged.rules.iter().find(|x| x.id == "remote-rule").unwrap();
    assert_eq!(rule.source_file_ids, ["one", "two"]);
    assert_eq!(rule.sources.len(), 2);
    let again = RuleSet::import(Some(merged)).unwrap();
    assert_eq!(again.rules[1].source_file_ids, ["one", "two"]);
}

#[test]
fn merge_prefers_id_over_duplicate_name() {
    let mut r = searching();
    let mut second = r.rules[0].clone();
    second.id = "second".into();
    second.terms = vec!["different".into()];
    r.rules.push(second);
    let mut incoming = r.clone();
    incoming.rules[1].note = "updated second".into();
    let merged = r.merge(&incoming, true).unwrap();
    assert_eq!(merged.rules[0].terms, vec!["error"]);
    assert_eq!(merged.rules[1].note, "updated second");
    let kept = r.merge(&incoming, false).unwrap();
    assert_eq!(kept.rules[1].note, "");
}

#[test]
fn merging_twice_changes_nothing_more() {
    let r = searching();
    let mut incoming = r.clone();
    incoming.rules[0].id = "other".into();
    let once = r.merge(&incoming, false).unwrap();
    assert_eq!(once.rules.len(), 2);
    let twice = once.merge(&incoming, false).unwrap();
    assert_eq!(shown(&once), shown(&twice));
}

#[test]
fn old_timeline_rules_become_facts_once() {
    let mut r = searching();
    r.rules[0].id = "boot".into();
    r.rules[0].target = "timeline".into();
    r.rules[0].note = "启动".into();
    r.migrate_legacy_timeline_rules();
    r.migrate_legacy_timeline_rules();
    assert_eq!(r.timeline.events.len(), 1);
    assert_eq!(r.timeline.events[0].id, "legacy-boot");
    assert_eq!(r.timeline.events[0].event_type, "evidence");
    assert_eq!(r.timeline.events[0].terms, ["error"]);
    assert_eq!(r.timeline.events[0].note, "启动");
}

/// Interleaved groups keep their members and the order within them.
#[test]
fn group_move_preserves_members_and_identity() {
    let mut items = vec![("A", 1), ("B", 2), ("A", 3), ("C", 4), ("B", 5)];
    swap_groups(&mut items, "A", "B", |r| r.0);
    assert_eq!(items, vec![("B", 2), ("B", 5), ("A", 1), ("A", 3), ("C", 4)]);
    let before = items.clone();
    swap_groups(&mut items, "missing", "A", |r| r.0);
    assert_eq!(items, before);
}

#[test]
fn reference_configuration_only_replaces_builtin_system_ids() {
    let mut reference = catalogued();
    let mut base = table("base");
    base.name = "设备概览".into();
    reference.system = vec![base];
    let mut original = reference.clone();
    original.layout.title = "保留标题".into();
    original.rules[0].name = "保留关键词".into();
    original.system[0].name = "修改过的内置规则".into();
    let mut custom = original.system[0].clone();
    custom.id = "custom-base".into();
    custom.name = "设备概览".into();
    original.system.push(custom.clone());
    let updated = original.with_reference_system(&reference).unwrap();
    assert_eq!(updated.layout.title, "保留标题");
    assert_eq!(updated.rules[0].name, "保留关键词");
    assert_eq!(updated.system.last().unwrap().id, custom.id);
    assert_eq!(updated.system[0].name, "设备概览");
    assert_eq!(original.system[0].name, "修改过的内置规则");
    assert_eq!(
        updated.with_reference_system(&reference).unwrap().system.len(),
        updated.system.len()
    );
    RuleSet::import(Some(updated)).unwrap();
}

#[test]
fn system_references_and_reference_import_preserve_directory_edits() {
    let mut r = catalogued();
    r.system = vec![table("base")];
    let reference = r.clone();
    let id = r.system[0].source_file_id.clone();
    let mut edited = r.log_file(&id).unwrap().clone();
    edited.name = "自定义设备信息".into();
    edited.path = "custom/device.json".into();
    r.save_log_file(edited).unwrap();
    assert!(r.delete_log_file(&id).is_err());
    let updated = r.with_reference_system(&reference).unwrap();
    assert_eq!(updated.log_file(&id).unwrap().name, "自定义设备信息");
    for rule in updated.system.iter().filter(|rule| rule.source_file_id == id) {
        assert_eq!(rule.source.pattern, "custom/device.json");
    }
    assert_eq!(r.rules[0].source_file_ids, updated.rules[0].source_file_ids);
}

/// Moving a rule does not change the order of the groups.
#[test]
fn editor_insert_and_cross_group_roundtrip() {
    let mut set = catalogued();
    let base = set.rules[0].clone();
    set.rules = [("a1", "A"), ("b1", "B"), ("a2", "A"), ("a3", "A")]
        .into_iter()
        .map(|(id, group)| Rule {
            id: id.into(),
            group: group.into(),
            name: id.into(),
            ..base.clone()
        })
        .collect();
    assert!(set.move_rule(false, "a1", "A", Some("a3"), true));
    assert_eq!(
        set.rules.iter().map(|r| r.id.as_str()).collect::<Vec<_>>(),
        ["a2", "a3", "a1", "b1"]
    );
    assert!(set.move_rule(false, "a3", "B", Some("b1"), false));
    assert_eq!(
        set.rules
            .iter()
            .map(|r| (r.id.as_str(), r.group.as_str()))
            .collect::<Vec<_>>(),
        [("a2", "A"), ("a1", "A"), ("a3", "B"), ("b1", "B")]
    );
}

#[test]
fn editor_group_insertion_keeps_hidden_and_shared_members() {
    let mut set = catalogued();
    let base = set.rules[0].clone();
    set.rules = [
        ("a", "A", "keywords"),
        ("b", "B", "both"),
        ("c", "C", "timeline"),
        ("d", "D", "keywords"),
    ]
    .into_iter()
    .map(|(id, group, target)| Rule {
        id: id.into(),
        group: group.into(),
        target: target.into(),
        ..base.clone()
    })
    .collect();
    assert!(set.move_group(false, "A", "D", true));
    assert_eq!(
        set.rules.iter().map(|r| r.id.as_str()).collect::<Vec<_>>(),
        ["b", "c", "d", "a"]
    );
    assert!(set.move_rule(false, "b", "D", None, true));
    assert_eq!(set.rules.iter().find(|r| r.id == "b").unwrap().target, "both");
    assert!(!set.rules.iter().any(|r| r.group == "B"));
    assert_eq!(
        set.rules.iter().map(|r| r.id.as_str()).collect::<Vec<_>>(),
        ["c", "d", "b", "a"]
    );
    let before = shown(&set);
    assert!(!set.move_rule(false, "b", "C", Some("missing"), false));
    assert!(!set.move_rule(false, "b", "C", Some("b"), true));
    assert!(!set.move_group(false, "C", "missing", false));
    assert_eq!(shown(&set), before);
}

#[test]
fn editor_system_move_preserves_fields_and_links() {
    let mut set = catalogued();
    let mut first = table("first");
    first.group = "A".into();
    let mut second = first.clone();
    second.id = "second".into();
    second.group = "B".into();
    second.join_rule = "first".into();
    set.system = vec![first.clone(), second.clone()];
    assert!(set.move_rule(true, "first", "B", None, true));
    assert_eq!(set.system[0].id, "second");
    assert_eq!(set.system[0].join_rule, "first");
    assert_eq!(shown(&set.system[1].fields), shown(&first.fields));
    assert!(set.system.iter().all(|r| r.group == "B"));
}

fn kind_of(change: impl FnOnce(&mut RuleSet)) -> Option<FaultKind> {
    let mut set = catalogued();
    set.system = vec![table("one-table"), table("two-table")];
    assert!(set.validate().is_ok());
    change(&mut set);
    set.validate().err().map(|f| f.kind)
}

#[test]
fn each_refusal_of_a_package_has_its_kind() {
    assert_eq!(kind_of(|s| s.version = 2), Some(FaultKind::Version));
    assert_eq!(kind_of(|s| s.log_files[0].container = "zip".into()), Some(FaultKind::ZipContainer));
    assert_eq!(kind_of(|s| s.log_files[0].container = "rar".into()), Some(FaultKind::Container));
    assert_eq!(kind_of(|s| s.log_files[0].mode = "near".into()), Some(FaultKind::BadSource));
    assert_eq!(kind_of(|s| s.log_files[0].path = "a/../b".into()), Some(FaultKind::NotRelative));
    assert_eq!(kind_of(|s| s.log_files[0].id = " ".into()), Some(FaultKind::FileId));
    assert_eq!(kind_of(|s| s.log_files[0].name = "".into()), Some(FaultKind::FileName));
    assert_eq!(
        kind_of(|s| s.log_files.push(file("two", "二", "log/a.log"))),
        Some(FaultKind::FilePath));
    assert_eq!(kind_of(|s| s.layout.file_panel_width = 179), Some(FaultKind::PanelWidth));
    assert_eq!(
        kind_of(|s| s.rules[0].source_file_ids = vec!["x".into()]),
        Some(FaultKind::NoSuchFile));
    assert_eq!(kind_of(|s| s.rules[0].source_file_ids = vec![]), Some(FaultKind::NoFileChosen));
    assert_eq!(
        kind_of(|s| s.rules[0].source_file_ids.push("one".into())),
        Some(FaultKind::RepeatedFile));
    assert_eq!(
        kind_of(|s| {
            let again = s.rules[0].clone();
            s.rules.push(again);
        }),
        Some(FaultKind::RuleId));
    assert_eq!(kind_of(|s| s.rules[0].terms = vec!["".into()]), Some(FaultKind::RuleTerms));
    assert_eq!(
        kind_of(|s| {
            s.rules[0].regex = true;
            s.rules[0].terms = vec!["[".into()];
        }),
        Some(FaultKind::RulePattern));
    assert_eq!(kind_of(|s| s.rules[0].target = "page".into()), Some(FaultKind::RuleOptions));
    assert_eq!(kind_of(|s| s.rules[0].timezone = "8".into()), Some(FaultKind::Timezone));
    assert_eq!(kind_of(|s| s.rules[0].time_format = "%!".into()), Some(FaultKind::TimeFormat));
    assert_eq!(kind_of(|s| s.rules[0].time_regex = "(".into()), Some(FaultKind::TimePattern));
    assert_eq!(kind_of(|s| s.system[0].kind = "yaml".into()), Some(FaultKind::SystemOptions));
    assert_eq!(kind_of(|s| s.system[0].view = "storage".into()), Some(FaultKind::SystemStorage));
    assert_eq!(kind_of(|s| s.system[0].kind = "regex".into()), Some(FaultKind::SystemPatternMissing));
    assert_eq!(kind_of(|s| s.system[1].id = "one-table".into()), Some(FaultKind::SystemId));
    assert_eq!(kind_of(|s| s.system[0].fields.clear()), Some(FaultKind::SystemFields));
    assert_eq!(
        kind_of(|s| s.system[0].fields.push(column("值", "other"))),
        Some(FaultKind::FieldName));
    assert_eq!(kind_of(|s| s.system[0].fields[0].capture = "(".into()), Some(FaultKind::FieldCapture));
    assert_eq!(kind_of(|s| s.system[0].fields[0].format = "hex".into()), Some(FaultKind::FieldOptions));
    assert_eq!(kind_of(|s| s.system[0].pattern = "(".into()), Some(FaultKind::SystemPattern));
    assert_eq!(kind_of(|s| s.system[0].join_rule = "gone".into()), Some(FaultKind::SystemJoin));
    assert_eq!(kind_of(|s| s.timeline.thresholds.gap_seconds = 0), Some(FaultKind::Thresholds));
    assert_eq!(kind_of(|s| s.layout.accent = "red".into()), Some(FaultKind::Style));
    assert_eq!(kind_of(|s| s.layout.log_lines_per_batch = 5), Some(FaultKind::Batch));
    let event = TimelineEventRule {
        id: "e".into(),
        event_type: "boot".into(),
        source_file_ids: vec!["one".into()],
        terms: vec!["x".into()],
        regex: false,
        evidence_strength: "medium".into(),
        time_regex: String::new(),
        time_format: String::new(),
        note: String::new(),
    };
    let with = |change: fn(&mut TimelineEventRule)| {
        let mut e = event.clone();
        change(&mut e);
        kind_of(move |s| s.timeline.events = vec![e])
    };
    assert_eq!(with(|e| e.id.clear()), Some(FaultKind::EventId));
    assert_eq!(with(|e| e.event_type = "party".into()), Some(FaultKind::EventType));
    assert_eq!(with(|e| e.terms.clear()), Some(FaultKind::EventTerms));
    assert_eq!(with(|e| e.evidence_strength = "vague".into()), Some(FaultKind::EventStrength));
    assert_eq!(with(|e| e.source_file_ids = vec!["gone".into()]), Some(FaultKind::EventFile));
    assert_eq!(
        with(|e| {
            e.regex = true;
            e.terms = vec!["(".into()];
        }),
        Some(FaultKind::EventPattern));
    let judgement = TimelineJudgementRule {
        id: "j".into(),
        start_event: "boot".into(),
        end_event: "boot".into(),
        must_have: vec![],
        must_not_have: vec![],
        any_of: vec![],
        output: "结论".into(),
        confidence: "medium".into(),
        limitation: String::new(),
    };
    let with = |change: fn(&mut TimelineJudgementRule)| {
        let mut j = judgement.clone();
        change(&mut j);
        kind_of(move |s| s.timeline.judgements = vec![j])
    };
    assert_eq!(with(|j| j.id.clear()), Some(FaultKind::JudgementId));
    assert_eq!(with(|j| j.output.clear()), Some(FaultKind::JudgementOutput));
    assert_eq!(with(|j| j.confidence = "sure".into()), Some(FaultKind::JudgementConfidence));
    assert_eq!(RuleSet::import(None).err().map(|f| f.kind), Some(FaultKind::RuleJson));
}

#[test]
fn refusals_say_what_they_are_about() {
    let mut set = catalogued();
    set.version = 2;
    assert_eq!(
        set.validate().unwrap_err().message(),
        "不支持的规则格式版本：2，请使用新版规则文件"
    );
    let mut set = catalogued();
    set.rules[0].source_file_ids = vec!["x".into()];
    assert_eq!(set.validate().unwrap_err().message(), "日志文件引用不存在：x");
}

#[test]
fn merged_timeline_rules_bring_their_facts() {
    let own = catalogued();
    let mut incoming = catalogued();
    incoming.log_files[0].id = "other".into();
    incoming.rules[0].id = "remote-rule".into();
    incoming.rules[0].target = "timeline".into();
    incoming.rules[0].source_file_ids = vec!["other".into()];
    let merged = own.merge(&incoming, false).unwrap();
    assert_eq!(merged.timeline.events.len(), 1);
    let fact = &merged.timeline.events[0];
    assert_eq!(fact.id, "legacy-remote-rule");
    assert_eq!(fact.event_type, "evidence");
    assert_eq!(fact.terms, ["error"]);
    assert_eq!(fact.source_file_ids, ["one"]);
    let again = merged.merge(&incoming, true).unwrap();
    assert_eq!(again.timeline.events.len(), 1);
    assert!(own.merge(&own, true).unwrap().timeline.events.is_empty());
}

/// An old timeline rule whose identity is known brings its fact only where it
/// replaces the rule that was there.
#[test]
fn rules_that_are_left_out_bring_no_facts() {
    let own = catalogued();
    let mut incoming = catalogued();
    incoming.rules[0].target = "timeline".into();
    let kept = own.merge(&incoming, false).unwrap();
    assert!(kept.timeline.events.is_empty());
    assert_eq!(kept.rules[0].target, own.rules[0].target);
    let replaced = own.merge(&incoming, true).unwrap();
    assert_eq!(replaced.timeline.events[0].id, "legacy-rule");
    assert_eq!(replaced.rules[0].target, "timeline");

    incoming.rules[0].regex = true;
    incoming.rules[0].terms = vec!["(".into()];
    assert!(own.merge(&incoming, false).is_ok());
    assert!(own.merge(&incoming, true).is_err());
}

#[test]
fn plain_terms_are_taken_literally() {
    let rule = Rule { terms: vec!["a.b-[c]&~#".into()], ..Rule::default() };
    let m = Matcher::new(&rule).unwrap();
    assert!(m.matches("x a.b-[c]&~# y"));
    assert!(!m.matches("axb-[c]&~#"));
}

#[test]
fn exchanging_groups_twice_puts_them_back() {
    let start = vec![("A", 1), ("A", 2), ("B", 3), ("C", 4), ("C", 5)];
    let mut items = start.clone();
    swap_groups(&mut items, "A", "C", |r| r.0);
    assert_eq!(items, vec![("C", 4), ("C", 5), ("B", 3), ("A", 1), ("A", 2)]);
    let mut other = start.clone();
    swap_groups(&mut other, "C", "A", |r| r.0);
    assert_eq!(other, items);
    swap_groups(&mut items, "A", "C", |r| r.0);
    assert_eq!(items, start);
}

#[test]
fn a_moved_rule_stands_beside_its_anchor() {
    let rule = |id: &str, group: &str| Rule {
        id: id.into(),
        group: group.into(),
        ..Rule::default()
    };
    let mut set = catalogued();
    set.rules = vec![rule("a", "A"), rule("b", "B"), rule("c", "A"), rule("d", "B")];
    let ids = |s: &RuleSet| s.rules.iter().map(|r| r.id.clone()).collect::<Vec<_>>();
    assert!(set.move_rule(false, "d", "A", Some("a"), true));
    assert_eq!(ids(&set), ["a", "d", "c", "b"]);
    assert!(set.move_rule(false, "a", "New", None, false));
    assert_eq!(ids(&set), ["d", "c", "b", "a"]);
    assert_eq!(set.rules[3].group, "New");
}

#[test]
fn taking_over_a_reference_again_changes_nothing() {
    let mut reference = catalogued();
    reference.log_files = vec![file("base", "设备", "etc/device.json")];
    let mut base = table("base");
    base.source_file_id = "base".into();
    reference.system = vec![base];
    reference.rules = vec![];
    let mut own = catalogued();
    own.system = vec![table("own")];
    let once = own.with_reference_system(&reference).unwrap();
    let twice = once.with_reference_system(&reference).unwrap();
    for set in [&once, &twice] {
        let files: Vec<_> = set.log_files.iter().map(|f| f.id.as_str()).collect();
        let tables: Vec<_> = set.system.iter().map(|t| t.id.as_str()).collect();
        let sources: Vec<_> = set.system.iter().map(|t| t.source.pattern.as_str()).collect();
        assert_eq!(files, ["one", "base"]);
        assert_eq!(tables, ["base", "own"]);
        assert_eq!(sources, ["etc/device.json", "log/a.log"]);
    }
}
