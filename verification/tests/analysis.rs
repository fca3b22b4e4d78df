//! The analysis of whole packages, and the preview of a rule.

use tracefox::engine::analyze as analyze_all;
use tracefox::engine::plan::AnalysisFilePlan;
use tracefox::engine::preview::preview;
use tracefox::engine::scan::Content;
use tracefox::engine::{Analysis, Report};
use tracefox::rules::{
    Field, Layout, LogFile, Rule, RuleSet, Source, SystemRule, TimelineConfig,
};

/// Gives the rules of a test their catalogue.
fn catalog(input: &RuleSet) -> RuleSet {
    let mut rules = input.clone();
    let mut files = Vec::<LogFile>::new();
    let mut register = |source: &Source| {
        if let Some(file) =
            files.iter().find(|f| f.path == source.pattern && f.mode == source.mode)
        {
            return file.id.clone();
        }
        let prior = input
            .log_files
            .iter()
            .find(|f| f.path == source.pattern && f.mode == source.mode);
        let id = prior.map(|f| f.id.clone()).unwrap_or_else(|| format!("fixture-{}", files.len()));
        files.push(LogFile {
            id: id.clone(),
            name: prior
                .map(|f| f.name.clone())
                .unwrap_or_else(|| format!("测试日志 {}", files.len())),
            path: source.pattern.clone(),
            mode: source.mode.clone(),
            container: "diagnostic_archive".into(),
        });
        id
    };
    for rule in &mut rules.rules {
        rule.source_file_ids = rule.sources.iter().map(&mut register).collect();
    }
    for rule in &mut rules.system {
        rule.source_file_id = register(&rule.source);
    }
    rules.log_files = files;
    rules.version = 3;
    rules
}

fn prefix(pattern: &str) -> Source {
    Source { pattern: pattern.into(), mode: "prefix".into() }
}

fn exact(pattern: &str) -> Source {
    Source { pattern: pattern.into(), mode: "exact".into() }
}

fn rules() -> RuleSet {
    catalog(&RuleSet {
        log_files: vec![],
        version: 2,
        rules: vec![Rule {
            terms: vec!["error".into()],
            sources: vec![prefix("syslog")],
            before: 1,
            after: 1,
            ..Rule::default()
        }],
        system: vec![],
        layout: Layout::default(),
        timeline: TimelineConfig::default(),
    })
}

fn sizes(text: &str, kib: bool) -> Option<String> {
    let n = text.parse::<f64>().ok()?;
    let n = if kib { n * 1024.0 } else { n };
    Some(format!("{:.1} GiB", n / 1073741824.0))
}

fn volumes(a: &str, b: &str, c: &str) -> Option<String> {
    let gib = |s: &str| s.parse::<f64>().ok().map(|n| n / 1073741824.0);
    Some(format!(
        "总容量：{:.1} GiB | 已使用：{:.1} GiB | 可用：{:.1} GiB",
        gib(a)?,
        gib(b)?,
        gib(c)?
    ))
}

fn text(s: &str) -> Content {
    Content { bytes: s.as_bytes().to_vec(), error: None }
}

fn analyze_contents(set: &RuleSet, entries: Vec<(&str, Content)>) -> Report {
    let set = catalog(set);
    let mut names = Vec::new();
    let mut contents = Vec::new();
    for (name, content) in entries {
        names.push(name.to_string());
        contents.push(content);
    }
    analyze_all(
        &set,
        &names,
        &contents,
        "case.tgz",
        "2026-09-09T00:00:00+08:00",
        &sizes,
        &volumes,
    )
    .unwrap()
}

fn analyze(set: &RuleSet, entries: &[(&str, &str)]) -> Report {
    analyze_contents(set, entries.iter().map(|(n, t)| (*n, text(t))).collect())
}

fn column(name: &str, path: &str, capture: &str) -> Field {
    Field {
        name: name.into(),
        path: path.into(),
        format: String::new(),
        unit: String::new(),
        missing: String::new(),
        wide: false,
        view: String::new(),
        capture: capture.into(),
    }
}

#[test]
fn lazy_compact_json_and_custom_time_keep_evidence() {
    let line = r#"{"event": "error", "at": "10/09/2026 09:08:07"}"#;
    let mut r = rules();
    let mut compact = r.rules[0].clone();
    compact.sources = vec![prefix("syslog")];
    r.rules[0].sources = vec![prefix("syslog")];
    compact.id = "compact".into();
    compact.name = "紧凑匹配".into();
    compact.terms = vec![r#""event":"error""#.into()];
    compact.target = "both".into();
    compact.time_regex = r"(?P<time>\d{2}/\d{2}/\d{4} \d{2}:\d{2}:\d{2})".into();
    compact.time_format = "%d/%m/%Y %H:%M:%S".into();
    compact.timezone = "+08:00".into();
    r.rules.push(compact);
    let v = analyze(&r, &[("syslog", &format!("{line}\n{line}\n"))]);
    assert_eq!(v.findings[0].count, 2);
    assert_eq!(v.findings[1].count, 2);
    assert_eq!(v.findings[1].fragments[0].lines[0].text, line);
    assert!(v.findings[1].fragments[0].lines[0].ranges.is_empty());
    assert_eq!(v.events.len(), 1);
    assert_eq!(v.events[0].key.as_deref(), Some("2026-09-10T01:08:07.000000000Z"));
    assert_eq!(v.events[0].sources.len(), 2);
}

#[test]
fn shared_source_keeps_json_failures_independent_of_text_rules() {
    let mut r = rules();
    r.rules.clear();
    let json = SystemRule {
        id: "json-one".into(),
        name: "JSON 一".into(),
        source: exact("sysinfo.json"),
        fields: vec![column("值", "value", "disk-(\\d+)")],
        ..SystemRule::default()
    };
    let mut second = json.clone();
    second.id = "json-two".into();
    second.name = "JSON 二".into();
    let mut kv = json.clone();
    kv.id = "text".into();
    kv.kind = "kv".into();
    r.system = vec![json, second, kv];
    let v = analyze(&r, &[("sysinfo.json", "value: disk-42")]);
    assert_eq!(
        v.warnings,
        [
            "JSON 一 / sysinfo.json：JSON 内容无法解析",
            "JSON 二 / sysinfo.json：JSON 内容无法解析"
        ]
    );
    assert_eq!(v.system[2].rows[0].get("值").unwrap(), "42");
    let v = analyze(&r, &[("sysinfo.json", r#"{"value":"disk-73"}"#)]);
    assert_eq!(v.system[0].rows[0].get("值").unwrap(), "73");
    assert_eq!(v.system[1].rows[0].get("值").unwrap(), "73");
}

#[test]
fn overlapping_contexts_share_a_fragment() {
    let v = analyze(
        &rules_with_source(),
        &[(
            "diag/syslog",
            "before\nerror one\nerror two </script><script>alert(1)</script>\nafter\n",
        )],
    );
    assert_eq!(v.findings[0].count, 2);
    assert_eq!(v.findings[0].fragments.len(), 1);
    assert_eq!(v.findings[0].fragments[0].lines.len(), 4);
    let v = analyze(&rules_with_source(), &[("diag/syslog", "clean\n")]);
    assert_eq!(v.findings[0].count, 0);
}

fn rules_with_source() -> RuleSet {
    let mut r = rules();
    r.rules[0].sources = vec![prefix("syslog")];
    r
}

#[test]
fn adjacent_zero_context_stays_separate() {
    let mut r = rules_with_source();
    r.rules[0].before = 0;
    r.rules[0].after = 0;
    let v = analyze(&r, &[("syslog", "error error\nerror\n")]);
    assert_eq!(v.findings[0].count, 2);
    assert_eq!(v.findings[0].fragments.len(), 2);
}

#[test]
fn event_merge_preserves_sources() {
    let line = "2026-09-09T10:00:00+08:00 kernel: Linux version 6.18\n";
    let mut r = rules_with_source();
    r.rules[0].terms = vec!["Linux version".into()];
    r.rules[0].sources.push(prefix("kern"));
    r.rules[0].target = "timeline".into();
    let v = analyze(&r, &[("syslog", line), ("kern.log", line)]);
    assert_eq!(v.events.len(), 1);
    assert_eq!(v.events[0].sources.len(), 2);
}

#[test]
fn rotated_log_and_volume_annotation() {
    let mut r = rules_with_source();
    r.rules[0].terms = vec![r"allVolumes (\d+) (\d+) (\d+)".into()];
    r.rules[0].regex = true;
    r.rules[0].fmt = "volume_info".into();
    let v = analyze(&r, &[("syslog.1.gz", "allVolumes 2147483648 1073741824 1073741824\n")]);
    assert_eq!(v.findings[0].count, 1);
    assert!(v.findings[0].fragments[0].annotation.contains("2.0 GiB"));
}

#[test]
fn report_group_order_uses_disabled_first_occurrence() {
    let mut r = rules_with_source();
    let base = r.rules[0].clone();
    r.rules = vec![
        Rule { id: "disabled-b".into(), group: "B".into(), enabled: false, ..base.clone() },
        Rule { id: "a".into(), group: "A".into(), ..base.clone() },
        Rule { id: "b".into(), group: "B".into(), ..base },
    ];
    let v = analyze(&r, &[("syslog", "error\n")]);
    assert_eq!(v.findings[0].rule.group, "B");
    assert_eq!(v.findings[1].rule.group, "A");
}

/// The limit is on the whole rule, not on a file; the count is that of all hits.
#[test]
fn report_limits_each_rule_to_500_hits_across_files() {
    for total in [499usize, 500, 501, 1001] {
        let first = (0..250).map(|_| "before\nerror\nafter\n").collect::<String>();
        let second = (250..total).map(|_| "before\nerror\nafter\n").collect::<String>();
        let v = analyze(&rules_with_source(), &[("syslog", &first), ("syslog.1", &second)]);
        let finding = &v.findings[0];
        assert_eq!(finding.count, total);
        let mut hits = std::collections::HashSet::new();
        for fragment in &finding.fragments {
            for line in &fragment.lines {
                if line.hit {
                    hits.insert((fragment.file.clone(), line.number));
                    assert_eq!(line.text, "error");
                    assert!(!line.ranges.is_empty());
                }
            }
        }
        assert_eq!(hits.len(), total.min(500));
    }
}

#[test]
fn bounded_parallel_scan_preserves_results_and_source_order() {
    let entries = [
        ("root/syslog.9", "before\n2026-09-09T08:00:00Z error first\nafter\n"),
        ("root/unrelated", "error must not appear\n"),
        ("root/syslog.1", "2026-09-09T08:00:00Z error second\n\0error\n"),
        ("root/syslog", "error third\n"),
        ("root/syslog.3", "before\nerror fourth\nafter\n"),
        ("root/syslog.2", "error fifth\n"),
    ];
    let mut r = rules_with_source();
    r.rules[0].target = "both".into();
    r.rules[0].sources.push(exact("syslog.9"));
    let mut fixed = r.rules[0].clone();
    fixed.id = "exact".into();
    fixed.name = "固定路径".into();
    fixed.sources = vec![exact("syslog.1")];
    fixed.reverse = true;
    r.rules.push(fixed);
    let mut contains = r.rules[0].clone();
    contains.id = "contains".into();
    contains.name = "包含路径".into();
    contains.sources = vec![Source { pattern: "syslog.3".into(), mode: "path".into() }];
    r.rules.push(contains);
    let baseline = analyze(&r, &entries);
    assert_eq!(baseline.findings[0].count, 6);
    assert_eq!(baseline.findings[0].fragments[0].file, "root/syslog.9");
    assert_eq!(baseline.findings[1].count, 2);
    assert_eq!(baseline.findings[2].count, 1);
    // The files are worked on from the last to the first; the report is the same.
    let set = catalog(&r);
    let names: Vec<String> = entries.iter().map(|(n, _)| n.to_string()).collect();
    let analysis = Analysis::new(&set, &names).unwrap();
    let mut results: Vec<_> = (0..analysis.plan.files.len())
        .rev()
        .map(|k| {
            let file = analysis.plan.files[k].file_index;
            (k, analysis.analyze(k, &text(entries[file].1), &sizes))
        })
        .collect();
    results.sort_by_key(|(k, _)| *k);
    let mut gathered = tracefox::engine::findings::Gathered::new(&analysis.enabled);
    for (k, found) in results {
        gathered.add_file(&analysis.plan.files[k].active, found);
    }
    let actual = tracefox::engine::report::assemble_report(
        &analysis.set,
        gathered,
        &names,
        "case.tgz",
        "2026-09-09T00:00:00+08:00",
        &volumes,
    );
    assert_eq!(format!("{actual:?}"), format!("{baseline:?}"));
}

#[test]
fn broken_files_do_not_disturb_each_other() {
    let mut r = rules_with_source();
    r.system.push(SystemRule {
        id: "shared".into(),
        name: "共享 JSON".into(),
        kind: "json".into(),
        fields: vec![column("值", "value", "")],
        source: prefix("syslog"),
        ..SystemRule::default()
    });
    let v = analyze_contents(
        &r,
        vec![
            ("syslog.1", Content { bytes: b"error \xff\n".to_vec(), error: None }),
            (
                "syslog.2.gz",
                Content {
                    bytes: b"error valid line\nerror unterminated".to_vec(),
                    error: Some("corrupt deflate stream".into()),
                },
            ),
        ],
    );
    assert!(v.findings[0].count >= 1);
    assert_eq!(v.findings[0].status, "日志读取不完整");
    assert!(v.warnings.iter().any(|w| w.contains("日志读取失败")));
    assert!(v.warnings.iter().any(|w| w.contains("stream did not contain valid UTF-8")));
    assert!(v.findings[0].fragments[0].lines[0].text.contains('\u{fffd}'));
}

#[test]
fn exact_relative_path_groups_system_and_log_rules_into_one_file_task() {
    let mut r = rules_with_source();
    r.rules[0].sources = vec![exact("cmd/info.json")];
    let mut second = r.rules[0].clone();
    second.id = "second".into();
    second.name = "另一条规则".into();
    r.rules.push(second);
    r.system.push(SystemRule {
        id: "json".into(),
        name: "JSON".into(),
        kind: "json".into(),
        source: exact("cmd/info.json"),
        fields: vec![column("值", "value", "")],
        ..SystemRule::default()
    });
    let entries = [
        ("diag/cmd/info.json", "{\"value\":\"error\"}\n"),
        ("diag/other/info.json", "{\"value\":\"error\"}\n"),
    ];
    let names: Vec<String> = entries.iter().map(|(n, _)| n.to_string()).collect();
    let analysis = Analysis::new(&catalog(&r), &names).unwrap();
    assert_eq!(analysis.plan.files.len(), 1);
    let v = analyze(&r, &entries);
    assert_eq!(v.findings[0].count, 1);
    assert_eq!(v.findings[1].count, 1);
    assert_eq!(v.system[0].source, "diag/cmd/info.json");
    assert!(v.warnings.is_empty());
}

#[test]
fn disabled_legacy_owner_still_determines_first_matching_group() {
    let mut r = rules_with_source();
    r.rules[0].id = "owner".into();
    r.rules[0].legacy_group = "first".into();
    r.rules[0].enabled = false;
    let mut skipped = r.rules[0].clone();
    skipped.id = "skipped".into();
    skipped.name = "后续组".into();
    skipped.legacy_group = "second".into();
    skipped.enabled = true;
    let mut selected = r.rules[0].clone();
    selected.id = "selected".into();
    selected.name = "首组".into();
    selected.enabled = true;
    r.rules.extend([skipped, selected]);
    let v = analyze(&r, &[("syslog", "error\n")]);
    assert_eq!(v.findings[0].count, 0);
    assert_eq!(v.findings[0].status, "来源文件缺失");
    assert_eq!(v.findings[1].count, 1);
}

#[test]
fn relative_prefix_does_not_enter_similarly_named_service_directories() {
    let mut r = rules_with_source();
    r.rules[0].sources = vec![prefix("appLog/cloud_serv")];
    let entries = [
        ("diag/appLog/cloud_serv.slog.1", "error\n"),
        ("diag/appLog/cloud_serv_log/data.gz", "not a gzip archive"),
    ];
    let names: Vec<String> = entries.iter().map(|(n, _)| n.to_string()).collect();
    let analysis = Analysis::new(&catalog(&r), &names).unwrap();
    let visited: Vec<_> =
        analysis.plan.files.iter().map(|f| names[f.file_index].as_str()).collect();
    assert_eq!(visited, ["diag/appLog/cloud_serv.slog.1"]);
    let v = analyze(&r, &entries);
    assert_eq!(v.findings[0].count, 1);
    assert!(v.warnings.is_empty());
}

#[test]
fn analysis_and_preview_resolve_directory_and_keep_internal_groups() {
    let mut r = rules();
    r.log_files = vec![LogFile {
        id: "one".into(),
        name: "自定义中文名".into(),
        path: "log/b.log".into(),
        mode: "exact".into(),
        container: "diagnostic_archive".into(),
    }];
    r.rules[0].id = "rule".into();
    r.rules[0].group = "internal-group".into();
    r.rules[0].source_file_ids = vec!["one".into()];
    // What is left from an earlier run does not count.
    r.rules[0].sources = vec![exact("wrong.log")];
    let names = vec!["log/a.log".to_string(), "log/b.log".to_string()];
    let contents = vec![text("error\n"), text("error\n")];
    let v =
        analyze_all(&r, &names, &contents, "input.tgz", "now", &sizes, &volumes).unwrap();
    assert_eq!(v.findings[0].count, 1);
    assert_eq!(v.findings[0].rule.group, "internal-group");
    assert_eq!(v.findings[0].fragments[0].file, "log/b.log");
    assert_eq!(v.log_files[0].name, "自定义中文名");
    let entry = v.source_catalog.iter().find(|e| e.path == "log/b.log").unwrap();
    assert_eq!(entry.ids, ["one"]);
    assert!(v.source_labels.get("log/b.log").unwrap().contains("自定义中文名"));
    let p = preview(&r, 0, false, "error", "now", &sizes).unwrap();
    assert!(p.source_labels.get("样例日志").unwrap().contains("自定义中文名"));
    assert_eq!(p.findings[0].count, 1);
}

#[test]
fn storage_context_and_preview_keep_smart_with_its_disk() {
    let sample = r#"{"disk":{"devices":[
      {"disk_info":{"model":"same","used_for":"Storage Pool 1","vendor_extra":{"lane":2},"media":["ssd","nvme"]},"smart_info":{"report":[{"id":5,"name":"Reallocated_Sector_Ct","raw_string":"0","status":1}]}},
      {"disk_info":{"model":"same","used_for":"Unused"},"smart_info":{"report":[{"id":5,"name":"data_units_read","value":99}]}},
      {"disk_info":{},"smart_info":{"report":[]}}
    ]}}"#;
    let mut r = rules_with_source();
    r.rules.clear();
    r.system = vec![
        SystemRule {
            id: "disks".into(),
            name: "硬盘".into(),
            source: prefix("sysinfo.json"),
            selector: "disk.devices[]".into(),
            view: "storage".into(),
            fields: vec![column("型号", "disk_info.model", "")],
            ..SystemRule::default()
        },
        SystemRule {
            id: "smart".into(),
            name: "SMART".into(),
            source: prefix("sysinfo.json"),
            selector: "disk.devices[].smart_info.report[]".into(),
            view: "storage-smart".into(),
            fields: vec![
                column("Raw", "raw_string", ""),
                column("Current", "value", ""),
                column("源状态", "status", ""),
            ],
            missing: String::new(),
            ..SystemRule::default()
        },
    ];
    let r = catalog(&r);
    let d = tracefox::extract::extract(&r.system[0], sample, "source-a", &sizes).unwrap();
    let s = tracefox::extract::extract(&r.system[1], sample, "source-a", &sizes).unwrap();
    assert_eq!(d.rows.len(), 3);
    assert_eq!(d.storage.iter().map(|c| c.device).collect::<Vec<_>>(), vec![0, 1, 2]);
    assert_eq!(s.storage.iter().map(|c| c.device).collect::<Vec<_>>(), vec![0, 1]);
    assert_eq!(d.storage[1].pool, "Unused");
    assert_eq!(d.storage[2].pool, "");
    assert!(d.storage[0].details.iter().any(|(k, v)| k == "vendor_extra" && v.contains("lane")));
    assert!(d.storage[0].details.iter().any(|(k, v)| k == "media" && v.contains("nvme")));
    assert_eq!(s.rows[0].get("Raw").unwrap(), "0");
    assert_eq!(s.rows[1].get("Current").unwrap(), "99");
    assert_eq!(s.rows[1].get("源状态").unwrap(), "");
    let v = analyze(&r, &[("sysinfo.json", sample), ("other/sysinfo.json", sample)]);
    let disks: Vec<_> = v.system.iter().filter(|t| t.id == "disks").collect();
    assert_eq!(disks.len(), 2);
    assert_ne!(disks[0].source, disks[1].source);
    let p = preview(&r, 0, true, sample, "now", &sizes).unwrap();
    assert_eq!(p.system.len(), 2);
    let mut invalid = r.clone();
    invalid.system[0].selector = "other[]".into();
    assert!(invalid.validate().is_err());
}

#[test]
fn refused_rules_stop_the_analysis() {
    let mut r = rules_with_source();
    r.rules[0].regex = true;
    r.rules[0].terms = vec!["[".into()];
    assert!(r.validate().is_err());
    let set = catalog(&r);
    let e = analyze_all(&set, &vec![], &vec![], "p", "g", &sizes, &volumes).unwrap_err();
    assert_eq!(e.kind, tracefox::fault::FaultKind::RulePattern);
}

#[test]
fn tables_that_are_missing_say_so() {
    let mut r = rules_with_source();
    r.system.push(SystemRule {
        id: "info".into(),
        name: "信息".into(),
        source: exact("cmd/info.json"),
        fields: vec![column("值", "value", "")],
        missing: "未获取".into(),
        ..SystemRule::default()
    });
    let v = analyze(&r, &[("syslog", "error\n")]);
    assert_eq!(v.system.len(), 1);
    assert_eq!(v.system[0].warning, "未获取：来源缺失或提取失败");
    assert_eq!(v.findings[0].status, "已提取");
}

#[test]
fn nul_bytes_are_named_and_reported() {
    let v = analyze(&rules_with_source(), &[("syslog", "a\0\0 error\n")]);
    assert_eq!(v.findings[0].fragments[0].lines[0].text, "a[NUL × 2] error");
    assert!(v.warnings[0].contains("NUL"));
}

#[test]
fn fragments_follow_the_order_that_the_rule_asks_for() {
    let mut r = rules_with_source();
    r.rules[0].before = 0;
    r.rules[0].after = 0;
    r.rules[0].sort = "desc".into();
    let log = "2026-09-09T08:00:00Z error a\nx\n2026-09-10T08:00:00Z error b\n";
    let v = analyze(&r, &[("syslog", log)]);
    assert!(v.findings[0].fragments[0].lines[0].text.ends_with('b'));
    r.rules[0].sort = "asc".into();
    let v = analyze(&r, &[("syslog", log)]);
    assert!(v.findings[0].fragments[0].lines[0].text.ends_with('a'));
    r.rules[0].sort = "source".into();
    r.rules[0].reverse = true;
    let v = analyze(&r, &[("syslog", log)]);
    assert!(v.findings[0].fragments[0].lines[0].text.ends_with('b'));
}

fn literal_rule(id: &str, name: &str, group: &str, term: &str, note: &str, source: Source) -> RuleSet {
    RuleSet {
        rules: vec![Rule {
            id: id.into(),
            name: name.into(),
            group: group.into(),
            terms: vec![term.into()],
            regex: true,
            target: "both".into(),
            note: note.into(),
            sources: vec![source],
            ..Rule::default()
        }],
        ..rules()
    }
}

#[test]
fn boot_nul_rule_marks_possible_power_instability() {
    let r = literal_rule(
        "boot-nul-before-kernel",
        "开机前存在 NUL 字节",
        "系统事件",
        r"\[NUL × \d+\]Linux version",
        "",
        prefix("log/syslog"),
    );
    let v = analyze(
        &r,
        &[(
            "log/syslog",
            "2026-09-09T10:00:00+08:00 kernel: \0\0Linux version 6.18\n2026-09-09T10:01:00+08:00 kernel: Linux version 6.18\n",
        )],
    );
    assert_eq!(v.findings[0].count, 1);
    assert_eq!(v.events.len(), 1);
    assert_eq!(v.events[0].name, "开机前存在 NUL 字节");
}

fn btrfs_rule() -> RuleSet {
    literal_rule(
        "btrfs-snapshot-delete",
        "Btrfs 快照定期删除",
        "内核服务",
        "btrfs_commit_transaction: deleting scheduled snapshot",
        "可能是 Btrfs 快照定期删除导致 NAS 系统无法访问",
        Source { pattern: "log/kern".into(), mode: "path".into() },
    )
}

#[test]
fn btrfs_snapshot_delete_rule_reports_keyword_and_timeline() {
    let rules = btrfs_rule();
    let report = analyze(
        &rules,
        &[(
            "log/kern.log",
            "2026-09-08T17:35:12+08:00 kernel: btrfs_commit_transaction: deleting scheduled snapshot\n",
        )],
    );
    let finding = &report.findings[0];
    assert_eq!(finding.count, 1);
    assert_eq!(finding.fragments[0].file, "log/kern.log");
    assert_eq!(finding.rule.note, "可能是 Btrfs 快照定期删除导致 NAS 系统无法访问");
    assert_eq!(report.events.len(), 1);
    assert_eq!(report.events[0].name, "Btrfs 快照定期删除");
    assert_eq!(report.events[0].group, "内核服务");
    assert_eq!(report.events[0].note, "可能是 Btrfs 快照定期删除导致 NAS 系统无法访问");

    let clean_report = analyze(
        &rules,
        &[("log/kern.log", "2026-09-08T17:35:12+08:00 kernel: btrfs read ok\n")],
    );
    assert_eq!(clean_report.findings[0].count, 0);
    assert!(clean_report.events.is_empty());
}

#[test]
fn relative_defaults_exclude_same_named_files_in_other_directories() {
    let line = "2026-09-08T17:35:12+08:00 btrfs_commit_transaction: deleting scheduled snapshot\n";
    let rules = btrfs_rule();
    let names = ["diag/log/kern.log.1", "diag/appLog/Config/kernel.cfg"];
    let report = analyze(&rules, &[(names[0], line), (names[1], line)]);
    assert_eq!(report.findings[0].count, 1);
    let all = names.iter().map(|n| n.to_string()).collect();
    let analysis = Analysis::new(&catalog(&rules), &all).unwrap();
    let visited: Vec<&str> =
        analysis.plan.files.iter().map(|f| names[f.file_index]).collect();
    assert_eq!(visited, ["diag/log/kern.log.1"]);
}

#[test]
fn plans_name_the_rules_that_apply() {
    let source = |pattern: &str, mode: &str| Source {
        pattern: pattern.into(),
        mode: mode.into(),
    };
    let rule = |s: Source, legacy: &str| Rule {
        sources: vec![s],
        legacy_group: legacy.into(),
        ..Rule::default()
    };
    let files: Vec<String> = vec!["top/log/a.log".into(), "top/other".into(), "top/dmesg".into()];
    let rules = vec![
        rule(source("log/a.log", "exact"), "old"),
        rule(source("log/a", "path"), "older"),
        rule(source("a.", "prefix"), ""),
        rule(source("other", "exact"), "older"),
    ];
    let plan = AnalysisFilePlan::new(&files, &rules, &rules, &vec![]);
    let work: Vec<_> = plan.files.iter().map(|p| (p.file_index, p.active.clone())).collect();
    assert_eq!(work, [(0, vec![0, 2]), (1, vec![3]), (2, vec![])]);
    for r in &rules {
        assert!(r.sources[0].matches("top/log/a.log") != r.sources[0].matches("top/other"));
    }
    let enabled = vec![rules[1].clone()];
    let plan = AnalysisFilePlan::new(&files, &rules, &enabled, &vec![]);
    assert_eq!(plan.files.len(), 1);
    assert_eq!(plan.files[0].file_index, 2);
}
