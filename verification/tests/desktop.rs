//! What the desktop windows decide.

use tracefox::desktop::arrange::{reorder_file_rule, reorder_log_files};
use tracefox::desktop::cleanup::{ask_cleanup, Cleaned};
use tracefox::desktop::draft::Draft;
use tracefox::desktop::edit::EditForm;
use tracefox::desktop::fields::{
    delete_field, edit_field, field_index, load_field, move_field, new_field, save_field,
};
use tracefox::desktop::form::{
    add_term, basics_missing, choose_source, directory_label, pos, remove_last_source, sample_paths,
    source_choices, source_mode, strings,
};
use tracefox::desktop::rule_form::{
    clamped_width, fill_layout, fill_rule, fill_system, load_layout, load_rule, load_system,
};
use tracefox::desktop::settings::{
    answered_step, persist_startup, persist_webdav_config, resolve_webdav_password, sync_step,
    webdav_form, Settings, Side, SyncStep,
};
use tracefox::desktop::transfer::{import_summary, reference_summary};
use tracefox::desktop::window::{Notice, Outcome, Window};
use tracefox::fault::FaultKind;
use tracefox::monitor::{DirectoryState, Seen};
use tracefox::notify::{startup_command, toast_xml};
use tracefox::rules::{Field, Layout, LogFile, Rule, RuleSet, SystemRule, TimelineConfig};
use tracefox::tasks::{PackagePath, Phase};
use tracefox::webdav::{
    check_status, content_hash, detect_conflict, downloaded_text, load_webdav_password, Conflict,
    Request, SyncMetadata, WebDavClient, WebDavSettings,
};

fn file(id: &str) -> LogFile {
    LogFile {
        id: id.into(),
        name: id.into(),
        path: format!("{id}.log"),
        mode: "prefix".into(),
        container: "diagnostic_archive".into(),
    }
}

fn column(name: &str) -> Field {
    Field {
        name: name.into(),
        path: name.into(),
        format: String::new(),
        unit: String::new(),
        missing: String::new(),
        wide: false,
        view: String::new(),
        capture: String::new(),
    }
}

fn table(id: &str, source: &str) -> SystemRule {
    SystemRule {
        id: id.into(),
        name: id.into(),
        source_file_id: source.into(),
        fields: vec![column("v")],
        ..SystemRule::default()
    }
}

fn rule(id: &str, sources: &[&str]) -> Rule {
    Rule {
        id: id.into(),
        name: id.into(),
        group: format!("group-{id}"),
        source_file_ids: sources.iter().map(|s| s.to_string()).collect(),
        terms: vec!["error".into()],
        ..Rule::default()
    }
}

fn set() -> RuleSet {
    RuleSet {
        version: 3,
        log_files: vec![file("a"), file("b"), file("c")],
        rules: vec![
            rule("rule-a", &["a"]),
            rule("rule-b", &["b"]),
            rule("rule-c", &["c"]),
            rule("rule-shared", &["a", "c"]),
        ],
        system: vec![table("system-a", "a"), table("system-b", "b"), table("system-c", "c")],
        layout: Layout::default(),
        timeline: TimelineConfig::default(),
    }
}

fn texts(list: &[&str]) -> Vec<String> {
    list.iter().map(|s| s.to_string()).collect()
}

fn ids(set: &RuleSet) -> Vec<&str> {
    set.rules.iter().map(|r| r.id.as_str()).collect()
}

#[test]
fn log_file_sort_uses_visible_order_and_preserves_related_rule_data() {
    let mut rules = set();
    rules.layout.file_order = texts(&["a", "c"]);
    let original = rules.rules.clone();
    let visible = texts(&["a", "b", "c"]);
    assert!(reorder_log_files(&mut rules, &visible, 0, 2, false));
    assert_eq!(rules.layout.file_order, texts(&["b", "c", "a"]));
    assert_eq!(ids(&rules), ["rule-b", "rule-c", "rule-a", "rule-shared"]);
    for row in &rules.rules {
        let before = original.iter().find(|r| r.id == row.id).unwrap();
        assert_eq!(format!("{row:?}"), format!("{before:?}"));
    }
    let visible_after_down = rules.layout.file_order.clone();
    assert!(reorder_log_files(&mut rules, &visible_after_down, 2, 0, false));
    assert_eq!(rules.layout.file_order, texts(&["a", "b", "c"]));
    let before_noop = format!("{rules:?}");
    let visible_for_noop = rules.layout.file_order.clone();
    assert!(!reorder_log_files(&mut rules, &visible_for_noop, 1, 1, false));
    assert_eq!(format!("{rules:?}"), before_noop);
    let mut without_target = rules.clone();
    without_target.rules.retain(|r| !r.source_file_ids.iter().any(|id| id == "b"));
    let before_empty = format!("{:?}", without_target.rules);
    let visible_for_empty = without_target.layout.file_order.clone();
    assert!(reorder_log_files(&mut without_target, &visible_for_empty, 0, 1, false));
    assert_eq!(format!("{:?}", without_target.rules), before_empty);
    let mut system_rules = set();
    system_rules.layout.file_order = visible.clone();
    assert!(reorder_log_files(&mut system_rules, &visible, 0, 2, true));
    assert_eq!(
        system_rules.system.iter().map(|r| r.source_file_id.as_str()).collect::<Vec<_>>(),
        ["b", "c", "a"]
    );
}

#[test]
fn file_sort_keeps_report_groups_sources_and_hidden_rules() {
    let mut rules = set();
    let first = rules.rules[0].clone();
    rules.rules = (0..4)
        .map(|i| Rule {
            id: format!("file-{i}"),
            group: format!("report-{i}"),
            target: if i == 1 { "timeline".into() } else { "both".into() },
            ..first.clone()
        })
        .collect();
    let original = rules.rules.clone();
    reorder_file_rule(&mut rules, false, "file-0", "file-2", true);
    assert_eq!(ids(&rules), ["file-1", "file-2", "file-0", "file-3"]);
    for r in &rules.rules {
        let before = original.iter().find(|o| o.id == r.id).unwrap();
        assert_eq!(format!("{r:?}"), format!("{before:?}"));
    }
    let before = format!("{rules:?}");
    reorder_file_rule(&mut rules, false, "file-0", "missing", false);
    reorder_file_rule(&mut rules, false, "file-0", "file-0", true);
    assert_eq!(format!("{rules:?}"), before);
}

#[test]
fn webdav_empty_password_uses_original_server_credential() {
    let original = WebDavSettings {
        enabled: true,
        url: "https://old.example/dav/".into(),
        remote_path: "rules.json".into(),
        username: "user".into(),
    };
    let password = resolve_webdav_password("", Some(&original), |key: &str| {
        assert_eq!(key, "https://old.example/dav/#rules.json");
        Ok("stored-password".into())
    })
    .unwrap();
    assert_eq!(password, "stored-password");
    assert!(resolve_webdav_password("", Some(&original), |_: &str| Err("凭据读取失败".into()))
        .is_err());
    assert_eq!(
        resolve_webdav_password("new", Some(&original), |_: &str| panic!("不应读取旧凭据"))
            .unwrap(),
        "new"
    );
    assert_eq!(
        resolve_webdav_password("", None, |_: &str| panic!("新增匿名配置不应读取凭据")).unwrap(),
        ""
    );
}

#[test]
fn webdav_invalid_form_never_reaches_persistence() {
    let mut settings = Settings::default();
    let config = WebDavSettings {
        url: "not a server".into(),
        remote_path: "rules.json".into(),
        ..WebDavSettings::default()
    };
    assert!(persist_webdav_config(
        &mut settings,
        config,
        "",
        |_: &str| panic!("无效配置不应保存"),
        |_: &str, _: &str| panic!("无效配置不应保存"),
        |_: &str, _: &str| panic!("无效配置不应保存"),
        |_: &str| panic!("无效配置不应保存"),
        |_: &Settings| panic!("无效配置不应保存"),
    )
    .is_err());
    assert!(settings.webdav.is_none());
}

fn server() -> WebDavSettings {
    WebDavSettings {
        enabled: true,
        url: "https://example.com/dav/".into(),
        remote_path: "rules.json".into(),
        username: "user".into(),
    }
}

#[test]
fn a_server_is_saved_with_its_password_or_not_at_all() {
    let key = "https://example.com/dav/#rules.json";
    let mut settings = Settings::default();
    persist_webdav_config(
        &mut settings,
        server(),
        "secret",
        |k: &str| {
            assert_eq!(k, key);
            Ok(None)
        },
        |k: &str, p: &str| {
            assert_eq!((k, p), (key, "secret"));
            Ok(())
        },
        |_: &str, _: &str| panic!("nothing to undo"),
        |_: &str| panic!("nothing to undo"),
        |s: &Settings| {
            assert!(s.webdav.is_some());
            Ok(())
        },
    )
    .unwrap();
    assert_eq!(settings.webdav.as_ref().unwrap().username, "user");

    let mut settings = Settings::default();
    let written = std::cell::RefCell::new(Vec::new());
    let write = |_: &str, p: &str| {
        written.borrow_mut().push(p.to_string());
        Ok(())
    };
    let e = persist_webdav_config(
        &mut settings,
        server(),
        "new",
        |_: &str| Ok(Some("old".into())),
        &write,
        &write,
        |_: &str| panic!("the old password is put back"),
        |_: &Settings| Err("disk full".into()),
    )
    .unwrap_err();
    assert_eq!(e.kind, FaultKind::ConfigSave);
    assert_eq!(*written.borrow(), ["new", "old"]);
    assert!(settings.webdav.is_none());

    let e = persist_webdav_config(
        &mut settings,
        server(),
        "new",
        |_: &str| Ok(None),
        |_: &str, _: &str| Ok(()),
        |_: &str, _: &str| panic!("there was no password"),
        |_: &str| Err("locked".into()),
        |_: &Settings| Err("disk full".into()),
    )
    .unwrap_err();
    assert_eq!(
        e.message(),
        "配置文件保存失败：disk full；原凭据恢复失败：locked，请重新保存密码"
    );
    let e = persist_webdav_config(
        &mut settings,
        server(),
        "new",
        |_: &str| Ok(None),
        |_: &str, _: &str| Err("denied".into()),
        |_: &str, _: &str| panic!("nothing was written"),
        |_: &str| panic!("nothing was written"),
        |_: &Settings| panic!("nothing was written"),
    )
    .unwrap_err();
    assert_eq!(e.kind, FaultKind::PasswordSave);
}

#[test]
fn a_startup_entry_is_put_back_when_the_settings_cannot_be_saved() {
    let command = Some(startup_command("C:\\中文 空格\\TraceFox.exe"));
    assert_eq!(command.as_deref(), Some("\"C:\\中文 空格\\TraceFox.exe\" --startup"));
    let written = std::cell::RefCell::new(Vec::new());
    let write = |c: &Option<String>| {
        written.borrow_mut().push(c.clone());
        Ok(())
    };
    let e = persist_startup(
        &command,
        || Ok(Some("before".into())),
        &write,
        &write,
        || Err("disk full".into()),
    )
    .unwrap_err();
    assert_eq!(e.message(), "保存设置失败，启动项已恢复：disk full");
    assert_eq!(*written.borrow(), [command.clone(), Some("before".to_string())]);
    let ok = persist_startup(
        &None,
        || Ok(None),
        |_: &Option<String>| Ok(()),
        |_: &Option<String>| panic!("nothing to undo"),
        || Ok(()),
    );
    assert!(ok.is_ok());
    let kind = |entered: Result<(), String>, saved: Result<(), String>, restored: Result<(), String>| {
        persist_startup(
            &None,
            || Ok(None),
            |_: &Option<String>| entered,
            |_: &Option<String>| restored,
            || saved,
        )
        .unwrap_err()
        .kind
    };
    assert_eq!(kind(Err("a".into()), Ok(()), Ok(())), FaultKind::StartupSave);
    assert_eq!(kind(Err("a".into()), Ok(()), Err("b".into())), FaultKind::StartupNotRestored);
    assert_eq!(kind(Ok(()), Err("a".into()), Err("b".into())), FaultKind::SettingsNotRestored);
    let e = persist_startup(
        &None,
        || Err("no key".into()),
        |_: &Option<String>| panic!("not read"),
        |_: &Option<String>| panic!("not read"),
        || panic!("not read"),
    );
    assert_eq!(e.unwrap_err().kind, FaultKind::StartupRead);
}

#[test]
fn offline_validation_rejects_invalid_server_and_file_paths() {
    let mut config = WebDavSettings {
        url: "https://example.com/dav/".into(),
        remote_path: "rules.json".into(),
        ..WebDavSettings::default()
    };
    assert!(config.validate().is_ok());
    for url in ["", "server", "ftp://example.com/"] {
        config.url = url.into();
        assert!(config.validate().is_err());
    }
    config.url = "https://example.com/dav/".into();
    for path in ["", " ", "/", "https://elsewhere.example/rules.json"] {
        config.remote_path = path.into();
        assert!(config.validate().is_err());
    }
}

#[test]
fn servers_are_refused_for_their_reasons() {
    let kind = |url: &str, path: &str| webdav_form(url, path, "").unwrap_err().kind;
    assert_eq!(kind("server", "r.json"), FaultKind::AddressFormat);
    assert_eq!(kind("ftp://example.com/", "r.json"), FaultKind::AddressScheme);
    assert_eq!(kind("https://example.com/", "//"), FaultKind::RemotePathMissing);
    assert_eq!(kind("https://example.com/", "http://["), FaultKind::RemotePathInvalid);
    assert_eq!(kind("https://example.com/", "https://else.where/r"), FaultKind::RemotePathElsewhere);
    let c = webdav_form(" https://example.com/dav/ ", " /r.json ", " me ").unwrap();
    assert_eq!((c.remote_path.as_str(), c.username.as_str()), ("/r.json", "me"));
    let client = WebDavClient::new(&c, "pw").unwrap();
    assert_eq!(client.path, "r.json");
    assert!(client.identifies());
}

#[test]
fn replies_of_a_server_are_judged_by_their_status() {
    assert!(check_status(Request::Upload, 204, "204 No Content").is_ok());
    assert_eq!(
        check_status(Request::Download, 404, "404 Not Found").unwrap_err().message(),
        "下载规则失败，服务器状态：404 Not Found"
    );
    assert_eq!(check_status(Request::Test, 300, "").unwrap_err().kind, FaultKind::ServerStatus);
    assert_eq!(check_status(Request::Upload, 199, "").unwrap_err().kind, FaultKind::UploadStatus);
    assert_eq!(downloaded_text("规则".as_bytes()).unwrap(), "规则");
    assert_eq!(downloaded_text(&[0xff]).unwrap_err().kind, FaultKind::RemoteText);
    assert_eq!(load_webdav_password("k", |_: &str| Ok(Some("p".into()))).unwrap(), "p");
    let none = load_webdav_password("k", |_: &str| Ok(None));
    assert_eq!(none.unwrap_err().kind, FaultKind::NoCredential);
    let failed = load_webdav_password("k", |_: &str| Err("broken".into()));
    assert_eq!(failed.unwrap_err().message(), "broken");
}

#[test]
fn changed_sides_are_told_apart() {
    let hash = content_hash(b"abc");
    assert_eq!(hash, "ba7816bf8f01cfea414140de5dae2223b00361a396177a9cb410ff61f20015ad");
    let meta = SyncMetadata::in_step(b"abc", Some("tag".into()));
    assert_eq!((meta.local_hash.as_str(), meta.remote_hash.as_str()), (&*hash, &*hash));
    assert_eq!(meta.etag.as_deref(), Some("tag"));
    assert_eq!(detect_conflict(&meta, &hash, &hash), Conflict::UpToDate);
    assert_eq!(detect_conflict(&meta, "x", &hash), Conflict::LocalOnly);
    assert_eq!(detect_conflict(&meta, &hash, "x"), Conflict::RemoteOnly);
    assert_eq!(detect_conflict(&meta, "x", "y"), Conflict::BothChanged);
    assert_eq!(sync_step(Conflict::RemoteOnly), SyncStep::Download);
    assert_eq!(sync_step(Conflict::BothChanged), SyncStep::Ask);
    assert_eq!(sync_step(Conflict::UpToDate).message(), "规则已是最新");
    assert_eq!(answered_step(Side::Local), SyncStep::KeepLocal);
    assert_eq!(answered_step(Side::Neither).message(), "已取消同步");
}

#[test]
fn toast_escapes_package_and_error() {
    for success in [true, false] {
        let xml = toast_xml("中文 & <test>.tgz", "错误 <&>\"'\u{1}", success);
        assert!(xml.contains("中文 &amp; &lt;test&gt;.tgz"));
        assert!(!xml.contains('\u{1}'));
        assert!(xml.contains(if success { "点击打开 HTML 报告" } else { "点击查看失败任务" }));
    }
}

#[test]
fn forms_read_lists_and_choices() {
    assert_eq!(strings(" a \n\n b\r\n"), ["a", "b"]);
    assert_eq!(add_term("a\nb", " c "), "a\nb\nc");
    assert_eq!(add_term("a\nb", "b"), "a\nb");
    assert_eq!(add_term("a\n", " "), "a\n");
    assert_eq!(source_mode(1), "path");
    assert_eq!(source_mode(-1), "prefix");
    assert_eq!(pos("all", &["any", "all"]), 1);
    assert_eq!(pos("none", &["any", "all"]), 0);
    assert_eq!(directory_label(r"\\?\UNC\nas\share"), r"\\nas\share");
    assert_eq!(directory_label(r"\\?\C:\logs"), r"C:\logs");
    assert_eq!(directory_label("/logs"), "/logs");
    let choices = source_choices(&set(), &texts(&["b"]), " B.LOG ");
    assert_eq!(choices.len(), 1);
    assert!(choices[0].chosen);
    assert_eq!(source_choices(&set(), &vec![], "").len(), 3);
    let files = set().log_files;
    assert_eq!(choose_source(&files, &texts(&["b"]), "a", true, false), ["a", "b"]);
    assert_eq!(choose_source(&files, &texts(&["a", "b"]), "c", true, true), ["c"]);
    assert_eq!(choose_source(&files, &texts(&["a", "b"]), "b", false, false), ["a"]);
    assert!(choose_source(&files, &texts(&["gone"]), "none", true, false).is_empty());
    assert_eq!(remove_last_source(&files, &texts(&["a", "c"])).unwrap(), ["a"]);
    assert!(remove_last_source(&files, &vec![]).is_none());
    assert_eq!(sample_paths("Model: x\nno colon\n a b : c"), (texts(&["Model", "a b"]), false));
    assert_eq!(sample_paths(r#"{"a":[{"b":1}]}"#), (texts(&["a[].b"]), true));
    assert!(basics_missing(" ", "x") && !basics_missing("n", "s"));
    assert_eq!((clamped_width(10), clamped_width(200), clamped_width(999)), (180, 200, 360));
}

#[test]
fn untouched_forms_change_nothing() {
    let files = set().log_files;
    let mut r = rule("x", &["a"]);
    r.exclude = texts(&["ok", "fine"]);
    r.terms = texts(&["one", "two words"]);
    r.mode = "all".into();
    r.target = "both".into();
    assert_eq!(format!("{:?}", fill_rule(&r, &load_rule(&r, &files))), format!("{r:?}"));
    let t = table("t", "a");
    assert_eq!(format!("{:?}", fill_system(&t, &load_system(&t, &files)).unwrap()), format!("{t:?}"));
    let mut l = Layout::default();
    l.sections = texts(&["timeline"]);
    l.density = "compact".into();
    assert_eq!(format!("{:?}", fill_layout(&l, &load_layout(&l))), format!("{l:?}"));
    let mut form = load_rule(&r, &files);
    form.before = -5;
    form.terms = "a\n\nb".into();
    let filled = fill_rule(&r, &form);
    assert_eq!(filled.before, 0);
    assert_eq!(filled.terms, ["a", "b"]);
    let mut form = load_system(&t, &files);
    form.files.clear();
    assert!(fill_system(&t, &form).is_none());
}

#[test]
fn columns_are_edited_by_their_rows() {
    let mut f = vec![column("a"), column("b"), column("c")];
    assert!(edit_field(&mut f, 1, 0, "name", ""));
    assert!(edit_field(&mut f, 1, 1, "disk.size", "disk"));
    assert!(edit_field(&mut f, 1, 2, "1", ""));
    assert!(!edit_field(&mut f, 9, 0, "x", ""));
    assert!(!edit_field(&mut f, 0, 7, "x", ""));
    assert_eq!((f[1].name.as_str(), f[1].path.as_str(), f[1].format.as_str()), (
        "name", "size", "bytes"
    ));
    assert_eq!(move_field(&mut f, 1, 1), Some(2));
    assert_eq!(f[2].name, "name");
    assert_eq!(move_field(&mut f, 2, 1), None);
    assert!(delete_field(&mut f, 0));
    assert_eq!(field_index(&f, 9), 1);
    new_field(&mut f);
    assert_eq!(f.len(), 3);
    let mut form = load_field(&f, 0);
    form.view = 2;
    form.format = 3;
    save_field(&mut f, 0, &form);
    assert_eq!((f[0].view.as_str(), f[0].format.as_str()), ("table", "kib"));
    assert_eq!(field_index(&vec![], 0), -1);
}

#[test]
fn the_list_shows_the_rules_of_a_file() {
    let mut d = Draft::new(set());
    d.active = "a".into();
    let l = d.refresh();
    assert_eq!(l.files, ["a", "b", "c"]);
    assert_eq!(l.rows.iter().map(|r| r.identity.as_str()).collect::<Vec<_>>(), [
        "rule-a",
        "rule-shared"
    ]);
    assert_eq!(d.indices, [0, 3]);
    assert_eq!(l.file_labels[0], "a · a.log · 2 条规则");
    assert_eq!(l.file_titles[1], "b\nb.log · 1 条规则");
    assert_eq!((l.file_index, l.selected, l.rows[0].height), (0, -1, 62));
    d.search = "SHARED".into();
    let l = d.refresh();
    assert_eq!(l.rows.len(), 1);
    d.search.clear();
    d.refresh();
    d.choose_row(0);
    d.toggle_rule("rule-shared");
    let l = d.refresh();
    assert!(d.is_navigable());
    assert_eq!(d.selected, Some(0));
    assert_eq!(l.rows[1].height, 94 + 36);
    d.change_section(1);
    let l = d.refresh();
    d.select_first();
    assert_eq!(l.rows[0].summary, "1 个展示字段");
    assert_eq!(d.selected_id().as_deref(), Some("system-a"));
}

#[test]
fn typed_terms_are_taken_over_before_anything_else() {
    let mut d = Draft::new(set());
    d.active = "a".into();
    d.stage_term("rule-a", 0, "old");
    d.stage_term("rule-a", 0, "typed");
    d.stage_term("rule-a", 9, "nowhere");
    d.flush();
    assert_eq!(d.rules.rules[0].terms, ["typed"]);
    assert!(d.dirty);
    d.inline_term("rule-a", -1, " more ", false);
    d.inline_term("rule-a", 0, "", true);
    assert_eq!(d.rules.rules[0].terms, ["more"]);
    d.set_enabled("rule-b", false);
    assert!(!d.rules.rules[1].enabled);
}

#[test]
fn rules_are_moved_copied_added_and_deleted() {
    let mut d = Draft::new(set());
    d.active = "a".into();
    d.refresh();
    d.drop_row("rule-shared", 0, false);
    assert_eq!(ids(&d.rules), ["rule-shared", "rule-a", "rule-b", "rule-c"]);
    d.refresh();
    d.choose_row(0);
    d.move_rule(1);
    assert_eq!(ids(&d.rules), ["rule-a", "rule-shared", "rule-b", "rule-c"]);
    assert_eq!(d.selected_id().as_deref(), Some("rule-shared"));
    let copy = d.copy_rule("copied".into()).unwrap();
    assert_eq!(copy.rules.rules[4].name, "rule-shared 副本");
    assert_eq!(d.rules.rules.len(), 4);
    d.commit(&copy).unwrap();
    assert_eq!(d.selected_id().as_deref(), Some("copied"));
    d.refresh();
    d.delete_rule();
    assert_eq!(d.rules.rules.len(), 4);
    let new = d.add_rule("fresh".into()).unwrap();
    assert_eq!(new.selected, Some(4));
    let mut form = load_rule(&new.rules.rules[4], &new.rules.log_files);
    assert_eq!(form.files, ["a"]);
    let e = new.candidate(&EditForm::Rule(form.clone()), "term").unwrap_err();
    assert_eq!(e.kind, FaultKind::NameMissing);
    form.name = "新".into();
    let edit = new.candidate(&EditForm::Rule(form.clone()), "term").unwrap();
    assert_eq!(edit.rules.rules[4].terms, ["term"]);
    d.commit(&edit).unwrap();
    assert_eq!(d.rules.rules[4].name, "新");
    let bad = new.candidate(&EditForm::Rule(form), "").unwrap();
    assert_eq!(d.commit(&bad).unwrap_err().kind, FaultKind::RuleTerms);
    d.active = "nowhere".into();
    assert_eq!(d.add_rule("x".into()).unwrap_err().kind, FaultKind::NoLogFile);
    d.change_section(1);
    d.selected = Some(0);
    let mut form = load_system(&d.rules.system[0], &d.rules.log_files);
    form.files.clear();
    let e = d.candidate(&EditForm::Table(form), "").unwrap_err();
    assert_eq!(e.kind, FaultKind::ChooseFile);
}

#[test]
fn files_of_the_draft_are_saved_and_deleted() {
    let mut d = Draft::new(set());
    d.save_file("new", " 新日志 ", " log\\x.log ", 2, 0).unwrap();
    let f = d.rules.log_file("new").unwrap();
    assert_eq!((f.name.as_str(), f.path.as_str(), f.mode.as_str()), ("新日志", "log/x.log", "exact"));
    assert_eq!(d.active, "new");
    d.delete_file().unwrap();
    assert!(d.rules.log_file("new").is_err());
    d.active = "a".into();
    assert_eq!(d.delete_file().unwrap_err().kind, FaultKind::StillReferenced);
    assert_eq!(
        d.save_file("z", "z", "z.log", 0, 1).unwrap_err().kind,
        FaultKind::ZipContainer
    );
}

#[test]
fn exports_bring_what_the_selection_needs() {
    let mut rules = set();
    rules.layout.file_order = texts(&["c", "b", "a"]);
    rules.system[0].join_rule = "system-b".into();
    rules.system[0].join_key = "k".into();
    rules.system[0].join_foreign_key = "k".into();
    let mut d = Draft::new(rules);
    assert_eq!(d.export_rules(false).unwrap().rules.len(), 4);
    assert_eq!(d.export_rules(true).unwrap_err().kind, FaultKind::NothingSelected);
    d.selected = Some(1);
    let out = d.export_rules(true).unwrap();
    assert_eq!(ids(&out), ["rule-b"]);
    assert_eq!(out.log_files.len(), 1);
    assert_eq!(out.layout.file_order, ["b"]);
    d.change_section(1);
    d.selected = Some(0);
    let out = d.export_rules(true).unwrap();
    assert_eq!(out.system.iter().map(|s| s.id.as_str()).collect::<Vec<_>>(), [
        "system-a", "system-b"
    ]);
    assert_eq!(out.layout.file_order, ["b", "a"]);
    let text = import_summary(&out);
    assert!(text.starts_with("关键词/时间线 0 条，系统信息 2 组。\n\n基本信息 / system-a"));
    assert!(reference_summary(&out, &set()).contains("更新：基本信息 / system-a"));
    assert!(reference_summary(&out, &set()).contains("新增：基本信息 / system-c"));
    d.take_rules(set(), false, true);
    assert!(!d.dirty && d.selected.is_none());
}

fn path(text: &str) -> PackagePath {
    let parent = text.rsplit_once('/').map(|(p, _)| p.to_string());
    let extension = text.rsplit_once('.').map(|(_, e)| e.to_string());
    let name = text.rsplit('/').next().unwrap().to_string();
    PackagePath { text: text.into(), parent, extension, name }
}

fn watched() -> Window {
    let mut s = Settings::default();
    s.directory = "/d".into();
    s.watching = true;
    let mut w = Window::new(s);
    w.directory = Some(DirectoryState::start(vec![]));
    w
}

#[test]
fn analyses_end_in_their_phases_and_notify() {
    let mut w = watched();
    w.enqueue(path("/d/a.tgz"));
    let (id, _) = w.tasks.start(&w.cleanup_directory).unwrap();
    w.progress(id, "分析文件 1/2");
    assert_eq!(w.tasks.get(id).unwrap().status, "分析文件 1/2");
    assert_eq!(w.queue_text(), "处理中 1 · 等待 0");
    let done = Outcome::Done { report: "/d/a/report.html".into(), seconds: "1.25".into() };
    let n = w.analysis_ended(id, &done, Some((1, 1)), Some((2, 2)), None, 5);
    assert!(matches!(n, Some(Notice::Report(p)) if p == "/d/a/report.html"));
    assert_eq!(w.tasks.get(id).unwrap().status, "分析完成（耗时 1.25 秒）");
    w.retry(id);
    assert_eq!(w.tasks.get(id).unwrap().phase, Phase::Queued);
    w.tasks.start(&None).unwrap();
    let failed = |cancelled: bool, damaged: bool, text: &str| Outcome::Failed {
        cancelled,
        damaged,
        text: text.into(),
    };
    let n = w.analysis_ended(id, &failed(false, true, "crc"), None, None, None, 5);
    assert!(matches!(n, Some(Notice::Failed { error, .. }) if error == "压缩包损坏：crc"));
    assert_eq!(w.tasks.get(id).unwrap().phase, Phase::Damaged);
    assert!(w.find_failed(id, "/d/a.tgz").is_some());
    w.retry(id);
    w.tasks.start(&None).unwrap();
    let n = w.analysis_ended(id, &failed(false, false, "诊断包发生变化"), None, None, Some((9, 9)), 5);
    assert!(n.is_none());
    assert_eq!(w.tasks.get(id).unwrap().phase, Phase::Waiting);
    assert_eq!(w.deferred.len(), 1);
    let s = 1_000_000_000;
    w.look_again(&vec![Some((9, 9))], 6 * s);
    assert_eq!(w.tasks.get(id).unwrap().phase, Phase::Waiting);
    w.look_again(&vec![Some((9, 9))], 11 * s);
    assert_eq!(w.tasks.get(id).unwrap().phase, Phase::Queued);
    assert!(w.deferred.is_empty());
    w.tasks.start(&None).unwrap();
    let n = w.analysis_ended(id, &failed(true, false, "发生变化"), None, None, None, 5);
    assert!(n.is_none());
    assert_eq!(w.tasks.get(id).unwrap().phase, Phase::Cancelled);
    let rows = w.task_rows();
    assert!(!rows[0].active && !rows[0].cancellable);
}

#[test]
fn waiting_files_come_and_go() {
    let mut w = watched();
    let s = 1_000_000_000;
    let seen = |n: u64| Some(vec![Seen { path: "/d/x.tgz".into(), stamp: (n, 0) }]);
    assert!(w.poll(seen(1), s).is_empty());
    w.show_pending(&vec![path("/d/x.tgz")]);
    assert_eq!(w.queue_text(), "处理中 0 · 等待 1");
    w.file_changed(&path("/d/x.tgz"), Some((2, 0)), 2 * s);
    w.file_changed(&path("/other/x.tgz"), Some((2, 0)), 2 * s);
    assert_eq!(w.directory.as_ref().unwrap().pending_paths(), ["/d/x.tgz"]);
    w.end_gone(&vec![]);
    assert_eq!(w.tasks.rows[0].status, "文件已移除，等待已结束");
    w.poll(None, 3 * s);
    assert_eq!(w.monitor_text(), "监控目录不可访问，等待目录恢复");
    w.poll(seen(2), 4 * s);
    assert_eq!(w.monitor_text(), "正在监控 · 托盘运行时继续处理");
    w.show_pending(&vec![path("/d/y.tgz")]);
    let id = w.tasks.rows[0].id;
    assert!(!w.cancel_task(id, Some((2, 0))));
    assert_eq!(w.tasks.get(id).unwrap().phase, Phase::Cancelled);
    w.show_pending(&vec![path("/d/z.tgz")]);
    let mut next = w.settings.clone();
    next.watching = false;
    assert!(w.check_watch(&next, true).is_ok());
    w.watch(next, None);
    assert_eq!(w.tasks.rows[0].phase, Phase::Cancelled);
    let mut bad = w.settings.clone();
    bad.directory = "/gone".into();
    assert_eq!(w.check_watch(&bad, false).unwrap_err().kind, FaultKind::DirectoryAccess);
    bad.directory.clear();
    bad.watching = true;
    assert_eq!(w.check_watch(&bad, false).unwrap_err().kind, FaultKind::DirectoryMissing);
    assert_eq!(w.monitor_text(), "仅处理开启后新增或发生变化的 TGZ");
}

#[test]
fn clean_up_deletes_what_is_still_as_it_was() {
    let mut w = watched();
    for name in ["/d/a.tgz", "/d/b.tgz", "/d/c.tgz"] {
        let id = w.tasks.register(path(name), Phase::Queued);
        w.tasks.finish(id, Phase::Completed, "ok".into(), Some("r".into()), None, None);
    }
    assert!(w.can_cleanup());
    let (dir, items) = w.cleanup_candidates(None).unwrap();
    assert_eq!((dir.as_str(), items.len()), ("/d", 3));
    let outputs = texts(&["/d/c", "/d/b", "/d/a"]);
    assert!(ask_cleanup(&dir, &items, &outputs).starts_with(
        "将永久删除以下 3 个诊断包及输出目录，无法恢复。\n监控目录：/d\n\n诊断包：/d/c.tgz\n输出目录：/d/c"
    ));
    let checks = vec![None, Some("已变化".to_string()), None];
    let (valid, skipped) = w.begin_cleanup(&dir, &items, &checks).unwrap();
    assert_eq!((valid.len(), skipped), (2, 1));
    assert_eq!(w.tasks.get(items[1].id).unwrap().status, "清理已跳过：已变化");
    w.enqueue(path("/d/c.tgz"));
    assert_eq!(w.tasks.queue.len(), 0);
    assert!(w.cleanup_candidates(None).is_none());
    assert!(w.task_rows()[0].cleaning);
    w.cleanup_ended(
        &vec![
            Cleaned { id: items[0].id, error: None, output: None, skipped: false },
            Cleaned {
                id: items[2].id,
                error: Some("locked".into()),
                output: Some((3, 3)),
                skipped: false,
            },
        ],
        skipped,
    );
    assert_eq!(w.monitor_text(), "清理完成：成功 1，跳过 1，失败 1");
    assert!(w.tasks.get(items[0].id).is_none());
    assert_eq!(w.tasks.get(items[2].id).unwrap().output_stamp, Some((3, 3)));
    assert_eq!(w.tasks.get(items[2].id).unwrap().status, "清理未完成：locked");
}

#[test]
fn damaged_packages_are_dropped_once_they_are_deleted() {
    let mut w = watched();
    let id = w.tasks.register(path("/d/a.tgz"), Phase::Queued);
    w.tasks.finish(id, Phase::Damaged, "坏".into(), None, Some((1, 1)), None);
    let finished = w.tasks.get(id).unwrap().finished;
    assert!(w.is_still_damaged(id, finished));
    assert!(!w.is_still_damaged(id, finished + 1));
    w.delete_ended(id, "/d/a.tgz", &Some("busy".into()), None);
    assert_eq!(w.tasks.get(id).unwrap().status, "删除失败：busy");
    w.delete_ended(id, "/d/a.tgz", &None, None);
    assert!(w.tasks.get(id).is_none());
}
