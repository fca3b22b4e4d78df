//! What the dialogs show and decide.

use tracefox::desktop::connection::ServerDialog;
use tracefox::desktop::dialog::{
    details_text, edit_term, open_settings, remove_term, reset_webdav_form, starts_hidden,
};
use tracefox::desktop::draft::Draft;
use tracefox::desktop::edit::EditForm;
use tracefox::desktop::rule_form::{load_layout, load_rule};
use tracefox::desktop::settings::Settings;
use tracefox::fault::FaultKind;
use tracefox::rules::{Layout, LogFile, Rule, RuleSet, TimelineConfig};
use tracefox::tasks::{PackagePath, Tasks};
use tracefox::webdav::WebDavSettings;

fn draft() -> Draft {
    Draft::new(RuleSet {
        version: 3,
        log_files: vec![LogFile {
            id: "a".into(),
            name: "A".into(),
            path: "a.log".into(),
            mode: "exact".into(),
            container: "diagnostic_archive".into(),
        }],
        rules: vec![Rule {
            id: "r".into(),
            name: "r".into(),
            source_file_ids: vec!["a".into()],
            terms: vec!["error".into()],
            ..Rule::default()
        }],
        system: vec![],
        layout: Layout::default(),
        timeline: TimelineConfig::default(),
    })
}

#[test]
fn terms_of_a_form_are_edited_and_removed() {
    let terms: Vec<String> = vec!["a".into(), "b".into()];
    assert_eq!(edit_term(&terms, 1, "c"), (vec!["a".into(), "c".into()], "a\nc".into()));
    assert_eq!(edit_term(&terms, 2, "c").1, "a\nb");
    assert_eq!(edit_term(&terms, -1, "c").1, "a\nb");
    assert_eq!(remove_term(&terms, 0), (vec!["b".to_string()], "b".to_string()));
    assert_eq!(remove_term(&terms, -1).1, "a\nb");
}

#[test]
fn an_untouched_file_form_saves_the_same_file() {
    let mut d = draft();
    d.select_file("a");
    assert_eq!(d.active, "a");
    let form = d.file_form(false);
    assert_eq!((form.mode, form.container), (2, 0));
    let before = format!("{:?}", d.rules.log_files);
    d.save_file(&form.id, &form.name, &form.path, form.mode, form.container).unwrap();
    assert_eq!(format!("{:?}", d.rules.log_files), before);
    assert_eq!(d.file_form(true).id, "");
    d.select_file("none");
    assert_eq!(d.file_form(false).name, "");
}

#[test]
fn a_new_file_gets_an_identity() {
    let mut d = draft();
    let mut form = d.file_form(true);
    form.name = "B".into();
    form.path = "b.log".into();
    d.save_file_form(&form).unwrap();
    assert!(d.rules.log_files[1].id.starts_with("log-file-"));
    assert_eq!(d.active, d.rules.log_files[1].id);
    let form = d.file_form(false);
    assert_eq!(form.id, d.active);
    d.save_file_form(&form).unwrap();
    assert_eq!(d.rules.log_files.len(), 2);
}

#[test]
fn nothing_is_typed_in_the_list_while_a_rule_is_open() {
    let mut d = draft();
    d.refresh();
    d.select_file("a");
    d.refresh();
    assert!(d.select_rule(7).is_none() && !d.editing);
    let edit = d.select_rule(0).unwrap();
    assert!(d.editing && !edit.editing && edit.selected == Some(0));
    d.stage_term("r", 0, "typed");
    assert!(d.pending.is_empty());
    d.cancel_dialog();
    d.stage_term("r", 0, "typed");
    d.flush();
    assert_eq!(d.rules.rules[0].terms, ["typed"]);
}

#[test]
fn late_answers_do_not_reach_another_dialog() {
    let mut s = ServerDialog::new();
    s.turn(true);
    assert_eq!(s.ask(&Some("e".into())), None);
    assert_eq!(s.feedback, "无法测试：e");
    let g = s.ask(&None).unwrap();
    assert!(s.testing && !s.may_save());
    assert_eq!(s.ask(&None), None);
    s.turn(false);
    s.turn(true);
    s.answer(g, &Ok(()));
    assert_eq!(s.feedback, "");
    let g = s.ask(&None).unwrap();
    assert_eq!(s.feedback, "正在连接服务器…");
    s.answer(g, &Err("e".into()));
    assert_eq!((s.feedback.as_str(), s.testing), ("连接失败：e", false));
    let g = s.ask(&None).unwrap();
    s.answer(g, &Ok(()));
    assert_eq!(s.feedback, "连接成功，配置尚未保存");
}

#[test]
fn rows_stand_below_each_other() {
    let mut d = draft();
    let mut second = d.rules.rules[0].clone();
    second.id = "s".into();
    d.rules.rules.push(second);
    d.toggle_rule("r");
    let list = d.refresh();
    let rows: Vec<_> = list.rows.iter().map(|r| (r.offset, r.height)).collect();
    assert_eq!(rows, [(0, 130), (130, 62)]);
    assert_eq!(list.content_height, 192);
}

#[test]
fn the_layout_is_taken_over_in_its_section_only() {
    let mut d = draft();
    let mut form = load_layout(&d.rules.layout);
    form.title = "T".into();
    let before = d.rules.layout.title.clone();
    d.apply_layout(&form);
    assert_eq!(d.rules.layout.title, before);
    d.change_section(3);
    d.apply_layout(&form);
    assert_eq!(d.rules.layout.title, "T");
}

#[test]
fn the_panel_stays_within_its_limits() {
    let mut d = draft();
    let width = d.rules.layout.file_panel_width;
    d.set_panel_width(width);
    assert!(!d.dirty);
    d.set_panel_width(10);
    assert_eq!((d.rules.layout.file_panel_width, d.dirty), (180, true));
    d.set_panel_width(1000);
    assert_eq!(d.rules.layout.file_panel_width, 360);
}

#[test]
fn steps_of_a_new_rule_are_left_when_they_are_complete() {
    let mut d = draft();
    d.selected = Some(0);
    let mut form = load_rule(&d.rules.rules[0], &d.rules.log_files);
    form.name = " ".into();
    let e = d.next_step(0, &EditForm::Rule(form), "", "A").unwrap_err();
    assert_eq!(e.kind, FaultKind::BasicsMissing);
    assert_eq!(e.message(), "请填写规则名称和日志来源。");
    let form = load_rule(&d.rules.rules[0], &d.rules.log_files);
    let e = d.next_step(0, &EditForm::Rule(form), "", " ").unwrap_err();
    assert_eq!(e.kind, FaultKind::BasicsMissing);
    let form = load_rule(&d.rules.rules[0], &d.rules.log_files);
    assert_eq!(d.next_step(0, &EditForm::Rule(form), "", "A").unwrap(), 1);
    let form = load_rule(&d.rules.rules[0], &d.rules.log_files);
    assert_eq!(d.next_step(1, &EditForm::Rule(form), "", "A").unwrap(), 2);
    let mut form = load_rule(&d.rules.rules[0], &d.rules.log_files);
    form.terms = String::new();
    let e = d.next_step(1, &EditForm::Rule(form), "", "A").unwrap_err();
    assert_eq!(e.kind, FaultKind::RuleTerms);
}

#[test]
fn settings_show_what_was_saved() {
    let mut s = Settings::default();
    assert_eq!(reset_webdav_form(&s), (String::new(), "rules.json".into(), String::new()));
    s.webdav = Some(WebDavSettings {
        enabled: true,
        url: "u".into(),
        remote_path: "p".into(),
        username: "n".into(),
    });
    assert_eq!(reset_webdav_form(&s), ("u".into(), "p".into(), "n".into()));
    s.autostart = true;
    assert_eq!(open_settings(&s, &Ok(None)), (false, "已保存：开机自启未开启".into()));
    assert_eq!(
        open_settings(&s, &Ok(Some("x".into()))),
        (true, "已保存：开机自启已开启".into())
    );
    assert_eq!(open_settings(&s, &Err("e".into())), (true, "无法读取启动项：e".into()));
    assert!(!starts_hidden(&s, true));
    s.start_minimized = true;
    assert!(starts_hidden(&s, true));
    assert!(!starts_hidden(&s, false));
}

#[test]
fn details_offer_a_report_that_is_there() {
    let mut tasks = Tasks::default();
    tasks.enqueue(PackagePath {
        text: "/d/p.tgz".into(),
        parent: Some("/d".into()),
        extension: Some("tgz".into()),
        name: "p.tgz".into(),
    });
    let mut task = tasks.rows[0].clone();
    task.status = "ok".into();
    assert_eq!(details_text(&task, false), "/d/p.tgz\n\nok");
    assert_eq!(details_text(&task, true), "/d/p.tgz\n\nok\n\n打开已生成的报告？");
}
