//! Tasks, the watched directory and clean-up.

use tracefox::engine::archive::{
    check_archive, check_cancelled, check_entry, check_entry_count, check_file_count,
    check_unchanged, entry_name, safe_target, PathPart,
};
use tracefox::fault::FaultKind;
use tracefox::monitor::{is_package, DirectoryState, Seen};
use tracefox::tasks::{
    absolute, delete_damaged, validate_cleanup, PackagePath, PathFact, Phase, Stamp, Task, Tasks,
};

fn path(text: &str) -> PackagePath {
    let parent = text.rsplit_once('/').map(|(p, _)| p.to_string());
    let name = text.rsplit('/').next().unwrap();
    let extension = name.rsplit_once('.').map(|(_, e)| e.to_string());
    PackagePath { text: text.into(), parent, extension, name: name.into() }
}

fn completed(name: &str) -> Task {
    Task {
        id: 1,
        package: path(&format!("/dir/{name}.tgz")),
        phase: Phase::Completed,
        status: "分析完成".into(),
        report: Some(format!("/dir/{name}/report.html")),
        source_stamp: Some((7, 100)),
        output_stamp: Some((0, 200)),
        finished: 1,
    }
}

fn package_fact(stamp: Stamp) -> PathFact {
    PathFact::Present { file: true, directory: false, link: false, stamp: Ok(stamp) }
}

fn output_fact(stamp: Stamp) -> PathFact {
    PathFact::Present { file: false, directory: true, link: false, stamp: Ok(stamp) }
}

#[test]
fn stable_identity_retry_cancel_and_same_name() {
    let a = path("/d/a/x.tgz");
    let b = path("/d/b/x.tgz");
    let mut t = Tasks::default();
    t.enqueue(a.clone());
    t.enqueue(a.clone());
    t.enqueue(b.clone());
    assert_eq!(t.rows.len(), 2);
    assert_eq!(t.queue.len(), 2);
    let (id, _) = t.start(&None).unwrap();
    t.enqueue(a.clone());
    assert_eq!(t.queue.len(), 1);
    assert!(t.cancel(id));
    assert_eq!(t.get(id).unwrap().phase, Phase::Cancelling);
    t.finish(id, Phase::Cancelled, "已取消".into(), None, None, None);
    t.enqueue(a);
    assert_eq!(t.rows.len(), 2);
    assert_eq!(t.get(id).unwrap().phase, Phase::Queued);
    let other = t.rows[0].id;
    t.cancel(other);
    assert_eq!(t.get(other).unwrap().phase, Phase::Cancelled);
    assert_eq!(t.start(&None).unwrap().0, id);
}

#[test]
fn terminal_retention_uses_completion_time_and_keeps_active() {
    let mut t = Tasks::default();
    let waiting = t.register(path("waiting.tgz"), Phase::Waiting);
    for n in 0..25 {
        let id = t.register(path(&format!("{n}.tgz")), Phase::Queued);
        t.finish(id, Phase::Completed, "ok".into(), None, None, None);
    }
    assert_eq!(t.rows.len(), 21);
    assert!(t.get(waiting).is_some());
    assert!(!t.rows.iter().any(|r| r.package.text == "0.tgz"));
}

#[test]
fn cleanup_scope_and_paused_scheduler() {
    let mut t = Tasks::default();
    let mut done = completed("done");
    done.id = 100;
    t.rows.push(done);
    assert_eq!(t.candidates("/dir").len(), 1);
    let wait = t.register(path("/dir/wait.tgz"), Phase::Waiting);
    assert!(t.candidates("/dir").is_empty());
    assert!(t.has_active_in("/dir"));
    t.cancel(wait);
    t.enqueue(path("/dir/queued.tgz"));
    t.enqueue(path("/dir/elsewhere/out.tgz"));
    assert_eq!(t.start(&Some("/dir".into())).unwrap().1.text, "/dir/elsewhere/out.tgz");
}

#[test]
fn retry_failure_keeps_old_report() {
    let r = completed("old");
    let mut t = Tasks::default();
    t.next_id = 1;
    t.rows.push(r.clone());
    t.enqueue(r.package.clone());
    let (id, _) = t.start(&None).unwrap();
    t.finish(id, Phase::Failed, "失败".into(), None, None, None);
    assert_eq!(t.get(id).unwrap().report, r.report);
    assert!(t.candidates("/dir").is_empty());
}

#[test]
fn only_packages_are_queued() {
    let mut t = Tasks::default();
    t.enqueue(path("/dir/readme.txt"));
    assert!(t.rows.is_empty());
    assert!(is_package(&path("/dir/A.TGZ")));
    assert!(!is_package(&path("/dir/tgz")));
    assert!(Phase::Waiting.active() && !Phase::Damaged.active());
}

#[test]
fn rows_are_changed_in_place() {
    let mut t = Tasks::default();
    let id = t.register(path("/dir/a.tgz"), Phase::Waiting);
    t.get_mut(id).unwrap().status = "新状态".into();
    assert_eq!(t.get(id).unwrap().status, "新状态");
    assert!(t.get_mut(99).is_none());
    let mut other = t.get(id).unwrap().clone();
    other.status = "替换".into();
    assert!(t.replace(other));
    assert_eq!(t.rows[0].status, "替换");
}

#[test]
fn absolute_paths_prefer_the_canonical_one() {
    let (a, b, c) = (path("/a.tgz"), path("/b.tgz"), path("/c.tgz"));
    assert_eq!(absolute(Some(a.clone()), Some(b.clone()), c.clone()).text, "/a.tgz");
    assert_eq!(absolute(None, Some(b), c.clone()).text, "/b.tgz");
    assert_eq!(absolute(None, None, c).text, "/c.tgz");
}

#[test]
fn damaged_delete_keeps_report_and_refuses_changed_package() {
    let mut r = completed("bad");
    r.phase = Phase::Damaged;
    let now = package_fact((11, 150));
    assert_eq!(delete_damaged(&r, &now).unwrap_err().kind, FaultKind::FileChanged);
    r.source_stamp = Some((11, 150));
    assert!(delete_damaged(&r, &now).unwrap());
    assert!(!delete_damaged(&r, &PathFact::Missing).unwrap());
    let link = PathFact::Present { file: true, directory: false, link: true, stamp: Ok((11, 150)) };
    assert_eq!(delete_damaged(&r, &link).unwrap_err().kind, FaultKind::FileChanged);
    r.phase = Phase::Failed;
    assert_eq!(delete_damaged(&r, &now).unwrap_err().kind, FaultKind::TaskChanged);
}

#[test]
fn cleanup_removes_only_matching_package_and_output() {
    let r = completed("done");
    let expected = "/dir/done/report.html";
    let ok = validate_cleanup(
        &r,
        expected,
        &None,
        &package_fact((7, 100)),
        &output_fact((0, 200)),
    );
    assert_eq!(ok.unwrap(), (true, true));
    let again =
        validate_cleanup(&r, expected, &None, &PathFact::Missing, &PathFact::Missing).unwrap();
    assert_eq!(again, (false, false));
}

#[test]
fn changed_source_or_wrong_output_is_never_deleted() {
    let mut r = completed("done");
    let expected = "/dir/done/report.html";
    let check = |r: &Task, package: PathFact, output: PathFact| {
        validate_cleanup(r, expected, &None, &package, &output).unwrap_err().kind
    };
    let good = || output_fact((0, 200));
    assert_eq!(check(&r, package_fact((15, 101)), good()), FaultKind::CleanupPackage);
    assert_eq!(
        check(&r, package_fact((7, 100)), output_fact((0, 201))),
        FaultKind::OutputChanged
    );
    assert_eq!(
        check(&r, package_fact((7, 100)), package_fact((0, 200))),
        FaultKind::OutputNotDirectory
    );
    assert_eq!(
        check(&r, PathFact::Failed("denied".into()), good()),
        FaultKind::System
    );
    let linked = validate_cleanup(
        &r,
        expected,
        &Some("/dir".into()),
        &package_fact((7, 100)),
        &good(),
    );
    assert_eq!(linked.unwrap_err().message(), "路径包含链接：/dir");
    r.report = Some("/dir/report.html".into());
    assert_eq!(check(&r, package_fact((7, 100)), good()), FaultKind::WrongOutput);
    r.phase = Phase::Failed;
    assert_eq!(check(&r, package_fact((7, 100)), good()), FaultKind::NotCompleted);
}

const SECOND: u64 = 1_000_000_000;

fn seen(path: &str, size: u64) -> Vec<Seen> {
    vec![Seen { path: path.into(), stamp: (size, 1) }]
}

#[test]
fn cancelled_version_stays_dismissed_until_changed() {
    let mut monitor = DirectoryState::start(vec![]);
    let p = "/d/new.tgz";
    let now = 100 * SECOND;
    monitor.poll(seen(p, 1), now);
    assert_eq!(monitor.pending_paths(), vec![p.to_string()]);
    monitor.dismiss(p, Some((1, 1)));
    monitor.changed(&path(p), Some((1, 1)), now);
    assert!(monitor.poll(seen(p, 1), now + 20 * SECOND).is_empty());
    monitor.poll(seen(p, 11), now + 21 * SECOND);
    assert_eq!(monitor.poll(seen(p, 11), now + 32 * SECOND), vec![p.to_string()]);
}

#[test]
fn ignores_existing_and_coalesces() {
    let old = || Seen { path: "/d/old.tgz".into(), stamp: (1, 1) };
    let both = |size: u64| vec![old(), Seen { path: "/d/new.tgz".into(), stamp: (size, 2) }];
    let mut s = DirectoryState::start(vec![old()]);
    let n = 100 * SECOND;
    assert!(s.poll(vec![old()], n + 20 * SECOND).is_empty());
    assert!(s.poll(both(1), n + 21 * SECOND).is_empty());
    assert!(s.poll(both(3), n + 25 * SECOND).is_empty());
    assert!(s.poll(both(3), n + 34 * SECOND).is_empty());
    assert_eq!(s.poll(both(3), n + 35 * SECOND), vec!["/d/new.tgz".to_string()]);
    assert!(s.poll(both(3), n + 50 * SECOND).is_empty());
}

fn normal(s: &str) -> PathPart {
    PathPart::Normal(s.into())
}

#[test]
fn rejects_escape() {
    assert!(safe_target(&vec![PathPart::Other, normal("oops")], &vec![]).is_err());
    assert!(safe_target(&vec![normal("x:stream")], &vec![]).is_err());
}

#[test]
fn archive_entries_are_checked() {
    let kind = |parts: Vec<PathPart>, links: Vec<bool>| safe_target(&parts, &links).unwrap_err().kind;
    assert_eq!(kind(vec![PathPart::Other], vec![]), FaultKind::IllegalPath);
    assert_eq!(kind(vec![normal("Con.txt")], vec![]), FaultKind::UnsafeName);
    assert_eq!(kind(vec![normal("a\\b")], vec![]), FaultKind::UnsafeName);
    assert_eq!(kind(vec![normal("a"), normal("b")], vec![false, true]), FaultKind::LinkInOutput);
    let ok = safe_target(&vec![PathPart::Current, normal("samba"), normal("log.")], &vec![false]);
    assert_eq!(ok.unwrap(), ["samba", "log."]);
    assert_eq!(entry_name("a\\b/c"), "a/b/c");
    assert_eq!(check_archive("zip", b"").unwrap_err().kind, FaultKind::ZipArchive);
    assert_eq!(check_archive("x", b"").unwrap_err().kind, FaultKind::ArchiveContainer);
    let archive = "diagnostic_archive";
    assert_eq!(check_archive(archive, b"PK").unwrap_err().kind, FaultKind::ZipContent);
    assert_eq!(check_archive(archive, b"not tgz").unwrap_err().kind, FaultKind::NotArchive);
    assert!(check_archive(archive, &[0x1f, 0x8b, 8]).is_ok());
    assert_eq!(check_entry(false, false).unwrap_err().kind, FaultKind::EntryType);
    assert!(check_entry(false, true).is_ok());
    assert_eq!(check_entry_count(0).unwrap_err().kind, FaultKind::EmptyArchive);
    assert_eq!(check_file_count(0).unwrap_err().kind, FaultKind::NoFiles);
    assert_eq!(check_unchanged(false, false).unwrap_err().kind, FaultKind::PackageChanged);
    assert_eq!(check_unchanged(false, true).unwrap_err().kind, FaultKind::PackageChangedLate);
    assert!(check_unchanged(true, true).is_ok());
    assert!(check_cancelled(false).is_ok());
    assert_eq!(
        check_cancelled(true).unwrap_err().fault().message(),
        "任务已取消，已生成文件保留在输出目录"
    );
}
