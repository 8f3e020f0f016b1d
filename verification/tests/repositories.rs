//! Git: what happened in a repository, and which repositories are observed.

use flux::classify::{ancestry_of, classify_changes, classify_head_move, needs_ancestry, Ancestry};
use flux::git::{
    parse_worktrees, read_operation, read_refs, read_snapshot, short_oid, successful_text,
    trimmed_output, worktree_from_git_path, GitActivity, GitOperation, OperationMarks, RefTable,
    RepoReadings, RepoSnapshot,
};
use flux::git_monitor::{
    drain_overflow, related_worktrees, GitMessage, GitMonitor, GitMonitorEvent, MetadataAttempt,
    RepoProbe, EVENT_QUIET_PERIOD, MAX_GIT_EVENTS_PER_DRAIN,
};
use flux::model::IntegrityLevel;
use flux::path::FsPath;
use flux::watcher::{FaultKind, NotifyFault};

const MS: u64 = 1_000_000;

fn dir(text: &str) -> FsPath {
    FsPath::parse(text)
}

fn empty_snapshot() -> RepoSnapshot {
    RepoSnapshot {
        head: None,
        branch: None,
        subject: None,
        parent_count: 0,
        branches: RefTable::new(),
        tags: RefTable::new(),
        remotes: RefTable::new(),
        stash: None,
        operation: None,
    }
}

fn no_marks() -> OperationMarks {
    OperationMarks {
        merge_head: false,
        rebase_merge: false,
        rebase_apply: false,
        cherry_pick_head: false,
        revert_head: false,
        bisect_start: false,
    }
}

fn changes(before: &RepoSnapshot, after: &RepoSnapshot, ancestry: Ancestry) -> Vec<(String, String)> {
    let mut activities: Vec<GitActivity> = Vec::new();
    classify_changes(&dir("/repo"), before, after, ancestry, &mut activities);
    activities.into_iter().map(|one| (one.summary, one.detail)).collect()
}

fn pair(summary: &str, detail: &str) -> (String, String) {
    (summary.to_string(), detail.to_string())
}

#[test]
fn shortens_object_ids() {
    assert_eq!(short_oid("1234567890abcdef"), "1234567");
    assert_eq!(short_oid("short"), "short");
}

#[test]
fn object_ids_are_cut_at_whole_characters() {
    assert_eq!(short_oid("1234567"), "1234567");
    assert_eq!(short_oid("123456é90"), "123456é90");
    assert_eq!(short_oid("12345é90"), "12345é");
}

#[test]
fn finds_worktree_from_git_metadata_path() {
    assert_eq!(
        worktree_from_git_path(&dir("/code/project/.git/HEAD")),
        Some(dir("/code/project"))
    );
    assert_eq!(worktree_from_git_path(&dir("/code/project/src/main.rs")), None);
}

#[test]
fn classifies_refs_stash_and_operation_state() {
    let root = dir("/workspace");
    let mut previous = empty_snapshot();
    let mut current = empty_snapshot();
    current.operation = Some(GitOperation::Rebase);
    current.tags.insert("v1.0.0".into(), "aaaaaaaa".into());
    current.remotes.insert("origin/main".into(), "bbbbbbbb".into());
    current.stash = Some("cccccccc".into());

    let mut activities = Vec::new();
    classify_changes(&root, &previous, &current, Ancestry::Apart, &mut activities);
    let summaries = activities
        .iter()
        .map(|activity| activity.summary.as_str())
        .collect::<Vec<_>>();
    assert!(summaries.contains(&"rebase started"));
    assert!(summaries.contains(&"tag created: v1.0.0"));
    assert!(summaries.contains(&"remote ref created: origin/main"));
    assert!(summaries.contains(&"stash created"));

    previous = current;
    let mut ended = previous.clone();
    ended.operation = None;
    ended.tags.clear();
    ended.remotes.clear();
    ended.stash = None;
    activities.clear();
    classify_changes(&root, &previous, &ended, Ancestry::Apart, &mut activities);
    let summaries = activities
        .iter()
        .map(|activity| activity.summary.as_str())
        .collect::<Vec<_>>();
    assert!(summaries.contains(&"rebase ended"));
    assert!(summaries.contains(&"tag deleted: v1.0.0"));
    assert!(summaries.contains(&"remote ref deleted: origin/main"));
    assert!(summaries.contains(&"stash deleted"));
}

#[test]
fn moves_of_head_are_told_apart() {
    let mut before = empty_snapshot();
    before.head = Some("1111111aaaa".into());
    before.branch = Some("main".into());
    let mut after = before.clone();
    after.head = Some("2222222bbbb".into());
    after.subject = Some("subject".into());
    after.parent_count = 1;
    assert!(needs_ancestry(&before, &after));
    assert_eq!(
        changes(&before, &after, Ancestry::Forward),
        vec![pair("commit 2222222", "subject")]
    );
    assert_eq!(
        changes(&before, &after, Ancestry::Backward),
        vec![pair("reset 2222222", "subject")]
    );
    assert_eq!(
        changes(&before, &after, Ancestry::Apart),
        vec![pair("rewrite 2222222", "subject")]
    );
    after.parent_count = 2;
    assert!(!needs_ancestry(&before, &after));
    assert_eq!(
        changes(&before, &after, Ancestry::Apart),
        vec![pair("merge 2222222", "subject")]
    );
    assert_eq!(classify_head_move(&None, Ancestry::Apart), "commit");
}

#[test]
fn checkouts_name_both_branches() {
    let mut before = empty_snapshot();
    before.head = Some("1111111".into());
    before.branch = Some("main".into());
    let mut after = before.clone();
    after.branch = None;
    assert_eq!(
        changes(&before, &after, Ancestry::Apart),
        vec![pair("checkout detached HEAD", "main → detached HEAD")]
    );
    after.head = Some("2222222".into());
    assert_eq!(changes(&before, &after, Ancestry::Apart).len(), 1);
    before.head = None;
    after.subject = Some("first".into());
    assert_eq!(
        changes(&before, &after, Ancestry::Apart)[1],
        pair("commit 2222222", "first")
    );
    let mut gone = after.clone();
    gone.head = None;
    assert_eq!(
        changes(&after, &gone, Ancestry::Apart),
        vec![pair("HEAD deleted", "repository has no commits")]
    );
}

#[test]
fn branches_are_created_moved_and_deleted() {
    let mut before = empty_snapshot();
    before.branch = Some("main".into());
    before.branches.insert("main".into(), "1111111aaaa".into());
    before.branches.insert("old".into(), "3333333".into());
    before.branches.insert("side".into(), "1111111".into());
    let mut after = before.clone();
    after.branches = RefTable::new();
    after.branches.insert("main".into(), "2222222aaaa".into());
    after.branches.insert("side".into(), "2222222cccc".into());
    after.branches.insert("new".into(), "4444444".into());
    assert_eq!(
        changes(&before, &after, Ancestry::Apart),
        vec![
            pair("branch created: new", "local branch"),
            pair("branch deleted: old", "local branch"),
            pair("branch updated: side", "now at 2222222"),
        ]
    );
    assert!(changes(&after, &after, Ancestry::Apart).is_empty());
}

#[test]
fn moved_tags_stashes_and_operations_are_reported() {
    let mut before = empty_snapshot();
    before.tags.insert("v1".into(), "1111111aaa".into());
    before.stash = Some("1111111".into());
    before.operation = Some(GitOperation::Merge);
    let mut after = before.clone();
    after.tags.insert("v1".into(), "2222222aaa".into());
    after.stash = Some("2222222zzz".into());
    after.operation = Some(GitOperation::CherryPick);
    assert_eq!(
        changes(&before, &after, Ancestry::Apart),
        vec![
            pair("merge ended", "Git operation state changed"),
            pair("cherry-pick started", "Git operation state changed"),
            pair("tag updated: v1", "now at 2222222"),
            pair("stash updated", "refs/stash now at 2222222"),
        ]
    );
}

#[test]
fn operations_are_found_by_their_marks() {
    assert_eq!(read_operation(no_marks()), None);
    let mut marks = no_marks();
    marks.bisect_start = true;
    assert_eq!(read_operation(marks), Some(GitOperation::Bisect));
    marks.revert_head = true;
    assert_eq!(read_operation(marks), Some(GitOperation::Revert));
    marks.cherry_pick_head = true;
    assert_eq!(read_operation(marks), Some(GitOperation::CherryPick));
    marks.rebase_apply = true;
    assert_eq!(read_operation(marks), Some(GitOperation::Rebase));
    marks.merge_head = true;
    assert_eq!(read_operation(marks), Some(GitOperation::Merge));
    assert_eq!(GitOperation::CherryPick.label(), "cherry-pick");
}

#[test]
fn command_output_is_trimmed() {
    assert_eq!(successful_text(true, b"  abc\n"), Some("abc".to_string()));
    assert_eq!(successful_text(true, b" \n"), None);
    assert_eq!(successful_text(false, b"abc"), None);
    assert_eq!(successful_text(true, b"a\xffb"), Some("a\u{fffd}b".to_string()));
    assert_eq!(trimmed_output(true, "\u{a0}x y\u{3000}"), Some("x y".to_string()));
}

#[test]
fn readings_make_up_a_repository() {
    let snapshot = read_snapshot(RepoReadings {
        head: Some("abc".into()),
        branch: None,
        commit: Some("a subject\0p1 p2  p3".into()),
        branches: Some("main\0aaa\nside\0bbb\nbroken".into()),
        tags: None,
        remotes: Some("origin/HEAD\0aaa\norigin/main\0bbb".into()),
        stash: None,
        marks: no_marks(),
    });
    assert_eq!(snapshot.subject, Some("a subject".to_string()));
    assert_eq!(snapshot.parent_count, 3);
    assert_eq!(snapshot.branches.len(), 2);
    assert_eq!(snapshot.branches.get("side"), Some(&"bbb".to_string()));
    assert_eq!(snapshot.tags.len(), 0);
    assert_eq!(snapshot.remotes.len(), 1);
    assert_eq!(snapshot.remotes.get("origin/HEAD"), None);
    let unborn = read_snapshot(RepoReadings {
        head: None,
        branch: Some("main".into()),
        commit: Some("no separator".into()),
        branches: None,
        tags: None,
        remotes: None,
        stash: None,
        marks: no_marks(),
    });
    assert_eq!(unborn.subject, None);
    assert_eq!(unborn.parent_count, 0);
    let repeated = read_refs(&Some("x\0one\nx\0two\r\n".into()));
    assert_eq!(repeated.len(), 1);
    assert_eq!(repeated.get("x"), Some(&"two".to_string()));
}

#[test]
fn worktrees_are_listed_once() {
    assert_eq!(
        parse_worktrees("worktree /a\nHEAD 123\nbranch x\n\nworktree /b c\n"),
        vec!["/a".to_string(), "/b c".to_string()]
    );
    assert_eq!(
        related_worktrees(&vec![dir("/a"), dir("/b"), dir("/a")]),
        vec![dir("/a"), dir("/b")]
    );
}

fn probe(root: &str, git_dir: &str, common_dir: Option<&str>) -> RepoProbe {
    RepoProbe {
        root: Some(dir(root)),
        git_dir: Some(dir(git_dir)),
        common_dir: common_dir.map(dir),
        snapshot: empty_snapshot(),
    }
}

fn fault(kind: FaultKind, paths: Vec<&str>, description: &str) -> NotifyFault {
    NotifyFault {
        kind,
        paths: paths.into_iter().map(dir).collect(),
        description: description.to_string(),
    }
}

fn touched(paths: Vec<&str>) -> GitMessage {
    GitMessage::Event { paths: paths.into_iter().map(dir).collect(), rescan: false, info: None }
}

fn two_worktrees() -> GitMonitor {
    GitMonitor::discover(
        vec![
            probe("/main", "/main/.git", Some("/main/.git")),
            RepoProbe {
                root: None,
                git_dir: None,
                common_dir: None,
                snapshot: empty_snapshot(),
            },
            probe("/main", "/main/.git", Some("/main/.git")),
            probe("/linked", "/main/.git/worktrees/linked", Some("/main/.git")),
        ],
        &vec![dir("/main"), dir("/linked"), dir("/main")],
    )
}

#[test]
fn discovery_observes_each_repository_once() {
    let monitor = two_worktrees();
    assert_eq!(monitor.repository_count(), 2);
    assert_eq!(
        monitor.watched_metadata,
        vec![dir("/main/.git"), dir("/main/.git/worktrees/linked")]
    );
    assert_eq!(monitor.known_worktrees, vec![dir("/main"), dir("/linked")]);
    let events = monitor.established_events();
    assert_eq!(events.len(), 2);
    assert_eq!(events[1].detail, "watching /main/.git/worktrees/linked");
    assert_eq!(events[1].summary, "metadata watch established");
    assert_eq!(events[1].source, "git");
    assert_eq!(events[1].root, dir("/linked"));
}

#[test]
fn a_repository_is_looked_at_once_it_is_quiet() {
    let mut monitor = two_worktrees();
    let (reports, dropped) =
        monitor.drain(0, vec![touched(vec!["/main/.git/worktrees/linked/HEAD"])], 0);
    assert!(reports.is_empty());
    assert!(dropped.is_empty());
    assert!(monitor.ready_repositories(EVENT_QUIET_PERIOD - 1).is_empty());
    assert_eq!(monitor.ready_repositories(EVENT_QUIET_PERIOD), vec![0, 1]);

    let mut current = empty_snapshot();
    current.tags.insert("v1".into(), "1234567890".into());
    let activities = monitor.drain_repository(1, current.clone(), Ancestry::Apart);
    assert_eq!(activities.len(), 1);
    assert_eq!(activities[0].summary, "tag created: v1");
    assert_eq!(activities[0].root, dir("/linked"));
    assert_eq!(monitor.ready_repositories(EVENT_QUIET_PERIOD), vec![0]);
    assert!(monitor.drain_repository(1, current, Ancestry::Apart).is_empty());

    assert!(monitor.ready_worktrees(EVENT_QUIET_PERIOD - 1).is_empty());
    assert_eq!(monitor.ready_worktrees(EVENT_QUIET_PERIOD), vec![dir("/main")]);
    assert!(monitor.ready_worktrees(EVENT_QUIET_PERIOD).is_empty());
    assert_eq!(
        monitor.drain_worktrees(&vec![dir("/main"), dir("/new"), dir("/new")]),
        vec![dir("/new")]
    );
    assert!(monitor.drain_worktrees(&vec![dir("/new")]).is_empty());
}

#[test]
fn events_elsewhere_do_not_touch_a_repository() {
    let mut monitor = GitMonitor::discover(
        vec![probe("/a", "/a/.git", None), probe("/b", "/b/.git", None)],
        &vec![],
    );
    monitor.drain(0, vec![touched(vec!["/b/.git/index"])], 0);
    assert_eq!(monitor.ready_repositories(EVENT_QUIET_PERIOD), vec![1]);
    monitor.drain(0, vec![touched(vec![])], 10);
    assert_eq!(monitor.ready_repositories(10 + EVENT_QUIET_PERIOD), vec![0, 1]);
}

#[test]
fn lost_events_faults_and_disconnection_are_reported() {
    let mut monitor = two_worktrees();
    let rescan = GitMessage::Event { paths: vec![], rescan: true, info: None };
    let (reports, dropped) = monitor.drain(
        3,
        vec![
            rescan,
            GitMessage::Fault(fault(
                FaultKind::Io,
                vec!["/main/.git/worktrees/linked/index"],
                "bad disk",
            )),
            GitMessage::Disconnected,
            GitMessage::Disconnected,
        ],
        1_000,
    );
    let told: Vec<(&str, IntegrityLevel, FsPath)> = reports
        .iter()
        .map(|one| (one.summary.as_str(), one.level, one.root.clone()))
        .collect();
    assert_eq!(
        told,
        vec![
            ("Git event queue overflowed", IntegrityLevel::Uncertain, FsPath::empty()),
            ("native Git events may have been lost", IntegrityLevel::Uncertain, dir("/main")),
            ("native watcher reported an error", IntegrityLevel::Degraded, dir("/main")),
            ("event channel disconnected", IntegrityLevel::Lost, dir("/main")),
        ]
    );
    assert_eq!(reports[0].detail, "3 native metadata events were dropped");
    assert_eq!(
        reports[1].detail,
        "the operating system requested a reconciliation scan"
    );
    assert_eq!(dropped, vec![dir("/main/.git"), dir("/main/.git/worktrees/linked")]);
    assert!(monitor.watched_metadata.is_empty());
    assert!(drain_overflow(0).is_none());
}

#[test]
fn recovered_git_metadata_watch_resumes_activity() {
    let mut monitor = GitMonitor::discover(vec![probe("/repo", "/repo/.git", None)], &vec![]);
    monitor.drain(0, vec![GitMessage::Fault(fault(FaultKind::Generic, vec![], "x"))], 0);
    assert!(monitor.due_metadata(249 * MS).is_empty());
    assert_eq!(monitor.due_metadata(250 * MS), vec![dir("/repo/.git")]);
    let failed = MetadataAttempt { watched: false, snapshot: None };
    assert!(monitor.recover_metadata(vec![failed], 250 * MS).is_empty());
    assert!(monitor.due_metadata(749 * MS).is_empty());

    let mut current = empty_snapshot();
    current.head = Some("abc".into());
    let events = monitor.recover_metadata(
        vec![MetadataAttempt { watched: true, snapshot: Some(current.clone()) }],
        750 * MS,
    );
    assert_eq!(events.len(), 1);
    assert_eq!(events[0].level, IntegrityLevel::Info);
    assert_eq!(events[0].summary, "Git metadata watch recovered");
    assert_eq!(events[0].root, dir("/repo"));
    assert!(monitor.is_watched(&dir("/repo/.git")));
    assert_eq!(monitor.find_repository(&dir("/repo/.git")), Some(0));
    assert!(monitor.drain_repository(0, current, Ancestry::Apart).is_empty());
}

#[test]
fn only_so_many_messages_are_taken_in_at_a_time() {
    let mut monitor = GitMonitor::discover(vec![probe("/repo", "/repo/.git", None)], &vec![]);
    let mut messages = Vec::new();
    for _ in 0..MAX_GIT_EVENTS_PER_DRAIN {
        messages.push(touched(vec!["/elsewhere"]));
    }
    messages.push(touched(vec!["/repo/.git/HEAD"]));
    monitor.drain(0, messages, 0);
    assert!(monitor.ready_repositories(EVENT_QUIET_PERIOD).is_empty());
}

fn summary_of(event: Option<GitMonitorEvent>) -> Option<(String, String)> {
    match event {
        Some(GitMonitorEvent::Activity(one)) => Some((one.summary, one.detail)),
        Some(GitMonitorEvent::Integrity(one)) => Some((one.summary, one.detail)),
        Some(GitMonitorEvent::RelatedWorktree(path)) => Some((path.display(), String::new())),
        None => None,
    }
}

#[test]
fn related_repositories_join() {
    let mut monitor = two_worktrees();
    assert_eq!(
        summary_of(monitor.add_root(
            probe("/other", "/main/.git/worktrees/other", Some("/main/.git")),
            None,
            Some(fault(FaultKind::Io, vec![], "not asked for")),
        )),
        Some(pair("linked worktree joined", "discovered from native Git worktree metadata"))
    );
    assert_eq!(monitor.repository_count(), 3);
    assert!(monitor
        .add_root(probe("/other", "/main/.git/worktrees/other", None), None, None)
        .is_none());
    assert_eq!(
        summary_of(monitor.add_root(
            probe("/late", "/late/.git", None),
            Some(fault(FaultKind::MaxFilesWatch, vec![], "limit")),
            None,
        )),
        Some(pair("native watch limit reached", "limit"))
    );
    assert_eq!(monitor.repository_count(), 3);
    assert!(!monitor.is_watched(&dir("/late/.git")));
}

#[test]
fn repository_initialization_joins_the_native_stream() {
    let mut monitor = GitMonitor::discover(vec![], &vec![]);
    assert_eq!(monitor.repository_count(), 0);
    assert_eq!(monitor.find_candidate(&dir("/code/.git")), Some(dir("/code")));
    assert_eq!(monitor.find_candidate(&dir("/code/src")), None);
    let event = monitor.observe_workspace_event(
        &dir("/code/.git"),
        probe("/code", "/code/.git", None),
        None,
        None,
    );
    assert_eq!(monitor.repository_count(), 1);
    assert_eq!(
        summary_of(event),
        Some(pair("repository initialized", "watching /code/.git"))
    );
    assert_eq!(monitor.find_candidate(&dir("/code/.git/HEAD")), None);
    let again = monitor.observe_workspace_event(
        &dir("/code/.git/HEAD"),
        probe("/code", "/code/.git", None),
        None,
        None,
    );
    assert!(again.is_none());
    let refused = monitor.observe_workspace_event(
        &dir("/new/.git"),
        probe("/new", "/new/.git", Some("/shared")),
        None,
        Some(fault(FaultKind::Generic, vec![], "queue overflow")),
    );
    assert_eq!(
        summary_of(refused),
        Some(pair("native events may have been lost", "queue overflow"))
    );
    assert_eq!(monitor.repository_count(), 1);
}

#[test]
fn native_git_event_emits_commit_activity() {
    let mut before = empty_snapshot();
    before.head = Some("1111111111".into());
    before.branch = Some("main".into());
    before.subject = Some("initial".into());
    before.branches.insert("main".into(), "1111111111".into());
    let mut one = probe("/repo", "/repo/.git", Some("/repo/.git"));
    one.snapshot = before.clone();
    let mut monitor = GitMonitor::discover(vec![one], &vec![]);

    let mut after = before.clone();
    after.head = Some("2222222222".into());
    after.subject = Some("second commit".into());
    after.parent_count = 1;
    after.branches = RefTable::new();
    after.branches.insert("main".into(), "2222222222".into());
    after.branches.insert("side".into(), "2222222222".into());
    after.tags.insert("v-test".into(), "2222222222".into());
    monitor.drain(0, vec![touched(vec!["/repo/.git/refs/heads/main"])], 0);
    assert_eq!(monitor.ready_repositories(EVENT_QUIET_PERIOD), vec![0]);
    let activities = monitor.drain_repository(0, after, Ancestry::Forward);
    assert!(activities
        .iter()
        .any(|activity| activity.summary.starts_with("commit ")
            && activity.detail == "second commit"));
    assert!(activities.iter().any(|activity| activity.summary == "tag created: v-test"));
    assert!(activities.iter().any(|activity| activity.summary == "branch created: side"));
}

#[test]
fn linked_worktree_joins_from_native_git_metadata() {
    let mut monitor = GitMonitor::discover(
        vec![probe("/repo", "/repo/.git", Some("/repo/.git"))],
        &vec![dir("/repo")],
    );
    monitor.drain(0, vec![touched(vec!["/repo/.git/worktrees/linked/HEAD"])], 0);
    assert_eq!(monitor.ready_worktrees(EVENT_QUIET_PERIOD), vec![dir("/repo")]);
    assert_eq!(
        monitor.drain_worktrees(&vec![dir("/repo"), dir("/repo.linked")]),
        vec![dir("/repo.linked")]
    );
}

#[test]
fn commits_are_related_forward_backward_or_not() {
    assert_eq!(ancestry_of(true, false), Ancestry::Forward);
    assert_eq!(ancestry_of(true, true), Ancestry::Forward);
    assert_eq!(ancestry_of(false, true), Ancestry::Backward);
    assert_eq!(ancestry_of(false, false), Ancestry::Apart);
}
