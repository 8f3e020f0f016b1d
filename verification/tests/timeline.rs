//! The timeline, and how native events come on it.

use flux::app::{App, DEDUP_WINDOW, RENAME_TIMEOUT};
use flux::beads::BeadsActivity;
use flux::changes::{reading, NotifyEvent, NotifyKind, Reading, Sighting};
use flux::git::GitActivity;
use flux::model::{ChangeKind, IntegrityEvent, IntegrityLevel, TargetKind};
use flux::path::FsPath;
use flux::snapshot::{FileData, Inspection};
use flux::watcher::{SeedReply, WatchState};

const STEP: u64 = 1_000_000;

fn at(text: &str) -> FsPath {
    FsPath::parse(text)
}

fn file(text: &str) -> Inspection {
    Inspection::File { size: text.len() as u64, data: FileData::Bytes(text.as_bytes().to_vec()) }
}

fn event(kind: NotifyKind, sightings: Vec<(&str, Inspection)>) -> NotifyEvent {
    NotifyEvent {
        kind,
        sightings: sightings
            .into_iter()
            .map(|(path, found)| Sighting { path: at(path), found })
            .collect(),
        tracker: None,
        rescan: false,
        info: None,
    }
}

fn with_tracker(kind: NotifyKind, path: &str, found: Inspection, tracker: usize) -> NotifyEvent {
    let mut event = event(kind, vec![(path, found)]);
    event.tracker = Some(tracker);
    event
}

fn remember(watcher: &mut WatchState, path: &str, text: &str) {
    watcher.seed_step(0, SeedReply::Entry { path: at(path), found: file(text) });
}

fn report(level: IntegrityLevel, root: &str) -> IntegrityEvent {
    IntegrityEvent {
        level,
        source: "filesystem",
        summary: "watch established".into(),
        detail: "native recursive filesystem events are active".into(),
        root: at(root),
    }
}

fn kinds(app: &App) -> Vec<ChangeKind> {
    app.events.iter().map(|event| event.kind).collect()
}

#[test]
fn translates_create_modify_rename_and_delete() {
    let mut watcher = WatchState::start(vec![at("/root")]);
    let mut app = App::new(20);
    let mut now = 0;

    app.process_notify(
        &mut watcher,
        event(NotifyKind::Create, vec![("/root/first.txt", file("one\n"))]),
        now,
    );
    now += DEDUP_WINDOW + 10 * STEP;
    app.process_notify(
        &mut watcher,
        event(NotifyKind::Modify, vec![("/root/first.txt", file("one\ntwo\n"))]),
        now,
    );
    app.process_notify(
        &mut watcher,
        event(
            NotifyKind::Rename,
            vec![
                ("/root/first.txt", Inspection::Missing),
                ("/root/second.txt", file("one\ntwo\n")),
            ],
        ),
        now,
    );
    now += DEDUP_WINDOW + 10 * STEP;
    app.process_notify(
        &mut watcher,
        event(NotifyKind::Remove, vec![("/root/second.txt", Inspection::Missing)]),
        now,
    );

    assert_eq!(
        kinds(&app),
        vec![
            ChangeKind::Delete,
            ChangeKind::Rename,
            ChangeKind::Modify,
            ChangeKind::Create,
        ]
    );
    let modified = app
        .events
        .iter()
        .find(|event| event.kind == ChangeKind::Modify)
        .expect("modify event");
    assert_eq!((modified.lines_added, modified.lines_removed), (1, 0));
    let ids: Vec<u64> = app.events.iter().map(|event| event.id).collect();
    assert_eq!(ids, vec![4, 3, 2, 1]);
}

#[test]
fn coalesced_modify_updates_the_visible_create_event() {
    let mut watcher = WatchState::start(vec![at("/root")]);
    let mut app = App::new(20);
    app.process_notify(
        &mut watcher,
        event(NotifyKind::Create, vec![("/root/burst.txt", file("one\n"))]),
        0,
    );
    app.process_notify(
        &mut watcher,
        event(NotifyKind::Modify, vec![("/root/burst.txt", file("one\ntwo\n"))]),
        5 * STEP,
    );
    let file_events = app
        .events
        .iter()
        .filter(|event| event.target == TargetKind::File)
        .collect::<Vec<_>>();
    assert_eq!(file_events.len(), 1);
    assert_eq!(file_events[0].kind, ChangeKind::Create);
    assert_eq!(file_events[0].size, 8);
    assert_eq!(file_events[0].occurred_at, 5 * STEP);
}

#[test]
fn a_burst_is_taken_in_while_the_timeline_is_paused() {
    let mut watcher = WatchState::start(vec![at("/root")]);
    let mut app = App::new(20);
    app.toggle_pause();
    app.process_notify(
        &mut watcher,
        event(NotifyKind::Create, vec![("/root/a", file("1"))]),
        0,
    );
    app.process_notify(
        &mut watcher,
        event(NotifyKind::Modify, vec![("/root/a", file("123"))]),
        STEP,
    );
    assert!(app.events.is_empty());
    assert_eq!(app.paused_events.len(), 1);
    assert_eq!(app.paused_events[0].size, 3);
}

#[test]
fn changes_of_other_paths_are_never_merged() {
    let mut watcher = WatchState::start(vec![at("/root")]);
    let mut app = App::new(20);
    app.process_notify(
        &mut watcher,
        event(NotifyKind::Create, vec![("/root/a", file("1")), ("/root/b", file("2"))]),
        0,
    );
    assert_eq!(app.events.len(), 2);
    app.process_notify(&mut watcher, event(NotifyKind::Modify, vec![("/root/a", file("11"))]), 1);
    assert_eq!(app.events.len(), 2);
    assert_eq!(app.events[0].size, 1);
    assert_eq!(app.events[1].size, 2);
}

#[test]
fn split_renames_are_paired_by_native_tracker() {
    let mut watcher = WatchState::start(vec![at("/root")]);
    remember(&mut watcher, "/root/first.txt", "first\n");
    remember(&mut watcher, "/root/second.txt", "second\n");
    let mut app = App::new(20);

    app.process_notify(
        &mut watcher,
        with_tracker(NotifyKind::RenameFrom, "/root/first.txt", Inspection::Missing, 10),
        0,
    );
    app.process_notify(
        &mut watcher,
        with_tracker(NotifyKind::RenameFrom, "/root/second.txt", Inspection::Missing, 20),
        0,
    );
    app.process_notify(
        &mut watcher,
        with_tracker(NotifyKind::RenameTo, "/root/second-moved.txt", file("second\n"), 20),
        0,
    );
    app.process_notify(
        &mut watcher,
        with_tracker(NotifyKind::RenameTo, "/root/first-moved.txt", file("first\n"), 10),
        0,
    );

    let pairs = app
        .events
        .iter()
        .filter(|event| event.kind == ChangeKind::Rename)
        .map(|event| {
            (
                event.previous_path.clone().expect("previous path"),
                event.path.clone(),
            )
        })
        .collect::<Vec<_>>();
    assert!(pairs.contains(&(at("first.txt"), at("first-moved.txt"))));
    assert!(pairs.contains(&(at("second.txt"), at("second-moved.txt"))));
}

#[test]
fn one_path_rename_events_are_paired_from_snapshot_evidence() {
    let mut watcher = WatchState::start(vec![at("/root")]);
    remember(&mut watcher, "/root/before.txt", "content\n");
    let mut app = App::new(20);
    app.process_notify(
        &mut watcher,
        event(NotifyKind::Rename, vec![("/root/before.txt", Inspection::Missing)]),
        0,
    );
    app.process_notify(
        &mut watcher,
        event(NotifyKind::Rename, vec![("/root/after.txt", file("content\n"))]),
        0,
    );
    let renamed = app
        .events
        .iter()
        .find(|event| event.kind == ChangeKind::Rename)
        .expect("rename event");
    assert_eq!(renamed.previous_path, Some(at("before.txt")));
    assert_eq!(renamed.path, at("after.txt"));
}

#[test]
fn one_path_renames_without_evidence_are_creations_or_changes() {
    let mut watcher = WatchState::start(vec![at("/root")]);
    remember(&mut watcher, "/root/known.txt", "old\n");
    let mut app = App::new(20);
    app.process_notify(
        &mut watcher,
        event(NotifyKind::Rename, vec![("/root/unknown", Inspection::Missing)]),
        0,
    );
    assert!(app.events.is_empty());
    app.process_notify(
        &mut watcher,
        event(NotifyKind::Rename, vec![("/root/known.txt", file("new\n"))]),
        0,
    );
    app.process_notify(
        &mut watcher,
        event(NotifyKind::Rename, vec![("/root/new.txt", file("new\n"))]),
        0,
    );
    app.process_notify(
        &mut watcher,
        event(NotifyKind::RenameTo, vec![("/root/other.txt", file("x\n"))]),
        0,
    );
    assert_eq!(
        kinds(&app),
        vec![ChangeKind::Create, ChangeKind::Create, ChangeKind::Modify]
    );
}

#[test]
fn create_signal_for_existing_path_is_classified_as_modify() {
    let mut watcher = WatchState::start(vec![at("/root")]);
    remember(&mut watcher, "/root/existing.txt", "before\n");
    let mut app = App::new(20);
    app.process_notify(
        &mut watcher,
        event(NotifyKind::Create, vec![("/root/existing.txt", file("after\n"))]),
        0,
    );
    assert_eq!(app.events.front().map(|event| event.kind), Some(ChangeKind::Modify));
}

#[test]
fn watched_root_removal_emits_lost_integrity() {
    let mut watcher = WatchState::start(vec![at("/root")]);
    let mut app = App::new(20);
    app.process_notify(
        &mut watcher,
        event(NotifyKind::Remove, vec![("/root", Inspection::Missing)]),
        0,
    );
    assert!(app.events.iter().any(|event| {
        event.kind == ChangeKind::Integrity
            && event.integrity_level == Some(IntegrityLevel::Lost)
    }));
    assert_eq!(app.observer_level(), IntegrityLevel::Lost);
}

#[test]
fn rescan_sentinel_emits_uncertain_integrity() {
    let mut watcher = WatchState::start(vec![at("/root")]);
    let mut app = App::new(20);
    let mut rescan = event(NotifyKind::Other, vec![]);
    rescan.rescan = true;
    rescan.info = Some("rescan: kernel dropped".to_string());
    app.process_notify(&mut watcher, rescan, 0);
    assert!(app.events.iter().any(|event| {
        event.kind == ChangeKind::Integrity
            && event.integrity_level == Some(IntegrityLevel::Uncertain)
    }));
    assert_eq!(app.events[0].detail, Some("rescan: kernel dropped".to_string()));
    assert_eq!(app.events[0].root, at("/root"));
}

#[test]
fn a_rescan_without_explanation_names_the_root_of_its_path() {
    let mut watcher = WatchState::start(vec![at("/a"), at("/b")]);
    let mut app = App::new(20);
    let mut rescan = event(NotifyKind::Other, vec![("/b/x", Inspection::Missing)]);
    rescan.rescan = true;
    app.process_notify(&mut watcher, rescan, 0);
    assert_eq!(app.events[0].root, at("/b"));
    assert_eq!(
        app.events[0].detail,
        Some("the operating system requested a reconciliation scan".to_string())
    );
}

#[test]
fn changes_before_a_baseline_carry_an_explanation_and_no_diff() {
    let mut watcher = WatchState::start(vec![at("/root")]);
    let mut app = App::new(20);
    app.process_notify(
        &mut watcher,
        event(NotifyKind::Modify, vec![("/root/early.txt", file("text\n"))]),
        0,
    );
    assert_eq!(app.events.len(), 1);
    assert_eq!(app.events[0].kind, ChangeKind::Modify);
    assert!(app.events[0].diff.is_empty());
    assert_eq!((app.events[0].lines_added, app.events[0].lines_removed), (0, 0));
    assert!(
        app.events[0].detail.as_deref().is_some_and(|text| text.contains("baseline unavailable"))
    );
}

#[test]
fn a_moved_folder_takes_its_baselines_along() {
    let mut watcher = WatchState::start(vec![at("/root")]);
    watcher.seed_step(
        0,
        SeedReply::Entry { path: at("/root/old"), found: Inspection::Directory },
    );
    remember(&mut watcher, "/root/old/file.txt", "one\n");
    let mut app = App::new(20);
    app.process_notify(
        &mut watcher,
        event(
            NotifyKind::Rename,
            vec![("/root/old", Inspection::Missing), ("/root/new", Inspection::Directory)],
        ),
        0,
    );
    assert_eq!(app.events[0].target, TargetKind::Directory);
    app.process_notify(
        &mut watcher,
        event(NotifyKind::Modify, vec![("/root/new/file.txt", file("one\ntwo\n"))]),
        DEDUP_WINDOW,
    );
    assert_eq!((app.events[0].lines_added, app.events[0].lines_removed), (1, 0));
}

#[test]
fn a_path_that_cannot_be_inspected_degrades_the_observation() {
    let mut watcher = WatchState::start(vec![at("/root")]);
    let mut app = App::new(20);
    app.process_notify(
        &mut watcher,
        event(
            NotifyKind::Create,
            vec![(
                "/root/secret",
                Inspection::File { size: 3, data: FileData::Failed("denied".to_string()) },
            )],
        ),
        0,
    );
    assert_eq!(kinds(&app), vec![ChangeKind::Create, ChangeKind::Integrity]);
    assert_eq!(app.observer_level(), IntegrityLevel::Degraded);
    assert_eq!(
        app.events[1].detail,
        Some("could not read /root/secret: denied".to_string())
    );
    app.process_notify(
        &mut watcher,
        event(NotifyKind::Create, vec![("/root/gone", Inspection::Missing)]),
        0,
    );
    assert_eq!(app.events.len(), 3);
    assert_eq!(app.events[0].kind, ChangeKind::Create);
}

#[test]
fn what_did_not_change_is_not_shown() {
    let mut watcher = WatchState::start(vec![at("/root")]);
    remember(&mut watcher, "/root/a.txt", "same\n");
    let mut app = App::new(20);
    app.process_notify(
        &mut watcher,
        event(
            NotifyKind::Modify,
            vec![
                ("/root/a.txt", file("same\n")),
                ("/root/gone.txt", Inspection::Missing),
                ("/root/dir", Inspection::Directory),
            ],
        ),
        0,
    );
    assert!(app.events.is_empty());
}

#[test]
fn hidden_paths_leave_no_trace() {
    let mut watcher = WatchState::start(vec![at("/root/target")]);
    let mut app = App::new(20);
    app.process_notify(
        &mut watcher,
        event(
            NotifyKind::Create,
            vec![
                ("/root/target/.git/index", file("x")),
                ("/root/target/.beads/last-touched", file("x")),
            ],
        ),
        0,
    );
    assert!(app.events.is_empty());
    assert_eq!(watcher.snapshots.len(), 0);
    app.process_notify(
        &mut watcher,
        event(NotifyKind::Create, vec![("/root/target/src.rs", file("x"))]),
        0,
    );
    assert_eq!(app.events.len(), 1);
}

#[test]
fn only_what_is_needed_is_read() {
    let watcher = WatchState::start(vec![at("/root")]);
    let path = at("/root/a.txt");
    assert_eq!(reading(&watcher, NotifyKind::Modify, &path), Reading::Content);
    assert_eq!(reading(&watcher, NotifyKind::Remove, &path), Reading::Metadata);
    assert_eq!(reading(&watcher, NotifyKind::RenameFrom, &path), Reading::Metadata);
    assert_eq!(reading(&watcher, NotifyKind::Other, &path), Reading::Nothing);
    assert_eq!(
        reading(&watcher, NotifyKind::Create, &at("/root/.git/HEAD")),
        Reading::Nothing
    );
}

#[test]
fn moves_that_are_not_finished_become_deletions() {
    let mut watcher = WatchState::start(vec![at("/root")]);
    remember(&mut watcher, "/root/a.txt", "text");
    let mut app = App::new(20);
    app.process_notify(
        &mut watcher,
        event(NotifyKind::RenameFrom, vec![("/root/a.txt", Inspection::Missing)]),
        0,
    );
    app.flush_pending(&watcher, RENAME_TIMEOUT - 1);
    assert!(app.events.is_empty());
    assert_eq!(app.pending_renames.len(), 1);
    app.flush_pending(&watcher, RENAME_TIMEOUT);
    assert_eq!(kinds(&app), vec![ChangeKind::Delete]);
    assert_eq!(app.events[0].size, 4);
    assert!(app.pending_renames.is_empty());
    assert_eq!(app.recent.len(), 1);
    app.flush_pending(&watcher, RENAME_TIMEOUT + 2_000 * STEP);
    assert_eq!(app.recent.len(), 0);
}

#[test]
fn clearing_timeline_does_not_reset_observer_health() {
    let mut app = App::new(20);
    app.process_integrity(
        IntegrityEvent {
            level: IntegrityLevel::Lost,
            source: "filesystem",
            summary: "watch lost".into(),
            detail: "test".into(),
            root: at("/workspace"),
        },
        0,
    );
    app.clear();
    assert_eq!(app.observer_level(), IntegrityLevel::Lost);
    assert!(app.events.is_empty());
}

#[test]
fn the_gravest_report_counts() {
    let mut app = App::new(20);
    assert_eq!(app.observer_level(), IntegrityLevel::Info);
    app.process_integrity(report(IntegrityLevel::Uncertain, "/a"), 0);
    app.process_integrity(report(IntegrityLevel::Degraded, "/a"), 0);
    assert_eq!(app.observer_level(), IntegrityLevel::Uncertain);
    assert_eq!(app.events[0].path.display(), "filesystem · watch established");
}

#[test]
fn workspace_focus_cycles_and_filters_without_reordering() {
    let first = at("/workspace/first");
    let second = at("/workspace/second");
    let roots = vec![first.clone(), second.clone()];
    let mut app = App::new(20);
    for root in &roots {
        app.process_integrity(
            IntegrityEvent {
                level: IntegrityLevel::Info,
                source: "filesystem",
                summary: "watch established".into(),
                detail: "native recursive filesystem events are active".into(),
                root: root.clone(),
            },
            0,
        );
    }

    assert_eq!(app.visible_indices().len(), 2);
    app.cycle_workspace(&roots, false);
    assert_eq!(app.workspace_filter, Some(first));
    assert_eq!(app.visible_indices().len(), 1);
    app.cycle_workspace(&roots, false);
    assert_eq!(app.workspace_filter, Some(second));
    assert_eq!(app.visible_indices().len(), 1);
    app.cycle_workspace(&roots, false);
    assert_eq!(app.workspace_filter, None);
    assert_eq!(app.visible_indices().len(), 2);
    app.cycle_workspace(&roots, true);
    assert_eq!(app.workspace_filter, roots.last().cloned());
}

#[test]
fn a_focus_on_no_root_is_given_up() {
    let mut app = App::new(20);
    app.workspace_filter = Some(at("/gone"));
    app.selected = 3;
    app.cycle_workspace(&vec![], false);
    assert_eq!(app.workspace_filter, None);
    assert_eq!(app.selected, 3);
    app.workspace_filter = Some(at("/gone"));
    app.cycle_workspace(&vec![at("/a")], true);
    assert_eq!(app.workspace_filter, None);
    assert_eq!(app.selected, 0);
}

#[test]
fn searching_and_kinds_choose_what_is_shown() {
    let mut watcher = WatchState::start(vec![at("/root")]);
    let mut app = App::new(20);
    app.process_notify(
        &mut watcher,
        event(NotifyKind::Create, vec![("/root/Alpha.txt", file("1")), ("/root/b", file("2"))]),
        0,
    );
    app.process_notify(
        &mut watcher,
        event(
            NotifyKind::Rename,
            vec![("/root/b", Inspection::Missing), ("/root/c", file("2"))],
        ),
        0,
    );
    assert_eq!(app.visible_indices(), vec![0, 1, 2]);
    app.search = "ALPHA".to_string();
    assert_eq!(app.visible_indices(), vec![2]);
    app.search = "b".to_string();
    assert_eq!(app.visible_indices(), vec![0, 1]);
    app.search = String::new();
    app.toggle_kind(1);
    assert_eq!(app.visible_indices(), vec![0]);
    app.toggle_kind(7);
    assert_eq!(app.visible_indices(), vec![0]);
    app.toggle_kind(1);
    assert_eq!(app.visible_indices().len(), 3);
}

#[test]
fn the_selection_moves_within_what_is_shown() {
    let mut app = App::new(20);
    app.move_selection(5);
    assert_eq!(app.selected, 0);
    assert!(app.selected_event().is_none());
    for i in 0..4 {
        app.process_integrity(report(IntegrityLevel::Info, &format!("/{i}")), 0);
    }
    app.move_selection(2);
    assert_eq!(app.selected, 2);
    assert_eq!(app.selected_event().map(|event| event.id), Some(2));
    app.move_selection(-1);
    assert_eq!(app.selected, 1);
    app.move_selection(-9);
    assert_eq!(app.selected, 0);
    app.move_selection(isize::MAX);
    assert_eq!(app.selected, 3);
    app.move_selection(isize::MIN);
    assert_eq!(app.selected, 0);
}

#[test]
fn the_selection_stays_on_its_event_when_others_arrive() {
    let mut app = App::new(20);
    for i in 0..3 {
        app.process_integrity(report(IntegrityLevel::Info, &format!("/{i}")), 0);
    }
    app.move_selection(1);
    let chosen = app.selected_event().map(|event| event.id);
    app.process_integrity(report(IntegrityLevel::Info, "/new"), 0);
    assert_eq!(app.selected_event().map(|event| event.id), chosen);

    app.toggle_kind(4);
    app.move_selection(1);
    let chosen = app.selected_event().map(|event| event.id);
    let activity = GitActivity {
        root: at("/repo"),
        summary: "commit 1234567".to_string(),
        detail: "subject".to_string(),
    };
    app.process_git(activity, 0);
    assert_eq!(app.selected_event().map(|event| event.id), chosen);
}

#[test]
fn events_that_waited_come_on_the_timeline_in_order() {
    let mut live = App::new(3);
    let mut held = App::new(3);
    held.toggle_pause();
    for i in 0..5 {
        live.process_integrity(report(IntegrityLevel::Info, &format!("/{i}")), i);
        held.process_integrity(report(IntegrityLevel::Info, &format!("/{i}")), i);
    }
    assert_eq!(held.paused_events.len(), 3);
    held.toggle_pause();
    assert!(held.paused_events.is_empty());
    let live_ids: Vec<u64> = live.events.iter().map(|event| event.id).collect();
    let held_ids: Vec<u64> = held.events.iter().map(|event| event.id).collect();
    assert_eq!(live_ids, vec![5, 4, 3]);
    assert_eq!(held_ids, live_ids);
}

#[test]
fn git_and_work_activity_come_on_the_timeline() {
    let mut app = App::new(20);
    assert!(app.has_room(1));
    app.process_git(
        GitActivity {
            root: at("/repo"),
            summary: "checkout feature/x".to_string(),
            detail: "main → feature/x".to_string(),
        },
        7,
    );
    app.process_work(
        BeadsActivity {
            root: at("/repo"),
            issue_id: "flux-1".to_string(),
            title: "Title".to_string(),
            action: "closed".to_string(),
            detail: "by me".to_string(),
        },
        8,
    );
    app.process_work(
        BeadsActivity {
            root: at("/repo"),
            issue_id: "flux-2".to_string(),
            title: String::new(),
            action: "linked".to_string(),
            detail: "blocks flux-1".to_string(),
        },
        9,
    );
    assert_eq!(kinds(&app), vec![ChangeKind::Work, ChangeKind::Work, ChangeKind::Git]);
    assert_eq!(app.events[2].path.display(), "checkout feature/x");
    assert_eq!(app.events[2].target, TargetKind::Repository);
    assert_eq!(app.events[1].path.display(), "flux-1 · Title");
    assert_eq!(app.events[1].detail, Some("closed · by me".to_string()));
    assert_eq!(app.events[0].path.display(), "flux-2");
    assert_eq!(app.events[0].target, TargetKind::WorkItem);
    assert_eq!(app.events[0].occurred_at, 9);
}
