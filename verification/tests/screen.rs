//! What the screen shows, and what the keys do.

use flux::app::App;
use flux::beads::BeadsActivity;
use flux::changes::{NotifyEvent, NotifyKind, Sighting};
use flux::git::GitActivity;
use flux::git_monitor::GitMonitorEvent;
use flux::keys::{handle_key, Key};
use flux::model::{ChangeKind, IntegrityEvent, IntegrityLevel};
use flux::path::{FsPath, Part};
use flux::session::{
    disconnected, expand_related_paths, is_internal_event, join_related, process_fault,
    process_git_monitor_event, report_dropped, report_omissions, report_unjoined, Intake,
    MAX_FILESYSTEM_EVENTS_PER_TICK, MAX_INTERNAL_EVENTS_PER_TICK,
};
use flux::snapshot::{FileData, Inspection};
use flux::style::{Color, Line};
use flux::ui::{
    column_width, compact_path, detail_pane, event_context, filter_line, folders_height,
    folders_title, footer, footer_height, format_age, header_status, header_title, is_wide,
    kind_color, timeline_item, timeline_pane, tracked_folders, truncate_middle, workspace_span,
    DetailPane,
};
use flux::watcher::{FaultKind, NotifyFault, WatchState};

const SECOND: u64 = 1_000_000_000;

fn path(text: &str) -> FsPath {
    FsPath::parse(text)
}

fn written(line: &Line) -> String {
    line.spans.iter().map(|span| span.text.as_str()).collect()
}

fn create(app: &mut App, watcher: &mut WatchState, at: &str, text: &str, now: u64) {
    app.process_notify(
        watcher,
        NotifyEvent {
            kind: NotifyKind::Create,
            sightings: vec![Sighting {
                path: path(at),
                found: Inspection::File {
                    size: text.len() as u64,
                    data: FileData::Bytes(text.as_bytes().to_vec()),
                },
            }],
            tracker: None,
            rescan: false,
            info: None,
        },
        now,
    );
}

fn integrity(level: IntegrityLevel, root: &str) -> IntegrityEvent {
    IntegrityEvent {
        level,
        source: "filesystem",
        summary: "summary".to_string(),
        detail: "detail".to_string(),
        root: path(root),
    }
}

#[test]
fn ages_are_written_in_words() {
    assert_eq!(format_age(0), "now");
    assert_eq!(format_age(3 * SECOND - 1), "now");
    assert_eq!(format_age(3 * SECOND), "3s");
    assert_eq!(format_age(59 * SECOND), "59s");
    assert_eq!(format_age(60 * SECOND), "1m");
    assert_eq!(format_age(3599 * SECOND), "59m");
    assert_eq!(format_age(7200 * SECOND), "2h");
}

#[test]
fn long_texts_keep_their_end() {
    assert_eq!(truncate_middle("short", 8), "short");
    assert_eq!(truncate_middle("0123456789", 6), "…/6789");
    assert_eq!(truncate_middle("0123456789", 1), "…/");
    assert_eq!(compact_path(&path("/a/b")), "/a/b");
    assert_eq!(compact_path(&path("/a/b/c")), "…/b/c");
}

#[test]
fn contexts_tell_where_an_event_happened() {
    let mut watcher = WatchState::start(vec![path("/work/root/deep")]);
    let mut app = App::new(10);
    create(&mut app, &mut watcher, "/work/root/deep/src/a.rs", "x", 0);
    create(&mut app, &mut watcher, "/work/root/deep/b.rs", "x", 0);
    app.process_integrity(integrity(IntegrityLevel::Lost, "/r"), 0);
    app.process_git(
        GitActivity { root: path("/r"), summary: "s".to_string(), detail: "d".to_string() },
        0,
    );
    app.process_work(
        BeadsActivity {
            root: path("/r"),
            issue_id: "i".to_string(),
            title: String::new(),
            action: "closed".to_string(),
            detail: "by me".to_string(),
        },
        0,
    );
    assert_eq!(event_context(&app.events[4]), "src");
    assert_eq!(event_context(&app.events[3]), "…/root/deep");
    assert_eq!(event_context(&app.events[2]), "LOST · detail");
    assert_eq!(event_context(&app.events[1]), "d");
    assert_eq!(event_context(&app.events[0]), "closed · by me");
    let mut moved = app.events[4].clone();
    moved.previous_path = Some(path("old.rs"));
    assert_eq!(event_context(&moved), "old.rs → src/a.rs");
}

#[test]
fn the_header_tells_the_state_of_the_observation() {
    let watcher = WatchState::start(vec![path("/a"), path("/b")]);
    let mut app = App::new(10);
    assert_eq!(header_status(&app).text, " ● LIVE ");
    assert_eq!(header_status(&app).style.fg, Some(Color::Green));
    app.process_integrity(integrity(IntegrityLevel::Uncertain, "/a"), 0);
    assert_eq!(header_status(&app).text, " UNCERTAIN ");
    assert_eq!(header_status(&app).style.fg, Some(Color::Orange));
    app.catching_up = true;
    assert_eq!(header_status(&app).text, " CATCHING UP ");
    app.toggle_pause();
    app.process_integrity(integrity(IntegrityLevel::Info, "/a"), 0);
    assert_eq!(header_status(&app).text, " PAUSED  +1 queued ");
    assert_eq!(header_status(&app).style.fg, Some(Color::Amber));
    assert_eq!(
        written(&header_title(&watcher, 3)),
        " ϟ  FLUX workspace activity  2 folders  ·  3 repos"
    );
    assert_eq!(column_width(" ● LIVE "), 12);
}

#[test]
fn tracked_folders_are_listed_up_to_five() {
    let few = WatchState::start(vec![path("/a/x"), path("/b/x")]);
    let lines = tracked_folders(&few);
    assert_eq!(written(&lines[1]), " b/x   /b/x");
    assert_eq!(folders_title(&few), " TRACKED FOLDERS  ·  t hide ");
    let many = WatchState::start((0..7).map(|i| path(&format!("/r{i}"))).collect());
    assert_eq!(tracked_folders(&many).len(), 5);
    assert_eq!(folders_title(&many), " TRACKED FOLDERS  ·  +2 more  ·  t hide ");
    let mut app = App::new(1);
    assert_eq!(folders_height(&app, &many), 0);
    app.folders_open = true;
    assert_eq!(folders_height(&app, &many), 7);
    assert_eq!(folders_height(&app, &few), 4);
    assert_eq!(footer_height(&app), 2);
    assert!(is_wide(100));
    assert!(!is_wide(99));
}

#[test]
fn filters_are_listed_in_short_and_in_full() {
    let watcher = WatchState::start(vec![path("/a")]);
    let mut app = App::new(10);
    app.toggle_kind(1);
    let narrow = filter_line(&app, &watcher, false);
    assert_eq!(
        written(&narrow),
        " 0 events   w:ALL   1~  2+  3>  4-  5◆  6●  7! "
    );
    assert!(narrow.spans[4].style.dim);
    assert_eq!(narrow.spans[4].style.fg, Some(Color::Dim));
    assert_eq!(narrow.spans[3].style.fg, Some(kind_color(ChangeKind::Modify)));
    app.workspace_filter = Some(path("/a"));
    app.search = "query".to_string();
    let wide = filter_line(&app, &watcher, true);
    assert!(written(&wide).starts_with(" 0 events   w:a   1:~ MODIFY  2:+ CREATE "));
    assert!(written(&wide).ends_with(" 7:! INTEGRITY   /query "));
}

#[test]
fn events_are_shown_in_two_lines() {
    let mut watcher = WatchState::start(vec![path("/a"), path("/b")]);
    let mut app = App::new(10);
    create(&mut app, &mut watcher, "/b/src/main.rs", "one\ntwo\n", 0);
    let item = timeline_item(&app.events[0], false, 60, &watcher, SECOND);
    assert_eq!(written(&item.first), "●  b  CREATE  src/main.rs");
    assert_eq!(written(&item.second), "  #1    src +2 -0  NEW  now");
    assert_eq!(item.background, Color::FreshPanel);
    let old = timeline_item(&app.events[0], true, 60, &watcher, 5 * SECOND);
    assert_eq!(written(&old.first), "▶  b  CREATE  src/main.rs");
    assert_eq!(written(&old.second), "  #1    src +2 -0  5s");
    assert_eq!(old.background, Color::SelectedPanel);
    let narrow = timeline_item(&app.events[0], false, 10, &watcher, 5 * SECOND);
    assert_eq!(written(&narrow.first), "   b  CREATE  …/ain.rs");
    assert_eq!(narrow.background, Color::Reset);
    let label = workspace_span("a-very-long-workspace-label", 9);
    assert_eq!(label.text, " …/orkspace-label ");
    assert_eq!(label.style.bg.and_then(|color| color.rgb()), Some((220, 140, 255)));
}

#[test]
fn the_timeline_keeps_the_selected_event_in_sight() {
    let watcher = WatchState::start(vec![path("/a")]);
    let mut app = App::new(50);
    assert_eq!(timeline_pane(&app, &watcher, 80, 20, 0).title, " TIMELINE  0/0 ");
    for i in 0..10 {
        app.process_integrity(integrity(IntegrityLevel::Info, &format!("/{i}")), 0);
    }
    app.move_selection(6);
    let pane = timeline_pane(&app, &watcher, 80, 8, 0);
    assert_eq!(pane.title, " TIMELINE  7/10 ");
    assert_eq!(pane.items.len(), 3);
    assert_eq!(pane.items[2].background, Color::SelectedPanel);
    assert!(written(&pane.items[2].second).starts_with("  #4 "));
    assert_eq!(pane.color, Color::Green);
    assert_eq!(timeline_pane(&app, &watcher, 80, 0, 0).items.len(), 1);
}

#[test]
fn the_preview_shows_a_diff_or_a_detail() {
    let mut watcher = WatchState::start(vec![path("/a")]);
    let mut app = App::new(10);
    match detail_pane(&app, &watcher, 0) {
        DetailPane::Idle { lines } => {
            assert_eq!(written(&lines[1]), "Waiting for filesystem activity…");
        }
        DetailPane::Event { .. } => panic!("nothing is selected"),
    }
    create(&mut app, &mut watcher, "/a/x.txt", "one\n", 0);
    match detail_pane(&app, &watcher, 0) {
        DetailPane::Event { title, color, lines } => {
            let text: Vec<String> = lines.iter().map(written).collect();
            assert_eq!(
                text,
                vec![
                    " CREATE   #1    file  now",
                    "x.txt",
                    "WORKSPACE  a  ROOT  /a",
                    "",
                    "DIFF   +1    -0 ",
                    "",
                    "   1 + one",
                ]
            );
            assert_eq!(written(&title), " SELECTED   CREATE  #1 ");
            assert_eq!(color, Color::Green);
        }
        DetailPane::Idle { .. } => panic!("an event is selected"),
    }
    app.process_notify(
        &mut watcher,
        NotifyEvent {
            kind: NotifyKind::Remove,
            sightings: vec![Sighting { path: path("/a/x.txt"), found: Inspection::Missing }],
            tracker: None,
            rescan: false,
            info: None,
        },
        0,
    );
    match detail_pane(&app, &watcher, 0) {
        DetailPane::Event { lines, .. } => {
            let text: Vec<String> = lines.iter().map(written).collect();
            assert_eq!(text[4], "DETAIL  removed from the workspace");
            assert_eq!(text[5], "4 bytes");
        }
        DetailPane::Idle { .. } => panic!("an event is selected"),
    }
}

#[test]
fn the_footer_explains_keys_or_takes_a_search() {
    let mut app = App::new(10);
    let narrow = footer(&app, false);
    assert!(written(&narrow.main).starts_with(" j/k  move   /  find "));
    assert!(narrow.status.is_none());
    let wide = footer(&app, true);
    assert!(written(&wide.main).ends_with(" c  clear   q  quit"));
    assert_eq!(
        wide.status.map(|span| span.text),
        Some("no notifications · local only".to_string())
    );
    app.search_mode = true;
    app.search = "abc".to_string();
    assert_eq!(
        written(&footer(&app, true).main),
        " / abc█  enter accept  esc cancel"
    );
}

#[test]
fn keys_steer_the_timeline() {
    let roots = vec![path("/0"), path("/1")];
    let mut app = App::new(10);
    for i in 0..3 {
        app.process_integrity(integrity(IntegrityLevel::Info, &format!("/{i}")), 0);
    }
    handle_key(&mut app, Key::Char('j'), false, &roots);
    handle_key(&mut app, Key::Down, false, &roots);
    assert_eq!(app.selected, 2);
    handle_key(&mut app, Key::Char('k'), false, &roots);
    handle_key(&mut app, Key::Up, false, &roots);
    assert_eq!(app.selected, 0);
    handle_key(&mut app, Key::End, false, &roots);
    assert_eq!(app.selected, 2);
    handle_key(&mut app, Key::Home, false, &roots);
    handle_key(&mut app, Key::Char('G'), false, &roots);
    assert_eq!(app.selected, 2);
    handle_key(&mut app, Key::Char('w'), false, &roots);
    assert_eq!(app.workspace_filter, Some(path("/0")));
    handle_key(&mut app, Key::Char('W'), false, &roots);
    assert_eq!(app.workspace_filter, None);
    handle_key(&mut app, Key::Char('6'), false, &roots);
    assert!(!app.enabled[5]);
    handle_key(&mut app, Key::Char('7'), false, &roots);
    assert!(app.enabled[6]);
    handle_key(&mut app, Key::Char('t'), false, &roots);
    assert!(app.folders_open);
    handle_key(&mut app, Key::Char(' '), false, &roots);
    assert!(app.paused);
    handle_key(&mut app, Key::Char('c'), false, &roots);
    assert!(app.events.is_empty());
    assert!(!app.should_quit);
    handle_key(&mut app, Key::Char('c'), true, &roots);
    assert!(app.should_quit);
}

#[test]
fn a_search_is_written_and_given_up() {
    let roots = vec![];
    let mut app = App::new(10);
    handle_key(&mut app, Key::Char('/'), false, &roots);
    for c in ['q', 'c', 'é'] {
        handle_key(&mut app, Key::Char(c), false, &roots);
    }
    handle_key(&mut app, Key::Char('x'), true, &roots);
    assert_eq!(app.search, "qcé");
    assert!(!app.should_quit);
    handle_key(&mut app, Key::Backspace, false, &roots);
    assert_eq!(app.search, "qc");
    handle_key(&mut app, Key::Enter, false, &roots);
    assert!(!app.search_mode);
    handle_key(&mut app, Key::Escape, false, &roots);
    assert_eq!(app.search, "");
    handle_key(&mut app, Key::Char('/'), false, &roots);
    handle_key(&mut app, Key::Backspace, false, &roots);
    assert_eq!(app.search, "");
}

#[test]
fn metadata_bursts_leave_room_for_shown_paths() {
    let watcher = WatchState::start(vec![path("/a")]);
    let git = vec![path("/a/.git/index"), path("/a/.beads/x")];
    let mixed = vec![path("/a/.git/index"), path("/a/src")];
    assert!(is_internal_event(&watcher, &git));
    assert!(!is_internal_event(&watcher, &mixed));
    assert!(!is_internal_event(&watcher, &vec![]));
    let mut intake = Intake::new();
    for _ in 0..MAX_INTERNAL_EVENTS_PER_TICK - 1 {
        intake = intake.count(true);
    }
    assert!(intake.has_room());
    assert_eq!(intake.visible, 0);
    for _ in 0..MAX_FILESYSTEM_EVENTS_PER_TICK {
        assert!(intake.has_room());
        intake = intake.count(false);
    }
    assert!(!intake.has_room());
}

#[test]
fn a_lost_root_will_be_watched_again() {
    let mut watcher = WatchState::start(vec![path("/a"), path("/b")]);
    let mut app = App::new(10);
    let lost = process_fault(
        &mut app,
        &mut watcher,
        NotifyFault {
            kind: FaultKind::WatchNotFound,
            paths: vec![path("/b/inner")],
            description: "gone".to_string(),
        },
        0,
    );
    assert_eq!(lost, Some(path("/b")));
    assert!(watcher.awaits_recovery(&path("/b")));
    assert_eq!(app.events[0].root, path("/b"));
    let kept = process_fault(
        &mut app,
        &mut watcher,
        NotifyFault { kind: FaultKind::Io, paths: vec![], description: "io".to_string() },
        0,
    );
    assert_eq!(kept, None);
    assert_eq!(app.events[0].root, path("/a"));
}

#[test]
fn news_of_repositories_are_routed() {
    let mut watcher = WatchState::start(vec![path("/a")]);
    let mut app = App::new(10);
    let related =
        process_git_monitor_event(&mut app, GitMonitorEvent::RelatedWorktree(path("/b")), 0);
    assert_eq!(related, Some(path("/b")));
    assert!(app.events.is_empty());
    process_git_monitor_event(
        &mut app,
        GitMonitorEvent::Activity(GitActivity {
            root: path("/a"),
            summary: "s".to_string(),
            detail: "d".to_string(),
        }),
        0,
    );
    process_git_monitor_event(
        &mut app,
        GitMonitorEvent::Integrity(integrity(IntegrityLevel::Lost, "/a")),
        0,
    );
    assert_eq!(app.events.len(), 2);

    assert!(!join_related(&mut app, &mut watcher, &path("/b"), Err("no".to_string()), 0));
    assert_eq!(app.events[0].path.display(), "filesystem · related folder could not join");
    assert_eq!(app.events[0].detail, Some("no".to_string()));
    assert!(join_related(&mut app, &mut watcher, &path("/b"), Ok(()), 0));
    assert_eq!(app.events[0].path.display(), "filesystem · related folder joined");
    assert!(!join_related(&mut app, &mut watcher, &path("/b"), Ok(()), 0));
    assert_eq!(app.events.len(), 4);
    report_unjoined(&mut app, &path("/c"), "cannot access", 0);
    assert_eq!(app.events[0].integrity_level, Some(IntegrityLevel::Lost));
}

#[test]
fn pressure_is_reported_in_numbers() {
    let watcher = WatchState::start(vec![path("/a")]);
    assert!(report_dropped(0).is_none());
    assert_eq!(
        report_dropped(12).map(|event| event.detail),
        Some("12 native events were dropped before classification".to_string())
    );
    assert!(report_omissions(0).is_none());
    assert_eq!(
        report_omissions(3).map(|event| event.detail),
        Some("3 text baselines were omitted; metadata remains visible".to_string())
    );
    assert_eq!(disconnected(&watcher).root, path("/a"));
    assert_eq!(
        expand_related_paths(vec![path("/a")], &vec![path("/b"), path("/a"), path("/b")]),
        vec![path("/a"), path("/b")]
    );
}

#[test]
fn the_row_and_the_preview_go_together() {
    let mut watcher = WatchState::start(vec![path("/a"), path("/b")]);
    let mut app = App::new(10);
    create(&mut app, &mut watcher, "/b/x.txt", "one\n", 0);
    let pane = timeline_pane(&app, &watcher, 80, 20, 0);
    let row = &pane.items[0].first.spans;
    match detail_pane(&app, &watcher, 0) {
        DetailPane::Event { color, lines, .. } => {
            assert_eq!(pane.color, color);
            assert_eq!(row[1].text, lines[0].spans[0].text);
            assert_eq!(row[1].style, lines[0].spans[0].style);
            assert_eq!(row[2].text, lines[0].spans[1].text);
            assert_eq!(row[2].style, lines[0].spans[1].style);
        }
        DetailPane::Idle { .. } => panic!("an event is selected"),
    }
}

#[test]
fn roots_keep_their_color_when_others_join() {
    let mut watcher = WatchState::start(vec![path("/a"), path("/b")]);
    let mut app = App::new(10);
    assert_eq!(watcher.root_index(&path("/b")), 1);
    assert!(join_related(&mut app, &mut watcher, &path("/c"), Ok(()), 0));
    assert_eq!(watcher.root_index(&path("/b")), 1);
    assert_eq!(watcher.root_index(&path("/c")), 2);
    assert_eq!(watcher.root_index(&path("/nowhere")), 0);
}

#[test]
fn the_timeline_stays_in_order_whatever_happens() {
    let mut watcher = WatchState::start(vec![path("/a")]);
    let mut app = App::new(4);
    let roots = vec![path("/a")];
    for (i, key) in [' ', 'j', ' ', 'w', '2', 'G'].into_iter().enumerate() {
        create(&mut app, &mut watcher, &format!("/a/{i}"), "x", i as u64 * SECOND);
        app.process_integrity(integrity(IntegrityLevel::Info, "/a"), i as u64 * SECOND);
        handle_key(&mut app, Key::Char(key), false, &roots);
        let ids: Vec<u64> = app
            .paused_events
            .iter()
            .chain(app.events.iter())
            .map(|event| event.id)
            .collect();
        assert!(ids.windows(2).all(|pair| pair[0] > pair[1]));
        assert!(app.events.len() <= 4);
    }
}

#[test]
fn a_full_intake_is_shown_until_it_runs_empty() {
    let mut app = App::new(10);
    app.note_backlog(true);
    assert_eq!(header_status(&app).text, " CATCHING UP ");
    app.note_backlog(false);
    assert_eq!(header_status(&app).text, " ● LIVE ");
}

#[test]
fn paths_are_shown_as_their_root_is_written() {
    let mut root = path("");
    root.parts.push(Part::Prefix(r"\\?\C:".to_string()));
    root.parts.push(Part::Root);
    root.parts.push(Part::Normal("work".to_string()));
    let mut watcher = WatchState::start(vec![root.clone()]);
    let mut app = App::new(10);
    app.process_notify(
        &mut watcher,
        NotifyEvent {
            kind: NotifyKind::Create,
            sightings: vec![Sighting {
                path: root.join(&path("src/deep/a.rs")),
                found: Inspection::Directory,
            }],
            tracker: None,
            rescan: false,
            info: None,
        },
        0,
    );
    let event = app.events[0].clone();
    assert_eq!(event.write(&event.path), r"src\deep\a.rs");
    assert_eq!(compact_path(&event.root), r"\\?\C:\work");
    assert_eq!(compact_path(&root.join(&path("api"))), "…/work/api");
    let mut moved = event.clone();
    moved.previous_path = Some(path("old/b.rs"));
    assert_eq!(event_context(&moved), r"old\b.rs → src\deep\a.rs");
    app.search = r"SRC\Deep".to_string();
    assert_eq!(app.visible_indices(), vec![0]);
    app.search = "src/deep".to_string();
    assert!(app.visible_indices().is_empty());
}
