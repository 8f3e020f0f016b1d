//! Roots, snapshots and the recovery of watches.

use flux::diff::build_diff;
use flux::model::{DiffKind, IntegrityLevel};
use flux::path::{FsPath, Part};
use flux::path_map::PathMap;
use flux::recovery::{delay, RecoveryState, RECOVERY_INITIAL_DELAY, RECOVERY_MAX_DELAY};
use flux::roots::{build_root_labels, ignored, minimal_observation_roots};
use flux::snapshot::{looks_binary, read_snapshot, wants_content, FileData, Inspection};
use flux::watcher::{
    classify_fault, enters, integrity_from_notify_error, FaultKind, NotifyFault, SeedReply,
    WatchState, DEFAULT_SNAPSHOT_BYTES, DEFAULT_SNAPSHOT_ENTRIES, INITIAL_SEED_BUDGET,
};

const MILLIS: u64 = 1_000_000;

fn place(text: &str) -> FsPath {
    FsPath::parse(text)
}

fn text_file(text: &str) -> Inspection {
    Inspection::File { size: text.len() as u64, data: FileData::Bytes(text.as_bytes().to_vec()) }
}

fn list(state: &mut WatchState, path: &str, found: Inspection) -> usize {
    state.seed_step(0, SeedReply::Entry { path: place(path), found })
}

#[test]
fn ignores_only_heavy_generated_trees() {
    assert!(ignored(&place("project/.git/index")));
    assert!(ignored(&place("project/target/debug/app")));
    assert!(!ignored(&place("project/.github/workflows/check.yml")));
    assert!(!ignored(&place("project/src/main.rs")));
}

#[test]
fn beads_metadata_is_kept_out_of_the_timeline() {
    assert!(ignored(&place("project/.beads/last-touched")));
    assert!(ignored(&place("project/node_modules/x")));
    assert!(ignored(&place("project/dist")));
    assert!(ignored(&place("coverage")));
    assert!(!ignored(&place("project/beads")));
}

#[test]
fn explicit_roots_are_not_ignored_by_ancestor_or_root_name() {
    let root = place("/work/target");
    let mut state = WatchState::start(vec![place("/tmp/ignored-root")]);
    state.roots = vec![root.clone()];
    assert!(!state.is_ignored(&root.join(&place("src/main.rs"))));
    assert!(state.is_ignored(&root.join(&place("target/debug/app"))));
}

#[test]
fn creates_compact_contextual_diff() {
    let diff = build_diff(
        Some("alpha\nbeta\ngamma\n"),
        Some("alpha\nbetter\ngamma\ndelta\n"),
    );
    assert_eq!(diff.added, 2);
    assert_eq!(diff.removed, 1);
    assert!(diff.lines.iter().any(|line| line.kind == DiffKind::Add));
    assert!(diff.lines.iter().any(|line| line.kind == DiffKind::Remove));
}

#[test]
fn diff_lines_are_numbered_and_lose_their_line_feed() {
    let diff = build_diff(Some("one\ntwo\n"), Some("one\nTWO\n"));
    let shown: Vec<(DiffKind, Option<usize>, Option<usize>, &str)> = diff
        .lines
        .iter()
        .map(|line| (line.kind, line.old_number, line.new_number, line.text.as_str()))
        .collect();
    assert_eq!(
        shown,
        vec![
            (DiffKind::Equal, Some(1), Some(1), "one"),
            (DiffKind::Remove, Some(2), None, "two"),
            (DiffKind::Add, None, Some(2), "TWO"),
        ]
    );
    assert_eq!(diff.detail, None);
}

#[test]
fn a_long_diff_is_cut_off_but_counted_in_full() {
    let mut text = String::new();
    for i in 0..400 {
        text.push_str(&format!("line {i}\n"));
    }
    let diff = build_diff(Some(""), Some(&text));
    assert_eq!(diff.added, 400);
    assert_eq!(diff.lines.len(), 300);
    assert_eq!(diff.detail, Some("diff preview truncated".to_string()));
}

#[test]
fn a_diff_without_text_says_why() {
    let diff = build_diff(None, Some("text\n"));
    assert!(diff.lines.is_empty());
    assert_eq!(diff.detail, Some("binary, unreadable, or larger than 1 MiB".to_string()));
}

#[test]
fn equal_texts_have_no_diff() {
    let diff = build_diff(Some("same\n"), Some("same\n"));
    assert!(diff.lines.is_empty());
    assert_eq!((diff.added, diff.removed), (0, 0));
    assert_eq!(diff.detail, None);
}

#[test]
fn labels_same_named_roots_with_shortest_unique_suffix() {
    let roots = vec![
        place("/work/team/api"),
        place("/work/other/api"),
        place("/work/team/web"),
    ];
    let labels = build_root_labels(&roots);
    assert_eq!(labels.get(&roots[0]), Some(&"team/api".to_string()));
    assert_eq!(labels.get(&roots[1]), Some(&"other/api".to_string()));
    assert_eq!(labels.get(&roots[2]), Some(&"web".to_string()));
}

#[test]
fn equal_roots_are_labelled_by_their_whole_path() {
    let roots = vec![place("/work/api"), place("/work/api")];
    let labels = build_root_labels(&roots);
    assert_eq!(labels.get(&roots[0]), Some(&"/work/api".to_string()));
    let state = WatchState::start(vec![place("/work/api")]);
    assert_eq!(state.root_label(&place("/work/api")), "api");
    assert_eq!(state.root_label(&place("/elsewhere/x")), "/elsewhere/x");
}

#[test]
fn overlapping_roots_assign_events_to_the_deepest_workspace() {
    let parent = place("/work/project");
    let child = parent.join(&place("packages/api"));
    let mut state = WatchState::start(vec![place("/tmp/parent")]);
    state.roots = vec![parent.clone(), child.clone()];
    assert_eq!(state.root_for(&child.join(&place("src/main.rs"))), child);
    assert_eq!(state.root_for(&parent.join(&place("README.md"))), parent);
    assert_eq!(state.root_for(&place("/nowhere/else")), parent);
    assert_eq!(state.root_index(&child), 1);
    assert_eq!(state.root_index(&place("/nowhere")), 0);
    assert!(state.is_root(&child));
    assert!(!state.is_root(&place("/nowhere")));
}

#[test]
fn nested_workspaces_share_the_minimal_physical_watch_root() {
    let parent = place("/work/project");
    let child = parent.join(&place("worktrees/feature"));
    let sibling = place("/work/other");
    assert_eq!(
        minimal_observation_roots(&vec![child, sibling.clone(), parent.clone()]),
        vec![sibling, parent]
    );
}

#[test]
fn paths_are_written_from_their_root_on() {
    let state = WatchState::start(vec![place("/work")]);
    assert_eq!(state.relative_path(&place("/work/src/main.rs")), place("src/main.rs"));
    assert_eq!(state.relative_path(&place("/work")), place("work"));
    assert_eq!(state.relative_path(&place("/other/file.txt")), place("file.txt"));
    assert_eq!(state.relative_path(&place("/")), FsPath::empty());
}

#[test]
fn paths_are_taken_apart_and_written_back() {
    assert_eq!(place("/a//b/./c/").display(), "/a/b/c");
    assert_eq!(place("./a").display(), "./a");
    assert_eq!(place("../a").display(), "../a");
    assert_eq!(place("").display(), "");
    assert_eq!(place("/").display(), "/");
    assert_eq!(
        place("/a/b").parts,
        vec![Part::Root, Part::Normal("a".to_string()), Part::Normal("b".to_string())]
    );
    assert_eq!(place("/a/b").parent(), Some(place("/a")));
    assert_eq!(place("/").parent(), None);
    assert_eq!(place("/a").join(&place("/b")), place("/b"));
    assert_eq!(place("/a/b/c").strip(&place("/a")), Some(place("b/c")));
    assert_eq!(place("/ab").strip(&place("/a")), None);
}

#[test]
fn a_table_of_paths_finds_what_was_put_in() {
    let mut map: PathMap<u32> = PathMap::new();
    for i in 0..3000u32 {
        assert_eq!(map.insert(place(&format!("/dir/{i}")), i), None);
    }
    assert_eq!(map.len(), 3000);
    assert_eq!(map.insert(place("/dir/7"), 700), Some(7));
    assert_eq!(map.get(&place("/dir/7")), Some(&700));
    assert_eq!(map.remove(&place("/dir/8")), Some(8));
    assert_eq!(map.get(&place("/dir/8")), None);
    assert_eq!(map.len(), 2999);
    assert_eq!(map.paths().len(), 2999);
}

#[test]
fn files_are_read_as_text_up_to_a_limit() {
    let path = place("/work/file.txt");
    let text = read_snapshot(&path, text_file("hello"));
    assert_eq!(text.content, Some("hello".to_string()));
    assert_eq!((text.size, text.is_dir), (5, false));

    let binary = read_snapshot(
        &path,
        Inspection::File { size: 3, data: FileData::Bytes(vec![65, 0, 66]) },
    );
    assert_eq!(binary.content, None);
    assert_eq!(binary.read_error, None);

    let invalid = read_snapshot(
        &path,
        Inspection::File { size: 2, data: FileData::Bytes(vec![0xff, 0xfe]) },
    );
    assert_eq!(invalid.content, None);

    let large = read_snapshot(
        &path,
        Inspection::File { size: 1_048_577, data: FileData::Skipped },
    );
    assert_eq!((large.content, large.size), (None, 1_048_577));
    assert!(wants_content(1_048_576));
    assert!(!wants_content(1_048_577));

    let folder = read_snapshot(&path, Inspection::Directory);
    assert!(folder.is_dir);

    let missing = read_snapshot(&path, Inspection::Missing);
    assert_eq!(
        missing.read_error,
        Some("could not read metadata for /work/file.txt".to_string())
    );

    let failed = read_snapshot(
        &path,
        Inspection::File { size: 9, data: FileData::Failed("denied".to_string()) },
    );
    assert_eq!(failed.read_error, Some("could not read /work/file.txt: denied".to_string()));

    let mut late = vec![65u8; 8192];
    late.push(0);
    assert!(!looks_binary(&late));
    late[8191] = 0;
    assert!(looks_binary(&late));
}

#[test]
fn remaps_and_removes_descendant_snapshots_as_a_tree() {
    let mut state = WatchState::start(vec![place("/root")]);
    list(&mut state, "/root/before", Inspection::Directory);
    list(&mut state, "/root/before/nested", Inspection::Directory);
    list(&mut state, "/root/before/nested/file.txt", text_file("before\n"));

    state.remap_snapshot_descendants(&place("/root/before"), &place("/root/after"));
    assert!(state.previous_snapshot(&place("/root/after/nested/file.txt")).is_some());
    assert!(state.previous_snapshot(&place("/root/before/nested/file.txt")).is_none());
    assert!(state.previous_snapshot(&place("/root/before")).is_some());

    state.remove_snapshot_tree(&place("/root/after"));
    assert!(state.previous_snapshot(&place("/root/after/nested/file.txt")).is_none());
    assert_eq!(state.snapshot_bytes, 0);
    assert_eq!(state.snapshots.len(), 1);
}

#[test]
fn a_moved_snapshot_replaces_the_one_at_its_new_place() {
    let mut state = WatchState::start(vec![place("/root")]);
    list(&mut state, "/root/a/file.txt", text_file("from a"));
    list(&mut state, "/root/b/file.txt", text_file("from b, longer"));
    state.remap_snapshot_descendants(&place("/root/a"), &place("/root/b"));
    assert_eq!(
        state.previous_snapshot(&place("/root/b/file.txt")).and_then(|one| one.content.clone()),
        Some("from a".to_string())
    );
    assert_eq!(state.snapshots.len(), 1);
    assert_eq!(state.snapshot_bytes, 6);
}

#[test]
fn snapshot_budget_omits_content_and_reports_pressure() {
    let mut state = WatchState::start_with_snapshot_budget(vec![place("/root")], 4);
    list(&mut state, "/root/file.txt", text_file("larger than budget\n"));
    let snapshot = state.previous_snapshot(&place("/root/file.txt")).expect("remembered");
    assert!(snapshot.content.is_none());
    assert_eq!(
        snapshot.read_error,
        Some("snapshot content omitted because the 4 byte memory budget is full".to_string())
    );
    assert!(state.take_snapshot_omissions() > 0);
    assert_eq!(state.take_snapshot_omissions(), 0);
}

#[test]
fn snapshot_entry_limit_bounds_retained_paths() {
    let mut state =
        WatchState::start_with_snapshot_limits(vec![place("/root")], DEFAULT_SNAPSHOT_BYTES, 2);
    for name in ["one.txt", "two.txt", "three.txt"] {
        list(&mut state, &format!("/root/{name}"), text_file(name));
    }
    assert_eq!(state.snapshots.len(), 2);
    assert!(state.take_snapshot_omissions() > 0);
    let kept = state.take_snapshot(&place("/root/four.txt"), text_file("four"));
    assert_eq!(
        kept.read_error,
        Some("snapshot omitted because the 2 entry memory limit is full".to_string())
    );
    let again = state.take_snapshot(&place("/root/one.txt"), text_file("new text"));
    assert_eq!(again.content, Some("new text".to_string()));
    assert_eq!(state.snapshots.len(), 2);
}

#[test]
fn forgetting_a_path_gives_back_its_room() {
    let mut state = WatchState::start_with_snapshot_budget(vec![place("/root")], 10);
    list(&mut state, "/root/a", text_file("12345678"));
    let removed = state.remove_snapshot(&place("/root/a"), false);
    assert_eq!(removed.content, Some("12345678".to_string()));
    let unknown = state.remove_snapshot(&place("/root/dir"), true);
    assert!(unknown.is_dir);
    assert_eq!(unknown.content, None);
    let kept = state.take_snapshot(&place("/root/b"), text_file("1234567890"));
    assert_eq!(kept.content, Some("1234567890".to_string()));
}

#[test]
fn listing_goes_through_folders_and_passes_over_what_is_known() {
    let mut state = WatchState::start(vec![place("/a"), place("/b"), place("/a/inner")]);
    assert!(state.is_seeding());
    assert_eq!(state.walks, vec![place("/a"), place("/b")]);
    let mut processed = 0;
    processed = state.seed_step(
        processed,
        SeedReply::Entry { path: place("/b/x"), found: text_file("first") },
    );
    processed = state.seed_step(
        processed,
        SeedReply::Entry { path: place("/b/x"), found: text_file("second") },
    );
    processed = state.seed_step(
        processed,
        SeedReply::Entry { path: place("/b/gone"), found: Inspection::Missing },
    );
    processed = state.seed_step(processed, SeedReply::Failed);
    assert_eq!(processed, 4);
    processed = state.seed_step(processed, SeedReply::Exhausted);
    assert_eq!(processed, 4);
    assert_eq!(
        state.previous_snapshot(&place("/b/x")).and_then(|one| one.content.clone()),
        Some("first".to_string())
    );
    assert!(state.previous_snapshot(&place("/b/gone")).is_none());
    state.seed_step(processed, SeedReply::Exhausted);
    assert!(!state.is_seeding());
    state.seed_step(processed, SeedReply::Exhausted);
    assert!(!state.is_seeding());
    assert!(INITIAL_SEED_BUDGET < DEFAULT_SNAPSHOT_ENTRIES);
}

#[test]
fn listing_does_not_enter_what_is_hidden() {
    let root = place("/work/target");
    assert!(enters(&root, &root, 0));
    assert!(enters(&root, &place("/work/target/src"), 1));
    assert!(!enters(&root, &place("/work/target/node_modules"), 1));
    assert!(!enters(&root, &place("/elsewhere"), 1));
}

#[test]
fn waits_double_up_to_a_limit() {
    assert_eq!(delay(0), 250 * MILLIS);
    assert_eq!(delay(1), 500 * MILLIS);
    assert_eq!(delay(4), 4_000 * MILLIS);
    assert_eq!(delay(5), 8_000 * MILLIS);
    assert_eq!(delay(6), 8_000 * MILLIS);
    assert_eq!(delay(u32::MAX), 8_000 * MILLIS);
    assert!(delay(5) <= RECOVERY_MAX_DELAY);
    let state = RecoveryState::start(1_000);
    assert_eq!(state.next_attempt, 1_000 + RECOVERY_INITIAL_DELAY);
    let next = state.retry(2_000);
    assert_eq!((next.attempts, next.next_attempt), (1, 2_000 + 500 * MILLIS));
}

#[test]
fn scheduled_watch_recovery_resumes_native_events() {
    let root = place("/root");
    let mut state = WatchState::start(vec![root.clone()]);
    list(&mut state, "/root/file.txt", text_file("text"));
    state.seed_step(0, SeedReply::Exhausted);
    state.schedule_recovery(root.clone(), 1_000);
    assert!(state.awaits_recovery(&root));
    assert!(state.previous_snapshot(&place("/root/file.txt")).is_none());

    assert!(state.due_recoveries(1_000 + 249 * MILLIS).is_empty());
    let now = 1_000 + 250 * MILLIS;
    assert_eq!(state.due_recoveries(now), vec![root.clone()]);
    assert!(state.recover_due(&vec![false], now).is_empty());
    assert!(state.due_recoveries(now + 499 * MILLIS).is_empty());

    let later = now + 500 * MILLIS;
    assert_eq!(state.due_recoveries(later), vec![root.clone()]);
    let recovered = state.recover_due(&vec![true], later);
    assert!(recovered.iter().any(|event| {
        event.level == IntegrityLevel::Info
            && event.root == root
            && event.summary == "watch recovered"
    }));
    assert!(!state.awaits_recovery(&root));
    assert_eq!(state.walks, vec![root]);
}

#[test]
fn a_recovery_that_is_under_way_goes_on() {
    let root = place("/root");
    let mut state = WatchState::start(vec![root.clone()]);
    state.schedule_recovery(root.clone(), 0);
    state.schedule_recovery(root.clone(), 200 * MILLIS);
    assert_eq!(state.failed_roots.len(), 1);
    assert_eq!(state.due_recoveries(250 * MILLIS), vec![root]);
}

#[test]
fn related_folders_join_once() {
    let mut state = WatchState::start(vec![place("/work/a")]);
    state.seed_step(0, SeedReply::Exhausted);
    assert!(state.needs_watch(&place("/work/b")));
    let refused = state.add_root(place("/work/b"), Err("no watch".to_string()));
    assert_eq!(refused.err(), Some("no watch".to_string()));
    assert_eq!(state.roots.len(), 1);

    let event = state.add_root(place("/work/b"), Ok(())).expect("joined").expect("reported");
    assert_eq!(event.summary, "related folder joined");
    assert_eq!(event.detail, "native recursive filesystem events are active");
    assert_eq!(event.root, place("/work/b"));
    assert_eq!(state.walks, vec![place("/work/b")]);
    assert!(state.add_root(place("/work/b"), Ok(())).expect("known").is_none());

    assert!(!state.needs_watch(&place("/work/a/inner")));
    let nested = state.add_root(place("/work/a/inner"), Err("ignored".to_string()));
    assert!(nested.expect("covered").is_some());
    assert_eq!(state.walks, vec![place("/work/b")]);
    assert_eq!(state.root_label(&place("/work/b")), "b");
}

#[test]
fn every_root_is_reported_as_watched() {
    let state = WatchState::start(vec![place("/a"), place("/b")]);
    let events = state.established_events();
    assert_eq!(events.len(), 2);
    assert_eq!(events[1].root, place("/b"));
    assert_eq!(events[1].summary, "watch established");
    assert_eq!(events[1].level, IntegrityLevel::Info);
    assert_eq!(events[1].source, "filesystem");
}

fn fault_of(error: notify::Error) -> NotifyFault {
    NotifyFault {
        kind: match &error.kind {
            notify::ErrorKind::Generic(_) => FaultKind::Generic,
            notify::ErrorKind::Io(_) => FaultKind::Io,
            notify::ErrorKind::PathNotFound => FaultKind::PathNotFound,
            notify::ErrorKind::WatchNotFound => FaultKind::WatchNotFound,
            notify::ErrorKind::InvalidConfig(_) => FaultKind::InvalidConfig,
            notify::ErrorKind::MaxFilesWatch => FaultKind::MaxFilesWatch,
        },
        paths: error
            .paths
            .iter()
            .map(|path| FsPath::parse(&path.to_string_lossy()))
            .collect(),
        description: error.to_string(),
    }
}

#[test]
fn maps_overflow_errors_to_uncertain_integrity() {
    let event = integrity_from_notify_error(
        "filesystem",
        fault_of(notify::Error::generic("event queue overflow; rescan required")),
        &place("/workspace"),
    );
    assert_eq!(event.level, IntegrityLevel::Uncertain);
    assert_eq!(event.summary, "native events may have been lost");
}

#[test]
fn faults_are_judged_by_kind_and_description() {
    let lost = integrity_from_notify_error(
        "git",
        fault_of(
            notify::Error::new(notify::ErrorKind::PathNotFound)
                .add_path(std::path::PathBuf::from("/gone")),
        ),
        &place("/workspace"),
    );
    assert_eq!(lost.level, IntegrityLevel::Lost);
    assert_eq!(lost.summary, "watch target unavailable");
    assert_eq!(lost.root, place("/gone"));
    assert_eq!(lost.source, "git");

    let upper = integrity_from_notify_error(
        "filesystem",
        fault_of(notify::Error::generic("Events DROPPED")),
        &place("/workspace"),
    );
    assert_eq!(upper.level, IntegrityLevel::Uncertain);
    assert_eq!(upper.root, place("/workspace"));
    assert_eq!(upper.detail, "Events DROPPED");

    assert_eq!(
        classify_fault(FaultKind::MaxFilesWatch, ""),
        (IntegrityLevel::Lost, "native watch limit reached")
    );
    assert_eq!(
        classify_fault(FaultKind::Generic, "something else"),
        (IntegrityLevel::Degraded, "native watcher reported an error")
    );
    assert_eq!(classify_fault(FaultKind::Generic, "please rescan").0, IntegrityLevel::Uncertain);
    assert_eq!(classify_fault(FaultKind::Io, "overflow").0, IntegrityLevel::Degraded);
    assert_eq!(classify_fault(FaultKind::InvalidConfig, "").0, IntegrityLevel::Degraded);
    assert_eq!(classify_fault(FaultKind::WatchNotFound, "").0, IntegrityLevel::Lost);
}

#[test]
fn a_path_without_components_takes_relative_paths_along() {
    let mut state = WatchState::start(vec![place("/root")]);
    for path in ["a/b", "../c", "/root/d"] {
        state.take_snapshot(&place(path), text_file("x"));
    }
    state.remap_snapshot_descendants(&place(""), &place("to"));
    assert!(state.previous_snapshot(&place("to/a/b")).is_some());
    assert!(state.previous_snapshot(&place("to/../c")).is_some());
    assert!(state.previous_snapshot(&place("/root/d")).is_some());
    assert!(state.previous_snapshot(&place("a/b")).is_none());
    assert_eq!(state.snapshots.len(), 3);
}

#[test]
fn labels_of_different_roots_differ() {
    let roots = vec![place("/a/b"), place("/c/a/b"), place("/b"), place("/")];
    let state = WatchState::start(roots.clone());
    let labels: Vec<String> = roots.iter().map(|root| state.root_label(root)).collect();
    assert_eq!(labels, vec!["//a/b", "c/a/b", "//b", "/"]);
}

#[test]
fn diff_lines_carry_the_numbers_of_their_kind() {
    for line in build_diff(Some("a\nb\n"), Some("a\nc\n")).lines {
        assert_eq!(line.old_number.is_some(), line.kind != DiffKind::Add);
        assert_eq!(line.new_number.is_some(), line.kind != DiffKind::Remove);
    }
}

#[test]
fn diff_lines_are_those_of_their_texts() {
    let old = ["a\r\n", "b\r", "c\n", "d"];
    let new = ["a\r\n", "x\r", "y\n", "c\n", "d\n"];
    let diff = build_diff(Some(&old.concat()), Some(&new.concat()));
    assert_eq!((diff.added, diff.removed), (3, 2));
    assert_eq!(diff.added as i64 - diff.removed as i64, new.len() as i64 - old.len() as i64);
    for line in &diff.lines {
        if let Some(number) = line.old_number {
            assert_eq!(line.text, old[number - 1].trim_end_matches('\n'));
        }
        if let Some(number) = line.new_number {
            assert_eq!(line.text, new[number - 1].trim_end_matches('\n'));
        }
    }
    assert!(diff.lines.iter().any(|line| line.text == "b\r" && line.old_number == Some(2)));
}

#[test]
fn diff_counts_make_up_for_the_lines_that_came_and_went() {
    let texts = ["", "a\n", "a\nb\nc\n", "c\nb\na\n", "b\nb\nb\nb\n", "a\nb\nc\nd\ne\nf\ng\nh"];
    for old in texts {
        for new in texts {
            let diff = build_diff(Some(old), Some(new));
            assert_eq!(
                diff.added + old.lines().count(),
                diff.removed + new.lines().count()
            );
        }
    }
}

#[test]
fn listing_stops_where_its_budget_is_spent() {
    let mut state = WatchState::start(vec![place("/a"), place("/b")]);
    let mut processed = 0;
    let mut steps = 0;
    while state.goes_on(processed, 5) {
        let reply = if steps == 2 { SeedReply::Exhausted } else { SeedReply::Failed };
        processed = state.seed_step(processed, reply);
        steps += 1;
    }
    assert_eq!((processed, steps), (5, 6));
    assert!(state.is_seeding());
    assert!(!state.goes_on(0, 0));
    assert!(state.goes_on(0, 1));
    state.seed_step(0, SeedReply::Exhausted);
    assert!(!state.goes_on(0, 5));
}

fn drive(prefix: &str, names: &[&str]) -> FsPath {
    let mut parts = vec![Part::Prefix(prefix.to_string()), Part::Root];
    parts.extend(names.iter().map(|name| Part::Normal(name.to_string())));
    FsPath { parts }
}

#[test]
fn paths_are_written_with_the_separator_of_their_prefix() {
    let resolved = drive(r"\\?\C:", &["work", "api"]);
    assert_eq!(resolved.display(), r"\\?\C:\work\api");
    assert_eq!(resolved.separator(), r"\");
    assert_eq!(drive("C:", &["work", "api"]).display(), "C:/work/api");
    assert_eq!(drive("//host/share", &["x"]).display(), "//host/share/x");
    assert_eq!(place("/a/b").separator(), "/");
    let below = place("src/main.rs");
    assert_eq!(below.display_with(r"\"), r"src\main.rs");
    assert_eq!(resolved.join(&below).display(), r"\\?\C:\work\api\src\main.rs");

    let missing = read_snapshot(&resolved, Inspection::Missing);
    assert_eq!(
        missing.read_error,
        Some(r"could not read metadata for \\?\C:\work\api".to_string())
    );
    let roots = vec![resolved.clone(), drive(r"\\?\C:", &["api"])];
    let labels = build_root_labels(&roots);
    assert_eq!(labels.get(&roots[0]), Some(&"work/api".to_string()));
    assert_eq!(labels.get(&roots[1]), Some(&r"\/api".to_string()));
    let state = WatchState::start(roots);
    assert_eq!(state.root_label(&drive("C:", &["git"])), "C:/git");
}
