//! Beads: what its rows say, and which stores are connected.

use flux::beads::{
    activities_between, attribute, changed_fields, clean_actor, event_detail, read_rows,
    semantic_activities, string, summarize_fields, truncate, Cell, CommitRows, Field, Row,
    RowSource,
};
use flux::beads_monitor::{
    commit_pairs, commits_after, current_head, diff_query, locate_store, metadata_path, open_store, parse_log,
    query_failure, required_table, schema_query, BeadsMetadata, BeadsMonitor, BeadsMonitorEvent,
    BeadsStore, CommitReading, CommitStory, Finding, History, MetadataReading, OpenedStore,
    EVENT_QUIET_PERIOD, REQUIRED_TABLES,
};
use flux::model::IntegrityLevel;
use flux::path::{FsPath, Part};

fn folder(text: &str) -> FsPath {
    FsPath::parse(text)
}

fn row(fields: Vec<(&str, &str)>) -> Row {
    Row {
        fields: fields
            .into_iter()
            .map(|(name, text)| Field {
                name: name.to_string(),
                cell: Cell::Text(text.to_string()),
            })
            .collect(),
    }
}

#[test]
fn summarizes_updated_fields_without_leaking_payloads() {
    assert_eq!(
        changed_fields(r#"{"title":"new","description":"body"}"#),
        "changed description, title"
    );
}

#[test]
fn what_is_no_object_is_shown_as_it_is() {
    assert_eq!(changed_fields("{}"), "issue fields changed");
    assert_eq!(changed_fields("plain"), "plain");
    assert_eq!(changed_fields("[1,2]"), "[1,2]");
    assert_eq!(
        summarize_fields("x", &Some(vec!["b".to_string(), "a".to_string(), "B".to_string()])),
        "changed B, a, b"
    );
}

#[test]
fn sanitizes_control_characters_in_work_text() {
    assert_eq!(truncate("line one\nline two\u{1b}", 80), "line one line two ");
}

#[test]
fn long_work_text_is_cut_off() {
    assert_eq!(truncate("abcdef", 6), "abcdef");
    assert_eq!(truncate("abcdefg", 6), "abcdef…");
    assert_eq!(truncate("ä\u{7f}\u{9f}ö", 4), "ä  ö");
    assert_eq!(truncate("abc", 0), "…");
}

#[test]
fn coalesced_beads_parent_paths_trigger_the_store() {
    let store = BeadsStore {
        root: folder("/project"),
        data_dir: folder("/project/.beads/embeddeddolt/flux"),
        cursor: "head".into(),
        dirty_since: None,
    };
    assert!(store.observes_path(&folder("/project/.beads")));
    assert!(store.observes_path(&folder("/project/.beads/embeddeddolt")));
    assert!(store.observes_path(&folder("/project/.beads/embeddeddolt/flux/.dolt/noms")));
    assert!(!store.observes_path(&folder("/project/src/main.rs")));
}

#[test]
fn fields_are_read_as_text() {
    let one = Row {
        fields: vec![
            Field { name: "a".to_string(), cell: Cell::Null },
            Field { name: "b".to_string(), cell: Cell::Other("42".to_string()) },
            Field { name: "c".to_string(), cell: Cell::Text("text".to_string()) },
        ],
    };
    assert_eq!(string(&one, "a"), None);
    assert_eq!(string(&one, "b"), Some("42".to_string()));
    assert_eq!(string(&one, "c"), Some("text".to_string()));
    assert_eq!(string(&one, "d"), None);
}

#[test]
fn events_are_described_by_actor_and_subject() {
    assert_eq!(clean_actor(" \"me\" "), "me");
    assert_eq!(event_detail("closed", "me", "done", ""), "me · done");
    assert_eq!(event_detail("closed", "me", "", "why"), "me · why");
    assert_eq!(event_detail("created", "\"me\"", "{}", ""), "by me");
    assert_eq!(event_detail("updated", "", r#"{"status":1}"#, "x"), "changed status");
    assert_eq!(event_detail("claimed", "", "", ""), "authoritative Beads transition");
    assert_eq!(attribute("", "subject"), "subject");
}

#[test]
fn rows_of_each_table_are_read() {
    let root = folder("/repo");
    let events = read_rows(
        RowSource::Events,
        &root,
        &vec![
            row(vec![
                ("issue_id", "i-1"),
                ("title", "T"),
                ("action", "closed"),
                ("actor", "me"),
                ("new_value", "done"),
            ]),
            row(vec![("title", "no issue")]),
            row(vec![("issue_id", "i-2")]),
        ],
    );
    assert_eq!(events.len(), 2);
    assert_eq!(
        (events[0].action.as_str(), events[0].detail.as_str(), events[0].title.as_str()),
        ("closed", "me · done", "T")
    );
    assert_eq!(events[1].action, "updated");
    assert_eq!(events[1].root, root);

    let comments = read_rows(
        RowSource::Comments,
        &root,
        &vec![
            row(vec![("issue_id", "i"), ("actor", "me"), ("body", "a\nb")]),
            row(vec![("issue_id", "i"), ("body", "c")]),
        ],
    );
    assert_eq!(comments[0].detail, "me: a b");
    assert_eq!(comments[1].detail, "c");
    assert_eq!(comments[1].action, "commented");

    let links = read_rows(
        RowSource::Dependencies,
        &root,
        &vec![
            row(vec![
                ("issue_id", "i"),
                ("diff_type", "added"),
                ("dependency_type", "blocks"),
                ("target", "j"),
            ]),
            row(vec![("issue_id", "i"), ("diff_type", "removed"), ("target", "j")]),
        ],
    );
    assert_eq!((links[0].action.as_str(), links[0].detail.as_str()), ("linked", "blocks j"));
    assert_eq!(
        (links[1].action.as_str(), links[1].detail.as_str()),
        ("unlinked", "depends on j")
    );

    let labels = read_rows(
        RowSource::Labels,
        &root,
        &vec![
            row(vec![("issue_id", "i"), ("diff_type", "added"), ("label", "bug")]),
            row(vec![("issue_id", "i"), ("label", "bug")]),
        ],
    );
    assert_eq!((labels[0].action.as_str(), labels[0].detail.as_str()), ("labeled", "bug"));
    assert_eq!(labels[1].action, "unlabeled");

    let issues = read_rows(
        RowSource::Issues,
        &root,
        &vec![
            row(vec![("issue_id", "i"), ("diff_type", "added")]),
            row(vec![("issue_id", "i"), ("diff_type", "removed")]),
            row(vec![("issue_id", "i"), ("diff_type", "modified")]),
        ],
    );
    let actions: Vec<&str> = issues.iter().map(|one| one.action.as_str()).collect();
    assert_eq!(actions, vec!["created", "deleted", "updated"]);
    assert_eq!(issues[0].detail, "issue fields changed");
}

#[test]
fn issues_count_only_where_nothing_else_is_told() {
    let root = folder("/repo");
    let mut rows =
        CommitRows { events: vec![], comments: vec![], dependencies: vec![], labels: vec![] };
    let issues = vec![row(vec![("issue_id", "i"), ("diff_type", "added")])];
    assert!(semantic_activities(&root, &rows).is_empty());
    let fallback = activities_between(&root, &rows, &issues);
    assert_eq!(fallback[0].action, "created");
    rows.labels.push(row(vec![("issue_id", "i"), ("diff_type", "added"), ("label", "x")]));
    rows.events.push(row(vec![("issue_id", "i"), ("action", "claimed")]));
    let told = activities_between(&root, &rows, &issues);
    let actions: Vec<&str> = told.iter().map(|one| one.action.as_str()).collect();
    assert_eq!(actions, vec!["claimed", "labeled"]);
}

#[test]
fn queries_name_their_commits() {
    assert_eq!(
        diff_query(RowSource::Issues, "a", "b"),
        "SELECT COALESCE(d.to_id, d.from_id) AS issue_id, \
         COALESCE(d.to_title, d.from_title, '') AS title, d.diff_type \
         FROM dolt_diff_issues d WHERE d.from_commit='a' AND d.to_commit='b'"
    );
    assert_eq!(
        diff_query(RowSource::Comments, "a", "b"),
        "SELECT d.to_issue_id AS issue_id, COALESCE(i.title, '') AS title, \
         d.to_author AS actor, d.to_text AS body FROM dolt_diff_comments d \
         LEFT JOIN issues i ON i.id = d.to_issue_id \
         WHERE d.from_commit='a' AND d.to_commit='b' AND d.diff_type='added' \
         ORDER BY d.to_created_at, d.to_id"
    );
    assert_eq!(
        diff_query(RowSource::Events, "a", "b"),
        "SELECT d.to_issue_id AS issue_id, COALESCE(i.title, '') AS title, \
         d.to_event_type AS action, d.to_actor AS actor, d.to_new_value AS new_value, \
         d.to_comment AS comment FROM dolt_diff_events d \
         LEFT JOIN issues i ON i.id = d.to_issue_id \
         WHERE d.from_commit='a' AND d.to_commit='b' AND d.diff_type='added' \
         ORDER BY d.to_created_at, d.to_id"
    );
    assert_eq!(
        diff_query(RowSource::Labels, "a", "b"),
        "SELECT COALESCE(d.to_issue_id, d.from_issue_id) AS issue_id, \
         COALESCE(i.title, '') AS title, d.diff_type, \
         COALESCE(d.to_label, d.from_label, '') AS label FROM dolt_diff_labels d \
         LEFT JOIN issues i ON i.id = COALESCE(d.to_issue_id, d.from_issue_id) \
         WHERE d.from_commit='a' AND d.to_commit='b'"
    );
    assert_eq!(
        diff_query(RowSource::Dependencies, "a", "b"),
        "SELECT COALESCE(d.to_issue_id, d.from_issue_id) AS issue_id, \
         COALESCE(i.title, '') AS title, d.diff_type, \
         COALESCE(d.to_type, d.from_type) AS dependency_type, \
         COALESCE(d.to_depends_on_issue_id, d.from_depends_on_issue_id, '') AS target \
         FROM dolt_diff_dependencies d \
         LEFT JOIN issues i ON i.id = COALESCE(d.to_issue_id, d.from_issue_id) \
         WHERE d.from_commit='a' AND d.to_commit='b'"
    );
    let tables: Vec<&str> = (0..REQUIRED_TABLES).map(required_table).collect();
    assert_eq!(tables, vec!["events", "issues", "comments", "dependencies", "labels"]);
    assert_eq!(schema_query(4), "SELECT * FROM dolt_diff_labels LIMIT 0");
    assert_eq!(query_failure(b" no table\n"), "Dolt query failed: no table");
}

#[test]
fn logs_are_read_from_the_oldest_commit_on() {
    assert_eq!(
        parse_log("c3 third\nc2 second\n\n  c1 first"),
        vec!["c1".to_string(), "c2".to_string(), "c3".to_string()]
    );
    assert_eq!(commits_after("c0", true, b"c1 x\n", b""), Ok(vec!["c1".to_string()]));
    assert_eq!(
        commits_after("c0", false, b"", b" bad ref\n"),
        Err("could not traverse Beads history from c0: bad ref".to_string())
    );
    assert_eq!(current_head(&vec![row(vec![("commit_hash", "h")])]), Ok("h".to_string()));
    assert_eq!(
        current_head(&vec![]),
        Err("Beads Dolt history has no HEAD commit".to_string())
    );
}

fn metadata(database: Option<&str>, dolt: Option<&str>, mode: Option<&str>) -> MetadataReading {
    MetadataReading::Metadata(BeadsMetadata {
        database: database.map(str::to_string),
        dolt_database: dolt.map(str::to_string),
        dolt_mode: mode.map(str::to_string),
    })
}

fn located(reading: MetadataReading) -> Result<FsPath, String> {
    let root = folder("/project");
    locate_store(&root, &metadata_path(&root), &reading).map(|place| place.data_dir)
}

#[test]
fn stores_are_located_by_their_metadata() {
    assert_eq!(
        located(metadata(None, Some("flux"), Some("embedded"))),
        Ok(folder("/project/.beads/embeddeddolt/flux"))
    );
    assert_eq!(
        located(metadata(Some("other"), None, None)),
        Ok(folder("/project/.beads/embeddeddolt/other"))
    );
    assert_eq!(
        located(metadata(Some("x"), None, Some("server"))),
        Err("unsupported Beads Dolt mode server".to_string())
    );
    assert_eq!(
        located(metadata(Some("x"), Some(""), None)),
        Err("Beads metadata does not name a Dolt database".to_string())
    );
    for name in ["../up", "/abs", "a/b", ".", ".."] {
        assert_eq!(
            located(metadata(Some(name), None, None)),
            Err("Beads metadata contains an unsafe Dolt database name".to_string())
        );
    }
    assert_eq!(
        located(MetadataReading::Unreadable),
        Err("could not read /project/.beads/metadata.json".to_string())
    );
    assert_eq!(
        located(MetadataReading::Malformed),
        Err("could not parse /project/.beads/metadata.json".to_string())
    );
}

fn opened(
    present: bool,
    missing: Option<usize>,
    head: Result<&str, &str>,
) -> Result<OpenedStore, String> {
    let root = folder("/project");
    let reading = metadata(None, Some("flux"), None);
    open_store(
        &root,
        locate_store(&root, &metadata_path(&root), &reading),
        present,
        missing,
        head.map(str::to_string).map_err(str::to_string),
    )
}

#[test]
fn stores_open_where_everything_is_there() {
    let store = opened(true, None, Ok("head")).expect("store").store;
    assert_eq!(store.cursor, "head");
    assert_eq!(store.data_dir, folder("/project/.beads/embeddeddolt/flux"));
    assert_eq!(
        opened(false, None, Ok("head")).err(),
        Some("Beads Dolt store is missing at /project/.beads/embeddeddolt/flux".to_string())
    );
    assert_eq!(
        opened(true, Some(2), Ok("head")).err(),
        Some("unsupported Beads schema: missing dolt_diff_comments".to_string())
    );
    assert_eq!(opened(true, None, Err("no head")).err(), Some("no head".to_string()));
}

fn story(from: &str, to: &str, actions: Vec<&str>) -> CommitStory {
    let events = actions
        .into_iter()
        .map(|action| row(vec![("issue_id", "i"), ("action", action)]))
        .collect();
    CommitStory {
        from: from.to_string(),
        to: to.to_string(),
        reading: Ok(CommitReading {
            rows: CommitRows { events, comments: vec![], dependencies: vec![], labels: vec![] },
            issues: vec![],
        }),
    }
}

fn names(all: Vec<&str>) -> Vec<String> {
    all.into_iter().map(str::to_string).collect()
}

#[test]
fn names_that_no_separator_parts_are_taken_as_they_are() {
    assert_eq!(
        located(metadata(Some("flux:dev"), None, None)).map(|place| place.display()),
        Ok("/project/.beads/embeddeddolt/flux:dev".to_string())
    );
}

#[test]
fn places_are_written_as_the_metadata_has_them() {
    let root = folder("/project");
    let reading = metadata(None, Some("flux/"), None);
    let place = locate_store(&root, &metadata_path(&root), &reading);
    assert_eq!(
        place.as_ref().map(|place| place.data_dir.clone()),
        Ok(folder("/project/.beads/embeddeddolt/flux"))
    );
    assert_eq!(
        open_store(&root, place, false, None, Ok("h".to_string())).err(),
        Some("Beads Dolt store is missing at /project/.beads/embeddeddolt/flux/".to_string())
    );
}

#[test]
fn places_below_a_drive_are_written_as_their_root_is() {
    let root = FsPath {
        parts: vec![
            Part::Prefix(r"\\?\C:".to_string()),
            Part::Root,
            Part::Normal("project".to_string()),
        ],
    };
    let place = locate_store(&root, &metadata_path(&root), &metadata(None, Some("flux/"), None));
    assert_eq!(
        place.map(|place| place.shown),
        Ok(r"\\?\C:\project\.beads\embeddeddolt\flux".to_string())
    );
    let place = locate_store(&root, &metadata_path(&root), &MetadataReading::Malformed);
    assert_eq!(
        place.err(),
        Some(r"could not parse \\?\C:\project\.beads\metadata.json".to_string())
    );
}

#[test]
fn commits_are_paired_from_the_cursor_on() {
    assert_eq!(
        commit_pairs("c0", &names(vec!["c1", "c2"])),
        vec![
            ("c0".to_string(), "c1".to_string()),
            ("c1".to_string(), "c2".to_string()),
        ]
    );
    assert!(commit_pairs("c0", &vec![]).is_empty());
}

#[test]
fn the_order_of_fields_and_their_values_do_not_matter() {
    assert_eq!(
        changed_fields(r#"{"b":1,"a":2}"#),
        changed_fields(r#"{"a":"secret","b":null}"#)
    );
    assert_eq!(changed_fields(r#"{"b":1,"a":2,"b":3}"#), "changed a, b");
}

fn monitor() -> BeadsMonitor {
    BeadsMonitor::discover(
        &vec![folder("/none"), folder("/project"), folder("/bad")],
        vec![
            Finding::Absent,
            Finding::Opened(opened(true, None, Ok("c0"))),
            Finding::Opened(Err("broken".to_string())),
        ],
    )
}

#[test]
fn discovery_reports_each_store() {
    let monitor = monitor();
    assert_eq!(monitor.store_count(), 1);
    let events = monitor.established_events();
    assert_eq!(events.len(), 2);
    assert_eq!(events[0].summary, "work history connected");
    assert_eq!(events[0].detail, "watching /project/.beads/embeddeddolt/flux");
    assert_eq!(events[0].level, IntegrityLevel::Info);
    assert_eq!(events[1].summary, "work history unavailable");
    assert_eq!(events[1].detail, "broken");
    assert_eq!(events[1].level, IntegrityLevel::Degraded);
    assert!(monitor.is_connected(&folder("/project")));
    assert!(!monitor.is_connected(&folder("/bad")));
}

#[test]
fn roots_join_with_their_store() {
    let mut monitor = monitor();
    let events = monitor.add_root(&folder("/more"), Finding::Opened(Err("x".to_string())));
    assert_eq!(events.len(), 1);
    assert_eq!(monitor.roots.len(), 4);
    assert!(monitor.add_root(&folder("/project"), Finding::Absent).is_empty());
    assert_eq!(monitor.roots.len(), 4);
}

#[test]
fn history_is_told_up_to_the_newest_commit() {
    let mut monitor = monitor();
    let waiting = monitor
        .observe_workspace_event(&vec![folder("/project/.beads/last-touched")], 1_000);
    assert!(waiting.is_empty());
    assert!(monitor.ready_stores(1_000 + EVENT_QUIET_PERIOD - 1).is_empty());
    let now = 1_000 + EVENT_QUIET_PERIOD;
    assert_eq!(monitor.ready_stores(now), vec![0]);
    let events = monitor.drain(
        vec![History {
            present: true,
            head: Ok("c2".to_string()),
            commits: Ok(names(vec!["c1", "c2"])),
            stories: vec![
                story("c0", "c1", vec!["created"]),
                story("c1", "c2", vec!["claimed", "closed"]),
            ],
        }],
        now,
    );
    let actions: Vec<String> = events
        .into_iter()
        .map(|event| match event {
            BeadsMonitorEvent::Activity(one) => one.action,
            BeadsMonitorEvent::Integrity(one) => one.detail,
        })
        .collect();
    assert_eq!(actions, vec!["created", "claimed", "closed"]);
    assert_eq!(monitor.stores[0].cursor, "c2");
    assert!(monitor.ready_stores(now).is_empty());
    assert!(monitor.drain(vec![], now).is_empty());
}

fn stuck(history: History) -> (String, String) {
    let mut monitor = monitor();
    monitor.observe_workspace_event(&vec![folder("/project")], 0);
    let events = monitor.drain(vec![history], EVENT_QUIET_PERIOD);
    assert_eq!(events.len(), 1);
    let detail = match &events[0] {
        BeadsMonitorEvent::Integrity(one) => {
            assert_eq!(one.level, IntegrityLevel::Uncertain);
            assert_eq!(one.summary, "work history could not advance");
            one.detail.clone()
        }
        BeadsMonitorEvent::Activity(_) => String::new(),
    };
    (detail, monitor.stores[0].cursor.clone())
}

fn unread(present: bool, head: Result<&str, &str>, commits: Result<Vec<&str>, &str>) -> History {
    History {
        present,
        head: head.map(str::to_string).map_err(str::to_string),
        commits: commits.map(names).map_err(str::to_string),
        stories: vec![],
    }
}

#[test]
fn a_history_that_cannot_be_told_leaves_the_cursor() {
    assert_eq!(
        stuck(unread(false, Ok("c1"), Ok(vec![]))),
        ("Beads Dolt store was removed or replaced".to_string(), "c0".to_string())
    );
    assert_eq!(
        stuck(unread(true, Err("no head"), Ok(vec![]))),
        ("no head".to_string(), "c0".to_string())
    );
    assert_eq!(
        stuck(unread(true, Ok("c1"), Ok(vec![]))),
        ("Beads history no longer contains cursor c0".to_string(), "c0".to_string())
    );
    assert_eq!(
        stuck(unread(true, Ok("c1"), Err("log"))),
        ("log".to_string(), "c0".to_string())
    );
    let failed = CommitStory {
        from: "c1".to_string(),
        to: "c2".to_string(),
        reading: Err("query".to_string()),
    };
    assert_eq!(
        stuck(History {
            stories: vec![story("c0", "c1", vec!["created"]), failed],
            ..unread(true, Ok("c3"), Ok(vec!["c1", "c2", "c3"]))
        }),
        ("query".to_string(), "c0".to_string())
    );
}

#[test]
fn new_metadata_asks_for_its_store() {
    let mut monitor = monitor();
    let asked = monitor.observe_workspace_event(
        &vec![folder("/bad/.beads/metadata.json"), folder("/project/.beads/metadata.json")],
        0,
    );
    assert_eq!(asked, vec![folder("/bad")]);
}
