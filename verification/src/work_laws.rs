//! What is told of work on issues.

use crate::beads::{BeadsActivityView, CellView, CommitRows, FieldView, Row, RowSource};
use crate::beads_monitor::{
    BeadsMetadata, BeadsNews, BeadsView, Finding, History, MetadataReading, PlaceView, StoreView,
};
use crate::model::{IntegrityLevel, IntegrityView};
use crate::path::{PartView, Parts};
use crate::text::{Text, Trimmed};
use vstd::prelude::*;

verus! {

/// A field is found by its name, the first of that name; one without a value counts as
/// none.
pub proof fn fields_are_found_by_name(row: Seq<FieldView>, name: Text, from: int, i: int)
    requires
        0 <= from <= i < row.len(),
        row[i].name == name,
        forall|j: int| from <= j < i ==> (#[trigger] row[j]).name != name,
    ensures
        crate::beads::field_text(row, name, from) == (match row[i].cell {
            CellView::Text(text) => Some(text),
            CellView::Other(text) => Some(text),
            CellView::Null => None,
        }),
    decreases i - from,
{
    if from < i {
        assert(row[from].name != name);
        fields_are_found_by_name(row, name, from + 1, i);
    }
}

/// A name that no field has is not found.
pub proof fn missing_fields_are_not_made_up(row: Seq<FieldView>, name: Text, from: int)
    requires
        0 <= from,
        forall|j: int| from <= j < row.len() ==> (#[trigger] row[j]).name != name,
    ensures
        crate::beads::field_text(row, name, from) is None,
    decreases row.len() - from,
{
    if from < row.len() {
        assert(row[from].name != name);
        missing_fields_are_not_made_up(row, name, from + 1);
    }
}

/// The value of a field of a row.
pub open spec fn value(row: Seq<FieldView>, name: Text) -> Option<Text> {
    crate::beads::field_text(row, name, 0)
}

/// The value of a field of a row, or nothing.
pub open spec fn value_or_empty(row: Seq<FieldView>, name: Text) -> Text {
    match value(row, name) {
        Some(text) => text,
        None => Seq::empty(),
    }
}

/// A row that names an issue is told of that issue, below the root of its store; one
/// that names none is not told.
pub proof fn rows_are_told_of_their_issue(source: RowSource, root: Parts, row: Seq<FieldView>)
    ensures
        value(row, "issue_id"@) is None ==> crate::beads::row_activity(source, root, row) is None,
        value(row, "issue_id"@) matches Some(id) ==> {
            let told = crate::beads::row_activity(source, root, row);
            &&& told is Some
            &&& told->0.root == root
            &&& told->0.issue_id == id
            &&& told->0.title == value_or_empty(row, "title"@)
        },
{
}

/// What is told of comments, dependencies, labels and issues: a comment with its author
/// and its text, a dependency as linked or unlinked with its type and its target, a
/// label as put on or taken off, and an issue as created, deleted or updated.
pub proof fn rows_tell_what_was_done(root: Parts, row: Seq<FieldView>)
    requires
        value(row, "issue_id"@) is Some,
    ensures
        ({
            let told = crate::beads::row_activity(RowSource::Comments, root, row)->0;
            let author = crate::beads::actor_text(value_or_empty(row, "actor"@));
            let text = crate::beads::truncated(value_or_empty(row, "body"@), 180);
            &&& told.action == "commented"@
            &&& told.detail == (if author.len() > 0 {
                author + ": "@ + text
            } else {
                text
            })
        }),
        ({
            let told = crate::beads::row_activity(RowSource::Dependencies, root, row)->0;
            &&& told.action == (if value(row, "diff_type"@) == Some("added"@) {
                "linked"@
            } else {
                "unlinked"@
            })
            &&& told.detail == (match value(row, "dependency_type"@) {
                Some(kind) => kind,
                None => "depends on"@,
            }) + " "@ + value_or_empty(row, "target"@)
        }),
        ({
            let told = crate::beads::row_activity(RowSource::Labels, root, row)->0;
            &&& told.action == (if value(row, "diff_type"@) == Some("added"@) {
                "labeled"@
            } else {
                "unlabeled"@
            })
            &&& told.detail == value_or_empty(row, "label"@)
        }),
        ({
            let told = crate::beads::row_activity(RowSource::Issues, root, row)->0;
            &&& value(row, "diff_type"@) == Some("added"@) ==> told.action == "created"@
            &&& value(row, "diff_type"@) == Some("removed"@) ==> told.action == "deleted"@
            &&& value(row, "diff_type"@) != Some("added"@) && value(row, "diff_type"@) != Some(
                "removed"@,
            ) ==> told.action == "updated"@
            &&& told.detail == "issue fields changed"@
        }),
{
    reveal_strlit("added");
    reveal_strlit("removed");
    assert("added"@[0] == 'a' && "removed"@[0] == 'r');
}

/// What is told of a transition of an issue: who made it, where that is known, and what
/// it was: why the issue was closed, which of its fields were updated, or the comment on
/// it.
pub proof fn transitions_are_told(root: Parts, row: Seq<FieldView>)
    requires
        value(row, "issue_id"@) is Some,
    ensures
        ({
            let told = crate::beads::row_activity(RowSource::Events, root, row)->0;
            let action = match value(row, "action"@) {
                Some(action) => action,
                None => "updated"@,
            };
            let new = value_or_empty(row, "new_value"@);
            let comment = value_or_empty(row, "comment"@);
            let actor = crate::beads::actor_text(value_or_empty(row, "actor"@));
            let subject = if action == "closed"@ && new.len() > 0 {
                crate::beads::truncated(new, 180)
            } else if action == "updated"@ {
                crate::beads::fields_text(new, crate::beads::json_fields(new))
            } else if comment.len() > 0 {
                crate::beads::truncated(comment, 180)
            } else {
                Seq::empty()
            };
            &&& told.action == action
            &&& actor.len() > 0 && subject.len() > 0 ==> told.detail == actor + " · "@ + subject
            &&& actor.len() > 0 && subject.len() == 0 ==> told.detail == "by "@ + actor
            &&& actor.len() == 0 && subject.len() > 0 ==> told.detail == subject
            &&& actor.len() == 0 && subject.len() == 0 ==> told.detail
                == "authoritative Beads transition"@
        }),
{
}

/// Of updated fields only the names are told, in order and with commas; what is no
/// object is shown in short.
pub proof fn updates_name_their_fields(value: Text, names: Seq<Text>)
    ensures
        crate::beads::fields_text(value, None) == crate::beads::truncated(value, 180),
        names.len() == 0 ==> crate::beads::fields_text(value, Some(names))
            == "issue fields changed"@,
        names.len() == 1 ==> crate::beads::fields_text(value, Some(names)) == "changed "@
            + names[0],
        names.len() > 1 ==> crate::beads::fields_text(value, Some(names)) == "changed "@
            + crate::text::joined(crate::text::sorted_texts(names), ", "@),
        crate::text::sorted_texts(names).to_multiset() == names.to_multiset(),
        crate::text::is_sorted(crate::text::sorted_texts(names)),
{
    crate::text::sorting_puts_in_order(names);
    if names.len() == 1 {
        reveal_with_fuel(crate::text::sorted_texts, 2);
        reveal_with_fuel(crate::text::inserted, 2);
        reveal_with_fuel(crate::text::joined, 2);
        assert(names.drop_last() =~= Seq::<Text>::empty());
        assert(crate::text::sorted_texts(names) =~= seq![names[0]]);
    }
}

/// Texts are shown in short: up to the limit as they are, but for control characters,
/// which are shown as blanks; and beyond it with a sign for what is missing.
pub proof fn work_texts_are_shown_in_short(value: Text, max: nat, i: int)
    ensures
        ({
            let shown = crate::beads::truncated(value, max);
            &&& value.len() <= max ==> shown.len() == value.len()
            &&& value.len() > max ==> shown.len() == max + 1 && shown[max as int] == '…'
            &&& 0 <= i < value.len() && i < max ==> shown[i] == (if value[i] <= '\u{1f}' || (
            '\u{7f}' <= value[i] && value[i] <= '\u{9f}') {
                ' '
            } else {
                value[i]
            })
        }),
{
    reveal_strlit("…");
}

/// Every row that names an issue is told, in order.
pub proof fn every_row_is_told(
    source: RowSource,
    root: Parts,
    rows: Seq<Seq<FieldView>>,
    n: nat,
    i: int,
)
    requires
        n <= rows.len(),
        forall|k: int|
            0 <= k < rows.len() ==> crate::beads::field_text(
                #[trigger] rows[k],
                "issue_id"@,
                0,
            ) is Some,
        0 <= i < n,
    ensures
        crate::beads::rows_activities(source, root, rows, n).len() == n,
        Some(crate::beads::rows_activities(source, root, rows, n)[i]) == crate::beads::row_activity(
            source,
            root,
            rows[i],
        ),
    decreases n,
{
    assert(crate::beads::field_text(rows[n - 1], "issue_id"@, 0) is Some);
    if n == 1 {
        reveal_with_fuel(crate::beads::rows_activities, 2);
    } else if i < n - 1 {
        every_row_is_told(source, root, rows, (n - 1) as nat, i);
    } else {
        every_row_is_told(source, root, rows, (n - 1) as nat, 0);
    }
}

/// A commit is told by its transitions, then its comments, then its dependencies and
/// then its labels; only where there are none of these, by its issues.
pub proof fn commits_are_told_by_the_richest_rows(root: Parts, rows: CommitRows, issues: Seq<Row>)
    ensures
        ({
            let events = crate::beads::rows_activities(
                RowSource::Events,
                root,
                crate::beads::row_views(rows.events@),
                rows.events@.len(),
            );
            let comments = crate::beads::rows_activities(
                RowSource::Comments,
                root,
                crate::beads::row_views(rows.comments@),
                rows.comments@.len(),
            );
            let dependencies = crate::beads::rows_activities(
                RowSource::Dependencies,
                root,
                crate::beads::row_views(rows.dependencies@),
                rows.dependencies@.len(),
            );
            let labels = crate::beads::rows_activities(
                RowSource::Labels,
                root,
                crate::beads::row_views(rows.labels@),
                rows.labels@.len(),
            );
            let told = crate::beads::between(root, rows, issues);
            let rich = events.len() + comments.len() + dependencies.len() + labels.len();
            &&& rich > 0 ==> told == events + comments + dependencies + labels
            &&& rich == 0 ==> told == crate::beads::rows_activities(
                RowSource::Issues,
                root,
                crate::beads::row_views(issues),
                issues.len(),
            )
        }),
{
}

/// The name of the database that metadata gives: that of the Dolt database, or else
/// the other one.
pub open spec fn name_in(metadata: BeadsMetadata) -> Text {
    match metadata.dolt_database {
        Some(name) => name@,
        None => match metadata.database {
            Some(name) => name@,
            None => Seq::empty(),
        },
    }
}

/// A store is accepted exactly where its metadata is embedded, or says nothing of that,
/// and names its database by a single name; it lies below the root, in the folder of
/// embedded databases. Else it is said what is wrong.
pub proof fn stores_are_accepted_or_refused(
    root: Parts,
    path: Parts,
    metadata: BeadsMetadata,
    database: Parts,
)
    ensures
        ({
            let found = crate::beads_monitor::located(
                root,
                path,
                MetadataReading::Metadata(metadata),
                database,
            );
            let foreign = metadata.dolt_mode is Some && metadata.dolt_mode->0@ != "embedded"@;
            let single = database.len() == 1 && (database[0] is Normal || database[0] is Foreign);
            &&& foreign ==> found == Err::<PlaceView, Text>(
                "unsupported Beads Dolt mode "@ + metadata.dolt_mode->0@,
            )
            &&& !foreign && name_in(metadata).len() == 0 ==> found == Err::<PlaceView, Text>(
                "Beads metadata does not name a Dolt database"@,
            )
            &&& !foreign && name_in(metadata).len() > 0 && !single ==> found == Err::<
                PlaceView,
                Text,
            >("Beads metadata contains an unsafe Dolt database name"@)
            &&& !foreign && name_in(metadata).len() > 0 && single ==> found is Ok
                && found->Ok_0.data_dir == root.push(PartView::Normal(".beads"@)).push(
                PartView::Normal("embeddeddolt"@),
            ).push(database[0])
        }),
        crate::beads_monitor::located(root, path, MetadataReading::Unreadable, database) == Err::<
            PlaceView,
            Text,
        >("could not read "@ + crate::path::path_text(path)),
        crate::beads_monitor::located(root, path, MetadataReading::Malformed, database) == Err::<
            PlaceView,
            Text,
        >("could not parse "@ + crate::path::path_text(path)),
        crate::beads_monitor::metadata_path_of(root) == root.push(PartView::Normal(".beads"@)).push(
            PartView::Normal("metadata.json"@),
        ),
{
    assert(crate::beads_monitor::metadata_path_of(root) =~= root.push(
        PartView::Normal(".beads"@),
    ).push(PartView::Normal("metadata.json"@)));
    if database.len() == 1 {
        assert(crate::beads_monitor::store_dir(root, database) =~= root.push(
            PartView::Normal(".beads"@),
        ).push(PartView::Normal("embeddeddolt"@)).push(database[0]));
    }
}

/// A store that is there, has its tables and tells where its history ends is opened
/// from there on: what was done before is not told again. Else it is said what is
/// wrong.
pub proof fn stores_are_opened_at_the_end_of_their_history(
    root: Parts,
    place: PlaceView,
    present: bool,
    missing: Option<usize>,
    head: Result<Text, Text>,
)
    ensures
        ({
            let found = crate::beads_monitor::opened(
                root,
                Ok(place),
                present,
                missing,
                head,
            );
            &&& !present ==> found is Err && found->Err_0 == "Beads Dolt store is missing at "@
                + place.shown
            &&& present && missing is Some ==> found is Err && found->Err_0
                == "unsupported Beads schema: missing dolt_diff_"@ + (if missing->0 == 0 {
                "events"@
            } else if missing->0 == 1 {
                "issues"@
            } else if missing->0 == 2 {
                "comments"@
            } else if missing->0 == 3 {
                "dependencies"@
            } else {
                "labels"@
            })
            &&& present && missing is None && head is Err ==> found is Err && found->Err_0
                == head->Err_0
            &&& present && missing is None && head is Ok ==> found is Ok && found->Ok_0.store == (
            StoreView {
                root,
                data_dir: place.data_dir,
                cursor: head->Ok_0,
                dirty_since: None,
            })
        }),
{
}

/// What happened since the cursor: nothing where the history ends there; and where it
/// cannot be told, why not. The cursor goes to the end of the history exactly where all
/// of it could be told.
pub proof fn histories_are_told_or_refused(root: Parts, cursor: Text, history: History)
    ensures
        ({
            let told = crate::beads_monitor::since_cursor(root, cursor, history);
            let next = crate::beads_monitor::next_cursor(root, cursor, history);
            &&& !history.present ==> told is Err && told->Err_0
                == "Beads Dolt store was removed or replaced"@
            &&& history.present && history.head is Err ==> told is Err && told->Err_0
                == history.head->Err_0@
            &&& history.present && history.head is Ok && history.head->Ok_0@ == cursor ==> told is Ok
                && told->Ok_0.len() == 0
            &&& history.present && history.head is Ok && history.head->Ok_0@ != cursor
                && history.commits is Err ==> told is Err && told->Err_0 == history.commits->Err_0@
            &&& history.present && history.head is Ok && history.head->Ok_0@ != cursor
                && history.commits is Ok && history.commits->Ok_0@.len() == 0 ==> told is Err
                && told->Err_0 == "Beads history no longer contains cursor "@ + cursor
            &&& told is Ok ==> history.head is Ok && next == history.head->Ok_0@
            &&& told is Err ==> next == cursor
        }),
{
}

/// Whether a report of the store of a root says this.
pub open spec fn says(
    report: IntegrityView,
    level: IntegrityLevel,
    summary: Text,
    detail: Text,
    root: Parts,
) -> bool {
    &&& report.source == "beads"@
    &&& report.level == level
    &&& report.summary == summary
    &&& report.detail == detail
    &&& report.root == root
}

/// A store that is found is connected and reported, one that cannot be opened is
/// reported as unavailable, and a root that has a store keeps it.
pub proof fn found_stores_are_connected(beads: BeadsView, root: Parts, finding: Finding)
    ensures
        ({
            let next = beads.searched(root, finding);
            let known = exists|i: int|
                0 <= i < beads.stores.len() && (#[trigger] beads.stores[i]).root == root;
            &&& known || finding is Absent ==> next == beads
            &&& !known ==> (finding matches Finding::Opened(Ok(opened)) ==> {
                &&& next.stores.len() == beads.stores.len() + 1
                &&& next.stores.drop_last() == beads.stores
                &&& next.stores.last().root == root
                &&& next.stores.last().cursor == opened@.store.cursor
                &&& next.stores.last().data_dir == opened@.store.data_dir
                &&& next.stores.last().dirty_since is None
                &&& next.established.len() == beads.established.len() + 1
                &&& says(
                    next.established.last(),
                    IntegrityLevel::Info,
                    "work history connected"@,
                    "watching "@ + opened@.shown,
                    root,
                )
            })
            &&& !known ==> (finding matches Finding::Opened(Err(reason)) ==> {
                &&& next.stores == beads.stores
                &&& next.established.len() == beads.established.len() + 1
                &&& says(
                    next.established.last(),
                    IntegrityLevel::Degraded,
                    "work history unavailable"@,
                    reason@,
                    root,
                )
            })
        }),
{
    let next = beads.searched(root, finding);
    if next.stores.len() == beads.stores.len() + 1 {
        assert(next.stores.drop_last() =~= beads.stores);
    }
}

/// A store is to be looked at where a path is its root or lies in the folder of Beads
/// below it; other stores are left as they were.
pub proof fn stores_notice_their_own_paths(beads: BeadsView, paths: Seq<Parts>, now: u64, i: int)
    requires
        0 <= i < beads.stores.len(),
    ensures
        ({
            let store = beads.stores[i];
            let next = beads.noticed(paths, now).stores[i];
            let folder = store.root.push(PartView::Normal(".beads"@));
            let own = exists|k: int|
                0 <= k < paths.len() && (#[trigger] paths[k] == store.root || folder.is_prefix_of(
                    paths[k],
                ));
            &&& next.root == store.root
            &&& next.cursor == store.cursor
            &&& next.data_dir == store.data_dir
            &&& own ==> next.dirty_since == Some(now)
            &&& !own ==> next.dirty_since == store.dirty_since
        }),
{
    let store = beads.stores[i];
    let folder = store.root.push(PartView::Normal(".beads"@));
    let own = exists|k: int|
        0 <= k < paths.len() && (#[trigger] paths[k] == store.root || folder.is_prefix_of(paths[k]));
    if own {
        let k = choose|k: int|
            0 <= k < paths.len() && (#[trigger] paths[k] == store.root || folder.is_prefix_of(
                paths[k],
            ));
        assert(crate::beads_monitor::concerns(store.root, paths[k]));
    }
    if crate::beads_monitor::concerned(store.root, paths) {
        let k = choose|k: int|
            0 <= k < paths.len() && crate::beads_monitor::concerns(
                store.root,
                #[trigger] paths[k],
            );
        assert(paths[k] == store.root || folder.is_prefix_of(paths[k]));
    }
}

/// Whether a store has been quiet for a hundred and fifty milliseconds since something
/// touched it.
pub open spec fn is_quiet(store: StoreView, now: u64) -> bool {
    store.dirty_since matches Some(since) && now >= since + 150_000_000
}

/// A store that was touched is told of once it is quiet, and a store that is not quiet
/// yet, or was not touched, stays as it was. What is told of a store are the activities
/// in its history, or else that it could not go on.
pub proof fn quiet_stores_are_told_of(store: StoreView, history: History, now: u64)
    ensures
        ({
            let next = crate::beads_monitor::drained(seq![store], seq![history], now, 1);
            let told = crate::beads_monitor::since_cursor(store.root, store.cursor, history);
            &&& next.stores.len() == 1
            &&& !is_quiet(store, now) ==> next.stores[0] == store && next.news.len() == 0
            &&& is_quiet(store, now) ==> next.stores[0].dirty_since is None
                && next.stores[0].root == store.root && next.stores[0].data_dir == store.data_dir
                && next.stores[0].cursor == crate::beads_monitor::next_cursor(
                store.root,
                store.cursor,
                history,
            )
            &&& is_quiet(store, now) && told is Ok ==> next.news.len() == told->Ok_0.len()
                && forall|i: int|
                0 <= i < told->Ok_0.len() ==> #[trigger] next.news[i] == BeadsNews::Activity(
                    told->Ok_0[i],
                )
            &&& is_quiet(store, now) && told is Err ==> next.news.len() == 1 && (
            next.news[0] matches BeadsNews::Integrity(report) && says(
                report,
                IntegrityLevel::Uncertain,
                "work history could not advance"@,
                told->Err_0,
                store.root,
            ))
        }),
{
    reveal_with_fuel(crate::beads_monitor::drained, 2);
    reveal_with_fuel(crate::beads_monitor::ready_among, 2);
    let next = crate::beads_monitor::drained(seq![store], seq![history], now, 1);
    let told = crate::beads_monitor::since_cursor(store.root, store.cursor, history);
    if is_quiet(store, now) {
        assert(next.news =~= crate::beads_monitor::store_news(store, history));
    }
}

/// How many of the first `n` stores are quiet.
pub open spec fn count_quiet(stores: Seq<StoreView>, now: u64, n: nat) -> nat
    decreases n,
{
    if n == 0 {
        0
    } else {
        count_quiet(stores, now, (n - 1) as nat) + (if is_quiet(stores[n - 1], now) {
            1nat
        } else {
            0nat
        })
    }
}

/// Of several stores each is told of by its own history, in order, and goes on from
/// where that history ends.
pub proof fn each_store_has_its_own_history(
    stores: Seq<StoreView>,
    histories: Seq<History>,
    now: u64,
    n: nat,
    i: int,
)
    requires
        0 <= i < n <= stores.len(),
    ensures
        ({
            let next = crate::beads_monitor::drained(stores, histories, now, n);
            let history = histories[count_quiet(stores, now, i as nat) as int];
            let told = crate::beads_monitor::since_cursor(
                stores[i].root,
                stores[i].cursor,
                history,
            );
            &&& next.stores.len() == n
            &&& !is_quiet(stores[i], now) ==> next.stores[i] == stores[i]
            &&& is_quiet(stores[i], now) ==> next.stores[i] == (StoreView {
                cursor: if told is Ok {
                    history.head->Ok_0@
                } else {
                    stores[i].cursor
                },
                dirty_since: None,
                ..stores[i]
            })
            &&& is_quiet(stores[i], now) && told is Ok ==> forall|k: int|
                0 <= k < told->Ok_0.len() ==> next.news.contains(
                    BeadsNews::Activity(#[trigger] told->Ok_0[k]),
                )
            &&& is_quiet(stores[i], now) && told is Err ==> next.news.contains(
                BeadsNews::Integrity(
                    crate::beads_monitor::stuck_report(stores[i].root, told->Err_0),
                ),
            )
        }),
    decreases n,
{
    lemma_count_quiet(stores, now, (n - 1) as nat);
    let earlier = crate::beads_monitor::drained(stores, histories, now, (n - 1) as nat);
    let next = crate::beads_monitor::drained(stores, histories, now, n);
    let history = histories[count_quiet(stores, now, i as nat) as int];
    let told = crate::beads_monitor::since_cursor(stores[i].root, stores[i].cursor, history);
    lemma_drained(stores, histories, now, (n - 1) as nat);
    if i < n - 1 {
        each_store_has_its_own_history(stores, histories, now, (n - 1) as nat, i);
        assert forall|one: BeadsNews| earlier.news.contains(one) implies next.news.contains(
            one,
        ) by {
            let k = choose|k: int| 0 <= k < earlier.news.len() && earlier.news[k] == one;
            assert(next.news[k] == one);
        }
        if told is Ok {
            assert forall|k: int| 0 <= k < told->Ok_0.len() && is_quiet(
                stores[i],
                now,
            ) implies next.news.contains(BeadsNews::Activity(#[trigger] told->Ok_0[k])) by {
                assert(earlier.news.contains(BeadsNews::Activity(told->Ok_0[k])));
            }
        }
    } else if is_quiet(stores[i], now) {
        let own = crate::beads_monitor::store_news(stores[i], history);
        assert(next.news == earlier.news + own);
        if told is Ok {
            assert forall|k: int| 0 <= k < told->Ok_0.len() implies next.news.contains(
                BeadsNews::Activity(#[trigger] told->Ok_0[k]),
            ) by {
                assert(next.news[earlier.news.len() + k] == own[k]);
            }
        } else {
            assert(next.news[earlier.news.len() as int] == own[0]);
        }
    }
}

/// As many stores stay as there are.
proof fn lemma_drained(stores: Seq<StoreView>, histories: Seq<History>, now: u64, n: nat)
    ensures
        crate::beads_monitor::drained(stores, histories, now, n).stores.len() == n,
    decreases n,
{
    if n > 0 {
        lemma_drained(stores, histories, now, (n - 1) as nat);
    }
}

/// The stores that are looked at are counted.
proof fn lemma_count_quiet(stores: Seq<StoreView>, now: u64, n: nat)
    ensures
        crate::beads_monitor::ready_among(stores, now, n).len() == count_quiet(stores, now, n),
    decreases n,
{
    if n > 0 {
        lemma_count_quiet(stores, now, (n - 1) as nat);
    }
}

/// A log is read from its last line to its first, by the first word of each line.
pub proof fn logs_are_read_backwards(lines: Seq<Text>, n: nat, i: int)
    requires
        n <= lines.len(),
        forall|k: int|
            0 <= k < lines.len() ==> crate::text::first_word_of(#[trigger] lines[k]) is Some,
        0 <= i < n,
    ensures
        crate::beads_monitor::first_words(lines, n).len() == n,
        Some(crate::beads_monitor::first_words(lines, n)[i]) == crate::text::first_word_of(
            lines[n - 1 - i],
        ),
    decreases n,
{
    assert(crate::text::first_word_of(lines[n - 1]) is Some);
    if n == 1 {
        reveal_with_fuel(crate::beads_monitor::first_words, 2);
    } else if i > 0 {
        logs_are_read_backwards(lines, (n - 1) as nat, i - 1);
    } else {
        logs_are_read_backwards(lines, (n - 1) as nat, 0);
    }
}

/// A query asks for what changed from the earlier of two commits to the later one, in
/// the table of its source. Of transitions and comments only new ones are asked for,
/// the oldest first.
pub proof fn queries_ask_from_the_earlier_to_the_later(source: RowSource, from: Text, to: Text)
    ensures
        crate::beads_monitor::diff_query_text(source, from, to) == asks(
            asked_of(source),
            from,
            to,
            if source == RowSource::Events || source == RowSource::Comments {
                " AND d.diff_type='added' ORDER BY d.to_created_at, d.to_id"@
            } else {
                ""@
            },
        ),
{
}

/// What is asked for, of which table.
pub open spec fn asked_of(source: RowSource) -> Text {
    match source {
        RowSource::Events =>
            "SELECT d.to_issue_id AS issue_id, COALESCE(i.title, '') AS title, d.to_event_type AS action, d.to_actor AS actor, d.to_new_value AS new_value, d.to_comment AS comment FROM dolt_diff_events d LEFT JOIN issues i ON i.id = d.to_issue_id "@,
        RowSource::Comments =>
            "SELECT d.to_issue_id AS issue_id, COALESCE(i.title, '') AS title, d.to_author AS actor, d.to_text AS body FROM dolt_diff_comments d LEFT JOIN issues i ON i.id = d.to_issue_id "@,
        RowSource::Dependencies =>
            "SELECT COALESCE(d.to_issue_id, d.from_issue_id) AS issue_id, COALESCE(i.title, '') AS title, d.diff_type, COALESCE(d.to_type, d.from_type) AS dependency_type, COALESCE(d.to_depends_on_issue_id, d.from_depends_on_issue_id, '') AS target FROM dolt_diff_dependencies d LEFT JOIN issues i ON i.id = COALESCE(d.to_issue_id, d.from_issue_id) "@,
        RowSource::Labels =>
            "SELECT COALESCE(d.to_issue_id, d.from_issue_id) AS issue_id, COALESCE(i.title, '') AS title, d.diff_type, COALESCE(d.to_label, d.from_label, '') AS label FROM dolt_diff_labels d LEFT JOIN issues i ON i.id = COALESCE(d.to_issue_id, d.from_issue_id) "@,
        RowSource::Issues =>
            "SELECT COALESCE(d.to_id, d.from_id) AS issue_id, COALESCE(d.to_title, d.from_title, '') AS title, d.diff_type FROM dolt_diff_issues d "@,
    }
}

/// A query between two commits.
pub open spec fn asks(head: Text, from: Text, to: Text, tail: Text) -> Text {
    head + "WHERE d.from_commit='"@ + from + "' AND d.to_commit='"@ + to + "'"@ + tail
}

/// A text whose ends are not to be trimmed stays as it is.
proof fn lemma_not_trimmed(text: Text, set: Trimmed)
    requires
        text.len() > 0 ==> !set.holds(text[0]) && !set.holds(text.last()),
    ensures
        crate::text::trimmed(text, set) == text,
{
}

/// Trimming takes one character off at either end, where both are to go.
proof fn lemma_trimmed_once(text: Text, first: char, last: char, set: Trimmed)
    requires
        text.len() > 0,
        !set.holds(text[0]),
        !set.holds(text.last()),
        set.holds(first),
        set.holds(last),
    ensures
        crate::text::trimmed(seq![first] + text + seq![last], set) == text,
        crate::text::trimmed(text + seq![last], set) == text,
{
    let all = seq![first] + text + seq![last];
    let tail = text + seq![last];
    reveal_with_fuel(crate::text::without_head, 3);
    reveal_with_fuel(crate::text::without_tail, 3);
    assert(all.drop_first() =~= tail);
    assert(tail[0] == text[0]);
    assert(tail.drop_last() =~= text);
    assert(crate::text::without_head(all, set) == tail);
    assert(crate::text::without_tail(tail, set) == text);
}

/// An actor is named without the quotes around the name and without blanks around
/// those; a name without them stays as it is.
pub proof fn actors_are_named_plainly(name: Text)
    requires
        name.len() > 0,
        name[0] != '"' && name.last() != '"',
        !crate::text::is_blank(name[0]) && !crate::text::is_blank(name.last()),
    ensures
        crate::beads::actor_text(name) == name,
        crate::beads::actor_text(seq!['"'] + name + seq!['"']) == name,
        crate::beads::actor_text(seq![' '] + (seq!['"'] + name + seq!['"']) + seq!['\n']) == name,
        crate::beads::actor_text(Seq::empty()).len() == 0,
{
    let quoted = seq!['"'] + name + seq!['"'];
    lemma_not_trimmed(name, Trimmed::Blank);
    lemma_not_trimmed(name, Trimmed::Quote);
    lemma_not_trimmed(quoted, Trimmed::Blank);
    lemma_trimmed_once(name, '"', '"', Trimmed::Quote);
    lemma_trimmed_once(quoted, ' ', '\n', Trimmed::Blank);
}

/// A query that failed is told with what was said of it, without the blanks around it.
pub proof fn failed_queries_are_told(said: Text)
    requires
        said.len() > 0,
        !crate::text::is_blank(said[0]) && !crate::text::is_blank(said.last()),
    ensures
        crate::beads_monitor::query_failure_text(said) == "Dolt query failed: "@ + said,
        crate::beads_monitor::query_failure_text(said + seq!['\n']) == "Dolt query failed: "@
            + said,
{
    lemma_not_trimmed(said, Trimmed::Blank);
    lemma_trimmed_once(said, ' ', '\n', Trimmed::Blank);
}

/// The head of a history is the commit that the first row names; without a row there is
/// none.
pub proof fn the_head_stands_in_the_first_row(
    row: Seq<FieldView>,
    rest: Seq<Seq<FieldView>>,
    commit: Text,
)
    requires
        row.len() > 0,
        row[0] == (FieldView { name: "commit_hash"@, cell: CellView::Text(commit) }),
    ensures
        crate::beads_monitor::head_of(seq![row] + rest) == Some(commit),
        crate::beads_monitor::head_of(Seq::empty()) is None,
{
    assert((seq![row] + rest)[0] == row);
}

/// What there is to know of a store stands in a file below the root.
pub proof fn stores_are_described_below_their_root(root: Parts)
    ensures
        ({
            let path = crate::beads_monitor::metadata_path_of(root);
            &&& path.len() == root.len() + 2
            &&& root.is_prefix_of(path)
            &&& path[root.len() as int] == PartView::Normal(".beads"@)
            &&& path.last() == PartView::Normal("metadata.json"@)
        }),
{
}

/// Which characters are blank: white space of every kind, by number.
pub proof fn blanks_are_white_space(c: char)
    ensures
        crate::text::is_blank(c) <==> (9 <= c as u32 <= 13 || c as u32 == 32 || c as u32 == 133
            || c as u32 == 160 || c as u32 == 5760 || 8192 <= c as u32 <= 8202 || c as u32 == 8232
            || c as u32 == 8233 || c as u32 == 8239 || c as u32 == 8287 || c as u32 == 12288),
{
}

/// Whether a root has a store.
pub open spec fn is_connected(beads: BeadsView, root: Parts) -> bool {
    exists|i: int| 0 <= i < beads.stores.len() && (#[trigger] beads.stores[i]).root == root
}

/// Where the description of a store changes, the store is looked for, unless the root
/// has one already; at no other root is one looked for.
pub proof fn new_stores_are_looked_for(beads: BeadsView, paths: Seq<Parts>, n: nat, root: Parts)
    requires
        n <= beads.roots.len(),
    ensures
        beads.unconnected(paths, n).contains(root) <==> beads.roots.take(n as int).contains(root)
            && paths.contains(
            root + seq![PartView::Normal(".beads"@), PartView::Normal("metadata.json"@)],
        ) && !is_connected(beads, root),
    decreases n,
{
    let front = beads.roots.take(n as int);
    if n > 0 {
        new_stores_are_looked_for(beads, paths, (n - 1) as nat, root);
        let earlier = beads.unconnected(paths, (n - 1) as nat);
        let all = beads.unconnected(paths, n);
        let last = beads.roots[n - 1];
        let fewer = beads.roots.take(n - 1);
        assert(front =~= fewer.push(last));
        assert(front.contains(root) <==> fewer.contains(root) || root == last) by {
            if fewer.contains(root) {
                let k = choose|k: int| 0 <= k < fewer.len() && fewer[k] == root;
                assert(front[k] == root);
            }
            assert(front[n - 1] == last);
            if front.contains(root) && root != last {
                let k = choose|k: int| 0 <= k < front.len() && front[k] == root;
                assert(fewer[k] == root);
            }
        }
        if earlier.contains(root) {
            let k = choose|k: int| 0 <= k < earlier.len() && earlier[k] == root;
            assert(all[k] == root);
        }
        if all.contains(root) {
            let k = choose|k: int| 0 <= k < all.len() && all[k] == root;
            if k < earlier.len() {
                assert(earlier[k] == root);
            }
        }
        if all.len() > earlier.len() {
            assert(all[earlier.len() as int] == last);
        }
    }
}

/// A root is looked after once, behind those that there are.
pub proof fn roots_of_work_are_added_once(beads: BeadsView, root: Parts)
    ensures
        beads.roots.contains(root) ==> beads.with_root(root) == beads,
        !beads.roots.contains(root) ==> beads.with_root(root) == (BeadsView {
            roots: beads.roots.push(root),
            ..beads
        }),
{
}

} // verus!
