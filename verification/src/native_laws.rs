//! What native events come to.

use crate::app::{AppView, FileChange, PendingView};
use crate::changes::{NotifyKind, NotifyView, Reading, Scene, SightingView};
use crate::diff::DiffView;
use crate::model::{ChangeKind, EventView, IntegrityLevel, TargetKind};
use crate::path::{PartView, Parts};
use crate::snapshot::{InspectionView, SnapshotView};
use vstd::prelude::*;

verus! {

/// Whether a part of a path is the name of a folder that is not shown: the folders of
/// Git and Beads, and those that tools fill.
pub open spec fn is_suppressed(part: PartView) -> bool {
    ||| part == PartView::Normal(".git"@)
    ||| part == PartView::Normal(".beads"@)
    ||| part == PartView::Normal("node_modules"@)
    ||| part == PartView::Normal("target"@)
    ||| part == PartView::Normal("dist"@)
    ||| part == PartView::Normal("coverage"@)
}

/// Whether a path lies in a root with no suppressed name on the way to it.
pub open spec fn is_seen(roots: Seq<Parts>, root: Parts, path: Parts) -> bool {
    &&& crate::event_laws::lies_in(roots, root, path)
    &&& forall|i: int| root.len() <= i < path.len() ==> !is_suppressed(#[trigger] path[i])
}

/// Whether a path lies in a root, with a suppressed name on the way to it.
pub open spec fn is_unseen(roots: Seq<Parts>, root: Parts, path: Parts) -> bool {
    &&& crate::event_laws::lies_in(roots, root, path)
    &&& exists|i: int| root.len() <= i < path.len() && is_suppressed(#[trigger] path[i])
}

/// Exactly the paths without a suppressed name below their root are shown, wherever
/// the root itself lies.
pub proof fn suppressed_names_hide_what_lies_below(roots: Seq<Parts>, root: Parts, path: Parts)
    requires
        crate::event_laws::lies_in(roots, root, path),
    ensures
        crate::roots::is_hidden_below(roots, path) == is_unseen(roots, root, path),
        is_seen(roots, root, path) == !is_unseen(roots, root, path),
{
    crate::event_laws::lemma_owner(roots, root, path);
    let rest = crate::path::stripped(path, root);
    if crate::roots::is_hidden(rest) {
        let i = choose|i: int| 0 <= i < rest.len() && crate::roots::is_hidden_name(#[trigger] rest[i]);
        assert(is_suppressed(path[root.len() + i]));
    }
    if is_unseen(roots, root, path) {
        let i = choose|i: int| root.len() <= i < path.len() && is_suppressed(#[trigger] path[i]);
        assert(crate::roots::is_hidden_name(rest[i - root.len()]));
    }
}

/// Whether a native event is of one path that is shown, below `root`.
pub open spec fn is_of_one(
    scene: Scene,
    event: NotifyView,
    kind: NotifyKind,
    root: Parts,
    one: SightingView,
) -> bool {
    &&& !event.rescan
    &&& event.kind == kind
    &&& event.sightings == seq![one]
    &&& is_seen(scene.watch.roots, root, one.path)
    &&& one.path.len() > root.len()
}

/// Whether one more path can be remembered, and two more events can be counted.
pub open spec fn has_space(scene: Scene, path: Parts) -> bool {
    &&& scene.watch.snapshots.remove(path).len() < scene.watch.max_entries
    &&& scene.app.next_id + 2 <= u64::MAX
    &&& scene.app.events.len() <= scene.app.max_events
    &&& scene.app.paused_events.len() <= scene.app.max_events
}

/// The timeline once a native event has come: the last message is gone.
pub open spec fn awake(app: AppView) -> AppView {
    AppView { status: None, ..app }
}

/// The event that shows a change.
pub open spec fn shown_as(
    id: u64,
    kind: ChangeKind,
    root: Parts,
    path: Parts,
    previous_path: Option<Parts>,
    shot: SnapshotView,
    diff: DiffView,
    now: u64,
) -> EventView {
    EventView {
        id,
        kind,
        target: if shot.is_dir {
            TargetKind::Directory
        } else {
            TargetKind::File
        },
        path: path.skip(root.len() as int),
        previous_path,
        root,
        occurred_at: now,
        size: shot.size,
        lines_added: diff.added,
        lines_removed: diff.removed,
        diff: diff.lines,
        detail: diff.detail,
        integrity_level: None,
    }
}

/// One shown path is all that an event is of.
proof fn lemma_one(scene: Scene, event: NotifyView, kind: NotifyKind, root: Parts, one: SightingView)
    requires
        is_of_one(scene, event, kind, root, one),
    ensures
        crate::changes::shown_sightings(scene.watch.roots, event.sightings) == seq![one],
{
    suppressed_names_hide_what_lies_below(scene.watch.roots, root, one.path);
    let keep = |one: SightingView|
        !crate::roots::is_hidden_below(scene.watch.roots, one.path);
    reveal_with_fuel(Seq::filter, 2);
    assert(seq![one].drop_last() =~= Seq::empty());
    assert(seq![one].filter(keep) =~= seq![one]);
}

/// The created path was not known: it is a creation, and all of its text is new. What
/// was found is remembered.
pub proof fn creations_are_shown(
    scene: Scene,
    event: NotifyView,
    root: Parts,
    one: SightingView,
    now: u64,
)
    requires
        is_of_one(scene, event, NotifyKind::Create, root, one),
        has_space(scene, one.path),
        !scene.watch.snapshots.contains_key(one.path),
        !crate::event_laws::follows_closely(scene.app, one.path, ChangeKind::Create, now),
    ensures
        ({
            let next = scene.notified(event, now);
            let shot = next.watch.snapshots[one.path];
            &&& next.watch.snapshots.contains_key(one.path)
            &&& shot.read_error is None || one.found is Missing ==> crate::event_laws::came_in(
                awake(scene.app),
                next.app,
                shown_as(
                    scene.app.next_id,
                    ChangeKind::Create,
                    root,
                    one.path,
                    None,
                    shot,
                    crate::diff::diff_of(Some(""@), shot.content),
                    now,
                ),
            )
        }),
{
    lemma_one(scene, event, NotifyKind::Create, root, one);
    lemma_each_of_one(scene, event, one, now);
    let start = Scene { app: awake(scene.app), ..scene };
    let shot = scene.watch.taken_snapshot(one.path, one.found);
    let change = FileChange {
        kind: ChangeKind::Create,
        path: one.path,
        previous_path: None,
        size: shot.size,
        is_dir: shot.is_dir,
        diff: crate::diff::diff_of(Some(""@), shot.content),
    };
    crate::event_laws::a_change_of_its_own_is_an_event(
        start.app,
        scene.watch.roots,
        root,
        change,
        now,
    );
}

/// What one path of an event that stands for itself comes to.
proof fn lemma_each_of_one(scene: Scene, event: NotifyView, one: SightingView, now: u64)
    requires
        !event.rescan,
        event.kind == NotifyKind::Create || event.kind == NotifyKind::Modify,
        crate::changes::shown_sightings(scene.watch.roots, event.sightings) == seq![one],
    ensures
        ({
            let start = Scene { app: awake(scene.app), ..scene };
            scene.notified(event, now) == (if event.kind == NotifyKind::Create {
                start.created(one, now)
            } else {
                start.modified(one, now)
            })
        }),
{
    let start = Scene { app: awake(scene.app), ..scene };
    reveal_with_fuel(Scene::each, 2);
    assert(start.each(event.kind, seq![one], now, 0) == start);
}

/// Whether a change left a file as it was: no line came or went, and it is as large as
/// before.
pub open spec fn is_no_change(old: SnapshotView, shot: SnapshotView) -> bool {
    let diff = crate::diff::diff_of(old.content, shot.content);
    diff.added == 0 && diff.removed == 0 && old.size == shot.size
}

/// The changed path was known: the event shows what came and went since it was seen
/// last, and what was found now is remembered. A folder, or a file that is as it was,
/// is not shown. It makes no difference whether the event called the path created or
/// changed.
pub proof fn changes_are_shown(
    scene: Scene,
    event: NotifyView,
    kind: NotifyKind,
    root: Parts,
    one: SightingView,
    now: u64,
)
    requires
        kind == NotifyKind::Modify || kind == NotifyKind::Create,
        is_of_one(scene, event, kind, root, one),
        has_space(scene, one.path),
        !(one.found is Missing),
        scene.watch.snapshots.contains_key(one.path),
        !crate::event_laws::follows_closely(scene.app, one.path, ChangeKind::Modify, now),
    ensures
        ({
            let next = scene.notified(event, now);
            let old = scene.watch.snapshots[one.path];
            let shot = next.watch.snapshots[one.path];
            &&& next.watch.snapshots.contains_key(one.path)
            &&& shot.read_error is None && (shot.is_dir || is_no_change(old, shot)) ==> next.app
                == awake(scene.app)
            &&& shot.read_error is None && !shot.is_dir && !is_no_change(old, shot)
                ==> crate::event_laws::came_in(
                awake(scene.app),
                next.app,
                shown_as(
                    scene.app.next_id,
                    ChangeKind::Modify,
                    root,
                    one.path,
                    None,
                    shot,
                    crate::diff::diff_of(old.content, shot.content),
                    now,
                ),
            )
        }),
{
    lemma_one(scene, event, kind, root, one);
    lemma_each_of_one(scene, event, one, now);
    let start = Scene { app: awake(scene.app), ..scene };
    let old = scene.watch.snapshots[one.path];
    let shot = scene.watch.taken_snapshot(one.path, one.found);
    let change = FileChange {
        kind: ChangeKind::Modify,
        path: one.path,
        previous_path: None,
        size: shot.size,
        is_dir: shot.is_dir,
        diff: crate::diff::diff_of(old.content, shot.content),
    };
    crate::event_laws::a_change_of_its_own_is_an_event(
        start.app,
        scene.watch.roots,
        root,
        change,
        now,
    );
}

/// A change of a file that was not known yet is shown without lines, and says that
/// there was nothing to compare with.
pub proof fn changes_without_a_baseline_say_so(
    scene: Scene,
    event: NotifyView,
    root: Parts,
    one: SightingView,
    now: u64,
)
    requires
        is_of_one(scene, event, NotifyKind::Modify, root, one),
        has_space(scene, one.path),
        one.found is File,
        !scene.watch.snapshots.contains_key(one.path),
        !crate::event_laws::follows_closely(scene.app, one.path, ChangeKind::Modify, now),
    ensures
        ({
            let next = scene.notified(event, now);
            let shot = next.watch.snapshots[one.path];
            &&& next.watch.snapshots.contains_key(one.path)
            &&& shot.read_error is None ==> crate::event_laws::came_in(
                awake(scene.app),
                next.app,
                EventView {
                    lines_added: 0,
                    lines_removed: 0,
                    diff: Seq::empty(),
                    detail: Some(
                        "baseline unavailable; the change was seen before the path was recorded"@,
                    ),
                    ..shown_as(
                        scene.app.next_id,
                        ChangeKind::Modify,
                        root,
                        one.path,
                        None,
                        shot,
                        crate::diff::diff_of(None, None),
                        now,
                    )
                },
            )
        }),
{
    lemma_one(scene, event, NotifyKind::Modify, root, one);
    lemma_each_of_one(scene, event, one, now);
    let start = Scene { app: awake(scene.app), ..scene };
    let shot = scene.watch.taken_snapshot(one.path, one.found);
    let change = FileChange {
        kind: ChangeKind::Modify,
        path: one.path,
        previous_path: None,
        size: shot.size,
        is_dir: shot.is_dir,
        diff: crate::diff::unavailable(crate::changes::baseline_text()),
    };
    assert(!shot.is_dir);
    crate::event_laws::a_change_of_its_own_is_an_event(
        start.app,
        scene.watch.roots,
        root,
        change,
        now,
    );
}

/// A change of a path that is not there any more shows nothing.
pub proof fn changes_of_nothing_are_not_shown(
    scene: Scene,
    event: NotifyView,
    root: Parts,
    one: SightingView,
    now: u64,
)
    requires
        is_of_one(scene, event, NotifyKind::Modify, root, one),
        one.found is Missing,
    ensures
        scene.notified(event, now) == (Scene { app: awake(scene.app), ..scene }),
{
    lemma_one(scene, event, NotifyKind::Modify, root, one);
    lemma_each_of_one(scene, event, one, now);
}

/// A path that cannot be read is told before its change is: the report is degraded,
/// belongs to the root of the path and says what went wrong.
pub proof fn unreadable_paths_are_told(
    scene: Scene,
    event: NotifyView,
    root: Parts,
    one: SightingView,
    now: u64,
)
    requires
        is_of_one(scene, event, NotifyKind::Create, root, one),
        has_space(scene, one.path),
        !scene.app.paused,
        scene.app.max_events >= 2,
        !(one.found is Missing),
        !scene.watch.snapshots.contains_key(one.path),
        !crate::event_laws::follows_closely(scene.app, one.path, ChangeKind::Create, now),
    ensures
        ({
            let next = scene.notified(event, now);
            let shot = next.watch.snapshots[one.path];
            shot.read_error is Some ==> {
                &&& next.app.events.len() >= 2
                &&& next.app.events[0].kind == ChangeKind::Create
                &&& next.app.events[0].id == scene.app.next_id + 1
                &&& next.app.events[0].root == root
                &&& next.app.events[0].path == one.path.skip(root.len() as int)
                &&& next.app.events[1] == (EventView {
                    id: scene.app.next_id,
                    kind: ChangeKind::Integrity,
                    target: TargetKind::Observer,
                    path: seq![
                        PartView::Normal(
                            "filesystem"@ + " · "@ + "changed path could not be inspected"@,
                        ),
                    ],
                    previous_path: None,
                    root,
                    occurred_at: now,
                    size: 0,
                    lines_added: 0,
                    lines_removed: 0,
                    diff: Seq::empty(),
                    detail: shot.read_error,
                    integrity_level: Some(IntegrityLevel::Degraded),
                })
                &&& next.app.observer_level == crate::event_laws::gravest(
                    scene.app.observer_level,
                    IntegrityLevel::Degraded,
                )
            }
        }),
{
    lemma_one(scene, event, NotifyKind::Create, root, one);
    lemma_each_of_one(scene, event, one, now);
    crate::event_laws::lemma_owner(scene.watch.roots, root, one.path);
    let start = Scene { app: awake(scene.app), ..scene };
    let shot = scene.watch.taken_snapshot(one.path, one.found);
    if let Some(detail) = shot.read_error {
        let report = crate::changes::inspection_report(root, detail);
        crate::event_laws::reports_are_events(start.app, report, now);
        let told = start.app.observed(report, now);
        let change = FileChange {
            kind: ChangeKind::Create,
            path: one.path,
            previous_path: None,
            size: shot.size,
            is_dir: shot.is_dir,
            diff: crate::diff::diff_of(Some(""@), shot.content),
        };
        crate::event_laws::a_change_of_its_own_is_an_event(
            told,
            scene.watch.roots,
            root,
            change,
            now,
        );
        let last = told.emitted(scene.watch.roots, change, now);
        assert(last.events[1] == told.events[0]);
    }
}

/// A removed path is a deletion: the event is as large as the path was when it was
/// last seen, shows no lines, and the path is forgotten. A path that was not known is
/// shown as deleted too.
pub proof fn removals_are_shown(
    scene: Scene,
    event: NotifyView,
    root: Parts,
    one: SightingView,
    now: u64,
)
    requires
        is_of_one(scene, event, NotifyKind::Remove, root, one),
        has_space(scene, one.path),
        !scene.watch.roots.contains(one.path),
        !crate::event_laws::follows_closely(scene.app, one.path, ChangeKind::Delete, now),
    ensures
        ({
            let next = scene.notified(event, now);
            let old = if scene.watch.snapshots.contains_key(one.path) {
                scene.watch.snapshots[one.path]
            } else {
                SnapshotView {
                    content: None,
                    size: 0,
                    is_dir: one.found is Directory,
                    read_error: None,
                }
            };
            &&& next.watch.snapshots == scene.watch.snapshots.remove(one.path)
            &&& crate::event_laws::came_in(
                awake(scene.app),
                next.app,
                shown_as(
                    scene.app.next_id,
                    ChangeKind::Delete,
                    root,
                    one.path,
                    None,
                    old,
                    DiffView { lines: Seq::empty(), added: 0, removed: 0, detail: None },
                    now,
                ),
            )
        }),
{
    lemma_one(scene, event, NotifyKind::Remove, root, one);
    let start = Scene { app: awake(scene.app), ..scene };
    reveal_with_fuel(Scene::each, 2);
    reveal_with_fuel(Scene::roots_lost, 2);
    assert(start.roots_lost(event.sightings, now, 0) == start);
    assert(start.roots_lost(event.sightings, now, 1) == start);
    assert(start.each(event.kind, seq![one], now, 0) == start);
    let old = scene.watch.forgotten_snapshot(one.path, one.found is Directory);
    crate::event_laws::a_change_of_its_own_is_an_event(
        start.app,
        scene.watch.roots,
        root,
        crate::app::deletion(one.path, old),
        now,
    );
}

/// The removal of a watched root is told as the loss of its observation.
pub proof fn removed_roots_are_told(scene: Scene, event: NotifyView, root: Parts, now: u64)
    requires
        !event.rescan,
        event.kind == NotifyKind::Remove,
        event.sightings.len() == 1,
        event.sightings[0].path == root,
        scene.watch.roots.contains(root),
        !scene.app.paused,
        scene.app.max_events >= 2,
        scene.app.next_id + 2 <= u64::MAX,
        scene.app.events.len() <= scene.app.max_events,
    ensures
        exists|i: int| #[trigger]
            is_report_at(
                scene.notified(event, now).app,
                i,
                IntegrityLevel::Lost,
                "watched root removed"@,
                "native observation cannot continue for this root"@,
                root,
                now,
            ),
        scene.notified(event, now).app.observer_level == IntegrityLevel::Lost,
{
    let one = event.sightings[0];
    assert(event.sightings =~= seq![one]);
    crate::laws::roots_are_not_hidden(scene.watch.roots, root);
    let keep = |one: SightingView|
        !crate::roots::is_hidden_below(scene.watch.roots, one.path);
    reveal_with_fuel(Seq::filter, 2);
    assert(seq![one].drop_last() =~= Seq::empty());
    assert(seq![one].filter(keep) =~= seq![one]);
    assert(crate::changes::shown_sightings(scene.watch.roots, event.sightings) == seq![one]);
    let start = Scene { app: awake(scene.app), ..scene };
    reveal_with_fuel(Scene::each, 2);
    reveal_with_fuel(Scene::roots_lost, 2);
    assert(start.roots_lost(event.sightings, now, 0) == start);
    let told = Scene {
        app: start.app.observed(crate::changes::removal_report(root), now),
        ..start
    };
    assert(start.roots_lost(event.sightings, now, 1) == told);
    assert(told.each(event.kind, seq![one], now, 0) == told);
    let next = scene.notified(event, now);
    assert(next == told.deleted(one, now));
    let old = scene.watch.forgotten_snapshot(root, one.found is Directory);
    let change = crate::app::deletion(root, old);
    assert(next.app == told.app.emitted(scene.watch.roots, change, now));
    let report = told.app.events[0];
    assert(is_report_at(
        told.app,
        0,
        IntegrityLevel::Lost,
        "watched root removed"@,
        "native observation cannot continue for this root"@,
        root,
        now,
    ));
    if told.app.is_duplicate(root, ChangeKind::Delete, now) {
        crate::laws::coalescing_is_local_to_a_path(told.app, scene.watch.roots, change, now, 0);
        lemma_reports_take_nothing_in(told.app, change, now);
        assert(next.app.events[0] == report);
        assert(is_report_at(
            next.app,
            0,
            IntegrityLevel::Lost,
            "watched root removed"@,
            "native observation cannot continue for this root"@,
            root,
            now,
        ));
    } else {
        assert(next.app.events[1] == report);
        assert(is_report_at(
            next.app,
            1,
            IntegrityLevel::Lost,
            "watched root removed"@,
            "native observation cannot continue for this root"@,
            root,
            now,
        ));
    }
}

/// No deletion is shown as part of a report.
proof fn lemma_reports_take_nothing_in(app: AppView, change: FileChange, now: u64)
    requires
        change.kind == ChangeKind::Delete,
        app.events.len() > 0,
        app.events[0].kind == ChangeKind::Integrity,
    ensures
        crate::app::first_taking_in(app.events, change.path, change.kind, 0) != Some(0int),
{
    crate::laws::lemma_first_taking_in(app.events, change.path, change.kind, 0);
}

/// Whether a report of the filesystem stands at a place of the timeline.
pub open spec fn is_report_at(
    app: AppView,
    i: int,
    level: IntegrityLevel,
    summary: Seq<char>,
    detail: Seq<char>,
    root: Parts,
    now: u64,
) -> bool {
    &&& 0 <= i < app.events.len()
    &&& app.events[i].kind == ChangeKind::Integrity
    &&& app.events[i].target == TargetKind::Observer
    &&& app.events[i].path == seq![PartView::Normal("filesystem"@ + " · "@ + summary)]
    &&& app.events[i].detail == Some(detail)
    &&& app.events[i].root == root
    &&& app.events[i].occurred_at == now
    &&& app.events[i].integrity_level == Some(level)
}

/// Where the platform asks for a new scan, native events may have been lost: that is
/// told as uncertain, with what the platform says of it, and nothing is made up for
/// what was lost.
pub proof fn rescans_are_told_and_nothing_else(scene: Scene, event: NotifyView, now: u64)
    requires
        event.rescan,
        !scene.app.paused,
        scene.app.max_events >= 1,
        scene.app.next_id < u64::MAX,
        scene.app.events.len() <= scene.app.max_events,
        scene.app.paused_events.len() <= scene.app.max_events,
    ensures
        ({
            let next = scene.notified(event, now);
            &&& next.watch == scene.watch
            &&& next.app.next_id == scene.app.next_id + 1
            &&& is_report_at(
                next.app,
                0,
                IntegrityLevel::Uncertain,
                "native events may have been lost"@,
                match event.info {
                    Some(info) => info,
                    None => "the operating system requested a reconciliation scan"@,
                },
                if event.sightings.len() > 0 {
                    crate::roots::owner(scene.watch.roots, event.sightings[0].path)
                } else if scene.watch.roots.len() > 0 {
                    scene.watch.roots[0]
                } else {
                    Parts::empty()
                },
                now,
            )
            &&& next.app.observer_level == crate::event_laws::gravest(
                scene.app.observer_level,
                IntegrityLevel::Uncertain,
            )
        }),
{
    crate::event_laws::reports_are_events(
        awake(scene.app),
        crate::changes::rescan_report(scene.watch.roots, event),
        now,
    );
}

/// A path that was moved away waits for its other end: nothing is shown yet, and what
/// was known of it goes along with it.
pub proof fn departures_wait(
    scene: Scene,
    event: NotifyView,
    root: Parts,
    one: SightingView,
    now: u64,
)
    requires
        is_of_one(scene, event, NotifyKind::RenameFrom, root, one),
    ensures
        ({
            let next = scene.notified(event, now);
            let last = next.app.pending.last();
            &&& next.app == (AppView { pending: next.app.pending, ..awake(scene.app) })
            &&& next.app.pending.len() == scene.app.pending.len() + 1
            &&& next.app.pending.drop_last() == scene.app.pending
            &&& last.path == one.path
            &&& last.tracker == event.tracker
            &&& last.observed_at == now
            &&& last.had_baseline == scene.watch.snapshots.contains_key(one.path)
            &&& scene.watch.snapshots.contains_key(one.path) ==> last.snapshot
                == scene.watch.snapshots[one.path]
            &&& next.watch.snapshots == scene.watch.snapshots.remove(one.path)
        }),
{
    lemma_one(scene, event, NotifyKind::RenameFrom, root, one);
    let next = scene.notified(event, now);
    assert(next.app.pending.drop_last() =~= scene.app.pending);
}

/// The other end of a move that waits shows the move, with the path that it was moved
/// from and what changed on the way. The move that its number names is taken, else the
/// one that has waited longest.
pub proof fn arrivals_show_the_move(
    scene: Scene,
    event: NotifyView,
    root: Parts,
    one: SightingView,
    i: int,
    now: u64,
)
    requires
        is_of_one(scene, event, NotifyKind::RenameTo, root, one),
        0 <= i < scene.app.pending.len(),
        is_other_end(scene.app.pending, event.tracker, i),
        scene.app.next_id + 2 <= u64::MAX,
        scene.app.events.len() <= scene.app.max_events,
        scene.app.paused_events.len() <= scene.app.max_events,
        scene.watch.remapped(scene.app.pending[i].path, one.path).snapshots.remove(one.path).len()
            < scene.watch.max_entries,
        !crate::event_laws::follows_closely(scene.app, one.path, ChangeKind::Rename, now),
    ensures
        ({
            let next = scene.notified(event, now);
            let left = scene.app.pending[i];
            let shot = next.watch.snapshots[one.path];
            &&& next.watch.snapshots.contains_key(one.path)
            &&& next.app.pending == scene.app.pending.remove(i)
            &&& crate::event_laws::came_in(
                AppView { pending: scene.app.pending.remove(i), ..awake(scene.app) },
                next.app,
                shown_as(
                    scene.app.next_id,
                    ChangeKind::Rename,
                    root,
                    one.path,
                    Some(crate::roots::relative(scene.watch.roots, left.path)),
                    shot,
                    if left.had_baseline {
                        crate::diff::diff_of(left.snapshot.content, shot.content)
                    } else {
                        DiffView {
                            lines: Seq::empty(),
                            added: 0,
                            removed: 0,
                            detail: Some(
                                "baseline unavailable; the change was seen before the path was recorded"@,
                            ),
                        }
                    },
                    now,
                ),
            )
        }),
{
    lemma_one(scene, event, NotifyKind::RenameTo, root, one);
    lemma_other_end(scene.app.pending, event.tracker, i);
    let left = scene.app.pending[i];
    let start = AppView { pending: scene.app.pending.remove(i), ..awake(scene.app) };
    let watch = scene.watch.remapped(left.path, one.path);
    let shot = watch.taken_snapshot(one.path, one.found);
    let change = FileChange {
        kind: ChangeKind::Rename,
        path: one.path,
        previous_path: Some(crate::roots::relative(scene.watch.roots, left.path)),
        size: shot.size,
        is_dir: shot.is_dir,
        diff: crate::changes::diff_from(
            if left.had_baseline {
                Some(left.snapshot)
            } else {
                None
            },
            shot,
        ),
    };
    crate::event_laws::a_change_of_its_own_is_an_event(
        start,
        scene.watch.roots,
        root,
        change,
        now,
    );
}

/// Whether a waiting move is the one that an arrival ends: the first with its number,
/// or else the one that has waited longest.
pub open spec fn is_other_end(pending: Seq<PendingView>, tracker: Option<usize>, i: int) -> bool {
    ||| tracker is Some && pending[i].tracker == tracker && forall|j: int|
        0 <= j < i ==> (#[trigger] pending[j]).tracker != tracker
    ||| i == 0 && (tracker is None || forall|j: int|
        0 <= j < pending.len() ==> (#[trigger] pending[j]).tracker != tracker)
}

/// The move that an arrival ends is found.
proof fn lemma_other_end(pending: Seq<PendingView>, tracker: Option<usize>, i: int)
    requires
        0 <= i < pending.len(),
        is_other_end(pending, tracker, i),
    ensures
        crate::changes::matching_move(pending, tracker) == Some(i),
{
    if tracker is Some && pending[i].tracker == tracker && (forall|j: int|
        0 <= j < i ==> (#[trigger] pending[j]).tracker != tracker) {
        lemma_first_tracked(pending, tracker, i, 0);
    } else {
        lemma_none_tracked(pending, tracker, 0);
    }
}

/// The first move with a number.
proof fn lemma_first_tracked(pending: Seq<PendingView>, tracker: Option<usize>, i: int, from: int)
    requires
        0 <= from <= i < pending.len(),
        tracker is Some,
        pending[i].tracker == tracker,
        forall|j: int| 0 <= j < i ==> (#[trigger] pending[j]).tracker != tracker,
    ensures
        crate::changes::tracked_move(pending, tracker, from) == Some(i),
    decreases i - from,
{
    if from < i {
        assert(pending[from].tracker != tracker);
        lemma_first_tracked(pending, tracker, i, from + 1);
    }
}

/// No move with a number.
proof fn lemma_none_tracked(pending: Seq<PendingView>, tracker: Option<usize>, from: int)
    requires
        0 <= from,
        tracker is None || forall|j: int|
            0 <= j < pending.len() ==> (#[trigger] pending[j]).tracker != tracker,
    ensures
        crate::changes::tracked_move(pending, tracker, from) is None,
    decreases pending.len() - from,
{
    if tracker is Some && from < pending.len() {
        assert(pending[from].tracker != tracker);
        lemma_none_tracked(pending, tracker, from + 1);
    }
}

/// An arrival that no move waits for is a creation, as if the path had been created
/// there.
pub proof fn arrivals_from_outside_are_creations(
    scene: Scene,
    event: NotifyView,
    root: Parts,
    one: SightingView,
    now: u64,
)
    requires
        is_of_one(scene, event, NotifyKind::RenameTo, root, one),
        scene.app.pending.len() == 0,
    ensures
        scene.notified(event, now) == scene.notified(
            NotifyView { kind: NotifyKind::Create, ..event },
            now,
        ),
{
    let other = NotifyView { kind: NotifyKind::Create, ..event };
    lemma_one(scene, event, NotifyKind::RenameTo, root, one);
    lemma_one(scene, other, NotifyKind::Create, root, one);
    lemma_each_of_one(scene, other, one, now);
    lemma_none_tracked(scene.app.pending, event.tracker, 0);
}

/// A move whose two ends come together is shown at once: at its new path, with the old
/// one and what changed on the way. What is remembered of the old path is gone, and of
/// the new one is what was found.
pub proof fn moves_are_shown(
    scene: Scene,
    event: NotifyView,
    root: Parts,
    from: SightingView,
    to: SightingView,
    now: u64,
)
    requires
        !event.rescan,
        event.kind == NotifyKind::Rename,
        event.sightings == seq![from, to],
        !crate::roots::is_hidden_below(scene.watch.roots, from.path),
        is_seen(scene.watch.roots, root, to.path),
        to.path.len() > root.len(),
        scene.app.next_id + 2 <= u64::MAX,
        scene.app.events.len() <= scene.app.max_events,
        scene.app.paused_events.len() <= scene.app.max_events,
        scene.watch.forgotten(from.path).remapped(from.path, to.path).snapshots.remove(
            to.path,
        ).len() < scene.watch.max_entries,
        !crate::event_laws::follows_closely(scene.app, to.path, ChangeKind::Rename, now),
    ensures
        ({
            let next = scene.notified(event, now);
            let shot = next.watch.snapshots[to.path];
            &&& next.watch.snapshots.contains_key(to.path)
            &&& !to.path.is_prefix_of(from.path) ==> !next.watch.snapshots.contains_key(from.path)
            &&& crate::event_laws::came_in(
                awake(scene.app),
                next.app,
                shown_as(
                    scene.app.next_id,
                    ChangeKind::Rename,
                    root,
                    to.path,
                    Some(crate::roots::relative(scene.watch.roots, from.path)),
                    shot,
                    if scene.watch.snapshots.contains_key(from.path) {
                        crate::diff::diff_of(
                            scene.watch.snapshots[from.path].content,
                            shot.content,
                        )
                    } else {
                        DiffView {
                            lines: Seq::empty(),
                            added: 0,
                            removed: 0,
                            detail: Some(
                                "baseline unavailable; the change was seen before the path was recorded"@,
                            ),
                        }
                    },
                    now,
                ),
            )
        }),
{
    suppressed_names_hide_what_lies_below(scene.watch.roots, root, to.path);
    let keep = |one: SightingView|
        !crate::roots::is_hidden_below(scene.watch.roots, one.path);
    let both = seq![from, to];
    reveal_with_fuel(Seq::filter, 3);
    assert(both.drop_last() =~= seq![from]);
    assert(seq![from].drop_last() =~= Seq::empty());
    assert(both.filter(keep) =~= both);
    assert(crate::changes::shown_sightings(scene.watch.roots, event.sightings) == both);
    let watch = scene.watch.forgotten(from.path).remapped(from.path, to.path);
    let shot = watch.taken_snapshot(to.path, to.found);
    if !to.path.is_prefix_of(from.path) {
        assert(!crate::path::is_under(from.path, to.path));
        assert(from.path.len() > 0 ==> from.path != to.path);
        assert(!watch.snapshots.contains_key(from.path));
        assert(to.path.is_prefix_of(to.path));
    }
    let change = FileChange {
        kind: ChangeKind::Rename,
        path: to.path,
        previous_path: Some(crate::roots::relative(scene.watch.roots, from.path)),
        size: shot.size,
        is_dir: shot.is_dir,
        diff: crate::changes::diff_from(scene.watch.remembered(from.path), shot),
    };
    crate::event_laws::a_change_of_its_own_is_an_event(
        awake(scene.app),
        scene.watch.roots,
        root,
        change,
        now,
    );
}

/// A move of which only one path is told is paired from what is known: a path that is
/// gone and was known has been moved away, and one that is there is where a waiting
/// move ends.
pub proof fn half_moves_are_paired_from_what_is_known(
    scene: Scene,
    event: NotifyView,
    root: Parts,
    one: SightingView,
    now: u64,
)
    requires
        is_of_one(scene, event, NotifyKind::Rename, root, one),
    ensures
        one.found is Missing && scene.watch.snapshots.contains_key(one.path) ==> scene.notified(
            event,
            now,
        ) == scene.notified(NotifyView { kind: NotifyKind::RenameFrom, ..event }, now),
        one.found is Missing && !scene.watch.snapshots.contains_key(one.path) ==> scene.notified(
            event,
            now,
        ) == (Scene { app: awake(scene.app), ..scene }),
        !(one.found is Missing) && scene.app.pending.len() > 0 ==> scene.notified(event, now)
            == scene.notified(NotifyView { kind: NotifyKind::RenameTo, ..event }, now),
        !(one.found is Missing) && scene.app.pending.len() == 0 ==> scene.notified(event, now)
            == scene.notified(NotifyView { kind: NotifyKind::Create, ..event }, now),
{
    let away = NotifyView { kind: NotifyKind::RenameFrom, ..event };
    let here = NotifyView { kind: NotifyKind::RenameTo, ..event };
    let made = NotifyView { kind: NotifyKind::Create, ..event };
    lemma_one(scene, event, NotifyKind::Rename, root, one);
    lemma_one(scene, away, NotifyKind::RenameFrom, root, one);
    lemma_one(scene, here, NotifyKind::RenameTo, root, one);
    lemma_one(scene, made, NotifyKind::Create, root, one);
    lemma_each_of_one(scene, made, one, now);
    if scene.app.pending.len() == 0 {
        lemma_none_tracked(scene.app.pending, event.tracker, 0);
    }
}

/// A file that is written just after it was created, as programs do, is one creation
/// that shows what was written: what came and went since the creation, and how large
/// the file is now.
pub proof fn what_is_written_into_a_new_file_is_shown(
    scene: Scene,
    create: NotifyView,
    modify: NotifyView,
    root: Parts,
    first: SightingView,
    second: SightingView,
    before: u64,
    now: u64,
)
    requires
        is_of_one(scene, create, NotifyKind::Create, root, first),
        is_of_one(scene, modify, NotifyKind::Modify, root, second),
        second.path == first.path,
        root.len() > 0,
        forall|i: int| 0 < i < first.path.len() ==> crate::path::is_name(#[trigger] first.path[i]),
        has_space(scene, first.path),
        scene.watch.snapshots.dom().finite(),
        !scene.app.paused,
        scene.app.max_events > 0,
        !scene.watch.snapshots.contains_key(first.path),
        !crate::event_laws::follows_closely(scene.app, first.path, ChangeKind::Create, before),
        now < before + 80_000_000,
        !(first.found is Missing),
        !(second.found is Missing),
        scene.notified(create, before).watch.snapshots[first.path].read_error is None,
        scene.notified(create, before).notified(
            modify,
            now,
        ).watch.snapshots[first.path].read_error is None,
    ensures
        ({
            let middle = scene.notified(create, before);
            let last = middle.notified(modify, now);
            let one = middle.watch.snapshots[first.path];
            let two = last.watch.snapshots[first.path];
            let diff = crate::diff::diff_of(one.content, two.content);
            !two.is_dir && !is_no_change(one, two) ==> {
                &&& last.app.events.len() == middle.app.events.len()
                &&& last.app.next_id == scene.app.next_id + 1
                &&& last.app.events[0].kind == ChangeKind::Create
                &&& last.app.events[0].id == scene.app.next_id
                &&& last.app.events[0].root == root
                &&& last.app.events[0].path == first.path.skip(root.len() as int)
                &&& last.app.events[0].size == two.size
                &&& last.app.events[0].lines_added == diff.added
                &&& last.app.events[0].lines_removed == diff.removed
                &&& last.app.events[0].diff == diff.lines
                &&& last.app.events[0].detail == diff.detail
                &&& last.app.events[0].occurred_at == now
            }
        }),
{
    let middle = scene.notified(create, before);
    lemma_created(scene, create, root, first, before);
    if !middle.notified(modify, now).watch.snapshots[first.path].is_dir {
        quick_changes_update_their_event(middle, modify, root, second, 0, now);
    }
}

/// What is known of a path that was just created.
proof fn lemma_created(
    scene: Scene,
    event: NotifyView,
    root: Parts,
    one: SightingView,
    now: u64,
)
    requires
        is_of_one(scene, event, NotifyKind::Create, root, one),
        has_space(scene, one.path),
        root.len() > 0,
        forall|i: int| 0 < i < one.path.len() ==> crate::path::is_name(#[trigger] one.path[i]),
        !scene.app.paused,
        scene.app.max_events > 0,
        !scene.watch.snapshots.contains_key(one.path),
        !crate::event_laws::follows_closely(scene.app, one.path, ChangeKind::Create, now),
        !(one.found is Missing),
        scene.notified(event, now).watch.snapshots[one.path].read_error is None,
    ensures
        ({
            let next = scene.notified(event, now);
            &&& next.watch.roots == scene.watch.roots
            &&& next.watch.max_entries == scene.watch.max_entries
            &&& next.watch.snapshots.contains_key(one.path)
            &&& next.watch.snapshots.remove(one.path) == scene.watch.snapshots.remove(one.path)
            &&& next.app.recent.contains_key(one.path)
            &&& next.app.recent[one.path].kind == ChangeKind::Create
            &&& next.app.recent[one.path].seen == now
            &&& next.app.events.len() > 0
            &&& next.app.events.len() <= next.app.max_events
            &&& next.app.paused_events == scene.app.paused_events
            &&& next.app.max_events == scene.app.max_events
            &&& next.app.next_id == scene.app.next_id + 1
            &&& next.app.events[0].kind == ChangeKind::Create
            &&& next.app.events[0].id == scene.app.next_id
            &&& next.app.events[0].root == root
            &&& next.app.events[0].path == one.path.skip(root.len() as int)
            &&& crate::event_laws::is_of(next.app.events[0], one.path, ChangeKind::Modify)
        }),
{
    lemma_one(scene, event, NotifyKind::Create, root, one);
    lemma_each_of_one(scene, event, one, now);
    let start = Scene { app: awake(scene.app), ..scene };
    let shot = scene.watch.taken_snapshot(one.path, one.found);
    let change = FileChange {
        kind: ChangeKind::Create,
        path: one.path,
        previous_path: None,
        size: shot.size,
        is_dir: shot.is_dir,
        diff: crate::diff::diff_of(Some(""@), shot.content),
    };
    let next = scene.notified(event, now);
    assert(next.watch == scene.watch.taken(one.path, one.found));
    assert(next.watch.snapshots.remove(one.path) =~= scene.watch.snapshots.remove(one.path));
    assert(next.watch.snapshots[one.path] == shot);
    assert(next.app == start.app.emitted(scene.watch.roots, change, now));
    crate::event_laws::a_change_of_its_own_is_an_event(
        start.app,
        scene.watch.roots,
        root,
        change,
        now,
    );
    crate::event_laws::lemma_owner(scene.watch.roots, root, one.path);
    crate::roots::relative_paths_lead_back(scene.watch.roots, one.path);
}

/// A change that closely follows the creation, the move or another change of its path
/// is shown in that event: what came and went since the path was seen last, and how
/// large it is now.
pub proof fn quick_changes_update_their_event(
    scene: Scene,
    event: NotifyView,
    root: Parts,
    one: SightingView,
    i: int,
    now: u64,
)
    requires
        is_of_one(scene, event, NotifyKind::Modify, root, one),
        scene.watch.snapshots.remove(one.path).len() < scene.watch.max_entries,
        scene.watch.snapshots.contains_key(one.path),
        !(one.found is Missing),
        crate::event_laws::follows_closely(scene.app, one.path, ChangeKind::Modify, now),
        0 <= i < scene.app.events.len(),
        crate::event_laws::is_of(scene.app.events[i], one.path, ChangeKind::Modify),
        forall|j: int|
            0 <= j < i ==> !crate::event_laws::is_of(
                #[trigger] scene.app.events[j],
                one.path,
                ChangeKind::Modify,
            ),
    ensures
        ({
            let next = scene.notified(event, now);
            let old = scene.watch.snapshots[one.path];
            let shot = next.watch.snapshots[one.path];
            let diff = crate::diff::diff_of(old.content, shot.content);
            &&& next.watch.snapshots.contains_key(one.path)
            &&& shot.read_error is None && !shot.is_dir && !is_no_change(old, shot) ==> {
                &&& next.app.events.len() == scene.app.events.len()
                &&& next.app.next_id == scene.app.next_id
                &&& next.app.events[i].size == shot.size
                &&& next.app.events[i].lines_added == diff.added
                &&& next.app.events[i].lines_removed == diff.removed
                &&& next.app.events[i].diff == diff.lines
                &&& next.app.events[i].detail == diff.detail
                &&& next.app.events[i].occurred_at == now
                &&& crate::event_laws::is_the_same(next.app.events[i], scene.app.events[i])
                &&& forall|j: int|
                    0 <= j < scene.app.events.len() && j != i ==> #[trigger] next.app.events[j]
                        == scene.app.events[j]
            }
        }),
{
    lemma_one(scene, event, NotifyKind::Modify, root, one);
    lemma_each_of_one(scene, event, one, now);
    let start = Scene { app: awake(scene.app), ..scene };
    let old = scene.watch.snapshots[one.path];
    let shot = scene.watch.taken_snapshot(one.path, one.found);
    let change = FileChange {
        kind: ChangeKind::Modify,
        path: one.path,
        previous_path: None,
        size: shot.size,
        is_dir: shot.is_dir,
        diff: crate::diff::diff_of(old.content, shot.content),
    };
    assert(scene.watch.remembered(one.path) == Some(old));
    crate::event_laws::a_burst_is_one_event_and_up_to_date(
        start.app,
        scene.watch.roots,
        change,
        now,
        i,
    );
}

/// Moves that have waited four hundred milliseconds for their other end are not waited
/// for any longer, and the others are. Changes that are two seconds old are not kept in
/// mind.
pub proof fn waiting_moves_are_given_up_in_time(
    app: AppView,
    roots: Seq<Parts>,
    now: u64,
    one: PendingView,
    path: Parts,
)
    requires
        app.next_id + app.pending.len() <= u64::MAX,
    ensures
        app.flushed(roots, now).pending.contains(one) <==> app.pending.contains(one) && now
            < one.observed_at + 400_000_000,
        app.flushed(roots, now).recent.contains_key(path) ==> now
            < app.flushed(roots, now).recent[path].seen + 2_000_000_000,
{
    crate::laws::moves_do_not_wait_forever(app, roots, now);
    let keep = |one: PendingView| !crate::app::is_overdue(one, now);
    let rest = app.pending.filter(keep);
    if rest.contains(one) {
        let i = choose|i: int| 0 <= i < rest.len() && rest[i] == one;
        crate::roots::lemma_filtered(app.pending, keep, i);
    }
    if app.pending.contains(one) && now < one.observed_at + 400_000_000 {
        let i = choose|i: int| 0 <= i < app.pending.len() && app.pending[i] == one;
        crate::roots::lemma_kept(app.pending, keep, i);
    }
}

/// What was seen of a path is not forgotten by giving up moves: it is as it was, or seen
/// by now.
proof fn lemma_given_up_recent(
    app: AppView,
    roots: Seq<Parts>,
    pending: Seq<PendingView>,
    now: u64,
    n: nat,
    path: Parts,
)
    requires
        app.recent.contains_key(path),
    ensures
        ({
            let next = app.given_up(roots, pending, now, n);
            &&& next.recent.contains_key(path)
            &&& next.recent[path] == app.recent[path] || next.recent[path].seen == now
        }),
    decreases n,
{
    if n > 0 {
        lemma_given_up_recent(app, roots, pending, now, (n - 1) as nat, path);
    }
}

/// A change is kept in mind for two seconds.
pub proof fn changes_are_kept_in_mind_for_a_while(
    app: AppView,
    roots: Seq<Parts>,
    now: u64,
    path: Parts,
)
    requires
        app.recent.contains_key(path),
        now < app.recent[path].seen + 2_000_000_000,
    ensures
        app.flushed(roots, now).recent.contains_key(path),
        app.pending.len() == 0 ==> app.flushed(roots, now).recent[path] == app.recent[path],
{
    lemma_given_up_recent(app, roots, app.pending, now, app.pending.len(), path);
}

/// A path that was moved away and whose other end never came is shown as deleted, as
/// large as it was.
pub proof fn moves_out_of_sight_are_deletions(
    app: AppView,
    roots: Seq<Parts>,
    root: Parts,
    one: PendingView,
    now: u64,
)
    requires
        app.pending == seq![one],
        now >= one.observed_at + 400_000_000,
        app.next_id < u64::MAX,
        app.events.len() <= app.max_events,
        app.paused_events.len() <= app.max_events,
        crate::event_laws::lies_in(roots, root, one.path),
        one.path.len() > root.len(),
        !crate::event_laws::follows_closely(app, one.path, ChangeKind::Delete, now),
    ensures
        crate::event_laws::came_in(
            AppView { pending: Seq::empty(), ..app },
            app.flushed(roots, now),
            shown_as(
                app.next_id,
                ChangeKind::Delete,
                root,
                one.path,
                None,
                one.snapshot,
                DiffView { lines: Seq::empty(), added: 0, removed: 0, detail: None },
                now,
            ),
        ),
{
    reveal_with_fuel(AppView::given_up, 2);
    let start = AppView { pending: Seq::empty(), ..app };
    assert(app.given_up(roots, app.pending, now, 0) == start);
    let change = crate::app::deletion(one.path, one.snapshot);
    crate::event_laws::a_change_of_its_own_is_an_event(start, roots, root, change, now);
    assert(app.given_up(roots, app.pending, now, 1) == start.emitted(roots, change, now));
}

/// How much of a path is read: nothing of a suppressed one or for an event of another
/// sort, what it is where it was removed or moved away, and else what it holds.
pub proof fn paths_are_read_as_far_as_they_tell(
    roots: Seq<Parts>,
    root: Parts,
    kind: NotifyKind,
    path: Parts,
)
    requires
        crate::event_laws::lies_in(roots, root, path),
    ensures
        is_unseen(roots, root, path) || kind == NotifyKind::Other ==> crate::changes::reading_of(
            roots,
            kind,
            path,
        ) == Reading::Nothing,
        is_seen(roots, root, path) && (kind == NotifyKind::Remove || kind == NotifyKind::RenameFrom)
            ==> crate::changes::reading_of(roots, kind, path) == Reading::Metadata,
        is_seen(roots, root, path) && (kind == NotifyKind::Create || kind == NotifyKind::Modify
            || kind == NotifyKind::Rename || kind == NotifyKind::RenameTo)
            ==> crate::changes::reading_of(roots, kind, path) == Reading::Content,
{
    suppressed_names_hide_what_lies_below(roots, root, path);
}

} // verus!
