//! What the session takes in, and what it tells of it.

use crate::app::AppView;
use crate::changes::Scene;
use crate::git::GitActivityView;
use crate::git_monitor::GitNews;
use crate::model::{ChangeKind, EventView, IntegrityLevel, IntegrityView, TargetKind};
use crate::path::{PartView, Parts};
use crate::session::Intake;
use crate::watcher::{NotifyFault, WatchView};
use vstd::prelude::*;

verus! {

/// Before the screen is drawn, at most 512 native events of shown paths are taken in
/// and at most 4096 internal ones; each event counts once, to its own sort.
pub proof fn rounds_are_limited(intake: Intake)
    requires
        intake.visible < usize::MAX,
        intake.internal < usize::MAX,
    ensures
        intake.is_open() <==> intake.visible < 512 && intake.internal < 4096,
        intake.counted(true).visible == intake.visible,
        intake.counted(true).internal == intake.internal + 1,
        intake.counted(false).visible == intake.visible + 1,
        intake.counted(false).internal == intake.internal,
{
}

/// Whether a path goes through a folder named `.git` or `.beads`, from a place on.
pub open spec fn goes_through_a_store(path: Parts, from: nat) -> bool {
    exists|i: int|
        from <= i < path.len() && (#[trigger] path[i] == PartView::Normal(".git"@) || path[i]
            == PartView::Normal(".beads"@))
}

/// A native event of one path is internal where the path goes through a store of Git or
/// of Beads below its root; what stands above the root does not matter. An event of
/// several paths is internal where each of them is, and one of no path is not.
pub proof fn events_inside_stores_are_internal(
    roots: Seq<Parts>,
    root: Parts,
    path: Parts,
    paths: Seq<Parts>,
)
    ensures
        crate::event_laws::lies_in(roots, root, path) ==> (crate::session::is_internal(
            roots,
            seq![path],
        ) <==> goes_through_a_store(path, root.len())),
        !crate::session::is_internal(roots, Seq::empty()),
        paths.len() > 0 ==> (crate::session::is_internal(roots, paths.push(path))
            <==> crate::session::is_internal(roots, paths) && crate::session::is_internal(
            roots,
            seq![path],
        )),
{
    assert(seq![path][0] == path);
    if crate::event_laws::lies_in(roots, root, path) {
        crate::event_laws::lemma_owner(roots, root, path);
        assert(crate::session::is_internal_path(roots, path) <==> goes_through_a_store(
            path,
            root.len(),
        ));
    }
    if paths.len() > 0 {
        let more = paths.push(path);
        assert(more.last() == path);
        if crate::session::is_internal(roots, more) {
            assert(crate::session::is_internal_path(roots, more[paths.len() as int]));
            assert forall|i: int| 0 <= i < paths.len() implies crate::session::is_internal_path(
                roots,
                #[trigger] paths[i],
            ) by {
                assert(more[i] == paths[i]);
            }
        }
        if crate::session::is_internal(roots, paths) && crate::session::is_internal(
            roots,
            seq![path],
        ) {
            assert(crate::session::is_internal_path(roots, seq![path][0]));
            assert forall|i: int| 0 <= i < more.len() implies crate::session::is_internal_path(
                roots,
                #[trigger] more[i],
            ) by {
                if i < paths.len() {
                    assert(more[i] == paths[i]);
                }
            }
        }
    }
}

/// The event that shows a report.
pub open spec fn shown_report(app: AppView, report: IntegrityView, now: u64) -> EventView {
    EventView {
        id: app.next_id,
        kind: ChangeKind::Integrity,
        target: TargetKind::Observer,
        path: seq![PartView::Normal(report.source + " · "@ + report.summary)],
        previous_path: None,
        root: report.root,
        occurred_at: now,
        size: 0,
        lines_added: 0,
        lines_removed: 0,
        diff: Seq::empty(),
        detail: Some(report.detail),
        integrity_level: Some(report.level),
    }
}

/// Whether one more event can come in.
pub open spec fn takes_in(app: AppView) -> bool {
    &&& app.next_id < u64::MAX
    &&& app.events.len() <= app.max_events
    &&& app.paused_events.len() <= app.max_events
}

/// What the observation of Git tells is shown: an activity as an event of its
/// repository, a report as an event of the observer. A related worktree that was found
/// is not shown by itself.
pub proof fn news_of_git_are_shown(
    app: AppView,
    activity: GitActivityView,
    report: IntegrityView,
    root: Parts,
    now: u64,
)
    requires
        takes_in(app),
    ensures
        crate::event_laws::came_in(
            app,
            crate::session::with_news(app, GitNews::Activity(activity), now),
            EventView {
                id: app.next_id,
                kind: ChangeKind::Git,
                target: TargetKind::Repository,
                path: seq![PartView::Normal(activity.summary)],
                previous_path: None,
                root: activity.root,
                occurred_at: now,
                size: 0,
                lines_added: 0,
                lines_removed: 0,
                diff: Seq::empty(),
                detail: Some(activity.detail),
                integrity_level: None,
            },
        ),
        crate::event_laws::came_in(
            app,
            crate::session::with_news(app, GitNews::Integrity(report), now),
            shown_report(app, report, now),
        ),
        crate::session::with_news(app, GitNews::Integrity(report), now).observer_level
            == crate::event_laws::gravest(app.observer_level, report.level),
        crate::session::with_news(app, GitNews::RelatedWorktree(root), now) == app,
{
    crate::event_laws::git_activities_are_events(app, activity, now);
    crate::event_laws::reports_are_events(app, report, now);
}

/// The path that a fault is of: the first that it names, or else the first root.
pub open spec fn struck(roots: Seq<Parts>, fault: NotifyFault) -> Parts {
    if fault.paths@.len() > 0 {
        fault.paths@[0]@
    } else {
        roots[0]
    }
}

/// A fault of the observation is shown with its description, of the root that its path
/// lies in. Where it is the loss of a watch, all that was remembered below that root is
/// forgotten, and the root waits for its next attempt; any other fault leaves the
/// observation as it was.
pub proof fn faults_are_shown_and_lost_roots_wait(
    scene: Scene,
    fault: NotifyFault,
    root: Parts,
    path: Parts,
    now: u64,
)
    requires
        takes_in(scene.app),
        now + 10_000_000_000 <= u64::MAX,
        scene.watch.roots.len() > 0,
        crate::event_laws::lies_in(scene.watch.roots, root, struck(scene.watch.roots, fault)),
    ensures
        ({
            let next = crate::session::with_fault(scene, fault, now);
            let class = crate::watcher::fault_class(
                fault.kind,
                crate::text::lowercase_text(fault.description@),
            );
            &&& crate::event_laws::came_in(
                scene.app,
                next.app,
                shown_report(
                    scene.app,
                    IntegrityView {
                        level: class.0,
                        source: "filesystem"@,
                        summary: class.1,
                        detail: fault.description@,
                        root,
                    },
                    now,
                ),
            )
            &&& class.0 != IntegrityLevel::Lost ==> next.watch == scene.watch
            &&& class.0 == IntegrityLevel::Lost ==> next.watch.roots == scene.watch.roots && exists|
                i: int,
            |
                0 <= i < next.watch.failed.len() && (#[trigger] next.watch.failed[i]).root == root
            &&& class.0 == IntegrityLevel::Lost && root.is_prefix_of(path)
                ==> next.watch.remembered(path) is None
            &&& class.0 == IntegrityLevel::Lost && !root.is_prefix_of(path)
                ==> next.watch.remembered(path) == scene.watch.remembered(path)
        }),
{
    let roots = scene.watch.roots;
    let next = crate::session::with_fault(scene, fault, now);
    let report = crate::session::filesystem_fault_report(roots, fault);
    assert(fault.paths@.len() > 0 ==> crate::path::paths_of(fault.paths@)[0] == fault.paths@[0]@);
    crate::event_laws::lemma_owner(roots, root, struck(roots, fault));
    assert(root.is_prefix_of(root));
    crate::event_laws::lemma_owner(roots, root, root);
    crate::event_laws::reports_are_events(scene.app, report, now);
    crate::watch_laws::failed_roots_wait(scene.watch, root, path, now);
    if report.level == IntegrityLevel::Lost {
        if crate::watcher::has_failed(scene.watch.failed, root) {
            assert(next.watch.failed == scene.watch.failed);
            let i = choose|i: int|
                0 <= i < scene.watch.failed.len() && (#[trigger] scene.watch.failed[i]).root
                    == root;
            assert(next.watch.failed[i].root == root);
        } else {
            assert(next.watch.failed[scene.watch.failed.len() as int].root == root);
        }
    }
}

/// Whether a folder lies in one that is a root already.
pub open spec fn lies_below_a_root(watch: WatchView, root: Parts) -> bool {
    exists|i: int| 0 <= i < watch.roots.len() && (#[trigger] watch.roots[i]).is_prefix_of(root)
}

/// A related folder joins once, behind the roots that there are: where it can be
/// watched, or lies in a root and is watched with it. It is then listed, unless it lies
/// in a root, and its joining is shown. One that cannot be watched is shown as lost,
/// with the reason.
pub proof fn related_folders_join(
    scene: Scene,
    root: Parts,
    watch: Result<(), String>,
    now: u64,
)
    requires
        takes_in(scene.app),
    ensures
        ({
            let next = crate::session::with_related(scene, root, watch, now);
            let joins = watch is Ok || lies_below_a_root(scene.watch, root);
            &&& scene.watch.roots.contains(root) ==> next == scene
            &&& !scene.watch.roots.contains(root) && joins ==> {
                &&& next.watch.roots == scene.watch.roots.push(root)
                &&& next.watch.walks == (if lies_below_a_root(scene.watch, root) {
                    scene.watch.walks
                } else {
                    scene.watch.walks.push(root)
                })
                &&& next.watch.snapshots == scene.watch.snapshots
                &&& next.watch.failed == scene.watch.failed
                &&& crate::event_laws::came_in(
                    scene.app,
                    next.app,
                    shown_report(
                        scene.app,
                        IntegrityView {
                            level: IntegrityLevel::Info,
                            source: "filesystem"@,
                            summary: "related folder joined"@,
                            detail: "native recursive filesystem events are active"@,
                            root,
                        },
                        now,
                    ),
                )
            }
            &&& !scene.watch.roots.contains(root) && !joins ==> {
                &&& next.watch == scene.watch
                &&& crate::event_laws::came_in(
                    scene.app,
                    next.app,
                    shown_report(
                        scene.app,
                        IntegrityView {
                            level: IntegrityLevel::Lost,
                            source: "filesystem"@,
                            summary: "related folder could not join"@,
                            detail: watch->Err_0@,
                            root,
                        },
                        now,
                    ),
                )
            }
        }),
{
    let roots = scene.watch.roots;
    assert(lies_below_a_root(scene.watch, root) <==> !scene.watch.lies_apart(root)) by {
        assert forall|i: int| 0 <= i < roots.len() implies (#[trigger] roots[i]).is_prefix_of(root)
            == crate::path::is_under(root, roots[i]) by {}
    }
    crate::event_laws::reports_are_events(scene.app, crate::watcher::joined_report(root), now);
    if watch is Err {
        crate::event_laws::reports_are_events(
            scene.app,
            crate::session::unjoined_report(root, watch->Err_0@),
            now,
        );
    }
}

/// The session starts with an empty timeline that shows every kind and every workspace,
/// goes on by itself, and counts its events from one.
pub proof fn the_session_starts_empty(max_events: usize)
    ensures
        ({
            let app = crate::app::fresh(max_events);
            &&& app.events.len() == 0
            &&& app.paused_events.len() == 0
            &&& app.selected == 0
            &&& !app.paused
            &&& !app.should_quit
            &&& app.search.len() == 0
            &&& !app.search_mode
            &&& app.enabled == seq![true, true, true, true, true, true, true]
            &&& app.status is None
            &&& !app.catching_up
            &&& !app.folders_open
            &&& app.workspace_filter is None
            &&& app.max_events == max_events
            &&& app.observer_level == IntegrityLevel::Info
            &&& app.next_id == 1
            &&& app.pending.len() == 0
            &&& forall|path: Parts| !app.recent.contains_key(path)
        }),
{
    assert(crate::app::fresh(max_events).enabled =~= seq![true, true, true, true, true, true, true]);
}

} // verus!
