//! What the timeline shows of what happened.

use crate::app::{AppView, FileChange, PendingView, Recent};
use crate::beads::BeadsActivityView;
use crate::changes::{NotifyKind, NotifyView, Scene, SightingView};
use crate::git::GitActivityView;
use crate::model::{ChangeKind, EventView, IntegrityLevel, IntegrityView, TargetKind};
use crate::path::{PartView, Parts};
use crate::snapshot::{InspectionView, SnapshotView};
use crate::text::Text;
use vstd::prelude::*;

verus! {

/// Whether a change belongs to an earlier one of the same path: it is of the same
/// kind, or it is what was written into a path that was just created or moved.
pub open spec fn belongs(earlier: ChangeKind, kind: ChangeKind) -> bool {
    ||| earlier == kind
    ||| kind == ChangeKind::Modify && earlier == ChangeKind::Create
    ||| kind == ChangeKind::Modify && earlier == ChangeKind::Rename
}

/// Whether a change of a path belongs to one that was seen less than eighty
/// milliseconds before.
pub open spec fn follows_closely(app: AppView, path: Parts, kind: ChangeKind, now: u64) -> bool {
    app.recent.contains_key(path) && now < app.recent[path].seen + 80_000_000 && belongs(
        app.recent[path].kind,
        kind,
    )
}

/// Whether an event is of this path, and of a kind that a change belongs to.
pub open spec fn is_of(event: EventView, path: Parts, kind: ChangeKind) -> bool {
    crate::path::path_join(event.root, event.path) == path && belongs(event.kind, kind)
}

/// Whether an event shows a change as the newest one of its path: how large it left
/// the path, how many lines came and went, which lines those are, and what there is
/// to say of them.
pub open spec fn is_up_to_date(event: EventView, change: FileChange, now: u64) -> bool {
    &&& event.occurred_at == now
    &&& event.size == change.size
    &&& event.lines_added == change.diff.added
    &&& event.lines_removed == change.diff.removed
    &&& event.diff == change.diff.lines
    &&& event.detail == change.diff.detail
}

/// Whether an event is still the one that it was: what it is called, of which kind it
/// is, and where it happened.
pub open spec fn is_the_same(event: EventView, before: EventView) -> bool {
    &&& event.id == before.id
    &&& event.kind == before.kind
    &&& event.target == before.target
    &&& event.path == before.path
    &&& event.previous_path == before.previous_path
    &&& event.root == before.root
    &&& event.integrity_level == before.integrity_level
}

/// The first event that a change belongs to is found.
proof fn lemma_found(events: Seq<EventView>, path: Parts, kind: ChangeKind, from: int, i: int)
    requires
        0 <= from <= i < events.len(),
        is_of(events[i], path, kind),
        forall|j: int| from <= j < i ==> !is_of(#[trigger] events[j], path, kind),
    ensures
        crate::app::first_taking_in(events, path, kind, from) == Some(i),
    decreases i - from,
{
    if from < i {
        assert(!is_of(events[from], path, kind));
        lemma_found(events, path, kind, from + 1, i);
    }
}

/// Where a change belongs to no event, none is found.
proof fn lemma_not_found(events: Seq<EventView>, path: Parts, kind: ChangeKind, from: int)
    requires
        0 <= from,
        forall|j: int| from <= j < events.len() ==> !is_of(#[trigger] events[j], path, kind),
    ensures
        crate::app::first_taking_in(events, path, kind, from) is None,
    decreases events.len() - from,
{
    if from < events.len() {
        assert(!is_of(events[from], path, kind));
        lemma_not_found(events, path, kind, from + 1);
    }
}

/// A burst of changes of one path is one event, and that event is up to date: a change
/// that closely follows one that it belongs to gives its size, its counts, its lines
/// and its detail to the newest event of the path. That event stays what it was
/// otherwise, and so does everything else.
pub proof fn a_burst_is_one_event_and_up_to_date(
    app: AppView,
    roots: Seq<Parts>,
    change: FileChange,
    now: u64,
    i: int,
)
    requires
        follows_closely(app, change.path, change.kind, now),
        0 <= i < app.events.len(),
        is_of(app.events[i], change.path, change.kind),
        forall|j: int| 0 <= j < i ==> !is_of(#[trigger] app.events[j], change.path, change.kind),
    ensures
        ({
            let next = app.emitted(roots, change, now);
            &&& next.events.len() == app.events.len()
            &&& is_up_to_date(next.events[i], change, now)
            &&& is_the_same(next.events[i], app.events[i])
            &&& forall|j: int|
                0 <= j < app.events.len() && j != i ==> #[trigger] next.events[j] == app.events[j]
            &&& next == (AppView { events: next.events, ..app })
        }),
{
    lemma_found(app.events, change.path, change.kind, 0, i);
}

/// While the timeline is paused, a burst is one event too: the change is given to the
/// waiting event of its path.
pub proof fn a_burst_that_waits_is_one_event_and_up_to_date(
    app: AppView,
    roots: Seq<Parts>,
    change: FileChange,
    now: u64,
    i: int,
)
    requires
        follows_closely(app, change.path, change.kind, now),
        forall|j: int|
            0 <= j < app.events.len() ==> !is_of(
                #[trigger] app.events[j],
                change.path,
                change.kind,
            ),
        0 <= i < app.paused_events.len(),
        is_of(app.paused_events[i], change.path, change.kind),
        forall|j: int|
            0 <= j < i ==> !is_of(#[trigger] app.paused_events[j], change.path, change.kind),
    ensures
        ({
            let next = app.emitted(roots, change, now);
            &&& next.paused_events.len() == app.paused_events.len()
            &&& is_up_to_date(next.paused_events[i], change, now)
            &&& is_the_same(next.paused_events[i], app.paused_events[i])
            &&& forall|j: int|
                0 <= j < app.paused_events.len() && j != i ==> #[trigger] next.paused_events[j]
                    == app.paused_events[j]
            &&& next == (AppView { paused_events: next.paused_events, ..app })
        }),
{
    lemma_not_found(app.events, change.path, change.kind, 0);
    lemma_found(app.paused_events, change.path, change.kind, 0, i);
}

/// Whether a list is another with one more event in front, cut off at a limit.
pub open spec fn has_one_more(
    before: Seq<EventView>,
    after: Seq<EventView>,
    event: EventView,
    max: usize,
) -> bool {
    &&& after.len() == (if before.len() + 1 <= max {
        before.len() + 1
    } else {
        max as nat
    })
    &&& after.len() > 0 ==> after[0] == event
    &&& forall|k: int| 0 < k < after.len() ==> #[trigger] after[k] == before[k - 1]
}

/// Whether one more event came in: in front of the timeline, or in front of those that
/// wait while it is paused. The other list stays as it was, and no number of an event
/// is used twice.
pub open spec fn came_in(before: AppView, after: AppView, event: EventView) -> bool {
    &&& event.id == before.next_id
    &&& after.next_id == before.next_id + 1
    &&& after.max_events == before.max_events
    &&& after.paused == before.paused
    &&& if before.paused {
        &&& has_one_more(before.paused_events, after.paused_events, event, before.max_events)
        &&& after.events == before.events
        &&& after.selected == before.selected
    } else {
        &&& has_one_more(before.events, after.events, event, before.max_events)
        &&& after.paused_events == before.paused_events
        &&& before.selected == 0 ==> after.selected == 0
    }
    &&& after.search == before.search
    &&& after.search_mode == before.search_mode
    &&& after.enabled == before.enabled
    &&& after.workspace_filter == before.workspace_filter
    &&& after.pending == before.pending
    &&& after.should_quit == before.should_quit
    &&& after.catching_up == before.catching_up
    &&& after.folders_open == before.folders_open
    &&& after.status == before.status
}

/// One more event comes in.
proof fn lemma_came_in(app: AppView, base: AppView, event: EventView)
    requires
        app.next_id < u64::MAX,
        app.events.len() <= app.max_events,
        app.paused_events.len() <= app.max_events,
        event.id == app.next_id,
        base == (AppView {
            recent: base.recent,
            observer_level: base.observer_level,
            ..app
        }),
    ensures
        came_in(app, base.numbered().recorded(event), event),
        base.numbered().recorded(event).recent == base.recent,
        base.numbered().recorded(event).observer_level == base.observer_level,
{
}

/// Where a path lies: below `root`, of all roots the deepest that it lies below.
pub open spec fn lies_in(roots: Seq<Parts>, root: Parts, path: Parts) -> bool {
    &&& roots.contains(root)
    &&& root.is_prefix_of(path)
    &&& forall|other: Parts| #[trigger]
        roots.contains(other) && other.is_prefix_of(path) ==> other.len() <= root.len()
}

/// The root that a path lies in owns it.
pub proof fn lemma_owner(roots: Seq<Parts>, root: Parts, path: Parts)
    requires
        lies_in(roots, root, path),
    ensures
        crate::roots::owner(roots, path) == root,
        crate::path::is_under(path, root),
        path.len() > root.len() ==> crate::roots::relative(roots, path) == path.skip(
            root.len() as int,
        ),
{
    assert(path.subrange(0, root.len() as int) =~= root);
    crate::roots::paths_belong_to_the_deepest_root(roots, path, root);
    let owner = crate::roots::owner(roots, path);
    assert(owner.is_prefix_of(path));
    assert(owner.len() == root.len());
    assert(owner =~= root);
}

/// A change that closely follows none that it belongs to is an event of its own. The
/// event carries the kind, the size, the counts, the lines and the detail of the
/// change, belongs to the deepest root above the path and names the path from there.
pub proof fn a_change_of_its_own_is_an_event(
    app: AppView,
    roots: Seq<Parts>,
    root: Parts,
    change: FileChange,
    now: u64,
)
    requires
        !follows_closely(app, change.path, change.kind, now),
        app.next_id < u64::MAX,
        app.events.len() <= app.max_events,
        app.paused_events.len() <= app.max_events,
        lies_in(roots, root, change.path),
        change.path.len() > root.len(),
    ensures
        ({
            let next = app.emitted(roots, change, now);
            &&& came_in(
                app,
                next,
                EventView {
                    id: app.next_id,
                    kind: change.kind,
                    target: if change.is_dir {
                        TargetKind::Directory
                    } else {
                        TargetKind::File
                    },
                    path: change.path.skip(root.len() as int),
                    previous_path: change.previous_path,
                    root,
                    occurred_at: now,
                    size: change.size,
                    lines_added: change.diff.added,
                    lines_removed: change.diff.removed,
                    diff: change.diff.lines,
                    detail: change.diff.detail,
                    integrity_level: None,
                },
            )
            &&& next.recent == app.recent.insert(
                change.path,
                Recent { kind: change.kind, seen: now },
            )
            &&& next.observer_level == app.observer_level
        }),
{
    lemma_owner(roots, root, change.path);
    let base = AppView {
        recent: app.recent.insert(change.path, Recent { kind: change.kind, seen: now }),
        ..app
    };
    lemma_came_in(app, base, crate::app::file_event(roots, change, app.next_id, now));
}

/// A report on the observation is an event of the observer that names its source and
/// its summary and carries its detail and its level, and the gravest level so far is
/// kept in mind.
pub proof fn reports_are_events(app: AppView, report: IntegrityView, now: u64)
    requires
        app.next_id < u64::MAX,
        app.events.len() <= app.max_events,
        app.paused_events.len() <= app.max_events,
    ensures
        ({
            let next = app.observed(report, now);
            &&& came_in(
                app,
                next,
                EventView {
                    id: app.next_id,
                    kind: ChangeKind::Integrity,
                    target: TargetKind::Observer,
                    path: seq![PartView::Normal(report.source + " · "@ + report.summary)],
                    previous_path: None,
                    root: report.root,
                    occurred_at: now,
                    size: 0,
                    lines_added: 0,
                    lines_removed: 0,
                    diff: Seq::empty(),
                    detail: Some(report.detail),
                    integrity_level: Some(report.level),
                },
            )
            &&& next.recent == app.recent
            &&& next.observer_level == gravest(app.observer_level, report.level)
        }),
{
    let base = AppView {
        observer_level: crate::app::graver(app.observer_level, report.level),
        ..app
    };
    lemma_came_in(app, base, crate::app::integrity_event(report, app.next_id, now));
}

/// The graver of two levels: lost, uncertain, degraded, and nothing amiss.
pub open spec fn gravest(a: IntegrityLevel, b: IntegrityLevel) -> IntegrityLevel {
    if a == IntegrityLevel::Lost || b == IntegrityLevel::Lost {
        IntegrityLevel::Lost
    } else if a == IntegrityLevel::Uncertain || b == IntegrityLevel::Uncertain {
        IntegrityLevel::Uncertain
    } else if a == IntegrityLevel::Degraded || b == IntegrityLevel::Degraded {
        IntegrityLevel::Degraded
    } else {
        IntegrityLevel::Info
    }
}

/// An activity in a repository is an event of its repository that is called by its
/// summary and carries its detail.
pub proof fn git_activities_are_events(app: AppView, activity: GitActivityView, now: u64)
    requires
        app.next_id < u64::MAX,
        app.events.len() <= app.max_events,
        app.paused_events.len() <= app.max_events,
    ensures
        ({
            let next = app.with_git(activity, now);
            &&& came_in(
                app,
                next,
                EventView {
                    id: app.next_id,
                    kind: ChangeKind::Git,
                    target: TargetKind::Repository,
                    path: seq![PartView::Normal(activity.summary)],
                    previous_path: None,
                    root: activity.root,
                    occurred_at: now,
                    size: 0,
                    lines_added: 0,
                    lines_removed: 0,
                    diff: Seq::empty(),
                    detail: Some(activity.detail),
                    integrity_level: None,
                },
            )
            &&& next.recent == app.recent
            &&& next.observer_level == app.observer_level
        }),
{
    lemma_came_in(app, app, crate::app::git_event(activity, app.next_id, now));
}

/// An activity on an issue is an event that is called by the id of the issue, and by
/// its title where it has one, and that tells what was done.
pub proof fn work_activities_are_events(app: AppView, activity: BeadsActivityView, now: u64)
    requires
        app.next_id < u64::MAX,
        app.events.len() <= app.max_events,
        app.paused_events.len() <= app.max_events,
    ensures
        ({
            let next = app.with_work(activity, now);
            &&& came_in(
                app,
                next,
                EventView {
                    id: app.next_id,
                    kind: ChangeKind::Work,
                    target: TargetKind::WorkItem,
                    path: seq![
                        PartView::Normal(
                            if activity.title.len() > 0 {
                                activity.issue_id + " · "@ + activity.title
                            } else {
                                activity.issue_id
                            },
                        ),
                    ],
                    previous_path: None,
                    root: activity.root,
                    occurred_at: now,
                    size: 0,
                    lines_added: 0,
                    lines_removed: 0,
                    diff: Seq::empty(),
                    detail: Some(activity.action + " · "@ + activity.detail),
                    integrity_level: None,
                },
            )
            &&& next.recent == app.recent
            &&& next.observer_level == app.observer_level
        }),
{
    lemma_came_in(app, app, crate::app::work_event(activity, app.next_id, now));
}

/// Whether events of a kind are switched on.
pub open spec fn is_on(app: AppView, kind: ChangeKind) -> bool {
    app.enabled[match kind {
        ChangeKind::Modify => 0,
        ChangeKind::Create => 1,
        ChangeKind::Rename => 2,
        ChangeKind::Delete => 3,
        ChangeKind::Git => 4,
        ChangeKind::Work => 5,
        ChangeKind::Integrity => 6,
    }]
}

/// Whether one text stands somewhere in another.
pub open spec fn occurs_in(text: Text, part: Text) -> bool {
    exists|at: int|
        0 <= at && at + part.len() <= text.len() && #[trigger] text.subrange(at, at + part.len())
            == part
}

/// An event is shown exactly where its kind is switched on, no other workspace is in
/// focus, and the search, in lower case, stands in its path or in the path that it was
/// moved from. An empty search stands everywhere.
pub proof fn filters_hide_what_they_say(app: AppView, event: EventView)
    ensures
        app.shows(event) == ({
            let query = crate::text::lowercase_text(app.search);
            &&& is_on(app, event.kind)
            &&& app.workspace_filter is None || app.workspace_filter == Some(event.root)
            &&& query.len() == 0 || occurs_in(
                crate::text::lowercase_text(event.written(event.path)),
                query,
            ) || (event.previous_path is Some && occurs_in(
                crate::text::lowercase_text(event.written(event.previous_path->0)),
                query,
            ))
        }),
{
    let query = crate::text::lowercase_text(app.search);
    lemma_occurs(crate::text::lowercase_text(event.written(event.path)), query);
    if let Some(previous) = event.previous_path {
        lemma_occurs(crate::text::lowercase_text(event.written(previous)), query);
    }
}

/// A text stands in another where it is found there.
pub proof fn lemma_occurs(text: Text, part: Text)
    ensures
        crate::text::has_text(text, part) == occurs_in(text, part),
{
    if crate::text::has_text(text, part) {
        let at = choose|at: int| crate::text::stands_at(text, part, at);
        assert(text.subrange(at, at + part.len()) == part);
    }
    if occurs_in(text, part) {
        let at = choose|at: int|
            0 <= at && at + part.len() <= text.len() && #[trigger] text.subrange(
                at,
                at + part.len(),
            ) == part;
        assert(crate::text::stands_at(text, part, at));
    }
}

/// The selected event is a shown one, and as many shown events are newer than it as
/// the selection counts; where fewer are shown than that, none is selected.
pub proof fn the_selection_counts_shown_events(app: AppView)
    ensures
        match app.selection() {
            Some(event) => exists|k: int| is_selected_at(app, event, k),
            None => app.shown().len() <= app.selected,
        },
        app.shown().len() <= app.events.len(),
{
    crate::app::lemma_shown(app, app.events.len());
    lemma_shown_count(app, app.events.len());
    if app.selected < app.shown().len() {
        let k = app.shown()[app.selected as int];
        lemma_shown_before(app, app.events.len(), app.selected as int);
        assert(is_selected_at(app, app.selection()->0, k));
    }
}

/// Whether an event stands at a place of the timeline, is shown, and has as many shown
/// events in front as the selection counts.
pub open spec fn is_selected_at(app: AppView, event: EventView, k: int) -> bool {
    &&& 0 <= k < app.events.len()
    &&& app.events[k] == event
    &&& app.shows(event)
    &&& app.shown_among(k as nat).len() == app.selected
}

/// No more events are shown than there are.
proof fn lemma_shown_count(app: AppView, n: nat)
    ensures
        app.shown_among(n).len() <= n,
    decreases n,
{
    if n > 0 {
        lemma_shown_count(app, (n - 1) as nat);
    }
}

/// How many events are shown in front of the `i`-th shown one.
proof fn lemma_shown_before(app: AppView, n: nat, i: int)
    requires
        0 <= i < app.shown_among(n).len(),
    ensures
        0 <= app.shown_among(n)[i] < n,
        app.shown_among(app.shown_among(n)[i] as nat).len() == i,
    decreases n,
{
    if n > 0 {
        let earlier = app.shown_among((n - 1) as nat);
        if i < earlier.len() {
            lemma_shown_before(app, (n - 1) as nat, i);
        }
    }
}

} // verus!
