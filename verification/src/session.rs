//! How what the observers have to say comes on the timeline.

use crate::app::{App, AppView};
use crate::changes::Scene;
use crate::git_monitor::{GitMonitorEvent, GitNews};
use crate::model::{integrity, IntegrityEvent, IntegrityLevel, IntegrityView};
use crate::path::{has_path, FsPath, PartView, Parts};
use crate::text::{decimal, join2, Text};
use crate::watcher::{integrity_from_notify_error, NotifyFault, WatchState, WatchView};
use vstd::prelude::*;
use vstd::string::*;

verus! {

/// How many native events of shown paths are taken in before the screen is drawn
/// again.
pub const MAX_FILESYSTEM_EVENTS_PER_TICK: usize = 512;

/// How many native events of Git and Beads are taken in before the screen is
/// drawn again.
pub const MAX_INTERNAL_EVENTS_PER_TICK: usize = 4096;

/// How many entries are remembered before the screen is drawn again.
pub const MAX_BASELINE_ENTRIES_PER_TICK: usize = 1024;

/// How many native events have been taken in since the screen was drawn.
#[derive(Clone, Copy, Debug, PartialEq, Eq, Structural)]
pub struct Intake {
    pub visible: usize,
    pub internal: usize,
}

impl Intake {
    /// Whether more native events are taken in before the screen is drawn.
    pub open spec fn is_open(self) -> bool {
        self.visible < MAX_FILESYSTEM_EVENTS_PER_TICK && self.internal
            < MAX_INTERNAL_EVENTS_PER_TICK
    }

    /// The count with one more native event.
    pub open spec fn counted(self, internal: bool) -> Intake {
        if internal {
            Intake { internal: (self.internal + 1) as usize, ..self }
        } else {
            Intake { visible: (self.visible + 1) as usize, ..self }
        }
    }

    /// Nothing has been taken in.
    pub fn new() -> (intake: Intake)
        ensures
            intake == (Intake { visible: 0, internal: 0 }),
            intake.is_open(),
    {
        Intake { visible: 0, internal: 0 }
    }

    /// Tests whether more native events are taken in before the screen is drawn.
    pub fn has_room(&self) -> (b: bool)
        ensures
            b == self.is_open(),
    {
        self.visible < MAX_FILESYSTEM_EVENTS_PER_TICK && self.internal
            < MAX_INTERNAL_EVENTS_PER_TICK
    }

    /// Counts a native event.
    pub fn count(&self, internal: bool) -> (next: Intake)
        requires
            self.is_open(),
        ensures
            next == self.counted(internal),
    {
        if internal {
            Intake { visible: self.visible, internal: self.internal + 1 }
        } else {
            Intake { visible: self.visible + 1, internal: self.internal }
        }
    }
}

/// The count once some native events have been taken in.
pub open spec fn counted_all(intake: Intake, internal: Seq<bool>) -> Intake
    decreases internal.len(),
{
    if internal.len() == 0 {
        intake
    } else {
        counted_all(intake, internal.drop_last()).counted(internal.last())
    }
}

/// Native events of Git and Beads, up to their own limit, leave all the room for
/// shown paths.
pub proof fn internal_events_leave_room_for_shown_paths(intake: Intake, n: nat)
    requires
        intake.internal + n < MAX_INTERNAL_EVENTS_PER_TICK,
    ensures
        counted_all(intake, Seq::new(n, |i: int| true)).visible == intake.visible,
        counted_all(intake, Seq::new(n, |i: int| true)).internal == intake.internal + n,
        intake.is_open() ==> counted_all(intake, Seq::new(n, |i: int| true)).is_open(),
    decreases n,
{
    if n > 0 {
        internal_events_leave_room_for_shown_paths(intake, (n - 1) as nat);
        assert(Seq::new(n, |i: int| true).drop_last() =~= Seq::new(
            (n - 1) as nat,
            |i: int| true,
        ));
    }
}

/// However many native events wait, no more than the two limits are taken in
/// before the screen is drawn.
pub proof fn the_intake_is_bounded(internal: Seq<bool>)
    requires
        forall|k: int|
            0 <= k < internal.len() ==> counted_all(
                Intake { visible: 0, internal: 0 },
                #[trigger] internal.take(k),
            ).is_open(),
    ensures
        ({
            let intake = counted_all(Intake { visible: 0, internal: 0 }, internal);
            &&& intake.visible <= MAX_FILESYSTEM_EVENTS_PER_TICK
            &&& intake.internal <= MAX_INTERNAL_EVENTS_PER_TICK
            &&& intake.visible + intake.internal == internal.len()
        }),
    decreases internal.len(),
{
    if internal.len() > 0 {
        let earlier = internal.drop_last();
        assert(internal.take(internal.len() - 1) =~= earlier);
        assert forall|k: int| 0 <= k < earlier.len() implies counted_all(
            Intake { visible: 0, internal: 0 },
            #[trigger] earlier.take(k),
        ).is_open() by {
            assert(internal.take(k) =~= earlier.take(k));
        }
        the_intake_is_bounded(earlier);
    }
}

/// Whether a path lies in the data of Git or Beads below its root.
pub open spec fn is_internal_path(roots: Seq<Parts>, path: Parts) -> bool {
    let root = crate::roots::owner(roots, path);
    crate::path::is_under(path, root) && exists|i: int|
        root.len() <= i < path.len() && (#[trigger] path[i] == PartView::Normal(".git"@)
            || path[i] == PartView::Normal(".beads"@))
}

/// Whether a native event is about the data of Git or Beads alone.
pub open spec fn is_internal(roots: Seq<Parts>, paths: Seq<Parts>) -> bool {
    paths.len() > 0 && forall|i: int|
        0 <= i < paths.len() ==> is_internal_path(roots, #[trigger] paths[i])
}

/// Tests whether a path lies in the data of Git or Beads below its root.
fn lies_inside(watcher: &WatchState, path: &FsPath) -> (b: bool)
    requires
        watcher@.roots.len() > 0,
    ensures
        b == is_internal_path(watcher@.roots, path@),
{
    let root = watcher.root_for(path);
    if !path.is_under(&root) {
        return false;
    }
    let mut i: usize = root.parts.len();
    while i < path.parts.len()
        invariant
            root@ == crate::roots::owner(watcher@.roots, path@),
            crate::path::is_under(path@, root@),
            root@.len() <= i <= path.parts@.len(),
            forall|j: int|
                root@.len() <= j < i ==> #[trigger] path@[j] != PartView::Normal(".git"@)
                    && path@[j] != PartView::Normal(".beads"@),
        decreases path.parts@.len() - i,
    {
        assert(path@[i as int] == path.parts@[i as int]@);
        if path.parts[i].is_name(".git") || path.parts[i].is_name(".beads") {
            return true;
        }
        i += 1;
    }
    false
}

/// Tests whether a native event is about the data of Git or Beads alone.
pub fn is_internal_event(watcher: &WatchState, paths: &Vec<FsPath>) -> (b: bool)
    requires
        watcher@.roots.len() > 0,
    ensures
        b == is_internal(watcher@.roots, crate::path::paths_of(paths@)),
{
    let ghost all = crate::path::paths_of(paths@);
    if paths.len() == 0 {
        return false;
    }
    let mut i: usize = 0;
    while i < paths.len()
        invariant
            i <= paths@.len(),
            watcher@.roots.len() > 0,
            all == crate::path::paths_of(paths@),
            forall|j: int| 0 <= j < i ==> is_internal_path(watcher@.roots, #[trigger] all[j]),
        decreases paths@.len() - i,
    {
        assert(all[i as int] == paths@[i as int]@);
        if !lies_inside(watcher, &paths[i]) {
            return false;
        }
        i += 1;
    }
    true
}

/// A path in the data of Git or Beads is not shown.
pub proof fn internal_paths_are_not_shown(roots: Seq<Parts>, path: Parts)
    requires
        is_internal_path(roots, path),
    ensures
        crate::roots::is_hidden_below(roots, path),
{
    let root = crate::roots::owner(roots, path);
    let rest = crate::path::stripped(path, root);
    let i = choose|i: int|
        root.len() <= i < path.len() && (#[trigger] path[i] == PartView::Normal(".git"@)
            || path[i] == PartView::Normal(".beads"@));
    assert(rest[i - root.len()] == path[i]);
    assert(crate::roots::is_hidden_name(rest[i - root.len()]));
}

/// The first root, where there is one.
pub open spec fn front(roots: Seq<Parts>) -> Parts {
    if roots.len() > 0 {
        roots[0]
    } else {
        Parts::empty()
    }
}

/// Finds the first root.
fn front_root(watcher: &WatchState) -> (root: FsPath)
    ensures
        root@ == front(watcher@.roots),
{
    if watcher.roots.len() > 0 {
        assert(watcher@.roots[0] == watcher.roots@[0]@);
        watcher.roots[0].clone()
    } else {
        FsPath::empty()
    }
}

/// The report of a fault of the native watcher of the roots, about the root that
/// it concerns.
pub open spec fn filesystem_fault_report(roots: Seq<Parts>, fault: NotifyFault) -> IntegrityView {
    let report = crate::watcher::fault_report(
        "filesystem"@,
        fault.kind,
        crate::path::paths_of(fault.paths@),
        fault.description@,
        crate::text::lowercase_text(fault.description@),
        front(roots),
    );
    IntegrityView { root: crate::roots::owner(roots, report.root), ..report }
}

/// The scene once the native watcher of the roots is at fault: a root that is
/// lost will be watched again.
pub open spec fn with_fault(scene: Scene, fault: NotifyFault, now: u64) -> Scene {
    let report = filesystem_fault_report(scene.watch.roots, fault);
    Scene {
        app: scene.app.observed(report, now),
        watch: if report.level == IntegrityLevel::Lost {
            scene.watch.failing(crate::roots::owner(scene.watch.roots, report.root), now)
        } else {
            scene.watch
        },
    }
}

/// Takes in a fault of the native watcher of the roots. Returns the root that is
/// no longer to be watched until it is tried again.
pub fn process_fault(
    app: &mut App,
    watcher: &mut WatchState,
    fault: NotifyFault,
    now: u64,
) -> (lost: Option<FsPath>)
    requires
        old(app).wf(),
        old(watcher).wf(),
        old(app)@.has_room(1),
        old(watcher)@.roots.len() > 0,
        crate::recovery::has_time_left(now),
    ensures
        final(app).wf(),
        final(watcher).wf(),
        crate::changes::scene(final(app)@, final(watcher)@) == with_fault(
            crate::changes::scene(old(app)@, old(watcher)@),
            fault,
            now,
        ),
        ({
            let report = filesystem_fault_report(old(watcher)@.roots, fault);
            crate::path::opt_path(lost) == (if report.level == IntegrityLevel::Lost {
                Some(crate::roots::owner(old(watcher)@.roots, report.root))
            } else {
                None
            })
        }),
{
    let fallback = front_root(watcher);
    let mut event = integrity_from_notify_error("filesystem", fault, &fallback);
    event.root = watcher.root_for(&event.root);
    let mut lost: Option<FsPath> = None;
    if event.level == IntegrityLevel::Lost {
        let root = watcher.root_for(&event.root);
        watcher.schedule_recovery(root.clone(), now);
        lost = Some(root);
    }
    app.process_integrity(event, now);
    lost
}

/// The report that there will be no more native events.
pub open spec fn channel_report(root: Parts) -> IntegrityView {
    crate::model::integrity_view(
        IntegrityLevel::Lost,
        "filesystem"@,
        "event channel disconnected"@,
        "filesystem changes are no longer observable"@,
        root,
    )
}

/// Reports that there will be no more native events.
pub fn disconnected(watcher: &WatchState) -> (event: IntegrityEvent)
    ensures
        event@ == channel_report(front(watcher@.roots)),
{
    let root = front_root(watcher);
    integrity(
        IntegrityLevel::Lost,
        "filesystem",
        "event channel disconnected",
        "filesystem changes are no longer observable",
        &root,
    )
}

/// The report that native events were dropped, where any were.
pub open spec fn dropped_report(dropped: u64) -> Option<IntegrityView> {
    if dropped > 0 {
        Some(
            crate::model::integrity_view(
                IntegrityLevel::Uncertain,
                "filesystem"@,
                "filesystem event queue overflowed"@,
                crate::text::decimal_text(dropped as nat)
                    + " native events were dropped before classification"@,
                Parts::empty(),
            ),
        )
    } else {
        None
    }
}

/// Reports that native events were dropped, where any were.
pub fn report_dropped(dropped: u64) -> (event: Option<IntegrityEvent>)
    ensures
        crate::watcher::opt_report(event) == dropped_report(dropped),
{
    if dropped == 0 {
        return None;
    }
    Some(
        integrity(
            IntegrityLevel::Uncertain,
            "filesystem",
            "filesystem event queue overflowed",
            join2(
                decimal(dropped).as_str(),
                " native events were dropped before classification",
            ).as_str(),
            &FsPath::empty(),
        ),
    )
}

/// The report that texts could not be remembered, where that is so.
pub open spec fn omitted_report(omitted: u64) -> Option<IntegrityView> {
    if omitted > 0 {
        Some(
            crate::model::integrity_view(
                IntegrityLevel::Degraded,
                "filesystem"@,
                "snapshot memory budget reached"@,
                crate::text::decimal_text(omitted as nat)
                    + " text baselines were omitted; metadata remains visible"@,
                Parts::empty(),
            ),
        )
    } else {
        None
    }
}

/// Reports that texts could not be remembered, where that is so.
pub fn report_omissions(omitted: u64) -> (event: Option<IntegrityEvent>)
    ensures
        crate::watcher::opt_report(event) == omitted_report(omitted),
{
    if omitted == 0 {
        return None;
    }
    Some(
        integrity(
            IntegrityLevel::Degraded,
            "filesystem",
            "snapshot memory budget reached",
            join2(
                decimal(omitted).as_str(),
                " text baselines were omitted; metadata remains visible",
            ).as_str(),
            &FsPath::empty(),
        ),
    )
}

/// The timeline once there are news of repositories. A related worktree is not
/// news for the timeline yet.
pub open spec fn with_news(app: AppView, news: GitNews, now: u64) -> AppView {
    match news {
        GitNews::Activity(activity) => app.with_git(activity, now),
        GitNews::Integrity(report) => app.observed(report, now),
        GitNews::RelatedWorktree(_) => app,
    }
}

/// Takes in news of repositories. Returns the worktree that is to join, if any.
pub fn process_git_monitor_event(app: &mut App, event: GitMonitorEvent, now: u64) -> (related:
    Option<FsPath>)
    requires
        old(app).wf(),
        old(app)@.has_room(1),
    ensures
        final(app).wf(),
        final(app)@ == with_news(old(app)@, event@, now),
        crate::path::opt_path(related) == (match event@ {
            GitNews::RelatedWorktree(root) => Some(root),
            _ => None,
        }),
        old(app)@.grew(final(app)@, 1),
{
    match event {
        GitMonitorEvent::Activity(activity) => {
            app.process_git(activity, now);
            None
        },
        GitMonitorEvent::Integrity(event) => {
            app.process_integrity(event, now);
            None
        },
        GitMonitorEvent::RelatedWorktree(root) => Some(root),
    }
}

/// The report that a related folder could not join.
pub open spec fn unjoined_report(root: Parts, reason: Text) -> IntegrityView {
    crate::model::integrity_view(
        IntegrityLevel::Lost,
        "filesystem"@,
        "related folder could not join"@,
        reason,
        root,
    )
}

/// Reports that a related folder could not join.
pub fn report_unjoined(app: &mut App, root: &FsPath, reason: &str, now: u64)
    requires
        old(app).wf(),
        old(app)@.has_room(1),
    ensures
        final(app).wf(),
        final(app)@ == old(app)@.observed(unjoined_report(root@, reason@), now),
        old(app)@.grew(final(app)@, 1),
{
    app.process_integrity(
        integrity(
            IntegrityLevel::Lost,
            "filesystem",
            "related folder could not join",
            reason,
            root,
        ),
        now,
    );
}

/// Whether a related folder joins: it is no root yet, and is watched.
pub open spec fn joins(watch: WatchView, root: Parts, watched: bool) -> bool {
    !watch.roots.contains(root) && (watched || !watch.lies_apart(root))
}

/// The scene once a related folder is to join.
pub open spec fn with_related(
    scene: Scene,
    root: Parts,
    watch: Result<(), String>,
    now: u64,
) -> Scene {
    if scene.watch.roots.contains(root) {
        scene
    } else if joins(scene.watch, root, watch is Ok) {
        Scene {
            app: scene.app.observed(crate::watcher::joined_report(root), now),
            watch: scene.watch.joined(root),
        }
    } else {
        Scene {
            app: scene.app.observed(unjoined_report(root, watch->Err_0@), now),
            ..scene
        }
    }
}

/// Takes in a related folder. Tells whether it has joined, so that its repository
/// is to be taken in too. `watch` is what an attempt to watch the folder has
/// given.
pub fn join_related(
    app: &mut App,
    watcher: &mut WatchState,
    root: &FsPath,
    watch: Result<(), String>,
    now: u64,
) -> (joined: bool)
    requires
        old(app).wf(),
        old(watcher).wf(),
        old(app)@.has_room(1),
    ensures
        final(app).wf(),
        final(watcher).wf(),
        crate::changes::scene(final(app)@, final(watcher)@) == with_related(
            crate::changes::scene(old(app)@, old(watcher)@),
            root@,
            watch,
            now,
        ),
        joined == joins(old(watcher)@, root@, watch is Ok),
        old(app)@.grew(final(app)@, 1),
{
    match watcher.add_root(root.clone(), watch) {
        Ok(Some(event)) => {
            app.process_integrity(event, now);
            true
        },
        Ok(None) => false,
        Err(reason) => {
            report_unjoined(app, root, reason.as_str(), now);
            false
        },
    }
}

/// The paths, with those of the first `n` related ones that are not among them.
pub open spec fn expanded(paths: Seq<Parts>, related: Seq<Parts>, n: nat) -> Seq<Parts>
    decreases n,
{
    if n == 0 {
        paths
    } else {
        crate::git_monitor::with_path(
            expanded(paths, related, (n - 1) as nat),
            related[n - 1],
        )
    }
}

/// Adds the related paths that are not among the paths.
pub fn expand_related_paths(paths: Vec<FsPath>, related: &Vec<FsPath>) -> (all: Vec<FsPath>)
    ensures
        crate::path::paths_of(all@) == expanded(
            crate::path::paths_of(paths@),
            crate::path::paths_of(related@),
            related@.len(),
        ),
{
    let ghost start = crate::path::paths_of(paths@);
    let ghost more = crate::path::paths_of(related@);
    let mut all = paths;
    let mut i: usize = 0;
    while i < related.len()
        invariant
            i <= related@.len(),
            more == crate::path::paths_of(related@),
            crate::path::paths_of(all@) == expanded(start, more, i as nat),
        decreases related@.len() - i,
    {
        let ghost before = crate::path::paths_of(all@);
        assert(more[i as int] == related@[i as int]@);
        if !has_path(&all, &related[i]) {
            all.push(related[i].clone());
            assert(crate::path::paths_of(all@) =~= before.push(more[i as int]));
        }
        i += 1;
    }
    all
}

/// No path is listed twice, and none is left out.
pub proof fn expanding_keeps_paths_apart(paths: Seq<Parts>, related: Seq<Parts>, n: nat)
    requires
        n <= related.len(),
        paths.no_duplicates(),
    ensures
        expanded(paths, related, n).no_duplicates(),
        forall|path: Parts| #[trigger]
            expanded(paths, related, n).contains(path) <==> paths.contains(path) || related.take(
                n as int,
            ).contains(path),
    decreases n,
{
    let now = expanded(paths, related, n);
    if n == 0 {
        assert(related.take(0) =~= Seq::<Parts>::empty());
    } else {
        expanding_keeps_paths_apart(paths, related, (n - 1) as nat);
        let earlier = expanded(paths, related, (n - 1) as nat);
        let last = related[n - 1];
        assert forall|path: Parts| #[trigger] now.contains(path) <==> paths.contains(path)
            || related.take(n as int).contains(path) by {
            crate::watcher::lemma_push_contains(related, n - 1, path);
            if earlier.contains(path) {
                let i = choose|i: int| 0 <= i < earlier.len() && earlier[i] == path;
                assert(now[i] == path);
            }
            if path == last && !earlier.contains(last) {
                assert(now[earlier.len() as int] == path);
            }
            if now.contains(path) {
                let i = choose|i: int| 0 <= i < now.len() && now[i] == path;
                if i < earlier.len() {
                    assert(earlier[i] == path);
                }
            }
        }
        if !earlier.contains(last) {
            assert(now == earlier.push(last));
            assert forall|i: int, j: int|
                0 <= i < now.len() && 0 <= j < now.len() && i != j implies now[i] != now[j] by {
                if i < earlier.len() && j < earlier.len() {
                    assert(earlier[i] != earlier[j]);
                } else if i < earlier.len() {
                    assert(earlier.contains(earlier[i]));
                } else {
                    assert(earlier.contains(earlier[j]));
                }
            }
        }
    }
}

} // verus!
