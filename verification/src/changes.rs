//! From native filesystem events to events of the timeline.

use crate::app::{App, AppView, FileChange, PendingRename, PendingView};
use crate::diff::{build_diff, no_diff, DiffView};
use crate::model::{integrity, ChangeKind, IntegrityLevel, IntegrityView};
use crate::path::{FsPath, Parts};
use crate::snapshot::{Inspection, InspectionView, Snapshot, SnapshotView};
use crate::text::Text;
use crate::watcher::{WatchState, WatchView};
use vstd::prelude::*;
use vstd::string::*;

verus! {

/// What a native event says has happened.
#[derive(Clone, Copy, Debug, PartialEq, Eq, Structural)]
pub enum NotifyKind {
    Create,
    Remove,
    /// A path was moved; both of its names may be given, or one of them.
    Rename,
    /// A path was moved away.
    RenameFrom,
    /// A path was moved here.
    RenameTo,
    Modify,
    /// Nothing that the timeline shows.
    Other,
}

/// A path that a native event names, and what was found there when the event was
/// received.
#[derive(Debug)]
pub struct Sighting {
    pub path: FsPath,
    pub found: Inspection,
}

/// What a path was found to be.
#[verifier::ext_equal]
pub struct SightingView {
    pub path: Parts,
    pub found: InspectionView,
}

impl View for Sighting {
    type V = SightingView;

    open spec fn view(&self) -> SightingView {
        SightingView { path: self.path@, found: self.found@ }
    }
}

/// The contents of a list of paths.
pub open spec fn sighting_views(sightings: Seq<Sighting>) -> Seq<SightingView> {
    sightings.map_values(|one: Sighting| one@)
}

/// A native event.
#[derive(Debug)]
pub struct NotifyEvent {
    pub kind: NotifyKind,
    pub sightings: Vec<Sighting>,
    /// What ties the two ends of a move together, where the platform says.
    pub tracker: Option<usize>,
    /// Whether events may have been lost.
    pub rescan: bool,
    pub info: Option<String>,
}

/// What a native event says.
#[verifier::ext_equal]
pub struct NotifyView {
    pub kind: NotifyKind,
    pub sightings: Seq<SightingView>,
    pub tracker: Option<usize>,
    pub rescan: bool,
    pub info: Option<Text>,
}

impl View for NotifyEvent {
    type V = NotifyView;

    open spec fn view(&self) -> NotifyView {
        NotifyView {
            kind: self.kind,
            sightings: sighting_views(self.sightings@),
            tracker: self.tracker,
            rescan: self.rescan,
            info: crate::text::opt_text(self.info),
        }
    }
}

/// How much has to be read of a path that a native event names.
#[derive(Clone, Copy, Debug, PartialEq, Eq, Structural)]
pub enum Reading {
    /// Nothing: the path is not shown.
    Nothing,
    /// What stands there, but not what is in it.
    Metadata,
    /// All of it.
    Content,
}

/// How much of a path has to be read for an event.
pub open spec fn reading_of(roots: Seq<Parts>, kind: NotifyKind, path: Parts) -> Reading {
    if kind == NotifyKind::Other || crate::roots::is_hidden_below(roots, path) {
        Reading::Nothing
    } else if kind == NotifyKind::Remove || kind == NotifyKind::RenameFrom {
        Reading::Metadata
    } else {
        Reading::Content
    }
}

/// Tells how much of a path has to be read for an event.
pub fn reading(watcher: &WatchState, kind: NotifyKind, path: &FsPath) -> (reading: Reading)
    requires
        watcher@.roots.len() > 0,
    ensures
        reading == reading_of(watcher@.roots, kind, path@),
{
    if kind == NotifyKind::Other || watcher.is_ignored(path) {
        Reading::Nothing
    } else if kind == NotifyKind::Remove || kind == NotifyKind::RenameFrom {
        Reading::Metadata
    } else {
        Reading::Content
    }
}

/// The timeline and what is remembered of the paths.
#[verifier::ext_equal]
pub struct Scene {
    pub app: AppView,
    pub watch: WatchView,
}

/// What is said of a change where nothing was remembered of the path.
pub open spec fn baseline_text() -> Text {
    "baseline unavailable; the change was seen before the path was recorded"@
}

/// The diff of a path against what was remembered of it.
pub open spec fn diff_from(
    previous: Option<SnapshotView>,
    current: SnapshotView,
) -> DiffView {
    match previous {
        Some(previous) => crate::diff::diff_of(previous.content, current.content),
        None => crate::diff::unavailable(baseline_text()),
    }
}

/// The report that a path could not be inspected.
pub open spec fn inspection_report(root: Parts, detail: Text) -> IntegrityView {
    crate::model::integrity_view(
        IntegrityLevel::Degraded,
        "filesystem"@,
        "changed path could not be inspected"@,
        detail,
        root,
    )
}

/// The report that a root was removed.
pub open spec fn removal_report(root: Parts) -> IntegrityView {
    crate::model::integrity_view(
        IntegrityLevel::Lost,
        "filesystem"@,
        "watched root removed"@,
        "native observation cannot continue for this root"@,
        root,
    )
}

/// The report that native events may have been lost.
pub open spec fn rescan_report(roots: Seq<Parts>, event: NotifyView) -> IntegrityView {
    crate::model::integrity_view(
        IntegrityLevel::Uncertain,
        "filesystem"@,
        "native events may have been lost"@,
        match event.info {
            Some(info) => info,
            None => "the operating system requested a reconciliation scan"@,
        },
        if event.sightings.len() > 0 {
            crate::roots::owner(roots, event.sightings[0].path)
        } else if roots.len() > 0 {
            roots[0]
        } else {
            Parts::empty()
        },
    )
}

/// Where the other end of a move waits: where the tracker is the same, or else
/// the one that has waited longest.
pub open spec fn matching_move(pending: Seq<PendingView>, tracker: Option<usize>) -> Option<int> {
    match tracked_move(pending, tracker, 0) {
        Some(i) => Some(i),
        None => if pending.len() > 0 {
            Some(0)
        } else {
            None
        },
    }
}

/// The first move, from the `from`-th on, that has this tracker.
pub open spec fn tracked_move(
    pending: Seq<PendingView>,
    tracker: Option<usize>,
    from: int,
) -> Option<int>
    decreases pending.len() - from,
{
    if tracker is None || from < 0 || from >= pending.len() {
        None
    } else if pending[from].tracker == tracker {
        Some(from)
    } else {
        tracked_move(pending, tracker, from + 1)
    }
}

impl Scene {
    /// The scene once it has been reported that a path could not be inspected,
    /// where that is so.
    pub open spec fn reported(
        self,
        path: Parts,
        found: InspectionView,
        snapshot: SnapshotView,
        now: u64,
    ) -> Scene {
        match snapshot.read_error {
            Some(detail) if !(found is Missing) => Scene {
                app: self.app.observed(
                    inspection_report(crate::roots::owner(self.watch.roots, path), detail),
                    now,
                ),
                ..self
            },
            _ => self,
        }
    }

    /// The scene once a change is on the timeline.
    pub open spec fn emitted(self, change: FileChange, now: u64) -> Scene {
        Scene { app: self.app.emitted(self.watch.roots, change, now), ..self }
    }

    /// The scene once a path was created. A path that is remembered was modified.
    pub open spec fn created(self, one: SightingView, now: u64) -> Scene {
        if self.watch.snapshots.contains_key(one.path) {
            self.modified(one, now)
        } else {
            let snapshot = self.watch.taken_snapshot(one.path, one.found);
            (Scene { watch: self.watch.taken(one.path, one.found), ..self }).reported(
                one.path,
                one.found,
                snapshot,
                now,
            ).emitted(
                FileChange {
                    kind: ChangeKind::Create,
                    path: one.path,
                    previous_path: None,
                    size: snapshot.size,
                    is_dir: snapshot.is_dir,
                    diff: crate::diff::diff_of(Some(""@), snapshot.content),
                },
                now,
            )
        }
    }

    /// The scene once a path was modified. What is gone by now, what is a
    /// directory, and what is the same as before is not shown.
    pub open spec fn modified(self, one: SightingView, now: u64) -> Scene {
        if one.found is Missing {
            self
        } else {
            let previous = self.watch.remembered(one.path);
            let snapshot = self.watch.taken_snapshot(one.path, one.found);
            let diff = diff_from(previous, snapshot);
            let next = (Scene { watch: self.watch.taken(one.path, one.found), ..self }).reported(
                one.path,
                one.found,
                snapshot,
                now,
            );
            if snapshot.is_dir || (diff.added == 0 && diff.removed == 0 && previous is Some
                && previous->0.size == snapshot.size) {
                next
            } else {
                next.emitted(
                    FileChange {
                        kind: ChangeKind::Modify,
                        path: one.path,
                        previous_path: None,
                        size: snapshot.size,
                        is_dir: snapshot.is_dir,
                        diff,
                    },
                    now,
                )
            }
        }
    }

    /// The scene once a path was deleted.
    pub open spec fn deleted(self, one: SightingView, now: u64) -> Scene {
        let snapshot = self.watch.forgotten_snapshot(one.path, one.found is Directory);
        (Scene { watch: self.watch.forgotten(one.path), ..self }).emitted(
            crate::app::deletion(one.path, snapshot),
            now,
        )
    }

    /// The scene once it is known where a path was moved that is no longer
    /// remembered under its old name. What is below it moves along.
    pub open spec fn rename_finished(
        self,
        from: Parts,
        previous: Option<SnapshotView>,
        to: SightingView,
        now: u64,
    ) -> Scene {
        let watch = self.watch.remapped(from, to.path);
        let snapshot = watch.taken_snapshot(to.path, to.found);
        (Scene { watch: watch.taken(to.path, to.found), ..self }).emitted(
            FileChange {
                kind: ChangeKind::Rename,
                path: to.path,
                previous_path: Some(crate::roots::relative(self.watch.roots, from)),
                size: snapshot.size,
                is_dir: snapshot.is_dir,
                diff: diff_from(previous, snapshot),
            },
            now,
        )
    }

    /// The scene once a path was moved.
    pub open spec fn renamed(self, from: Parts, to: SightingView, now: u64) -> Scene {
        (Scene { watch: self.watch.forgotten(from), ..self }).rename_finished(
            from,
            self.watch.remembered(from),
            to,
            now,
        )
    }

    /// The scene once a path was moved away.
    pub open spec fn departed(
        self,
        one: SightingView,
        tracker: Option<usize>,
        now: u64,
    ) -> Scene {
        let pending = PendingView {
            path: one.path,
            snapshot: self.watch.forgotten_snapshot(one.path, one.found is Directory),
            had_baseline: self.watch.snapshots.contains_key(one.path),
            tracker,
            observed_at: now,
        };
        Scene {
            app: AppView { pending: self.app.pending.push(pending), ..self.app },
            watch: self.watch.forgotten(one.path),
        }
    }

    /// The scene once the `i`-th move has ended at a path.
    pub open spec fn arrived(self, i: int, one: SightingView, now: u64) -> Scene {
        let pending = self.app.pending[i];
        (Scene {
            app: AppView { pending: self.app.pending.remove(i), ..self.app },
            ..self
        }).rename_finished(
            pending.path,
            if pending.had_baseline {
                Some(pending.snapshot)
            } else {
                None
            },
            one,
            now,
        )
    }

    /// The scene once a path was moved of which one name alone is given: the old
    /// one where nothing stands there any more, and else the new one.
    pub open spec fn half_renamed(
        self,
        one: SightingView,
        tracker: Option<usize>,
        now: u64,
    ) -> Scene {
        if one.found is Missing {
            if self.watch.snapshots.contains_key(one.path) {
                self.departed(one, tracker, now)
            } else {
                self
            }
        } else {
            match matching_move(self.app.pending, tracker) {
                Some(i) => self.arrived(i, one, now),
                None => if self.watch.snapshots.contains_key(one.path) {
                    self.modified(one, now)
                } else {
                    self.created(one, now)
                },
            }
        }
    }

    /// The scene once the first `n` paths were created, removed or modified.
    pub open spec fn each(
        self,
        kind: NotifyKind,
        sightings: Seq<SightingView>,
        now: u64,
        n: nat,
    ) -> Scene
        decreases n,
    {
        if n == 0 {
            self
        } else {
            let earlier = self.each(kind, sightings, now, (n - 1) as nat);
            let one = sightings[n - 1];
            match kind {
                NotifyKind::Create => earlier.created(one, now),
                NotifyKind::Remove => earlier.deleted(one, now),
                _ => earlier.modified(one, now),
            }
        }
    }

    /// The scene once it has been reported which of the first `n` paths were
    /// roots.
    pub open spec fn roots_lost(
        self,
        sightings: Seq<SightingView>,
        now: u64,
        n: nat,
    ) -> Scene
        decreases n,
    {
        if n == 0 {
            self
        } else {
            let earlier = self.roots_lost(sightings, now, (n - 1) as nat);
            if self.watch.roots.contains(sightings[n - 1].path) {
                Scene {
                    app: earlier.app.observed(removal_report(sightings[n - 1].path), now),
                    ..earlier
                }
            } else {
                earlier
            }
        }
    }

    /// The scene once the paths that are shown have changed.
    pub open spec fn changed(
        self,
        kind: NotifyKind,
        sightings: Seq<SightingView>,
        tracker: Option<usize>,
        now: u64,
    ) -> Scene {
        if sightings.len() == 0 {
            self
        } else {
            match kind {
                NotifyKind::Create | NotifyKind::Remove | NotifyKind::Modify => self.each(
                    kind,
                    sightings,
                    now,
                    sightings.len(),
                ),
                NotifyKind::Rename => if sightings.len() >= 2 {
                    self.renamed(sightings[0].path, sightings[1], now)
                } else {
                    self.half_renamed(sightings[0], tracker, now)
                },
                NotifyKind::RenameFrom => self.departed(sightings[0], tracker, now),
                NotifyKind::RenameTo => match matching_move(self.app.pending, tracker) {
                    Some(i) => self.arrived(i, sightings[0], now),
                    None => self.created(sightings[0], now),
                },
                NotifyKind::Other => self,
            }
        }
    }

    /// The scene once a native event has been taken in.
    pub open spec fn notified(self, event: NotifyView, now: u64) -> Scene {
        let start = Scene { app: AppView { status: None, ..self.app }, ..self };
        if event.rescan {
            Scene {
                app: start.app.observed(rescan_report(self.watch.roots, event), now),
                ..start
            }
        } else {
            let next = if event.kind == NotifyKind::Remove {
                start.roots_lost(event.sightings, now, event.sightings.len())
            } else {
                start
            };
            next.changed(
                event.kind,
                shown_sightings(self.watch.roots, event.sightings),
                event.tracker,
                now,
            )
        }
    }
}

/// The paths that are shown.
pub open spec fn shown_sightings(
    roots: Seq<Parts>,
    sightings: Seq<SightingView>,
) -> Seq<SightingView> {
    sightings.filter(|one: SightingView| !crate::roots::is_hidden_below(roots, one.path))
}

/// The scene that a timeline and a watch state make.
pub open spec fn scene(app: AppView, watch: WatchView) -> Scene {
    Scene { app, watch }
}

/// The text of a snapshot, where it has one.
fn text_of(snapshot: &Snapshot) -> (text: Option<&str>)
    ensures
        crate::diff::opt_str(text) == snapshot@.content,
{
    match &snapshot.content {
        Some(content) => Some(content.as_str()),
        None => None,
    }
}

/// Finds where the other end of a move waits.
fn find_move(pending: &Vec<PendingRename>, tracker: Option<usize>) -> (at: Option<usize>)
    ensures
        match at {
            Some(i) => i < pending@.len() && matching_move(
                crate::app::pending_views(pending@),
                tracker,
            ) == Some(i as int),
            None => matching_move(crate::app::pending_views(pending@), tracker) is None,
        },
{
    let ghost all = crate::app::pending_views(pending@);
    if let Some(wanted) = tracker {
        let mut i: usize = 0;
        while i < pending.len()
            invariant
                i <= pending@.len(),
                tracker == Some(wanted),
                all == crate::app::pending_views(pending@),
                tracked_move(all, tracker, 0) == tracked_move(all, tracker, i as int),
            decreases pending@.len() - i,
        {
            assert(all[i as int] == pending@[i as int]@);
            if let Some(own) = pending[i].tracker {
                if own == wanted {
                    return Some(i);
                }
            }
            i += 1;
        }
    }
    if pending.len() > 0 {
        Some(0)
    } else {
        None
    }
}

impl App {
    /// Reports that a path could not be inspected, where that is so.
    fn report_snapshot_issue(
        &mut self,
        watcher: &WatchState,
        path: &FsPath,
        present: bool,
        snapshot: &Snapshot,
        now: u64,
        Ghost(found): Ghost<InspectionView>,
    )
        requires
            old(self).wf(),
            old(self)@.has_room(1),
            watcher@.roots.len() > 0,
            present == !(found is Missing),
        ensures
            final(self).wf(),
            scene(final(self)@, watcher@) == scene(old(self)@, watcher@).reported(
                path@,
                found,
                snapshot@,
                now,
            ),
            old(self)@.grew(final(self)@, 1),
    {
        if let Some(detail) = &snapshot.read_error {
            if present {
                let root = watcher.root_for(path);
                self.process_integrity(
                    integrity(
                        IntegrityLevel::Degraded,
                        "filesystem",
                        "changed path could not be inspected",
                        detail.as_str(),
                        &root,
                    ),
                    now,
                );
            }
        }
    }

    /// Takes in that a path was created.
    fn created(&mut self, watcher: &mut WatchState, one: Sighting, now: u64)
        requires
            old(self).wf(),
            old(watcher).wf(),
            old(self)@.has_room(2),
            old(watcher)@.roots.len() > 0,
        ensures
            final(self).wf(),
            final(watcher).wf(),
            scene(final(self)@, final(watcher)@) == scene(old(self)@, old(watcher)@).created(
                one@,
                now,
            ),
            old(self)@.grew(final(self)@, 2),
    {
        if watcher.previous_snapshot(&one.path).is_some() {
            self.modified(watcher, one, now);
            return;
        }
        let ghost found = one.found@;
        let present = one.found.is_present();
        let snapshot = watcher.take_snapshot(&one.path, one.found);
        self.report_snapshot_issue(watcher, &one.path, present, &snapshot, now, Ghost(found));
        let diff = build_diff(Some(""), text_of(&snapshot));
        self.emit(watcher, ChangeKind::Create, one.path, snapshot, None, diff, now);
    }

    /// Takes in that a path was modified.
    fn modified(&mut self, watcher: &mut WatchState, one: Sighting, now: u64)
        requires
            old(self).wf(),
            old(watcher).wf(),
            old(self)@.has_room(2),
            old(watcher)@.roots.len() > 0,
        ensures
            final(self).wf(),
            final(watcher).wf(),
            scene(final(self)@, final(watcher)@) == scene(old(self)@, old(watcher)@).modified(
                one@,
                now,
            ),
            old(self)@.grew(final(self)@, 2),
    {
        if !one.found.is_present() {
            return;
        }
        let ghost found = one.found@;
        let previous = match watcher.previous_snapshot(&one.path) {
            Some(snapshot) => Some(snapshot.copy()),
            None => None,
        };
        let current = watcher.take_snapshot(&one.path, one.found);
        self.report_snapshot_issue(watcher, &one.path, true, &current, now, Ghost(found));
        if current.is_dir {
            return;
        }
        let diff = match &previous {
            Some(previous) => build_diff(text_of(previous), text_of(&current)),
            None => no_diff(
                "baseline unavailable; the change was seen before the path was recorded",
            ),
        };
        if let Some(previous) = &previous {
            if diff.added == 0 && diff.removed == 0 && previous.size == current.size {
                return;
            }
        }
        self.emit(watcher, ChangeKind::Modify, one.path, current, None, diff, now);
    }

    /// Takes in that a path was deleted.
    fn deleted(&mut self, watcher: &mut WatchState, one: Sighting, now: u64)
        requires
            old(self).wf(),
            old(watcher).wf(),
            old(self)@.has_room(1),
            old(watcher)@.roots.len() > 0,
        ensures
            final(self).wf(),
            final(watcher).wf(),
            scene(final(self)@, final(watcher)@) == scene(old(self)@, old(watcher)@).deleted(
                one@,
                now,
            ),
            old(self)@.grew(final(self)@, 1),
    {
        let snapshot = watcher.remove_snapshot(&one.path, one.found.is_dir());
        self.emit_basic(watcher, ChangeKind::Delete, one.path, snapshot, None, now);
    }

    /// Takes in where a path was moved that is no longer remembered under its
    /// old name.
    fn finish_rename(
        &mut self,
        watcher: &mut WatchState,
        from: &FsPath,
        previous: Option<Snapshot>,
        to: Sighting,
        now: u64,
    )
        requires
            old(self).wf(),
            old(watcher).wf(),
            old(self)@.has_room(1),
            old(watcher)@.roots.len() > 0,
        ensures
            final(self).wf(),
            final(watcher).wf(),
            scene(final(self)@, final(watcher)@) == scene(
                old(self)@,
                old(watcher)@,
            ).rename_finished(
                from@,
                match previous {
                    Some(previous) => Some(previous@),
                    None => None,
                },
                to@,
                now,
            ),
            old(self)@.grew(final(self)@, 1),
    {
        watcher.remap_snapshot_descendants(from, &to.path);
        let current = watcher.take_snapshot(&to.path, to.found);
        let diff = match &previous {
            Some(previous) => build_diff(text_of(previous), text_of(&current)),
            None => no_diff(
                "baseline unavailable; the change was seen before the path was recorded",
            ),
        };
        let previous_path = Some(watcher.relative_path(from));
        self.emit(watcher, ChangeKind::Rename, to.path, current, previous_path, diff, now);
    }

    /// Takes in that a path was moved.
    fn renamed(&mut self, watcher: &mut WatchState, from: &FsPath, to: Sighting, now: u64)
        requires
            old(self).wf(),
            old(watcher).wf(),
            old(self)@.has_room(1),
            old(watcher)@.roots.len() > 0,
        ensures
            final(self).wf(),
            final(watcher).wf(),
            scene(final(self)@, final(watcher)@) == scene(old(self)@, old(watcher)@).renamed(
                from@,
                to@,
                now,
            ),
            old(self)@.grew(final(self)@, 1),
    {
        let had_baseline = watcher.previous_snapshot(from).is_some();
        let snapshot = watcher.remove_snapshot(from, false);
        let previous = if had_baseline {
            Some(snapshot)
        } else {
            None
        };
        self.finish_rename(watcher, from, previous, to, now);
    }

    /// Takes in that a path was moved away.
    fn depart(
        &mut self,
        watcher: &mut WatchState,
        one: Sighting,
        tracker: Option<usize>,
        now: u64,
    )
        requires
            old(self).wf(),
            old(watcher).wf(),
        ensures
            final(self).wf(),
            final(watcher).wf(),
            scene(final(self)@, final(watcher)@) == scene(old(self)@, old(watcher)@).departed(
                one@,
                tracker,
                now,
            ),
            old(self)@.grew(final(self)@, 0),
    {
        let ghost before = self@;
        let had_baseline = watcher.previous_snapshot(&one.path).is_some();
        let snapshot = watcher.remove_snapshot(&one.path, one.found.is_dir());
        let pending = PendingRename {
            path: one.path,
            snapshot,
            had_baseline,
            tracker,
            observed_at: now,
        };
        self.pending_renames.push(pending);
        assert(self@.pending =~= before.pending.push(pending@));
    }

    /// Takes in that the move at `i` has ended at a path.
    fn arrive(&mut self, watcher: &mut WatchState, i: usize, one: Sighting, now: u64)
        requires
            old(self).wf(),
            old(watcher).wf(),
            old(self)@.has_room(1),
            old(watcher)@.roots.len() > 0,
            i < old(self)@.pending.len(),
        ensures
            final(self).wf(),
            final(watcher).wf(),
            scene(final(self)@, final(watcher)@) == scene(old(self)@, old(watcher)@).arrived(
                i as int,
                one@,
                now,
            ),
            old(self)@.grew(final(self)@, 1),
    {
        let ghost before = self@;
        assert(before.pending[i as int] == self.pending_renames@[i as int]@);
        let pending = self.pending_renames.remove(i);
        assert(self@.pending =~= before.pending.remove(i as int));
        let previous = if pending.had_baseline {
            Some(pending.snapshot)
        } else {
            None
        };
        self.finish_rename(watcher, &pending.path, previous, one, now);
    }

    /// Takes in that a path was moved of which one name alone is given.
    fn half_rename(
        &mut self,
        watcher: &mut WatchState,
        one: Sighting,
        tracker: Option<usize>,
        now: u64,
    )
        requires
            old(self).wf(),
            old(watcher).wf(),
            old(self)@.has_room(2),
            old(watcher)@.roots.len() > 0,
        ensures
            final(self).wf(),
            final(watcher).wf(),
            scene(final(self)@, final(watcher)@) == scene(old(self)@, old(watcher)@).half_renamed(
                one@,
                tracker,
                now,
            ),
            old(self)@.grew(final(self)@, 2),
    {
        let known = watcher.previous_snapshot(&one.path).is_some();
        if !one.found.is_present() {
            if known {
                self.depart(watcher, one, tracker, now);
            }
            return;
        }
        match find_move(&self.pending_renames, tracker) {
            Some(i) => {
                self.arrive(watcher, i, one, now);
            },
            None => {
                if known {
                    self.modified(watcher, one, now);
                } else {
                    self.created(watcher, one, now);
                }
            },
        }
    }

    /// Takes in that paths were created, removed or modified.
    fn each(
        &mut self,
        watcher: &mut WatchState,
        kind: NotifyKind,
        sightings: Vec<Sighting>,
        now: u64,
    )
        requires
            old(self).wf(),
            old(watcher).wf(),
            old(self)@.has_room(2 * sightings@.len() as int),
            old(watcher)@.roots.len() > 0,
            kind == NotifyKind::Create || kind == NotifyKind::Remove || kind == NotifyKind::Modify,
        ensures
            final(self).wf(),
            final(watcher).wf(),
            scene(final(self)@, final(watcher)@) == scene(old(self)@, old(watcher)@).each(
                kind,
                sighting_views(sightings@),
                now,
                sightings@.len(),
            ),
            old(self)@.grew(final(self)@, 2 * sightings@.len() as int),
    {
        let ghost start = scene(self@, watcher@);
        let ghost all = sighting_views(sightings@);
        let ghost mut i: int = 0;
        let mut rest = sightings;
        assert(all.skip(0) =~= all);
        while rest.len() > 0
            invariant
                self.wf(),
                watcher.wf(),
                0 <= i <= all.len(),
                sighting_views(rest@) == all.skip(i),
                watcher@.roots.len() > 0,
                kind == NotifyKind::Create || kind == NotifyKind::Remove || kind
                    == NotifyKind::Modify,
                start.app.has_room(2 * all.len() as int),
                start.app.grew(self@, 2 * i),
                scene(self@, watcher@) == start.each(kind, all, now, i as nat),
            decreases rest@.len(),
        {
            let ghost waiting = sighting_views(rest@);
            let one = rest.remove(0);
            assert(waiting.len() > 0);
            assert(waiting[0] == one@);
            assert(all.skip(i)[0] == all[i]);
            assert(sighting_views(rest@) =~= waiting.skip(1));
            assert(all.skip(i).skip(1) =~= all.skip(i + 1));
            assert(start.each(kind, all, now, (i + 1) as nat) == (match kind {
                NotifyKind::Create => scene(self@, watcher@).created(one@, now),
                NotifyKind::Remove => scene(self@, watcher@).deleted(one@, now),
                _ => scene(self@, watcher@).modified(one@, now),
            }));
            match kind {
                NotifyKind::Create => {
                    self.created(watcher, one, now);
                },
                NotifyKind::Remove => {
                    self.deleted(watcher, one, now);
                },
                _ => {
                    self.modified(watcher, one, now);
                },
            }
            proof {
                i = i + 1;
            }
        }
        assert(i == all.len());
    }

    /// Reports which paths were roots.
    fn report_lost_roots(
        &mut self,
        watcher: &WatchState,
        sightings: &Vec<Sighting>,
        now: u64,
    )
        requires
            old(self).wf(),
            old(self)@.has_room(sightings@.len() as int),
        ensures
            final(self).wf(),
            scene(final(self)@, watcher@) == scene(old(self)@, watcher@).roots_lost(
                sighting_views(sightings@),
                now,
                sightings@.len(),
            ),
            old(self)@.grew(final(self)@, sightings@.len() as int),
    {
        let ghost start = scene(self@, watcher@);
        let ghost all = sighting_views(sightings@);
        let mut i: usize = 0;
        while i < sightings.len()
            invariant
                self.wf(),
                i <= sightings@.len(),
                all == sighting_views(sightings@),
                start.watch == watcher@,
                start.app.has_room(all.len() as int),
                start.app.grew(self@, i as int),
                scene(self@, watcher@) == start.roots_lost(all, now, i as nat),
            decreases sightings@.len() - i,
        {
            let path = &sightings[i].path;
            assert(all[i as int].path == path@);
            if watcher.is_root(path) {
                self.process_integrity(
                    integrity(
                        IntegrityLevel::Lost,
                        "filesystem",
                        "watched root removed",
                        "native observation cannot continue for this root",
                        path,
                    ),
                    now,
                );
            }
            i += 1;
        }
    }
}

/// Keeps the paths that are shown.
fn keep_shown(watcher: &WatchState, sightings: Vec<Sighting>) -> (kept: Vec<Sighting>)
    requires
        watcher@.roots.len() > 0 || sightings@.len() == 0,
    ensures
        sighting_views(kept@) == shown_sightings(watcher@.roots, sighting_views(sightings@)),
        kept@.len() <= sightings@.len(),
{
    let ghost all = sighting_views(sightings@);
    let ghost roots = watcher@.roots;
    let ghost keep = |one: SightingView| !crate::roots::is_hidden_below(roots, one.path);
    let ghost mut i: int = 0;
    let mut rest = sightings;
    let mut kept: Vec<Sighting> = Vec::new();
    proof {
        reveal_with_fuel(Seq::filter, 1);
        assert(all.skip(0) =~= all);
        assert(all.take(0).filter(keep) =~= Seq::<SightingView>::empty());
        assert(sighting_views(kept@) =~= Seq::<SightingView>::empty());
    }
    while rest.len() > 0
        invariant
            0 <= i <= all.len(),
            roots == watcher@.roots,
            roots.len() > 0 || all.len() == 0,
            keep == (|one: SightingView| !crate::roots::is_hidden_below(roots, one.path)),
            sighting_views(rest@) == all.skip(i),
            sighting_views(kept@) == all.take(i).filter(keep),
            kept@.len() <= i,
        decreases rest@.len(),
    {
        let ghost waiting = sighting_views(rest@);
        let ghost before = kept@;
        let one = rest.remove(0);
        assert(waiting.len() > 0);
        assert(waiting[0] == one@);
        assert(all.skip(i)[0] == all[i]);
        assert(sighting_views(rest@) =~= waiting.skip(1));
        assert(all.skip(i).skip(1) =~= all.skip(i + 1));
        let ghost here = one@;
        if !watcher.is_ignored(&one.path) {
            kept.push(one);
            assert(sighting_views(kept@) =~= sighting_views(before).push(here));
        }
        proof {
            assert(all.take(i + 1).drop_last() =~= all.take(i));
            assert(all.take(i + 1).last() == here);
            reveal_with_fuel(Seq::filter, 1);
            i = i + 1;
        }
    }
    assert(i == all.len());
    assert(all.take(i) =~= all);
    kept
}

impl App {
    /// Takes in a native event.
    #[verifier::rlimit(40)]
    pub fn process_notify(&mut self, watcher: &mut WatchState, event: NotifyEvent, now: u64)
        requires
            old(self).wf(),
            old(watcher).wf(),
            old(watcher)@.roots.len() > 0 || event@.sightings.len() == 0,
            old(self)@.has_room(3 * event@.sightings.len() as int + 1),
        ensures
            final(self).wf(),
            final(watcher).wf(),
            scene(final(self)@, final(watcher)@) == scene(old(self)@, old(watcher)@).notified(
                event@,
                now,
            ),
            old(self)@.grew(final(self)@, 3 * event@.sightings.len() as int + 1),
    {
        self.status = None;
        let ghost start = scene(self@, watcher@);
        if event.rescan {
            let root = if event.sightings.len() > 0 {
                assert(event@.sightings[0].path == event.sightings@[0].path@);
                watcher.root_for(&event.sightings[0].path)
            } else if watcher.roots.len() > 0 {
                assert(watcher@.roots[0] == watcher.roots@[0]@);
                watcher.roots[0].clone()
            } else {
                FsPath::empty()
            };
            let detail = match &event.info {
                Some(info) => info.as_str(),
                None => "the operating system requested a reconciliation scan",
            };
            self.process_integrity(
                integrity(
                    IntegrityLevel::Uncertain,
                    "filesystem",
                    "native events may have been lost",
                    detail,
                    &root,
                ),
                now,
            );
            return;
        }
        let tracker = event.tracker;
        let kind = event.kind;
        if kind == NotifyKind::Remove {
            self.report_lost_roots(watcher, &event.sightings, now);
        }
        let mut paths = keep_shown(watcher, event.sightings);
        let ghost shown = sighting_views(paths@);
        if paths.len() == 0 {
            return;
        }
        match kind {
            NotifyKind::Create | NotifyKind::Remove | NotifyKind::Modify => {
                self.each(watcher, kind, paths, now);
            },
            NotifyKind::Rename => {
                let first = paths.remove(0);
                assert(shown[0] == first@);
                if paths.len() > 0 {
                    let second = paths.remove(0);
                    assert(shown[1] == second@);
                    self.renamed(watcher, &first.path, second, now);
                } else {
                    self.half_rename(watcher, first, tracker, now);
                }
            },
            NotifyKind::RenameFrom => {
                let first = paths.remove(0);
                assert(shown[0] == first@);
                self.depart(watcher, first, tracker, now);
            },
            NotifyKind::RenameTo => {
                let first = paths.remove(0);
                assert(shown[0] == first@);
                match find_move(&self.pending_renames, tracker) {
                    Some(i) => {
                        self.arrive(watcher, i, first, now);
                    },
                    None => {
                        self.created(watcher, first, now);
                    },
                }
            },
            NotifyKind::Other => {},
        }
    }
}

} // verus!
