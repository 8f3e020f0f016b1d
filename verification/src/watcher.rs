//! The state of the filesystem observation: the watched folders and what is
//! remembered of the paths below them.

use crate::model::{integrity, IntegrityEvent, IntegrityLevel, IntegrityView};
use crate::path::{has_path, FsPath, Part, Parts};
use crate::path_map::PathMap;
use crate::recovery::RecoveryState;
use crate::roots::{build_root_labels, ignored, minimal_observation_roots, root_of};
use crate::snapshot::{read_snapshot, Inspection, InspectionView, Snapshot, SnapshotView};
use crate::text::{contains, decimal, join3, lowercase, Text};
use vstd::prelude::*;
use vstd::string::*;

verus! {

/// How many entries are remembered before the first screen is drawn.
pub const INITIAL_SEED_BUDGET: usize = 2048;

/// How many bytes of text are remembered, unless another limit is given.
pub const DEFAULT_SNAPSHOT_BYTES: usize = 67_108_864;

/// How many paths are remembered, unless another limit is given.
pub const DEFAULT_SNAPSHOT_ENTRIES: usize = 200_000;

/// A root whose watch has failed, and when to try again.
#[derive(Debug)]
pub struct FailedRoot {
    pub root: FsPath,
    pub state: RecoveryState,
}

/// What is known of a root whose watch has failed.
#[verifier::ext_equal]
pub struct FailedView {
    pub root: Parts,
    pub state: RecoveryState,
}

impl View for FailedRoot {
    type V = FailedView;

    open spec fn view(&self) -> FailedView {
        FailedView { root: self.root@, state: self.state }
    }
}

/// The contents of a list of failed roots.
pub open spec fn failed_views(failed: Seq<FailedRoot>) -> Seq<FailedView> {
    failed.map_values(|one: FailedRoot| one@)
}

/// The watched folders and what is remembered of the paths below them.
pub struct WatchState {
    pub roots: Vec<FsPath>,
    pub root_labels: PathMap<String>,
    pub snapshots: PathMap<Snapshot>,
    /// The folders whose paths are still being listed; the last one goes first.
    pub walks: Vec<FsPath>,
    pub failed_roots: Vec<FailedRoot>,
    pub snapshot_bytes: usize,
    pub max_snapshot_bytes: usize,
    pub max_snapshot_entries: usize,
    pub snapshot_omissions: u64,
}

/// What a watch state holds.
#[verifier::ext_equal]
pub struct WatchView {
    pub roots: Seq<Parts>,
    pub labels: Map<Parts, Text>,
    pub snapshots: Map<Parts, SnapshotView>,
    pub walks: Seq<Parts>,
    pub failed: Seq<FailedView>,
    pub max_bytes: usize,
    pub max_entries: usize,
    pub omissions: u64,
}

impl View for WatchState {
    type V = WatchView;

    open spec fn view(&self) -> WatchView {
        WatchView {
            roots: crate::path::paths_of(self.roots@),
            labels: crate::roots::label_views(self.root_labels@),
            snapshots: crate::snapshot::snapshot_views(self.snapshots@),
            walks: crate::path::paths_of(self.walks@),
            failed: failed_views(self.failed_roots@),
            max_bytes: self.max_snapshot_bytes,
            max_entries: self.max_snapshot_entries,
            omissions: self.snapshot_omissions,
        }
    }
}

/// One more than `n`, as far as numbers go.
pub open spec fn one_more(n: u64) -> u64 {
    if n < u64::MAX {
        (n + 1) as u64
    } else {
        n
    }
}

impl WatchView {
    /// The limits hold: no more paths and no more bytes are remembered than may
    /// be.
    pub open spec fn within_limits(self) -> bool {
        &&& self.snapshots.dom().finite()
        &&& self.snapshots.len() <= self.max_entries
        &&& crate::snapshot::total_bytes(self.snapshots) <= self.max_bytes
    }

    /// What is remembered of a path, as an option.
    pub open spec fn remembered(self, path: Parts) -> Option<SnapshotView> {
        if self.snapshots.contains_key(path) {
            Some(self.snapshots[path])
        } else {
            None
        }
    }

    /// What is kept of a new snapshot: all of it, or no text where there is no
    /// room for it.
    pub open spec fn admitted(self, path: Parts, snapshot: SnapshotView) -> SnapshotView {
        let others = self.snapshots.remove(path);
        if others.len() >= self.max_entries {
            SnapshotView {
                content: None,
                read_error: Some(
                    "snapshot omitted because the "@ + crate::text::decimal_text(
                        self.max_entries as nat,
                    ) + " entry memory limit is full"@,
                ),
                ..snapshot
            }
        } else if crate::snapshot::content_bytes(snapshot) + crate::snapshot::total_bytes(others)
            > self.max_bytes {
            SnapshotView {
                content: None,
                read_error: Some(
                    "snapshot content omitted because the "@ + crate::text::decimal_text(
                        self.max_bytes as nat,
                    ) + " byte memory budget is full"@,
                ),
                ..snapshot
            }
        } else {
            snapshot
        }
    }

    /// The state once a snapshot has been stored: it takes the place of the
    /// previous one of its path, unless as many paths as may be are remembered
    /// beside it.
    pub open spec fn stored(self, path: Parts, snapshot: SnapshotView) -> WatchView {
        let others = self.snapshots.remove(path);
        if others.len() >= self.max_entries {
            WatchView { snapshots: others, omissions: one_more(self.omissions), ..self }
        } else if crate::snapshot::content_bytes(snapshot) + crate::snapshot::total_bytes(others)
            > self.max_bytes {
            WatchView {
                snapshots: others.insert(path, self.admitted(path, snapshot)),
                omissions: one_more(self.omissions),
                ..self
            }
        } else {
            WatchView { snapshots: others.insert(path, snapshot), ..self }
        }
    }

    /// The state once a path has been looked at.
    pub open spec fn taken(self, path: Parts, found: InspectionView) -> WatchView {
        self.stored(path, crate::snapshot::snapshot_of(path, found))
    }

    /// The snapshot that looking at a path gives.
    pub open spec fn taken_snapshot(self, path: Parts, found: InspectionView) -> SnapshotView {
        self.admitted(path, crate::snapshot::snapshot_of(path, found))
    }

    /// The state once a path has been forgotten.
    pub open spec fn forgotten(self, path: Parts) -> WatchView {
        WatchView { snapshots: self.snapshots.remove(path), ..self }
    }

    /// What was remembered of a path that is to be forgotten, or a blank snapshot.
    pub open spec fn forgotten_snapshot(self, path: Parts, is_dir: bool) -> SnapshotView {
        if self.snapshots.contains_key(path) {
            self.snapshots[path]
        } else {
            crate::snapshot::blank(0, is_dir)
        }
    }

    /// The state once a path has been forgotten with all below it.
    pub open spec fn tree_forgotten(self, path: Parts) -> WatchView {
        WatchView { snapshots: outside_of(self.snapshots, path), ..self }
    }

    /// The state once what was below `from` stands below `to`.
    pub open spec fn remapped(self, from: Parts, to: Parts) -> WatchView {
        WatchView { snapshots: moved(self.snapshots, from, to), ..self }
    }
}

/// The snapshots of paths that do not lie under `path`.
pub open spec fn outside_of(
    snapshots: Map<Parts, SnapshotView>,
    path: Parts,
) -> Map<Parts, SnapshotView> {
    snapshots.restrict(
        Set::new(
            |other: Parts| snapshots.contains_key(other) && !crate::path::is_under(other, path),
        ),
    )
}

/// Whether a path lies below `base`, and is not `base`.
pub open spec fn is_below(path: Parts, base: Parts) -> bool {
    crate::path::is_under(path, base) && path != base
}

/// Whether a path moves along with `from`: it lies below it. Of the paths below a
/// path without components, those that begin at a root directory or a prefix stand
/// for themselves, and so does a leading dot.
pub open spec fn goes_along(path: Parts, from: Parts) -> bool {
    is_below(path, from) && (from.len() > 0 || crate::path::is_name(path[0])
        || path[0] is Parent)
}

/// Where a path below `from` stands once `from` is `to`.
pub open spec fn new_place(path: Parts, from: Parts, to: Parts) -> Parts {
    to + crate::path::stripped(path, from)
}

/// Where a path stood that stands below `to`.
pub open spec fn old_place(path: Parts, from: Parts, to: Parts) -> Parts {
    from + crate::path::stripped(path, to)
}

/// The snapshots once what moves along with `from` stands below `to`, in place of
/// what was there.
pub open spec fn moved(
    snapshots: Map<Parts, SnapshotView>,
    from: Parts,
    to: Parts,
) -> Map<Parts, SnapshotView> {
    Map::new(
        |path: Parts|
            is_moved_to(snapshots, from, to, path) || (snapshots.contains_key(path) && !goes_along(
                path,
                from,
            )),
        |path: Parts|
            if is_moved_to(snapshots, from, to, path) {
                snapshots[old_place(path, from, to)]
            } else {
                snapshots[path]
            },
    )
}

/// Whether something that is remembered moves along with `from` to `path`.
pub open spec fn is_moved_to(
    snapshots: Map<Parts, SnapshotView>,
    from: Parts,
    to: Parts,
    path: Parts,
) -> bool {
    is_below(path, to) && goes_along(old_place(path, from, to), from) && snapshots.contains_key(
        old_place(path, from, to),
    )
}

impl WatchState {
    /// The state is well formed: the tables are, the count of bytes is right, and
    /// the limits hold.
    pub open spec fn wf(&self) -> bool {
        &&& self.root_labels.wf()
        &&& self.snapshots.wf()
        &&& self.snapshot_bytes == crate::snapshot::total_bytes(self@.snapshots)
        &&& self@.within_limits()
    }

    /// Starts to observe `roots` with the usual limits.
    pub fn start(roots: Vec<FsPath>) -> (state: WatchState)
        ensures
            state.wf(),
            state@ == started(
                crate::path::paths_of(roots@),
                DEFAULT_SNAPSHOT_BYTES,
                DEFAULT_SNAPSHOT_ENTRIES,
            ),
    {
        WatchState::start_with_snapshot_budget(roots, DEFAULT_SNAPSHOT_BYTES)
    }

    /// Starts to observe `roots` with a limit on the bytes of text.
    pub fn start_with_snapshot_budget(roots: Vec<FsPath>, max_snapshot_bytes: usize) -> (state:
        WatchState)
        ensures
            state.wf(),
            state@ == started(
                crate::path::paths_of(roots@),
                max_snapshot_bytes,
                DEFAULT_SNAPSHOT_ENTRIES,
            ),
    {
        WatchState::start_with_snapshot_limits(
            roots,
            max_snapshot_bytes,
            DEFAULT_SNAPSHOT_ENTRIES,
        )
    }

    /// Starts to observe `roots`: nothing is remembered yet, and the paths below
    /// the roots that have to be watched are to be listed.
    pub fn start_with_snapshot_limits(
        roots: Vec<FsPath>,
        max_snapshot_bytes: usize,
        max_snapshot_entries: usize,
    ) -> (state: WatchState)
        ensures
            state.wf(),
            state@ == started(
                crate::path::paths_of(roots@),
                max_snapshot_bytes,
                max_snapshot_entries,
            ),
    {
        let walks = minimal_observation_roots(&roots);
        let root_labels = build_root_labels(&roots);
        let state = WatchState {
            roots,
            root_labels,
            snapshots: PathMap::new(),
            walks,
            failed_roots: Vec::new(),
            snapshot_bytes: 0,
            max_snapshot_bytes,
            max_snapshot_entries,
            snapshot_omissions: 0,
        };
        assert(state@.snapshots =~= Map::<Parts, SnapshotView>::empty());
        assert(state@.failed =~= Seq::<FailedView>::empty());
        state
    }
}

/// The state in which the observation of `roots` starts.
pub open spec fn started(roots: Seq<Parts>, max_bytes: usize, max_entries: usize) -> WatchView {
    WatchView {
        roots,
        labels: crate::roots::labels_of(roots),
        snapshots: Map::empty(),
        walks: crate::roots::minimal_roots(roots),
        failed: Seq::empty(),
        max_bytes,
        max_entries,
        omissions: 0,
    }
}

/// What holds of the snapshots' contents once a path has been taken out.
proof fn lemma_views_removed(snapshots: Map<Parts, Snapshot>, path: Parts)
    ensures
        crate::snapshot::snapshot_views(snapshots.remove(path))
            == crate::snapshot::snapshot_views(snapshots).remove(path),
        crate::snapshot::snapshot_views(snapshots).dom() == snapshots.dom(),
        snapshots.contains_key(path) ==> crate::snapshot::snapshot_views(snapshots)[path]
            == snapshots[path]@,
{
    assert(crate::snapshot::snapshot_views(snapshots).dom() =~= snapshots.dom());
    assert(crate::snapshot::snapshot_views(snapshots.remove(path))
        =~= crate::snapshot::snapshot_views(snapshots).remove(path));
}

/// What holds of the snapshots' contents once one has been put in.
proof fn lemma_views_inserted(snapshots: Map<Parts, Snapshot>, path: Parts, snapshot: Snapshot)
    ensures
        crate::snapshot::snapshot_views(snapshots.insert(path, snapshot))
            == crate::snapshot::snapshot_views(snapshots).insert(path, snapshot@),
        crate::snapshot::snapshot_views(snapshots).dom() == snapshots.dom(),
{
    assert(crate::snapshot::snapshot_views(snapshots).dom() =~= snapshots.dom());
    assert(crate::snapshot::snapshot_views(snapshots.insert(path, snapshot))
        =~= crate::snapshot::snapshot_views(snapshots).insert(path, snapshot@));
}

impl WatchState {
    /// Forgets `path` and returns what was remembered of it.
    fn forget(&mut self, path: &FsPath) -> (snapshot: Option<Snapshot>)
        requires
            old(self).wf(),
        ensures
            final(self).wf(),
            final(self)@ == old(self)@.forgotten(path@),
            match snapshot {
                Some(snapshot) => old(self)@.remembered(path@) == Some(snapshot@),
                None => old(self)@.remembered(path@) is None,
            },
    {
        let ghost before = self.snapshots@;
        proof {
            lemma_views_removed(before, path@);
        }
        match self.snapshots.remove(path) {
            Some(snapshot) => {
                proof {
                    crate::snapshot::lemma_total_removed(
                        crate::snapshot::snapshot_views(before),
                        path@,
                    );
                }
                self.snapshot_bytes = self.snapshot_bytes - snapshot.content_bytes();
                Some(snapshot)
            },
            None => {
                assert(self@.snapshots =~= crate::snapshot::snapshot_views(before));
                None
            },
        }
    }

    /// Remembers `snapshot` of a path of which nothing is remembered.
    fn remember(&mut self, path: FsPath, snapshot: Snapshot)
        requires
            old(self).wf(),
            old(self)@.snapshots.len() < old(self)@.max_entries,
            !old(self)@.snapshots.contains_key(path@),
            crate::snapshot::content_bytes(snapshot@) + crate::snapshot::total_bytes(
                old(self)@.snapshots,
            ) <= old(self)@.max_bytes,
        ensures
            final(self).wf(),
            final(self)@ == (WatchView {
                snapshots: old(self)@.snapshots.insert(path@, snapshot@),
                ..old(self)@
            }),
    {
        let ghost before = self.snapshots@;
        let ghost views = self@.snapshots;
        proof {
            lemma_views_inserted(before, path@, snapshot);
            crate::snapshot::lemma_total_inserted(views, path@, snapshot@);
            assert(views.remove(path@) =~= views);
        }
        self.snapshot_bytes = self.snapshot_bytes + snapshot.content_bytes();
        self.snapshots.insert(path, snapshot);
    }

    /// Notes that something could not be remembered.
    fn omit(&mut self)
        requires
            old(self).wf(),
        ensures
            final(self).wf(),
            final(self)@ == (WatchView {
                omissions: one_more(old(self)@.omissions),
                ..old(self)@
            }),
    {
        if self.snapshot_omissions < u64::MAX {
            self.snapshot_omissions = self.snapshot_omissions + 1;
        }
    }

    /// Stores a snapshot of `path`, and returns what is kept of it.
    pub fn store_snapshot(&mut self, path: FsPath, snapshot: Snapshot) -> (kept: Snapshot)
        requires
            old(self).wf(),
        ensures
            final(self).wf(),
            final(self)@ == old(self)@.stored(path@, snapshot@),
            kept@ == old(self)@.admitted(path@, snapshot@),
    {
        let _ = self.forget(&path);
        let mut snapshot = snapshot;
        proof {
            lemma_views_removed(self.snapshots@, path@);
        }
        if self.snapshots.len() >= self.max_snapshot_entries {
            snapshot.content = None;
            snapshot.read_error = Some(
                join3(
                    "snapshot omitted because the ",
                    decimal(self.max_snapshot_entries as u64).as_str(),
                    " entry memory limit is full",
                ),
            );
            self.omit();
            return snapshot;
        }
        let content_bytes: usize = snapshot.content_bytes();
        if content_bytes > self.max_snapshot_bytes - self.snapshot_bytes {
            snapshot.content = None;
            snapshot.read_error = Some(
                join3(
                    "snapshot content omitted because the ",
                    decimal(self.max_snapshot_bytes as u64).as_str(),
                    " byte memory budget is full",
                ),
            );
            self.omit();
        }
        let kept = snapshot.copy();
        self.remember(path, snapshot);
        kept
    }

    /// Remembers what was found at `path`.
    pub fn take_snapshot(&mut self, path: &FsPath, found: Inspection) -> (kept: Snapshot)
        requires
            old(self).wf(),
        ensures
            final(self).wf(),
            final(self)@ == old(self)@.taken(path@, found@),
            kept@ == old(self)@.taken_snapshot(path@, found@),
    {
        let snapshot = read_snapshot(path, found);
        self.store_snapshot(path.clone(), snapshot)
    }

    /// Forgets `path` and returns what was remembered of it, or else a blank
    /// snapshot of what stands there: a directory or not.
    pub fn remove_snapshot(&mut self, path: &FsPath, is_dir: bool) -> (snapshot: Snapshot)
        requires
            old(self).wf(),
        ensures
            final(self).wf(),
            final(self)@ == old(self)@.forgotten(path@),
            snapshot@ == old(self)@.forgotten_snapshot(path@, is_dir),
    {
        match self.forget(path) {
            Some(snapshot) => snapshot,
            None => Snapshot::blank(0, is_dir),
        }
    }

    /// Forgets `path` and all below it.
    pub fn remove_snapshot_tree(&mut self, path: &FsPath)
        requires
            old(self).wf(),
        ensures
            final(self).wf(),
            final(self)@ == old(self)@.tree_forgotten(path@),
    {
        let paths = self.snapshots.paths();
        let ghost before = self@;
        let ghost known = crate::path::paths_of(paths@);
        let mut i: usize = 0;
        proof {
            lemma_views_removed(self.snapshots@, path@);
            assert forall|other: Parts|
                before.snapshots.contains_key(other) implies known.contains(other) by {
                assert(self.snapshots@.dom().contains(other));
            }
            assert(before.snapshots =~= before.snapshots.restrict(
                Set::new(|other: Parts| spared(before.snapshots, known, 0, path@, other)),
            ));
        }
        while i < paths.len()
            invariant
                i <= paths@.len(),
                known == crate::path::paths_of(paths@),
                self.wf(),
                self@ == (WatchView {
                    snapshots: before.snapshots.restrict(
                        Set::new(
                            |other: Parts| spared(before.snapshots, known, i as int, path@, other),
                        ),
                    ),
                    ..before
                }),
            decreases paths@.len() - i,
        {
            let ghost previous = self@;
            assert(known[i as int] == paths@[i as int]@);
            if paths[i].is_under(path) {
                let _ = self.forget(&paths[i]);
            }
            proof {
                assert forall|other: Parts|
                    spared(before.snapshots, known, i + 1, path@, other) == (spared(
                        before.snapshots,
                        known,
                        i as int,
                        path@,
                        other,
                    ) && !(other == known[i as int] && crate::path::is_under(other, path@))) by {
                    assert(known.take(i + 1).last() == known[i as int]);
                    assert(known.take(i + 1).drop_last() =~= known.take(i as int));
                    lemma_push_contains(known, i as int, other);
                }
                assert(self@.snapshots =~= before.snapshots.restrict(
                    Set::new(|other: Parts| spared(before.snapshots, known, i + 1, path@, other)),
                ));
            }
            i += 1;
        }
        proof {
            assert(known.take(i as int) =~= known);
            assert(self@.snapshots =~= outside_of(before.snapshots, path@));
        }
    }
}

/// Whether a path is still remembered once those of the first `n` known paths
/// have been forgotten that lie under `path`.
spec fn spared(
    snapshots: Map<Parts, SnapshotView>,
    known: Seq<Parts>,
    n: int,
    path: Parts,
    other: Parts,
) -> bool {
    snapshots.contains_key(other) && !(crate::path::is_under(other, path) && known.take(n).contains(
        other,
    ))
}

/// The first `n + 1` items are the first `n` and the next.
pub proof fn lemma_push_contains(items: Seq<Parts>, n: int, other: Parts)
    requires
        0 <= n < items.len(),
    ensures
        items.take(n + 1).contains(other) == (items.take(n).contains(other) || other == items[n]),
{
    if items.take(n).contains(other) {
        let k = choose|k: int| 0 <= k < n && items.take(n)[k] == other;
        assert(items.take(n + 1)[k] == other);
    }
    if other == items[n] {
        assert(items.take(n + 1)[n] == other);
    }
    if items.take(n + 1).contains(other) && other != items[n] {
        let more = items.take(n + 1);
        let k = choose|k: int| 0 <= k < more.len() && more[k] == other;
        assert(items.take(n)[k] == other);
    }
}

/// How many bytes of text the snapshots of a list hold.
spec fn listed_bytes(pairs: Seq<(FsPath, Snapshot)>) -> nat
    decreases pairs.len(),
{
    if pairs.len() == 0 {
        0
    } else {
        listed_bytes(pairs.drop_last()) + crate::snapshot::content_bytes(pairs.last().1@)
    }
}

/// Old and new places correspond to one another.
proof fn lemma_places(from: Parts, to: Parts)
    ensures
        forall|path: Parts| #[trigger]
            is_below(path, from) ==> is_below(new_place(path, from, to), to) && old_place(
                new_place(path, from, to),
                from,
                to,
            ) == path,
        forall|path: Parts| #[trigger]
            is_below(path, to) ==> is_below(old_place(path, from, to), from) && new_place(
                old_place(path, from, to),
                from,
                to,
            ) == path,
{
    assert forall|path: Parts, a: Parts, b: Parts| #[trigger]
        is_below(path, a) implies is_below(#[trigger] new_place(path, a, b), b) && old_place(
        new_place(path, a, b),
        a,
        b,
    ) == path by {
        let there = new_place(path, a, b);
        let rest = crate::path::stripped(path, a);
        if path.len() == a.len() {
            assert(path.subrange(0, a.len() as int) =~= path);
        }
        assert(there.subrange(0, b.len() as int) =~= b);
        assert(there.len() > b.len());
        assert(crate::path::stripped(there, b) =~= rest);
        assert(path.subrange(0, a.len() as int) + rest =~= path);
    }
    assert forall|path: Parts| #[trigger] is_below(path, to) implies is_below(
        old_place(path, from, to),
        from,
    ) && new_place(old_place(path, from, to), from, to) == path by {
        assert(old_place(path, from, to) == new_place(path, to, from));
        assert(new_place(old_place(path, from, to), from, to) == old_place(
            new_place(path, to, from),
            to,
            from,
        ));
    }
}

/// Tests whether a path moves along with `from`.
fn moves_along(path: &FsPath, from: &FsPath) -> (b: bool)
    ensures
        b == goes_along(path@, from@),
{
    if !path.is_under(from) || path.same(from) {
        return false;
    }
    if !from.is_empty() {
        return true;
    }
    assert(path@.len() > 0) by {
        if path@.len() == 0 {
            assert(path@ =~= from@);
        }
    }
    assert(path@[0] == path.parts@[0]@);
    match &path.parts[0] {
        Part::Normal(_) => true,
        Part::Foreign { .. } => true,
        Part::Parent => true,
        _ => false,
    }
}

/// Whether a list of the first `n` known paths holds `path`, and it moves along
/// with `from`.
spec fn picked(known: Seq<Parts>, n: int, from: Parts, path: Parts) -> bool {
    goes_along(path, from) && known.take(n).contains(path)
}

impl WatchState {
    /// Forgets all that moves along with `from` and returns what was remembered of
    /// it.
    fn take_below(&mut self, from: &FsPath) -> (pairs: Vec<(FsPath, Snapshot)>)
        requires
            old(self).wf(),
        ensures
            final(self).wf(),
            final(self)@ == (WatchView {
                snapshots: old(self)@.snapshots.restrict(
                    Set::new(
                        |path: Parts|
                            old(self)@.snapshots.contains_key(path) && !goes_along(path, from@),
                    ),
                ),
                ..old(self)@
            }),
            forall|i: int|
                #![trigger pairs@[i]]
                0 <= i < pairs@.len() ==> goes_along(pairs@[i].0@, from@)
                    && old(self)@.snapshots.contains_key(pairs@[i].0@)
                    && old(self)@.snapshots[pairs@[i].0@] == pairs@[i].1@,
            forall|path: Parts|
                #![trigger goes_along(path, from@)]
                goes_along(path, from@) && old(self)@.snapshots.contains_key(path) ==> exists|i: int|
                    0 <= i < pairs@.len() && (#[trigger] pairs@[i]).0@ == path,
            forall|i: int, j: int|
                0 <= i < j < pairs@.len() ==> (#[trigger] pairs@[i]).0@ != (
                #[trigger] pairs@[j]).0@,
            crate::snapshot::total_bytes(final(self)@.snapshots) + listed_bytes(pairs@)
                == crate::snapshot::total_bytes(old(self)@.snapshots),
            final(self)@.snapshots.len() + pairs@.len() == old(self)@.snapshots.len(),
    {
        let paths = self.snapshots.paths();
        let ghost before = self@;
        let ghost known = crate::path::paths_of(paths@);
        let mut pairs: Vec<(FsPath, Snapshot)> = Vec::new();
        let mut i: usize = 0;
        proof {
            lemma_views_removed(self.snapshots@, from@);
            assert(before.snapshots =~= before.snapshots.restrict(
                Set::new(
                    |path: Parts|
                        before.snapshots.contains_key(path) && !picked(known, 0, from@, path),
                ),
            ));
        }
        while i < paths.len()
            invariant
                i <= paths@.len(),
                known == crate::path::paths_of(paths@),
                known.no_duplicates(),
                forall|path: Parts| #[trigger]
                    known.contains(path) <==> before.snapshots.contains_key(path),
                self.wf(),
                before.snapshots.dom().finite(),
                self@ == (WatchView {
                    snapshots: before.snapshots.restrict(
                        Set::new(
                            |path: Parts|
                                before.snapshots.contains_key(path) && !picked(
                                    known,
                                    i as int,
                                    from@,
                                    path,
                                ),
                        ),
                    ),
                    ..before
                }),
                forall|k: int|
                    #![trigger pairs@[k]]
                    0 <= k < pairs@.len() ==> picked(known, i as int, from@, pairs@[k].0@)
                        && before.snapshots.contains_key(pairs@[k].0@)
                        && before.snapshots[pairs@[k].0@] == pairs@[k].1@,
                forall|path: Parts| #[trigger]
                    picked(known, i as int, from@, path) ==> exists|k: int|
                        0 <= k < pairs@.len() && (#[trigger] pairs@[k]).0@ == path,
                forall|k: int, m: int|
                    0 <= k < m < pairs@.len() ==> (#[trigger] pairs@[k]).0@ != (
                    #[trigger] pairs@[m]).0@,
                crate::snapshot::total_bytes(self@.snapshots) + listed_bytes(pairs@)
                    == crate::snapshot::total_bytes(before.snapshots),
                self@.snapshots.len() + pairs@.len() == before.snapshots.len(),
            decreases paths@.len() - i,
        {
            let ghost previous = self@;
            let ghost listed = pairs@;
            let ghost here = known[i as int];
            assert(here == paths@[i as int]@);
            assert(known.contains(here));
            proof {
                assert forall|path: Parts| #[trigger]
                    picked(known, i + 1, from@, path) == (picked(known, i as int, from@, path)
                        || (path == here && goes_along(path, from@))) by {
                    lemma_push_contains(known, i as int, path);
                }
                if known.take(i as int).contains(here) {
                    let k = choose|k: int| 0 <= k < i && known.take(i as int)[k] == here;
                    assert(known[k] == known[i as int]);
                }
                assert(!picked(known, i as int, from@, here));
            }
            if moves_along(&paths[i], from) {
                assert(previous.snapshots.contains_key(here));
                proof {
                    crate::snapshot::lemma_total_removed(previous.snapshots, here);
                }
                match self.forget(&paths[i]) {
                    Some(snapshot) => {
                        let path = paths[i].clone();
                        pairs.push((path, snapshot));
                        assert(pairs@.drop_last() =~= listed);
                    },
                    None => {},
                }
                assert(pairs@.len() == listed.len() + 1);
                assert(forall|k: int| 0 <= k < listed.len() ==> pairs@[k] == listed[k]);
                assert(picked(known, i + 1, from@, here));
                assert forall|path: Parts| #[trigger] picked(known, i + 1, from@, path) implies exists|
                    k: int,
                |
                    0 <= k < pairs@.len() && (#[trigger] pairs@[k]).0@ == path by {
                    if path == here {
                        assert(pairs@[listed.len() as int].0@ == path);
                    } else {
                        let k = choose|k: int|
                            0 <= k < listed.len() && (#[trigger] listed[k]).0@ == path;
                        assert(pairs@[k].0@ == path);
                    }
                }
            }
            proof {
                assert(self@.snapshots =~= before.snapshots.restrict(
                    Set::new(
                        |path: Parts|
                            before.snapshots.contains_key(path) && !picked(
                                known,
                                i + 1,
                                from@,
                                path,
                            ),
                    ),
                ));
            }
            i += 1;
        }
        proof {
            assert(known.take(i as int) =~= known);
            assert forall|path: Parts|
                #![trigger goes_along(path, from@)]
                goes_along(path, from@) && before.snapshots.contains_key(path) implies exists|k: int|
                0 <= k < pairs@.len() && (#[trigger] pairs@[k]).0@ == path by {
                assert(picked(known, i as int, from@, path));
            }
            assert(self@.snapshots =~= before.snapshots.restrict(
                Set::new(
                    |path: Parts|
                        before.snapshots.contains_key(path) && !goes_along(path, from@),
                ),
            ));
        }
        pairs
    }
}

/// The snapshots `base`, with those of the list put at the new places of their
/// paths.
spec fn with_listed(
    base: Map<Parts, SnapshotView>,
    pairs: Seq<(FsPath, Snapshot)>,
    from: Parts,
    to: Parts,
    path: Parts,
) -> Option<SnapshotView> {
    if exists|i: int|
        0 <= i < pairs.len() && new_place((#[trigger] pairs[i]).0@, from, to) == path {
        let i = choose|i: int|
            0 <= i < pairs.len() && new_place((#[trigger] pairs[i]).0@, from, to) == path;
        Some(pairs[i].1@)
    } else if base.contains_key(path) {
        Some(base[path])
    } else {
        None
    }
}

impl WatchState {
    /// Takes what is remembered of the paths that move along with `from` to be below
    /// `to`, in place of what was remembered there.
    pub fn remap_snapshot_descendants(&mut self, from: &FsPath, to: &FsPath)
        requires
            old(self).wf(),
        ensures
            final(self).wf(),
            final(self)@ == old(self)@.remapped(from@, to@),
    {
        let ghost before = self@;
        let mut pairs = self.take_below(from);
        let ghost all = pairs@;
        let ghost base = self@.snapshots;
        proof {
            lemma_places(from@, to@);
            assert forall|path: Parts| #![trigger self@.snapshots.dom().contains(path)]
                with_listed(base, all.skip(all.len() as int), from@, to@, path)
                    == self@.remembered(path) by {}
        }
        while pairs.len() > 0
            invariant
                self.wf(),
                pairs@ == all.take(pairs@.len() as int),
                pairs@.len() <= all.len(),
                self@ == (WatchView { snapshots: self@.snapshots, ..before }),
                forall|i: int|
                    #![trigger all[i]]
                    0 <= i < all.len() ==> goes_along(all[i].0@, from@),
                forall|i: int, j: int|
                    0 <= i < j < all.len() ==> (#[trigger] all[i]).0@ != (#[trigger] all[j]).0@,
                forall|path: Parts| #[trigger]
                    goes_along(path, from@) ==> old_place(
                        new_place(path, from@, to@),
                        from@,
                        to@,
                    ) == path,
                forall|path: Parts|
                    #![trigger self@.snapshots.dom().contains(path)]
                    with_listed(base, all.skip(pairs@.len() as int), from@, to@, path)
                        == self@.remembered(path),
                crate::snapshot::total_bytes(self@.snapshots) + listed_bytes(pairs@)
                    <= before.max_bytes,
                self@.snapshots.len() + pairs@.len() <= before.max_entries,
            decreases pairs@.len(),
        {
            let ghost count = pairs@.len() as int;
            let ghost last = all[count - 1];
            match pairs.pop() {
                Some((path, snapshot)) => {
                    assert(pairs@ =~= all.take(count - 1));
                    assert(last == (path, snapshot));
                    let ghost was = pairs@.push(last);
                    assert(was.drop_last() =~= pairs@);
                    assert(was =~= all.take(count));
                    let rest = path.tail(from.parts.len());
                    let mut place = to.clone();
                    place.extend(&rest);
                    assert(place@ == new_place(path@, from@, to@));
                    let ghost previous = self@;
                    proof {
                        if previous.snapshots.contains_key(place@) {
                            crate::snapshot::lemma_total_removed(previous.snapshots, place@);
                        } else {
                            assert(previous.snapshots.remove(place@) =~= previous.snapshots);
                        }
                    }
                    let _ = self.forget(&place);
                    let ghost here = place@;
                    self.remember(place, snapshot);
                    proof {
                        crate::snapshot::lemma_total_inserted(
                            previous.snapshots,
                            here,
                            snapshot@,
                        );
                        assert(self@.snapshots =~= previous.snapshots.insert(here, snapshot@));
                        assert(listed_bytes(was) == listed_bytes(pairs@)
                            + crate::snapshot::content_bytes(snapshot@));
                        assert forall|other: Parts|
                            #![trigger self@.snapshots.dom().contains(other)]
                            with_listed(base, all.skip(count - 1), from@, to@, other)
                                == self@.remembered(other) by {
                            lemma_with_listed(base, all, count - 1, from@, to@, other);
                            assert(previous.snapshots.dom().contains(other)
                                == previous.snapshots.contains_key(other));
                        }
                    }
                },
                None => {},
            }
        }
        proof {
            assert(all.skip(0) =~= all);
            assert forall|path: Parts|
                #![trigger self@.snapshots.dom().contains(path)]
                self@.snapshots.contains_key(path) == moved(
                    before.snapshots,
                    from@,
                    to@,
                ).contains_key(path) && (self@.snapshots.contains_key(path)
                    ==> self@.snapshots[path] == moved(before.snapshots, from@, to@)[path]) by {
                lemma_places(from@, to@);
                assert(with_listed(base, all, from@, to@, path) == self@.remembered(path));
                let source = old_place(path, from@, to@);
                if is_moved_to(before.snapshots, from@, to@, path) {
                    assert(goes_along(source, from@));
                    let i = choose|i: int| 0 <= i < all.len() && (#[trigger] all[i]).0@ == source;
                    assert(new_place(all[i].0@, from@, to@) == path);
                    let k = choose|k: int|
                        0 <= k < all.len() && new_place((#[trigger] all[k]).0@, from@, to@) == path;
                    assert(all[k].0@ == old_place(path, from@, to@));
                } else if exists|i: int|
                    0 <= i < all.len() && new_place((#[trigger] all[i]).0@, from@, to@) == path {
                    let i = choose|i: int|
                        0 <= i < all.len() && new_place((#[trigger] all[i]).0@, from@, to@) == path;
                    assert(goes_along(all[i].0@, from@));
                    assert(is_below(path, to@));
                }
            }
            assert(self@.snapshots =~= moved(before.snapshots, from@, to@));
        }
    }
}

/// One more snapshot of the list takes its new place.
proof fn lemma_with_listed(
    base: Map<Parts, SnapshotView>,
    all: Seq<(FsPath, Snapshot)>,
    k: int,
    from: Parts,
    to: Parts,
    path: Parts,
)
    requires
        0 <= k < all.len(),
        forall|i: int|
            #![trigger all[i]]
            0 <= i < all.len() ==> goes_along(all[i].0@, from),
        forall|i: int, j: int|
            0 <= i < j < all.len() ==> (#[trigger] all[i]).0@ != (#[trigger] all[j]).0@,
        forall|other: Parts| #[trigger]
            goes_along(other, from) ==> old_place(new_place(other, from, to), from, to) == other,
    ensures
        with_listed(base, all.skip(k), from, to, path) == (if new_place(all[k].0@, from, to)
            == path {
            Some(all[k].1@)
        } else {
            with_listed(base, all.skip(k + 1), from, to, path)
        }),
{
    let now = all.skip(k);
    let later = all.skip(k + 1);
    assert(now[0] == all[k]);
    assert(forall|i: int| 0 <= i < later.len() ==> #[trigger] later[i] == now[i + 1]);
    if new_place(all[k].0@, from, to) == path {
        let i = choose|i: int|
            0 <= i < now.len() && new_place((#[trigger] now[i]).0@, from, to) == path;
        assert(now[i] == all[k + i]);
        assert(goes_along(all[k + i].0@, from) && goes_along(all[k].0@, from));
        assert(all[k + i].0@ == all[k].0@);
    } else if exists|i: int|
        0 <= i < later.len() && new_place((#[trigger] later[i]).0@, from, to) == path {
        let i = choose|i: int|
            0 <= i < later.len() && new_place((#[trigger] later[i]).0@, from, to) == path;
        assert(later[i] == all[k + 1 + i]);
        assert(now[i + 1] == later[i]);
        let j = choose|j: int|
            0 <= j < now.len() && new_place((#[trigger] now[j]).0@, from, to) == path;
        assert(now[j] == all[k + j]);
        assert(goes_along(all[k + j].0@, from) && goes_along(all[k + 1 + i].0@, from));
        assert(all[k + j].0@ == all[k + 1 + i].0@);
        assert(k + j == k + 1 + i);
    } else if exists|j: int|
        0 <= j < now.len() && new_place((#[trigger] now[j]).0@, from, to) == path {
        let j = choose|j: int|
            0 <= j < now.len() && new_place((#[trigger] now[j]).0@, from, to) == path;
        assert(now[j] == later[j - 1]);
    }
}

/// Where a root stands in a list, if it stands there.
pub open spec fn place_of(roots: Seq<Parts>, root: Parts, from: int) -> Option<int>
    decreases roots.len() - from,
{
    if from < 0 || from >= roots.len() {
        None
    } else if roots[from] == root {
        Some(from)
    } else {
        place_of(roots, root, from + 1)
    }
}

impl WatchView {
    /// The number of a root, and that of the first root for a path that is none.
    pub open spec fn index_of_root(self, root: Parts) -> int {
        match place_of(self.roots, root, 0) {
            Some(i) => i,
            None => 0,
        }
    }

    /// How a root is called.
    pub open spec fn label(self, root: Parts) -> Text {
        if self.labels.contains_key(root) {
            self.labels[root]
        } else {
            crate::path::path_text(root)
        }
    }

    /// Whether a folder has to be watched on its own account to be observed: it
    /// is no root, and lies under none.
    pub open spec fn lies_apart(self, root: Parts) -> bool {
        forall|i: int|
            0 <= i < self.roots.len() ==> !crate::path::is_under(root, #[trigger] self.roots[i])
    }

    /// The state once a folder has been made a root.
    pub open spec fn joined(self, root: Parts) -> WatchView {
        let roots = self.roots.push(root);
        WatchView {
            roots,
            labels: crate::roots::labels_of(roots),
            walks: if self.lies_apart(root) {
                self.walks.push(root)
            } else {
                self.walks
            },
            ..self
        }
    }

    /// The state once the watch of a root has failed.
    pub open spec fn failing(self, root: Parts, now: u64) -> WatchView {
        WatchView {
            failed: if has_failed(self.failed, root) {
                self.failed
            } else {
                self.failed.push(FailedView { root, state: RecoveryState::failed_at(now) })
            },
            ..self.tree_forgotten(root)
        }
    }

    /// The state once the watches that were due have been tried: `watched` says
    /// of each in turn whether it was set up.
    pub open spec fn retried(self, watched: Seq<bool>, now: u64) -> WatchView {
        let result = retries(self.failed, watched, now, self.failed.len());
        WatchView { failed: result.failed, walks: self.walks + result.recovered, ..self }
    }

    /// The state once a path has been listed.
    pub open spec fn seeded(self, reply: SeedView) -> WatchView {
        match reply {
            SeedView::Entry { path, found } => if found is Missing || self.snapshots.contains_key(
                path,
            ) {
                self
            } else {
                self.taken(path, found)
            },
            SeedView::Failed => self,
            SeedView::Exhausted => WatchView {
                walks: if self.walks.len() > 0 {
                    self.walks.drop_last()
                } else {
                    self.walks
                },
                ..self
            },
        }
    }
}

/// Where the listing of folders stands: the state, and how many entries there have
/// been since the listing was last taken up.
#[verifier::ext_equal]
pub struct SeedRun {
    pub state: WatchView,
    pub processed: nat,
}

impl SeedRun {
    /// Whether another step is taken.
    pub open spec fn goes_on(self, budget: nat) -> bool {
        self.processed < budget && self.state.walks.len() > 0
    }

    /// Where the listing stands after one more step.
    pub open spec fn stepped(self, reply: SeedView) -> SeedRun {
        SeedRun {
            state: self.state.seeded(reply),
            processed: if reply is Exhausted {
                self.processed
            } else {
                self.processed + 1
            },
        }
    }
}

/// Where the listing stands after the first `n` of some replies.
pub open spec fn seed_run(start: WatchView, replies: Seq<SeedView>, n: nat) -> SeedRun
    decreases n,
{
    if n == 0 {
        SeedRun { state: start, processed: 0 }
    } else {
        seed_run(start, replies, (n - 1) as nat).stepped(replies[n - 1])
    }
}

/// Whether some replies were each asked for while there was reason to go on.
pub open spec fn is_seed_run(start: WatchView, replies: Seq<SeedView>, budget: nat) -> bool {
    forall|n: nat| n < replies.len() ==> (#[trigger] seed_run(start, replies, n)).goes_on(budget)
}

/// How many of the first `n` replies ended the listing of a folder.
pub open spec fn listings_ended(replies: Seq<SeedView>, n: nat) -> nat
    decreases n,
{
    if n == 0 {
        0
    } else {
        listings_ended(replies, (n - 1) as nat) + (if replies[n - 1] is Exhausted {
            1nat
        } else {
            0nat
        })
    }
}

/// Every step of a run counts an entry or ends a listing, no step is taken without
/// need, and nothing but the end of a listing takes a folder off the list.
pub proof fn lemma_seed_run(start: WatchView, replies: Seq<SeedView>, budget: nat, n: nat)
    requires
        is_seed_run(start, replies, budget),
        n <= replies.len(),
    ensures
        seed_run(start, replies, n).processed <= budget,
        seed_run(start, replies, n).processed + listings_ended(replies, n) == n,
        seed_run(start, replies, n).state.walks.len() + listings_ended(replies, n)
            == start.walks.len(),
    decreases n,
{
    if n > 0 {
        lemma_seed_run(start, replies, budget, (n - 1) as nat);
        assert(seed_run(start, replies, (n - 1) as nat).goes_on(budget));
    }
}

/// However a folder turns out, taking up its listing counts no more entries than
/// the budget, and takes no more steps than the budget and the folders to be listed
/// allow. It stops with entries left only once the budget is spent.
pub proof fn seeding_keeps_to_its_budget(
    start: WatchView,
    replies: Seq<SeedView>,
    budget: nat,
)
    requires
        is_seed_run(start, replies, budget),
    ensures
        seed_run(start, replies, replies.len()).processed <= budget,
        replies.len() <= budget + start.walks.len(),
        !seed_run(start, replies, replies.len()).goes_on(budget) ==> seed_run(
            start,
            replies,
            replies.len(),
        ).processed == budget || seed_run(start, replies, replies.len()).state.walks.len() == 0,
{
    lemma_seed_run(start, replies, budget, replies.len());
}

/// Whether a root is among the failed ones.
pub open spec fn has_failed(failed: Seq<FailedView>, root: Parts) -> bool {
    exists|i: int| 0 <= i < failed.len() && (#[trigger] failed[i]).root == root
}

/// The failed roots whose watch is to be tried again by now, of the first `n`.
pub open spec fn due_roots(failed: Seq<FailedView>, now: u64, n: nat) -> Seq<Parts>
    decreases n,
{
    if n == 0 {
        Seq::empty()
    } else {
        let earlier = due_roots(failed, now, (n - 1) as nat);
        if failed[n - 1].state.next_attempt <= now {
            earlier.push(failed[n - 1].root)
        } else {
            earlier
        }
    }
}

/// What trying again has given.
#[verifier::ext_equal]
pub struct Retries {
    pub failed: Seq<FailedView>,
    pub recovered: Seq<Parts>,
}

/// What trying the watches of the first `n` failed roots has given: those that
/// were not due stay as they are, those that were set up have recovered, and the
/// others wait longer.
pub open spec fn retries(
    failed: Seq<FailedView>,
    watched: Seq<bool>,
    now: u64,
    n: nat,
) -> Retries
    decreases n,
{
    if n == 0 {
        Retries { failed: Seq::empty(), recovered: Seq::empty() }
    } else {
        let earlier = retries(failed, watched, now, (n - 1) as nat);
        let asked = due_roots(failed, now, (n - 1) as nat).len();
        let one = failed[n - 1];
        if one.state.next_attempt > now {
            Retries { failed: earlier.failed.push(one), ..earlier }
        } else if watched[asked as int] {
            Retries { recovered: earlier.recovered.push(one.root), ..earlier }
        } else {
            Retries {
                failed: earlier.failed.push(
                    FailedView { root: one.root, state: one.state.retried(now) },
                ),
                ..earlier
            }
        }
    }
}

/// The report that the watch of a root works again.
pub open spec fn recovered_report(root: Parts) -> IntegrityView {
    crate::model::integrity_view(
        IntegrityLevel::Info,
        "filesystem"@,
        "watch recovered"@,
        "native observation resumed; events during the gap were not reconstructed"@,
        root,
    )
}

/// The report that a folder has joined.
pub open spec fn joined_report(root: Parts) -> IntegrityView {
    crate::model::integrity_view(
        IntegrityLevel::Info,
        "filesystem"@,
        "related folder joined"@,
        "native recursive filesystem events are active"@,
        root,
    )
}

/// The report that a root is watched.
pub open spec fn established_report(root: Parts) -> IntegrityView {
    crate::model::integrity_view(
        IntegrityLevel::Info,
        "filesystem"@,
        "watch established"@,
        "native recursive filesystem events are active"@,
        root,
    )
}

/// What the listing of a folder has come to.
pub enum SeedReply {
    /// A path, and what was found there.
    Entry { path: FsPath, found: Inspection },
    /// A path that could not be listed.
    Failed,
    /// The end.
    Exhausted,
}

/// What the listing of a folder says.
pub enum SeedView {
    Entry { path: Parts, found: InspectionView },
    Failed,
    Exhausted,
}

impl View for SeedReply {
    type V = SeedView;

    open spec fn view(&self) -> SeedView {
        match *self {
            SeedReply::Entry { path, found } => SeedView::Entry { path: path@, found: found@ },
            SeedReply::Failed => SeedView::Failed,
            SeedReply::Exhausted => SeedView::Exhausted,
        }
    }
}

/// What an optional report says.
pub open spec fn opt_report(event: Option<IntegrityEvent>) -> Option<IntegrityView> {
    match event {
        Some(event) => Some(event@),
        None => None,
    }
}

/// Tests whether the listing of `root` goes on at a path that lies `depth` below
/// it: it does not enter what is not shown.
pub fn enters(root: &FsPath, path: &FsPath, depth: usize) -> (b: bool)
    ensures
        b == (depth == 0 || (crate::path::is_under(path@, root@) && !crate::roots::is_hidden(
            crate::path::stripped(path@, root@),
        ))),
{
    if depth == 0 {
        return true;
    }
    match path.strip(root) {
        Some(relative) => !ignored(&relative),
        None => false,
    }
}

impl WatchState {
    /// Finds the root that `path` belongs to.
    pub fn root_for(&self, path: &FsPath) -> (root: FsPath)
        requires
            self@.roots.len() > 0,
        ensures
            root@ == crate::roots::owner(self@.roots, path@),
    {
        root_of(&self.roots, path)
    }

    /// Writes `path` from its root on.
    pub fn relative_path(&self, path: &FsPath) -> (out: FsPath)
        requires
            self@.roots.len() > 0,
        ensures
            out@ == crate::roots::relative(self@.roots, path@),
    {
        let root = self.root_for(path);
        if let Some(rest) = path.strip(&root) {
            if !rest.is_empty() {
                return rest;
            }
        }
        match path.name() {
            Some(name) => name,
            None => FsPath::empty(),
        }
    }

    /// Tests whether `path` lies in a tree below its root that is not shown.
    pub fn is_ignored(&self, path: &FsPath) -> (b: bool)
        requires
            self@.roots.len() > 0,
        ensures
            b == crate::roots::is_hidden_below(self@.roots, path@),
    {
        let root = self.root_for(path);
        match path.strip(&root) {
            Some(rest) => ignored(&rest),
            None => false,
        }
    }

    /// Tells how much could not be remembered since it was last asked.
    pub fn take_snapshot_omissions(&mut self) -> (n: u64)
        requires
            old(self).wf(),
        ensures
            final(self).wf(),
            n == old(self)@.omissions,
            final(self)@ == (WatchView { omissions: 0, ..old(self)@ }),
    {
        let n: u64 = self.snapshot_omissions;
        self.snapshot_omissions = 0;
        n
    }

    /// Tests whether the watch of `root` has failed.
    pub fn awaits_recovery(&self, root: &FsPath) -> (b: bool)
        ensures
            b == has_failed(self@.failed, root@),
    {
        let ghost failed = self@.failed;
        let mut i: usize = 0;
        while i < self.failed_roots.len()
            invariant
                i <= self.failed_roots@.len(),
                failed == failed_views(self.failed_roots@),
                failed == self@.failed,
                forall|j: int| 0 <= j < i ==> (#[trigger] failed[j]).root != root@,
            decreases self.failed_roots@.len() - i,
        {
            assert(failed[i as int] == self.failed_roots@[i as int]@);
            if self.failed_roots[i].root.same(root) {
                return true;
            }
            i += 1;
        }
        false
    }

    /// Notes that the watch of `root` has failed. What was remembered below it is
    /// forgotten; a recovery that is already under way goes on.
    pub fn schedule_recovery(&mut self, root: FsPath, now: u64)
        requires
            old(self).wf(),
            crate::recovery::has_time_left(now),
        ensures
            final(self).wf(),
            final(self)@ == old(self)@.failing(root@, now),
    {
        self.remove_snapshot_tree(&root);
        if self.awaits_recovery(&root) {
            return;
        }
        let ghost failed = self@.failed;
        let ghost path = root@;
        self.failed_roots.push(FailedRoot { root, state: RecoveryState::start(now) });
        assert(self@.failed =~= failed.push(
            FailedView { root: path, state: RecoveryState::failed_at(now) },
        ));
    }

    /// Lists the roots whose watch is to be tried again by now.
    pub fn due_recoveries(&self, now: u64) -> (due: Vec<FsPath>)
        ensures
            crate::path::paths_of(due@) == due_roots(self@.failed, now, self@.failed.len()),
    {
        let mut due: Vec<FsPath> = Vec::new();
        let mut i: usize = 0;
        let ghost failed = self@.failed;
        assert(crate::path::paths_of(due@) =~= Seq::<Parts>::empty());
        while i < self.failed_roots.len()
            invariant
                i <= self.failed_roots@.len(),
                failed == failed_views(self.failed_roots@),
                crate::path::paths_of(due@) == due_roots(failed, now, i as nat),
            decreases self.failed_roots@.len() - i,
        {
            let ghost before = crate::path::paths_of(due@);
            assert(failed[i as int] == self.failed_roots@[i as int]@);
            if self.failed_roots[i].state.next_attempt <= now {
                due.push(self.failed_roots[i].root.clone());
                assert(crate::path::paths_of(due@) =~= before.push(failed[i as int].root));
            }
            i += 1;
        }
        due
    }

    /// Notes what trying the due watches again has given: `watched` says of each
    /// of the due roots, in order, whether it is watched again. Those that are
    /// will be listed anew, and are reported.
    pub fn recover_due(&mut self, watched: &Vec<bool>, now: u64) -> (events: Vec<IntegrityEvent>)
        requires
            old(self).wf(),
            crate::recovery::has_time_left(now),
            watched@.len() == due_roots(old(self)@.failed, now, old(self)@.failed.len()).len(),
        ensures
            final(self).wf(),
            final(self)@ == old(self)@.retried(watched@, now),
            crate::model::integrity_views(events@) == retries(
                old(self)@.failed,
                watched@,
                now,
                old(self)@.failed.len(),
            ).recovered.map_values(|root: Parts| recovered_report(root)),
    {
        let ghost before = self@;
        let ghost failed = self@.failed;
        let mut events: Vec<IntegrityEvent> = Vec::new();
        let mut left: Vec<FailedRoot> = Vec::new();
        let mut asked: usize = 0;
        let mut i: usize = 0;
        assert(failed_views(left@) =~= Seq::<FailedView>::empty());
        assert(self@.walks =~= before.walks + Seq::<Parts>::empty());
        assert(crate::model::integrity_views(events@) =~= Seq::<Parts>::empty().map_values(
            |root: Parts| recovered_report(root),
        ));
        while i < self.failed_roots.len()
            invariant
                self.wf(),
                crate::recovery::has_time_left(now),
                i <= self.failed_roots@.len(),
                failed == failed_views(self.failed_roots@),
                watched@.len() == due_roots(failed, now, failed.len()).len(),
                asked <= i,
                asked == due_roots(failed, now, i as nat).len(),
                self@ == (WatchView {
                    walks: before.walks + retries(failed, watched@, now, i as nat).recovered,
                    ..before
                }),
                failed_views(left@) == retries(failed, watched@, now, i as nat).failed,
                crate::model::integrity_views(events@) == retries(
                    failed,
                    watched@,
                    now,
                    i as nat,
                ).recovered.map_values(|root: Parts| recovered_report(root)),
            decreases self.failed_roots@.len() - i,
        {
            let ghost so_far = retries(failed, watched@, now, i as nat);
            let ghost next = retries(failed, watched@, now, (i + 1) as nat);
            let ghost listed = failed_views(left@);
            let ghost reported = crate::model::integrity_views(events@);
            let one = &self.failed_roots[i];
            assert(failed[i as int] == one@);
            if one.state.next_attempt > now {
                left.push(FailedRoot { root: one.root.clone(), state: one.state });
                assert(failed_views(left@) =~= listed.push(one@));
            } else {
                proof {
                    lemma_due_grows(failed, now, (i + 1) as nat, failed.len());
                }
                let ok: bool = watched[asked];
                if ok {
                    let event = integrity(
                        IntegrityLevel::Info,
                        "filesystem",
                        "watch recovered",
                        "native observation resumed; events during the gap were not reconstructed",
                        &one.root,
                    );
                    let root = one.root.clone();
                    let ghost path = root@;
                    let ghost walks = self@.walks;
                    events.push(event);
                    self.walks.push(root);
                    assert(crate::model::integrity_views(events@) =~= reported.push(event@));
                    assert(next.recovered.map_values(|root: Parts| recovered_report(root))
                        =~= so_far.recovered.map_values(
                        |root: Parts| recovered_report(root),
                    ).push(recovered_report(path)));
                    assert(crate::path::paths_of(self.walks@) =~= walks.push(path));
                    assert(self@.walks =~= before.walks + next.recovered);
                } else {
                    left.push(FailedRoot { root: one.root.clone(), state: one.state.retry(now) });
                    assert(failed_views(left@) =~= listed.push(
                        FailedView { root: one@.root, state: one@.state.retried(now) },
                    ));
                }
                asked += 1;
            }
            i += 1;
        }
        self.failed_roots = left;
        events
    }

    /// What is remembered of `path`.
    pub fn previous_snapshot(&self, path: &FsPath) -> (snapshot: Option<&Snapshot>)
        requires
            self.wf(),
        ensures
            match snapshot {
                Some(snapshot) => self@.remembered(path@) == Some(snapshot@),
                None => self@.remembered(path@) is None,
            },
    {
        proof {
            lemma_views_removed(self.snapshots@, path@);
        }
        self.snapshots.get(path)
    }

    /// Tests whether `path` is a root.
    pub fn is_root(&self, path: &FsPath) -> (b: bool)
        ensures
            b == self@.roots.contains(path@),
    {
        has_path(&self.roots, path)
    }

    /// Finds what a root is called.
    pub fn root_label(&self, root: &FsPath) -> (label: String)
        requires
            self.wf(),
        ensures
            label@ == self@.label(root@),
    {
        assert(self@.labels.dom() =~= self.root_labels@.dom());
        match self.root_labels.get(root) {
            Some(label) => label.clone(),
            None => root.display(),
        }
    }

    /// Finds the number of a root.
    pub fn root_index(&self, root: &FsPath) -> (index: usize)
        ensures
            index == self@.index_of_root(root@),
    {
        let mut i: usize = 0;
        while i < self.roots.len()
            invariant
                i <= self.roots@.len(),
                place_of(self@.roots, root@, 0) == place_of(self@.roots, root@, i as int),
            decreases self.roots@.len() - i,
        {
            assert(self@.roots[i as int] == self.roots@[i as int]@);
            if self.roots[i].same(root) {
                return i;
            }
            i += 1;
        }
        0
    }

    /// Tests whether a folder has to be watched on its own account to be
    /// observed.
    pub fn needs_watch(&self, root: &FsPath) -> (b: bool)
        ensures
            b == self@.lies_apart(root@),
    {
        let ghost roots = self@.roots;
        let mut i: usize = 0;
        while i < self.roots.len()
            invariant
                i <= self.roots@.len(),
                roots == self@.roots,
                forall|j: int| 0 <= j < i ==> !crate::path::is_under(root@, #[trigger] roots[j]),
            decreases self.roots@.len() - i,
        {
            assert(roots[i as int] == self.roots@[i as int]@);
            if root.is_under(&self.roots[i]) {
                return false;
            }
            i += 1;
        }
        true
    }

    /// Makes a folder a root, unless it is one, and reports that. `watch` is what
    /// an attempt to watch the folder has given; it counts only where the folder
    /// has to be watched on its own account, and where it failed then, nothing
    /// changes.
    pub fn add_root(&mut self, root: FsPath, watch: Result<(), String>) -> (added: Result<
        Option<IntegrityEvent>,
        String,
    >)
        requires
            old(self).wf(),
        ensures
            final(self).wf(),
            match added {
                Ok(event) => {
                    &&& old(self)@.roots.contains(root@) || !old(self)@.lies_apart(root@)
                        || watch is Ok
                    &&& old(self)@.roots.contains(root@) ==> event is None && final(self)@ == old(
                        self,
                    )@
                    &&& !old(self)@.roots.contains(root@) ==> opt_report(event) == Some(
                        joined_report(root@),
                    ) && final(self)@ == old(self)@.joined(root@)
                },
                Err(reason) => {
                    &&& !old(self)@.roots.contains(root@)
                    &&& old(self)@.lies_apart(root@)
                    &&& watch == Err::<(), String>(reason)
                    &&& final(self)@ == old(self)@
                },
            },
    {
        if self.is_root(&root) {
            return Ok(None);
        }
        let ghost before = self@;
        let ghost path = root@;
        if self.needs_watch(&root) {
            match watch {
                Ok(_) => {
                    self.walks.push(root.clone());
                    assert(self@.walks =~= before.walks.push(path));
                },
                Err(reason) => {
                    return Err(reason);
                },
            }
        }
        let event = integrity(
            IntegrityLevel::Info,
            "filesystem",
            "related folder joined",
            "native recursive filesystem events are active",
            &root,
        );
        self.roots.push(root);
        assert(self@.roots =~= before.roots.push(path));
        self.root_labels = build_root_labels(&self.roots);
        Ok(Some(event))
    }

    /// Takes in one step of the listing of the last folder. Returns how many
    /// entries there have been, the `processed` earlier ones included.
    pub fn seed_step(&mut self, processed: usize, reply: SeedReply) -> (total: usize)
        requires
            old(self).wf(),
            processed < usize::MAX,
        ensures
            final(self).wf(),
            final(self)@ == old(self)@.seeded(reply@),
            total == (if reply@ is Exhausted {
                processed as int
            } else {
                processed + 1
            }),
            (SeedRun { state: final(self)@, processed: total as nat }) == (SeedRun {
                state: old(self)@,
                processed: processed as nat,
            }).stepped(reply@),
    {
        match reply {
            SeedReply::Entry { path, found } => {
                if found.is_present() && self.previous_snapshot(&path).is_none() {
                    let _ = self.take_snapshot(&path, found);
                }
                processed + 1
            },
            SeedReply::Failed => processed + 1,
            SeedReply::Exhausted => {
                let ghost walks = self@.walks;
                if self.walks.len() > 0 {
                    let _ = self.walks.pop();
                    assert(self@.walks =~= walks.drop_last());
                }
                processed
            },
        }
    }

    /// Tests whether another step of the listing is to be taken, where there have
    /// been `processed` entries and `budget` are allowed.
    pub fn goes_on(&self, processed: usize, budget: usize) -> (b: bool)
        ensures
            b == (processed < budget && self@.walks.len() > 0),
            b == (SeedRun { state: self@, processed: processed as nat }).goes_on(budget as nat),
    {
        processed < budget && self.is_seeding()
    }

    /// Tests whether folders are still being listed.
    pub fn is_seeding(&self) -> (b: bool)
        ensures
            b == (self@.walks.len() > 0),
    {
        self.walks.len() > 0
    }

    /// Reports each root as watched.
    pub fn established_events(&self) -> (events: Vec<IntegrityEvent>)
        ensures
            crate::model::integrity_views(events@) == self@.roots.map_values(
                |root: Parts| established_report(root),
            ),
    {
        let mut events: Vec<IntegrityEvent> = Vec::new();
        let mut i: usize = 0;
        while i < self.roots.len()
            invariant
                i <= self.roots@.len(),
                events@.len() == i,
                forall|j: int|
                    0 <= j < i ==> (#[trigger] events@[j])@ == established_report(self.roots@[j]@),
            decreases self.roots@.len() - i,
        {
            events.push(
                integrity(
                    IntegrityLevel::Info,
                    "filesystem",
                    "watch established",
                    "native recursive filesystem events are active",
                    &self.roots[i],
                ),
            );
            i += 1;
        }
        assert(crate::model::integrity_views(events@) =~= self@.roots.map_values(
            |root: Parts| established_report(root),
        ));
        events
    }
}

/// No fewer watches are due among more failed roots.
proof fn lemma_due_grows(failed: Seq<FailedView>, now: u64, few: nat, many: nat)
    requires
        few <= many,
    ensures
        due_roots(failed, now, few).len() <= due_roots(failed, now, many).len(),
    decreases many,
{
    if few < many {
        lemma_due_grows(failed, now, few, (many - 1) as nat);
    }
}

/// What kind of fault a native watcher reports.
#[derive(Clone, Copy, Debug, PartialEq, Eq, Structural)]
pub enum FaultKind {
    Generic,
    Io,
    PathNotFound,
    WatchNotFound,
    InvalidConfig,
    MaxFilesWatch,
}

/// A fault that a native watcher reports.
#[derive(Debug)]
pub struct NotifyFault {
    pub kind: FaultKind,
    pub paths: Vec<FsPath>,
    pub description: String,
}

/// How grave a fault is, and what it is called. `lowered` is its description in
/// lower case.
pub open spec fn fault_class(kind: FaultKind, lowered: Text) -> (IntegrityLevel, Text) {
    match kind {
        FaultKind::MaxFilesWatch => (IntegrityLevel::Lost, "native watch limit reached"@),
        FaultKind::PathNotFound | FaultKind::WatchNotFound => (
            IntegrityLevel::Lost,
            "watch target unavailable"@,
        ),
        FaultKind::Generic => if crate::text::has_text(lowered, "overflow"@)
            || crate::text::has_text(lowered, "dropped"@) || crate::text::has_text(
            lowered,
            "rescan"@,
        ) {
            (IntegrityLevel::Uncertain, "native events may have been lost"@)
        } else {
            (IntegrityLevel::Degraded, "native watcher reported an error"@)
        },
        FaultKind::Io | FaultKind::InvalidConfig => (
            IntegrityLevel::Degraded,
            "native watcher reported an error"@,
        ),
    }
}

/// Judges a fault by its kind and its description in lower case.
pub fn classify_fault(kind: FaultKind, lowered: &str) -> (class: (IntegrityLevel, &'static str))
    ensures
        (class.0, class.1@) == fault_class(kind, lowered@),
{
    match kind {
        FaultKind::MaxFilesWatch => (IntegrityLevel::Lost, "native watch limit reached"),
        FaultKind::PathNotFound | FaultKind::WatchNotFound => (
            IntegrityLevel::Lost,
            "watch target unavailable",
        ),
        FaultKind::Generic => {
            if contains(lowered, "overflow") || contains(lowered, "dropped") || contains(
                lowered,
                "rescan",
            ) {
                (IntegrityLevel::Uncertain, "native events may have been lost")
            } else {
                (IntegrityLevel::Degraded, "native watcher reported an error")
            }
        },
        FaultKind::Io | FaultKind::InvalidConfig => (
            IntegrityLevel::Degraded,
            "native watcher reported an error",
        ),
    }
}

/// The report of a fault. It is about the first path that the fault names, or
/// about the fallback where it names none.
pub open spec fn fault_report(
    source: Text,
    kind: FaultKind,
    paths: Seq<Parts>,
    description: Text,
    lowered: Text,
    fallback_root: Parts,
) -> IntegrityView {
    let class = fault_class(kind, lowered);
    crate::model::integrity_view(
        class.0,
        source,
        class.1,
        description,
        if paths.len() > 0 {
            paths[0]
        } else {
            fallback_root
        },
    )
}

/// Reports a fault of a native watcher.
pub fn integrity_from_notify_error(
    source: &'static str,
    error: NotifyFault,
    fallback_root: &FsPath,
) -> (event: IntegrityEvent)
    ensures
        event@ == fault_report(
            source@,
            error.kind,
            crate::path::paths_of(error.paths@),
            error.description@,
            crate::text::lowercase_text(error.description@),
            fallback_root@,
        ),
{
    let lowered = lowercase(error.description.as_str());
    let (level, summary) = classify_fault(error.kind, lowered.as_str());
    let root = if error.paths.len() > 0 {
        &error.paths[0]
    } else {
        fallback_root
    };
    integrity(level, source, summary, error.description.as_str(), root)
}

} // verus!
