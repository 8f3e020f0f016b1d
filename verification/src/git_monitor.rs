//! The state of the Git observation: which repositories are observed, which of
//! them have to be looked at again, and which worktrees are known.

use crate::classify::{classify_changes, Ancestry};
use crate::git::{
    activity, worktree_from_git_path, GitActivity, GitActivityView, RepoSnapshot, RepoView,
};
use crate::model::{integrity, IntegrityEvent, IntegrityLevel, IntegrityView};
use crate::path::{copy_paths, has_path, FsPath, PartView, Parts};
use crate::recovery::{elapsed, RecoveryState};
use crate::text::{decimal, join2, Text};
use crate::watcher::{integrity_from_notify_error, FailedRoot, FailedView, NotifyFault};
use vstd::prelude::*;
use vstd::string::*;

verus! {

/// How long a repository has to be quiet before it is looked at.
pub const EVENT_QUIET_PERIOD: u64 = 120_000_000;

/// How many native events are taken in at a time.
pub const MAX_GIT_EVENTS_PER_DRAIN: usize = 1024;

/// A repository that is observed.
#[derive(Debug)]
pub struct Repository {
    pub root: FsPath,
    pub git_dir: FsPath,
    pub common_dir: FsPath,
    pub snapshot: RepoSnapshot,
    pub dirty_since: Option<u64>,
}

/// What is known of a repository that is observed.
#[verifier::ext_equal]
pub struct RepositoryView {
    pub root: Parts,
    pub git_dir: Parts,
    pub common_dir: Parts,
    pub snapshot: RepoView,
    pub dirty_since: Option<u64>,
}

impl View for Repository {
    type V = RepositoryView;

    open spec fn view(&self) -> RepositoryView {
        RepositoryView {
            root: self.root@,
            git_dir: self.git_dir@,
            common_dir: self.common_dir@,
            snapshot: self.snapshot@,
            dirty_since: self.dirty_since,
        }
    }
}

/// The contents of a list of repositories.
pub open spec fn repository_views(repositories: Seq<Repository>) -> Seq<RepositoryView> {
    repositories.map_values(|one: Repository| one@)
}

/// A directory that worktrees share and that has changed.
#[derive(Debug)]
pub struct DirtyWorktrees {
    pub common_dir: FsPath,
    pub since: u64,
}

/// Which directory has changed, and when.
#[verifier::ext_equal]
pub struct DirtyView {
    pub common_dir: Parts,
    pub since: u64,
}

impl View for DirtyWorktrees {
    type V = DirtyView;

    open spec fn view(&self) -> DirtyView {
        DirtyView { common_dir: self.common_dir@, since: self.since }
    }
}

/// The contents of a list of directories that have changed.
pub open spec fn dirty_views(dirty: Seq<DirtyWorktrees>) -> Seq<DirtyView> {
    dirty.map_values(|one: DirtyWorktrees| one@)
}

/// The repositories that are observed.
pub struct GitMonitor {
    pub repositories: Vec<Repository>,
    pub watched_metadata: Vec<FsPath>,
    pub known_worktrees: Vec<FsPath>,
    pub worktrees_dirty_since: Vec<DirtyWorktrees>,
    pub failed_metadata: Vec<FailedRoot>,
    pub disconnected_reported: bool,
}

/// What the observation of repositories knows.
#[verifier::ext_equal]
pub struct MonitorView {
    pub repositories: Seq<RepositoryView>,
    pub watched: Seq<Parts>,
    pub worktrees: Seq<Parts>,
    pub dirty: Seq<DirtyView>,
    pub failed: Seq<FailedView>,
    pub disconnected: bool,
}

impl View for GitMonitor {
    type V = MonitorView;

    open spec fn view(&self) -> MonitorView {
        MonitorView {
            repositories: repository_views(self.repositories@),
            watched: crate::path::paths_of(self.watched_metadata@),
            worktrees: crate::path::paths_of(self.known_worktrees@),
            dirty: dirty_views(self.worktrees_dirty_since@),
            failed: crate::watcher::failed_views(self.failed_metadata@),
            disconnected: self.disconnected_reported,
        }
    }
}

/// What the observation of repositories has to tell.
#[derive(Debug)]
pub enum GitMonitorEvent {
    Activity(GitActivity),
    Integrity(IntegrityEvent),
    RelatedWorktree(FsPath),
}

/// What is told.
pub enum GitNews {
    Activity(GitActivityView),
    Integrity(IntegrityView),
    RelatedWorktree(Parts),
}

impl View for GitMonitorEvent {
    type V = GitNews;

    open spec fn view(&self) -> GitNews {
        match *self {
            GitMonitorEvent::Activity(activity) => GitNews::Activity(activity@),
            GitMonitorEvent::Integrity(integrity) => GitNews::Integrity(integrity@),
            GitMonitorEvent::RelatedWorktree(path) => GitNews::RelatedWorktree(path@),
        }
    }
}

/// The contents of a list of news.
pub open spec fn news(events: Seq<GitMonitorEvent>) -> Seq<GitNews> {
    events.map_values(|event: GitMonitorEvent| event@)
}

/// The items of a list, and one more where it is not among them.
pub open spec fn with_path(paths: Seq<Parts>, path: Parts) -> Seq<Parts> {
    if paths.contains(path) {
        paths
    } else {
        paths.push(path)
    }
}

/// Puts a path into a list, unless it is there. Tells whether it was not.
fn insert_path(paths: &mut Vec<FsPath>, path: &FsPath) -> (added: bool)
    ensures
        crate::path::paths_of(final(paths)@) == with_path(
            crate::path::paths_of(old(paths)@),
            path@,
        ),
        added == !crate::path::paths_of(old(paths)@).contains(path@),
{
    if has_path(paths, path) {
        return false;
    }
    let ghost before = crate::path::paths_of(paths@);
    paths.push(path.clone());
    assert(crate::path::paths_of(paths@) =~= before.push(path@));
    true
}

/// The distinct paths among the first `n`, in order.
pub open spec fn distinct(paths: Seq<Parts>, n: nat) -> Seq<Parts>
    decreases n,
{
    if n == 0 {
        Seq::empty()
    } else {
        with_path(distinct(paths, (n - 1) as nat), paths[n - 1])
    }
}

/// Lists each worktree once.
pub fn related_worktrees(found: &Vec<FsPath>) -> (worktrees: Vec<FsPath>)
    ensures
        crate::path::paths_of(worktrees@) == distinct(
            crate::path::paths_of(found@),
            found@.len(),
        ),
{
    let ghost all = crate::path::paths_of(found@);
    let mut worktrees: Vec<FsPath> = Vec::new();
    let mut i: usize = 0;
    assert(crate::path::paths_of(worktrees@) =~= Seq::<Parts>::empty());
    while i < found.len()
        invariant
            i <= found@.len(),
            all == crate::path::paths_of(found@),
            crate::path::paths_of(worktrees@) == distinct(all, i as nat),
        decreases found@.len() - i,
    {
        assert(all[i as int] == found@[i as int]@);
        let _ = insert_path(&mut worktrees, &found[i]);
        i += 1;
    }
    worktrees
}

/// What Git says of a folder: the repository that it lies in, the Git directory
/// of that, and the directory that its worktrees share.
#[derive(Debug)]
pub struct RepoProbe {
    pub root: Option<FsPath>,
    pub git_dir: Option<FsPath>,
    pub common_dir: Option<FsPath>,
    pub snapshot: RepoSnapshot,
}

/// What is known of a folder from Git.
#[verifier::ext_equal]
pub struct ProbeView {
    pub root: Option<Parts>,
    pub git_dir: Option<Parts>,
    pub common_dir: Option<Parts>,
    pub snapshot: RepoView,
}

impl View for RepoProbe {
    type V = ProbeView;

    open spec fn view(&self) -> ProbeView {
        ProbeView {
            root: crate::path::opt_path(self.root),
            git_dir: crate::path::opt_path(self.git_dir),
            common_dir: crate::path::opt_path(self.common_dir),
            snapshot: self.snapshot@,
        }
    }
}

/// The contents of a list of probes.
pub open spec fn probe_views(probes: Seq<RepoProbe>) -> Seq<ProbeView> {
    probes.map_values(|one: RepoProbe| one@)
}

/// The repository that a folder lies in, once it is observed.
pub open spec fn repository_of(probe: ProbeView) -> RepositoryView {
    RepositoryView {
        root: probe.root->0,
        git_dir: probe.git_dir->0,
        common_dir: shared_dir(probe),
        snapshot: probe.snapshot,
        dirty_since: None,
    }
}

/// The directory that the worktrees of a repository share: the Git directory,
/// where Git names no other.
pub open spec fn shared_dir(probe: ProbeView) -> Parts {
    match probe.common_dir {
        Some(path) => path,
        None => probe.git_dir->0,
    }
}

/// What discovery has found so far: the repositories, the directories that have
/// to be watched, and the repositories that were seen.
#[verifier::ext_equal]
pub struct Discovery {
    pub repositories: Seq<RepositoryView>,
    pub watched: Seq<Parts>,
    pub seen: Seq<Parts>,
}

/// What discovery has found in the first `n` folders.
pub open spec fn discovered(probes: Seq<ProbeView>, n: nat) -> Discovery
    decreases n,
{
    if n == 0 {
        Discovery { repositories: Seq::empty(), watched: Seq::empty(), seen: Seq::empty() }
    } else {
        let earlier = discovered(probes, (n - 1) as nat);
        let probe = probes[n - 1];
        match probe.root {
            None => earlier,
            Some(root) => if earlier.seen.contains(root) {
                earlier
            } else {
                match probe.git_dir {
                    None => Discovery { seen: earlier.seen.push(root), ..earlier },
                    Some(git_dir) => Discovery {
                        repositories: earlier.repositories.push(repository_of(probe)),
                        watched: with_path(
                            with_path(earlier.watched, git_dir),
                            shared_dir(probe),
                        ),
                        seen: earlier.seen.push(root),
                    },
                }
            },
        }
    }
}

impl GitMonitor {
    /// Takes in what Git says of the folders that are observed, in order, and
    /// which worktrees there are. The directories in `watched_metadata` have to
    /// be watched, in order.
    pub fn discover(probes: Vec<RepoProbe>, worktrees: &Vec<FsPath>) -> (monitor: GitMonitor)
        ensures
            monitor@ == (MonitorView {
                repositories: discovered(
                    probe_views(probes@),
                    probes@.len(),
                ).repositories,
                watched: discovered(probe_views(probes@), probes@.len()).watched,
                worktrees: distinct(crate::path::paths_of(worktrees@), worktrees@.len()),
                dirty: Seq::empty(),
                failed: Seq::empty(),
                disconnected: false,
            }),
    {
        let ghost all = probe_views(probes@);
        let ghost mut i: int = 0;
        let mut rest = probes;
        let mut repositories: Vec<Repository> = Vec::new();
        let mut watched: Vec<FsPath> = Vec::new();
        let mut seen: Vec<FsPath> = Vec::new();
        assert(all.skip(0) =~= all);
        assert(repository_views(repositories@) =~= Seq::<RepositoryView>::empty());
        assert(crate::path::paths_of(watched@) =~= Seq::<Parts>::empty());
        assert(crate::path::paths_of(seen@) =~= Seq::<Parts>::empty());
        while rest.len() > 0
            invariant
                0 <= i <= all.len(),
                probe_views(rest@) == all.skip(i),
                repository_views(repositories@) == discovered(all, i as nat).repositories,
                crate::path::paths_of(watched@) == discovered(all, i as nat).watched,
                crate::path::paths_of(seen@) == discovered(all, i as nat).seen,
            decreases rest@.len(),
        {
            let ghost waiting = probe_views(rest@);
            let ghost so_far = discovered(all, i as nat);
            let probe = rest.remove(0);
            assert(waiting.len() > 0);
            assert(waiting[0] == probe@);
            assert(all.skip(i)[0] == all[i]);
            assert(probe_views(rest@) =~= waiting.skip(1));
            assert(all.skip(i).skip(1) =~= all.skip(i + 1));
            let ghost view = probe@;
            if let Some(root) = probe.root {
                if insert_path(&mut seen, &root) {
                    if let Some(git_dir) = probe.git_dir {
                        let common_dir = match probe.common_dir {
                            Some(path) => path,
                            None => git_dir.clone(),
                        };
                        let _ = insert_path(&mut watched, &git_dir);
                        let _ = insert_path(&mut watched, &common_dir);
                        repositories.push(
                            Repository {
                                root,
                                git_dir,
                                common_dir,
                                snapshot: probe.snapshot,
                                dirty_since: None,
                            },
                        );
                        assert(repository_views(repositories@) =~= so_far.repositories.push(
                            repository_of(view),
                        ));
                    }
                }
            }
            proof {
                i = i + 1;
            }
        }
        assert(i == all.len());
        let monitor = GitMonitor {
            repositories,
            watched_metadata: watched,
            known_worktrees: related_worktrees(worktrees),
            worktrees_dirty_since: Vec::new(),
            failed_metadata: Vec::new(),
            disconnected_reported: false,
        };
        assert(monitor@.dirty =~= Seq::<DirtyView>::empty());
        assert(monitor@.failed =~= Seq::<FailedView>::empty());
        monitor
    }

    /// How many repositories are observed.
    pub fn repository_count(&self) -> (n: usize)
        ensures
            n == self@.repositories.len(),
    {
        self.repositories.len()
    }

    /// Reports each repository as observed.
    pub fn established_events(&self) -> (events: Vec<IntegrityEvent>)
        ensures
            crate::model::integrity_views(events@) == self@.repositories.map_values(
                |one: RepositoryView| established_report(one),
            ),
    {
        let mut events: Vec<IntegrityEvent> = Vec::new();
        let mut i: usize = 0;
        while i < self.repositories.len()
            invariant
                i <= self.repositories@.len(),
                events@.len() == i,
                forall|j: int|
                    0 <= j < i ==> (#[trigger] events@[j])@ == established_report(
                        self.repositories@[j]@,
                    ),
            decreases self.repositories@.len() - i,
        {
            let one = &self.repositories[i];
            events.push(
                integrity(
                    IntegrityLevel::Info,
                    "git",
                    "metadata watch established",
                    join2("watching ", one.git_dir.display().as_str()).as_str(),
                    &one.root,
                ),
            );
            i += 1;
        }
        assert(crate::model::integrity_views(events@) =~= self@.repositories.map_values(
            |one: RepositoryView| established_report(one),
        ));
        events
    }
}

/// The report that a repository is observed.
pub open spec fn established_report(one: RepositoryView) -> IntegrityView {
    crate::model::integrity_view(
        IntegrityLevel::Info,
        "git"@,
        "metadata watch established"@,
        "watching "@ + crate::path::path_text(one.git_dir),
        one.root,
    )
}

/// What the native watcher of the Git directories has to say.
#[derive(Debug)]
pub enum GitMessage {
    /// Something changed at these paths, or events may have been lost.
    Event { paths: Vec<FsPath>, rescan: bool, info: Option<String> },
    /// The watcher is at fault.
    Fault(NotifyFault),
    /// There will be no more events.
    Disconnected,
}

/// The root of the first repository.
pub open spec fn first_root(repositories: Seq<RepositoryView>) -> Parts {
    if repositories.len() > 0 {
        repositories[0].root
    } else {
        Parts::empty()
    }
}

/// Whether a path lies in the Git directory of a repository, or in the one that
/// its worktrees share.
pub open spec fn is_metadata(one: RepositoryView, path: Parts) -> bool {
    crate::path::is_under(path, one.git_dir) || crate::path::is_under(path, one.common_dir)
}

/// Whether an event at these paths is about a repository. One without paths is
/// about every one.
pub open spec fn touches(one: RepositoryView, paths: Seq<Parts>) -> bool {
    paths.len() == 0 || exists|i: int|
        0 <= i < paths.len() && is_metadata(one, #[trigger] paths[i])
}

/// Whether an event at these paths is about a directory that worktrees share.
pub open spec fn touches_shared(common_dir: Parts, paths: Seq<Parts>) -> bool {
    paths.len() == 0 || exists|i: int|
        0 <= i < paths.len() && crate::path::is_under(#[trigger] paths[i], common_dir)
}

/// A repository once an event has come in.
pub open spec fn touched(one: RepositoryView, paths: Seq<Parts>, now: u64) -> RepositoryView {
    RepositoryView {
        dirty_since: if touches(one, paths) {
            Some(now)
        } else {
            one.dirty_since
        },
        ..one
    }
}

/// Where a directory stands in a list, from the `from`-th on.
pub open spec fn dirty_at(dirty: Seq<DirtyView>, common_dir: Parts, from: int) -> Option<int>
    decreases dirty.len() - from,
{
    if from < 0 || from >= dirty.len() {
        None
    } else if dirty[from].common_dir == common_dir {
        Some(from)
    } else {
        dirty_at(dirty, common_dir, from + 1)
    }
}

/// The directories that have changed, with one that has changed now.
pub open spec fn dirtied(dirty: Seq<DirtyView>, common_dir: Parts, now: u64) -> Seq<DirtyView> {
    match dirty_at(dirty, common_dir, 0) {
        Some(i) => dirty.update(i, DirtyView { common_dir, since: now }),
        None => dirty.push(DirtyView { common_dir, since: now }),
    }
}

/// The directories that have changed once an event has come in, for the first
/// `n` repositories.
pub open spec fn shared_touched(
    dirty: Seq<DirtyView>,
    repositories: Seq<RepositoryView>,
    paths: Seq<Parts>,
    now: u64,
    n: nat,
) -> Seq<DirtyView>
    decreases n,
{
    if n == 0 {
        dirty
    } else {
        let earlier = shared_touched(dirty, repositories, paths, now, (n - 1) as nat);
        let common_dir = repositories[n - 1].common_dir;
        if touches_shared(common_dir, paths) {
            dirtied(earlier, common_dir, now)
        } else {
            earlier
        }
    }
}

/// Whether a fault at these paths is about a watched directory. One without
/// paths is about every one.
pub open spec fn is_affected(metadata: Parts, paths: Seq<Parts>) -> bool {
    paths.len() == 0 || exists|i: int|
        0 <= i < paths.len() && (crate::path::is_under(#[trigger] paths[i], metadata)
            || crate::path::is_under(metadata, paths[i]))
}

/// The failed directories, with those of the first `n` that a fault is about.
pub open spec fn failed_too(
    failed: Seq<FailedView>,
    watched: Seq<Parts>,
    paths: Seq<Parts>,
    now: u64,
    n: nat,
) -> Seq<FailedView>
    decreases n,
{
    if n == 0 {
        failed
    } else {
        let earlier = failed_too(failed, watched, paths, now, (n - 1) as nat);
        let metadata = watched[n - 1];
        if is_affected(metadata, paths) && !crate::watcher::has_failed(earlier, metadata) {
            earlier.push(
                FailedView { root: metadata, state: RecoveryState::failed_at(now) },
            )
        } else {
            earlier
        }
    }
}

/// The first repository, from the `from`-th on, whose metadata a path is.
pub open spec fn owner_of_metadata(
    repositories: Seq<RepositoryView>,
    path: Parts,
    from: int,
) -> Option<int>
    decreases repositories.len() - from,
{
    if from < 0 || from >= repositories.len() {
        None
    } else if is_metadata(repositories[from], path) {
        Some(from)
    } else {
        owner_of_metadata(repositories, path, from + 1)
    }
}

/// The report of a fault, about the repository whose metadata it names.
pub open spec fn git_fault_report(
    repositories: Seq<RepositoryView>,
    fault: NotifyFault,
) -> IntegrityView {
    let report = crate::watcher::fault_report(
        "git"@,
        fault.kind,
        crate::path::paths_of(fault.paths@),
        fault.description@,
        crate::text::lowercase_text(fault.description@),
        if repositories.len() > 0 {
            repositories[0].root
        } else {
            seq![PartView::Current]
        },
    );
    match owner_of_metadata(repositories, report.root, 0) {
        Some(i) => IntegrityView { root: repositories[i].root, ..report },
        None => report,
    }
}

/// The report that native events may have been lost.
pub open spec fn git_rescan_report(
    repositories: Seq<RepositoryView>,
    info: Option<Text>,
) -> IntegrityView {
    crate::model::integrity_view(
        IntegrityLevel::Uncertain,
        "git"@,
        "native Git events may have been lost"@,
        match info {
            Some(info) => info,
            None => "the operating system requested a reconciliation scan"@,
        },
        first_root(repositories),
    )
}

/// The report that there will be no more events.
pub open spec fn disconnected_report(repositories: Seq<RepositoryView>) -> IntegrityView {
    crate::model::integrity_view(
        IntegrityLevel::Lost,
        "git"@,
        "event channel disconnected"@,
        "Git metadata changes are no longer observable"@,
        first_root(repositories),
    )
}

impl MonitorView {
    /// The state once a message has come in.
    pub open spec fn told(self, message: GitMessage, now: u64) -> MonitorView {
        match message {
            GitMessage::Event { paths, rescan, info } => if rescan {
                self
            } else {
                let paths = crate::path::paths_of(paths@);
                MonitorView {
                    repositories: self.repositories.map_values(
                        |one: RepositoryView| touched(one, paths, now),
                    ),
                    dirty: shared_touched(
                        self.dirty,
                        self.repositories,
                        paths,
                        now,
                        self.repositories.len(),
                    ),
                    ..self
                }
            },
            GitMessage::Fault(fault) => {
                let paths = crate::path::paths_of(fault.paths@);
                MonitorView {
                    watched: self.watched.filter(|one: Parts| !is_affected(one, paths)),
                    failed: failed_too(self.failed, self.watched, paths, now, self.watched.len()),
                    ..self
                }
            },
            GitMessage::Disconnected => MonitorView { disconnected: true, ..self },
        }
    }

    /// What is told of a message.
    pub open spec fn told_news(self, message: GitMessage) -> Option<IntegrityView> {
        match message {
            GitMessage::Event { paths, rescan, info } => if rescan {
                Some(git_rescan_report(self.repositories, crate::text::opt_text(info)))
            } else {
                None
            },
            GitMessage::Fault(fault) => Some(git_fault_report(self.repositories, fault)),
            GitMessage::Disconnected => if self.disconnected {
                None
            } else {
                Some(disconnected_report(self.repositories))
            },
        }
    }

    /// Which directories are no longer watched once a message has come in.
    pub open spec fn told_unwatched(self, message: GitMessage) -> Seq<Parts> {
        match message {
            GitMessage::Fault(fault) => {
                let paths = crate::path::paths_of(fault.paths@);
                self.watched.filter(|one: Parts| is_affected(one, paths))
            },
            _ => Seq::empty(),
        }
    }
}

/// Tests whether an event is about a repository.
fn does_touch(one: &Repository, paths: &Vec<FsPath>) -> (b: bool)
    ensures
        b == touches(one@, crate::path::paths_of(paths@)),
{
    let ghost all = crate::path::paths_of(paths@);
    if paths.len() == 0 {
        return true;
    }
    let mut i: usize = 0;
    while i < paths.len()
        invariant
            i <= paths@.len(),
            all == crate::path::paths_of(paths@),
            forall|j: int| 0 <= j < i ==> !is_metadata(one@, #[trigger] all[j]),
        decreases paths@.len() - i,
    {
        assert(all[i as int] == paths@[i as int]@);
        if paths[i].is_under(&one.git_dir) || paths[i].is_under(&one.common_dir) {
            return true;
        }
        i += 1;
    }
    false
}

/// Tests whether an event is about a directory that worktrees share.
fn does_touch_shared(common_dir: &FsPath, paths: &Vec<FsPath>) -> (b: bool)
    ensures
        b == touches_shared(common_dir@, crate::path::paths_of(paths@)),
{
    let ghost all = crate::path::paths_of(paths@);
    if paths.len() == 0 {
        return true;
    }
    let mut i: usize = 0;
    while i < paths.len()
        invariant
            i <= paths@.len(),
            all == crate::path::paths_of(paths@),
            forall|j: int| 0 <= j < i ==> !crate::path::is_under(#[trigger] all[j], common_dir@),
        decreases paths@.len() - i,
    {
        assert(all[i as int] == paths@[i as int]@);
        if paths[i].is_under(common_dir) {
            return true;
        }
        i += 1;
    }
    false
}

/// Tests whether a fault is about a watched directory.
fn does_affect(metadata: &FsPath, paths: &Vec<FsPath>) -> (b: bool)
    ensures
        b == is_affected(metadata@, crate::path::paths_of(paths@)),
{
    let ghost all = crate::path::paths_of(paths@);
    if paths.len() == 0 {
        return true;
    }
    let mut i: usize = 0;
    while i < paths.len()
        invariant
            i <= paths@.len(),
            all == crate::path::paths_of(paths@),
            forall|j: int|
                0 <= j < i ==> !(crate::path::is_under(#[trigger] all[j], metadata@)
                    || crate::path::is_under(metadata@, all[j])),
        decreases paths@.len() - i,
    {
        assert(all[i as int] == paths@[i as int]@);
        if paths[i].is_under(metadata) || metadata.is_under(&paths[i]) {
            return true;
        }
        i += 1;
    }
    false
}

/// Tests whether a directory is among the failed ones.
fn is_failed(failed: &Vec<FailedRoot>, path: &FsPath) -> (b: bool)
    ensures
        b == crate::watcher::has_failed(crate::watcher::failed_views(failed@), path@),
{
    let ghost all = crate::watcher::failed_views(failed@);
    let mut i: usize = 0;
    while i < failed.len()
        invariant
            i <= failed@.len(),
            all == crate::watcher::failed_views(failed@),
            forall|j: int| 0 <= j < i ==> (#[trigger] all[j]).root != path@,
        decreases failed@.len() - i,
    {
        assert(all[i as int] == failed@[i as int]@);
        if failed[i].root.same(path) {
            return true;
        }
        i += 1;
    }
    false
}

impl GitMonitor {
    /// The root of the first repository.
    fn front_root(&self) -> (root: FsPath)
        ensures
            root@ == first_root(self@.repositories),
    {
        if self.repositories.len() > 0 {
            assert(self@.repositories[0] == self.repositories@[0]@);
            self.repositories[0].root.clone()
        } else {
            FsPath::empty()
        }
    }

    /// Finds where a directory that worktrees share stands among those that have
    /// changed.
    fn find_dirty(&self, common_dir: &FsPath) -> (at: Option<usize>)
        ensures
            match at {
                Some(i) => i < self@.dirty.len() && dirty_at(self@.dirty, common_dir@, 0) == Some(
                    i as int,
                ),
                None => dirty_at(self@.dirty, common_dir@, 0) is None,
            },
    {
        let ghost all = self@.dirty;
        let mut i: usize = 0;
        while i < self.worktrees_dirty_since.len()
            invariant
                i <= self.worktrees_dirty_since@.len(),
                all == self@.dirty,
                dirty_at(all, common_dir@, 0) == dirty_at(all, common_dir@, i as int),
            decreases self.worktrees_dirty_since@.len() - i,
        {
            assert(all[i as int] == self.worktrees_dirty_since@[i as int]@);
            if self.worktrees_dirty_since[i].common_dir.same(common_dir) {
                return Some(i);
            }
            i += 1;
        }
        None
    }

    /// Notes that a directory that worktrees share has changed.
    fn dirty_shared(&mut self, common_dir: &FsPath, now: u64)
        ensures
            final(self)@ == (MonitorView {
                dirty: dirtied(old(self)@.dirty, common_dir@, now),
                ..old(self)@
            }),
    {
        let ghost before = self@.dirty;
        let one = DirtyWorktrees { common_dir: common_dir.clone(), since: now };
        match self.find_dirty(common_dir) {
            Some(i) => {
                self.worktrees_dirty_since.set(i, one);
                assert(self@.dirty =~= before.update(i as int, one@));
            },
            None => {
                self.worktrees_dirty_since.push(one);
                assert(self@.dirty =~= before.push(one@));
            },
        }
    }

    /// Notes what has changed.
    fn mark(&mut self, paths: &Vec<FsPath>, now: u64)
        ensures
            final(self)@ == (MonitorView {
                repositories: old(self)@.repositories.map_values(
                    |one: RepositoryView| touched(one, crate::path::paths_of(paths@), now),
                ),
                dirty: shared_touched(
                    old(self)@.dirty,
                    old(self)@.repositories,
                    crate::path::paths_of(paths@),
                    now,
                    old(self)@.repositories.len(),
                ),
                ..old(self)@
            }),
    {
        let ghost before = self@;
        let ghost all = crate::path::paths_of(paths@);
        let total: usize = self.repositories.len();
        let mut i: usize = 0;
        while i < total
            invariant
                i <= total,
                total == self.repositories@.len(),
                all == crate::path::paths_of(paths@),
                before.repositories.len() == total,
                self@ == (MonitorView {
                    repositories: self@.repositories,
                    dirty: shared_touched(
                        before.dirty,
                        before.repositories,
                        all,
                        now,
                        i as nat,
                    ),
                    ..before
                }),
                forall|j: int|
                    0 <= j < i ==> #[trigger] self@.repositories[j] == touched(
                        before.repositories[j],
                        all,
                        now,
                    ),
                forall|j: int|
                    i <= j < total ==> #[trigger] self@.repositories[j] == before.repositories[j],
            decreases total - i,
        {
            let ghost previous = self@;
            let ghost listed = self.repositories@;
            assert(previous.repositories[i as int] == listed[i as int]@);
            let hit = does_touch(&self.repositories[i], paths);
            let common_dir = self.repositories[i].common_dir.clone();
            if hit {
                self.repositories[i].dirty_since = Some(now);
            }
            assert(self@.repositories =~= previous.repositories.update(
                i as int,
                touched(previous.repositories[i as int], all, now),
            ));
            if does_touch_shared(&common_dir, paths) {
                self.dirty_shared(&common_dir, now);
            }
            i += 1;
        }
        assert(self@.repositories =~= before.repositories.map_values(
            |one: RepositoryView| touched(one, all, now),
        ));
    }

    /// Gives up the watched directories that a fault is about, and returns them.
    fn give_up(&mut self, paths: &Vec<FsPath>, now: u64) -> (dropped: Vec<FsPath>)
        requires
            crate::recovery::has_time_left(now),
        ensures
            final(self)@ == (MonitorView {
                watched: old(self)@.watched.filter(
                    |one: Parts| !is_affected(one, crate::path::paths_of(paths@)),
                ),
                failed: failed_too(
                    old(self)@.failed,
                    old(self)@.watched,
                    crate::path::paths_of(paths@),
                    now,
                    old(self)@.watched.len(),
                ),
                ..old(self)@
            }),
            crate::path::paths_of(dropped@) == old(self)@.watched.filter(
                |one: Parts| is_affected(one, crate::path::paths_of(paths@)),
            ),
    {
        let ghost before = self@;
        let ghost all = crate::path::paths_of(paths@);
        let ghost watched = self@.watched;
        let ghost keep = |one: Parts| !is_affected(one, all);
        let ghost hit = |one: Parts| is_affected(one, all);
        let mut kept: Vec<FsPath> = Vec::new();
        let mut dropped: Vec<FsPath> = Vec::new();
        let mut i: usize = 0;
        proof {
            reveal_with_fuel(Seq::filter, 1);
            assert(watched.take(0).filter(keep) =~= Seq::<Parts>::empty());
            assert(watched.take(0).filter(hit) =~= Seq::<Parts>::empty());
            assert(crate::path::paths_of(kept@) =~= Seq::<Parts>::empty());
            assert(crate::path::paths_of(dropped@) =~= Seq::<Parts>::empty());
        }
        while i < self.watched_metadata.len()
            invariant
                i <= self.watched_metadata@.len(),
                crate::recovery::has_time_left(now),
                all == crate::path::paths_of(paths@),
                watched == crate::path::paths_of(self.watched_metadata@),
                keep == (|one: Parts| !is_affected(one, all)),
                hit == (|one: Parts| is_affected(one, all)),
                watched == before.watched,
                self@ == (MonitorView {
                    failed: failed_too(before.failed, watched, all, now, i as nat),
                    ..before
                }),
                crate::path::paths_of(kept@) == watched.take(i as int).filter(keep),
                crate::path::paths_of(dropped@) == watched.take(i as int).filter(hit),
            decreases self.watched_metadata@.len() - i,
        {
            let ghost kept_before = crate::path::paths_of(kept@);
            let ghost dropped_before = crate::path::paths_of(dropped@);
            let ghost failed = self@.failed;
            let metadata = self.watched_metadata[i].clone();
            assert(watched[i as int] == metadata@);
            if does_affect(&metadata, paths) {
                dropped.push(metadata.clone());
                assert(crate::path::paths_of(dropped@) =~= dropped_before.push(watched[i as int]));
                if !is_failed(&self.failed_metadata, &metadata) {
                    let ghost path = metadata@;
                    self.failed_metadata.push(
                        FailedRoot { root: metadata, state: RecoveryState::start(now) },
                    );
                    assert(self@.failed =~= failed.push(
                        FailedView { root: path, state: RecoveryState::failed_at(now) },
                    ));
                }
            } else {
                kept.push(metadata);
                assert(crate::path::paths_of(kept@) =~= kept_before.push(watched[i as int]));
            }
            proof {
                assert(watched.take(i + 1).drop_last() =~= watched.take(i as int));
                assert(watched.take(i + 1).last() == watched[i as int]);
                reveal_with_fuel(Seq::filter, 1);
            }
            i += 1;
        }
        assert(watched.take(i as int) =~= watched);
        self.watched_metadata = kept;
        dropped
    }

    /// Finds the first repository whose metadata a path is.
    fn find_owner(&self, path: &FsPath) -> (at: Option<usize>)
        ensures
            match at {
                Some(i) => i < self@.repositories.len() && owner_of_metadata(
                    self@.repositories,
                    path@,
                    0,
                ) == Some(i as int),
                None => owner_of_metadata(self@.repositories, path@, 0) is None,
            },
    {
        let ghost all = self@.repositories;
        let mut i: usize = 0;
        while i < self.repositories.len()
            invariant
                i <= self.repositories@.len(),
                all == self@.repositories,
                owner_of_metadata(all, path@, 0) == owner_of_metadata(all, path@, i as int),
            decreases self.repositories@.len() - i,
        {
            let one = &self.repositories[i];
            assert(all[i as int] == one@);
            if path.is_under(&one.git_dir) || path.is_under(&one.common_dir) {
                return Some(i);
            }
            i += 1;
        }
        None
    }

    /// Takes in what the native watcher has to say. Returns what is to be
    /// reported, and the directories that are no longer to be watched.
    pub fn drain_message(&mut self, message: GitMessage, now: u64) -> (out: (
        Option<IntegrityEvent>,
        Vec<FsPath>,
    ))
        requires
            crate::recovery::has_time_left(now),
        ensures
            final(self)@ == old(self)@.told(message, now),
            crate::watcher::opt_report(out.0) == old(self)@.told_news(message),
            crate::path::paths_of(out.1@) == old(self)@.told_unwatched(message),
    {
        let nothing: Vec<FsPath> = Vec::new();
        assert(crate::path::paths_of(nothing@) =~= Seq::<Parts>::empty());
        match message {
            GitMessage::Event { paths, rescan, info } => {
                if rescan {
                    let detail = match &info {
                        Some(info) => info.as_str(),
                        None => "the operating system requested a reconciliation scan",
                    };
                    let event = integrity(
                        IntegrityLevel::Uncertain,
                        "git",
                        "native Git events may have been lost",
                        detail,
                        &self.front_root(),
                    );
                    return (Some(event), nothing);
                }
                self.mark(&paths, now);
                (None, nothing)
            },
            GitMessage::Fault(fault) => {
                let affected = copy_paths(&fault.paths);
                let fallback = if self.repositories.len() > 0 {
                    assert(self@.repositories[0] == self.repositories@[0]@);
                    self.repositories[0].root.clone()
                } else {
                    let mut here = FsPath::empty();
                    here.parts.push(crate::path::Part::Current);
                    assert(here@ =~= seq![PartView::Current]);
                    here
                };
                let mut event = integrity_from_notify_error("git", fault, &fallback);
                if let Some(i) = self.find_owner(&event.root) {
                    assert(self@.repositories[i as int] == self.repositories@[i as int]@);
                    event.root = self.repositories[i].root.clone();
                }
                let dropped = self.give_up(&affected, now);
                (Some(event), dropped)
            },
            GitMessage::Disconnected => {
                if self.disconnected_reported {
                    return (None, nothing);
                }
                self.disconnected_reported = true;
                let event = integrity(
                    IntegrityLevel::Lost,
                    "git",
                    "event channel disconnected",
                    "Git metadata changes are no longer observable",
                    &self.front_root(),
                );
                (Some(event), nothing)
            },
        }
    }
}

/// The report that native events were dropped, where any were.
pub open spec fn overflow_report(dropped: u64) -> Option<IntegrityView> {
    if dropped > 0 {
        Some(
            crate::model::integrity_view(
                IntegrityLevel::Uncertain,
                "git"@,
                "Git event queue overflowed"@,
                crate::text::decimal_text(dropped as nat)
                    + " native metadata events were dropped"@,
                Parts::empty(),
            ),
        )
    } else {
        None
    }
}

/// Reports that native events were dropped, where any were.
pub fn drain_overflow(dropped: u64) -> (event: Option<IntegrityEvent>)
    ensures
        crate::watcher::opt_report(event) == overflow_report(dropped),
{
    if dropped == 0 {
        return None;
    }
    Some(
        integrity(
            IntegrityLevel::Uncertain,
            "git",
            "Git event queue overflowed",
            join2(decimal(dropped).as_str(), " native metadata events were dropped").as_str(),
            &FsPath::empty(),
        ),
    )
}

/// What came of the attempt to watch a directory again: whether it is watched,
/// and what the repository that it belongs to looks like now.
#[derive(Debug)]
pub struct MetadataAttempt {
    pub watched: bool,
    pub snapshot: Option<RepoSnapshot>,
}

/// What is known of such an attempt.
#[verifier::ext_equal]
pub struct AttemptView {
    pub watched: bool,
    pub snapshot: Option<RepoView>,
}

impl View for MetadataAttempt {
    type V = AttemptView;

    open spec fn view(&self) -> AttemptView {
        AttemptView {
            watched: self.watched,
            snapshot: match self.snapshot {
                Some(snapshot) => Some(snapshot@),
                None => None,
            },
        }
    }
}

/// The contents of a list of attempts.
pub open spec fn attempt_views(attempts: Seq<MetadataAttempt>) -> Seq<AttemptView> {
    attempts.map_values(|one: MetadataAttempt| one@)
}

/// The first repository, from the `from`-th on, that a directory belongs to.
pub open spec fn repository_at(
    repositories: Seq<RepositoryView>,
    path: Parts,
    from: int,
) -> Option<int>
    decreases repositories.len() - from,
{
    if from < 0 || from >= repositories.len() {
        None
    } else if path == repositories[from].git_dir || path == repositories[from].common_dir {
        Some(from)
    } else {
        repository_at(repositories, path, from + 1)
    }
}

/// The report that a directory is watched again.
pub open spec fn metadata_recovered_report(root: Parts) -> IntegrityView {
    crate::model::integrity_view(
        IntegrityLevel::Info,
        "git"@,
        "Git metadata watch recovered"@,
        "native observation resumed; events during the gap were not reconstructed"@,
        root,
    )
}

/// What trying to watch directories again has come to.
#[verifier::ext_equal]
pub struct MetadataRun {
    pub repositories: Seq<RepositoryView>,
    pub watched: Seq<Parts>,
    pub failed: Seq<FailedView>,
    pub reports: Seq<IntegrityView>,
}

impl MonitorView {
    /// What trying to watch the first `n` failed directories again has come to.
    /// Those that are not due stay as they are; those that are watched again are
    /// reported, and their repository is taken to look as it does now; the others
    /// wait longer.
    pub open spec fn metadata_run(
        self,
        attempts: Seq<AttemptView>,
        now: u64,
        n: nat,
    ) -> MetadataRun
        decreases n,
    {
        if n == 0 {
            MetadataRun {
                repositories: self.repositories,
                watched: self.watched,
                failed: Seq::empty(),
                reports: Seq::empty(),
            }
        } else {
            let earlier = self.metadata_run(attempts, now, (n - 1) as nat);
            let asked = crate::watcher::due_roots(self.failed, now, (n - 1) as nat).len();
            let one = self.failed[n - 1];
            if one.state.next_attempt > now {
                MetadataRun { failed: earlier.failed.push(one), ..earlier }
            } else if attempts[asked as int].watched {
                let at = repository_at(earlier.repositories, one.root, 0);
                MetadataRun {
                    repositories: match (at, attempts[asked as int].snapshot) {
                        (Some(i), Some(snapshot)) => earlier.repositories.update(
                            i,
                            RepositoryView { snapshot, ..earlier.repositories[i] },
                        ),
                        _ => earlier.repositories,
                    },
                    watched: with_path(earlier.watched, one.root),
                    reports: earlier.reports.push(
                        metadata_recovered_report(
                            match at {
                                Some(i) => earlier.repositories[i].root,
                                None => Parts::empty(),
                            },
                        ),
                    ),
                    ..earlier
                }
            } else {
                MetadataRun {
                    failed: earlier.failed.push(
                        FailedView { root: one.root, state: one.state.retried(now) },
                    ),
                    ..earlier
                }
            }
        }
    }

    /// The state once the watches that were due have been tried.
    pub open spec fn metadata_retried(self, attempts: Seq<AttemptView>, now: u64) -> MonitorView {
        let run = self.metadata_run(attempts, now, self.failed.len());
        MonitorView {
            repositories: run.repositories,
            watched: run.watched,
            failed: run.failed,
            ..self
        }
    }

    /// Which repositories have been quiet for long enough to be looked at, of the
    /// first `n`.
    pub open spec fn ready_among(self, now: u64, n: nat) -> Seq<int>
        decreases n,
    {
        if n == 0 {
            Seq::empty()
        } else {
            let earlier = self.ready_among(now, (n - 1) as nat);
            match self.repositories[n - 1].dirty_since {
                Some(since) => if crate::recovery::elapsed_since(since, now)
                    >= EVENT_QUIET_PERIOD {
                    earlier.push(n - 1)
                } else {
                    earlier
                },
                None => earlier,
            }
        }
    }

    /// The state once a repository has been looked at.
    pub open spec fn settled(self, i: int, current: RepoView) -> MonitorView {
        MonitorView {
            repositories: self.repositories.update(
                i,
                RepositoryView {
                    snapshot: current,
                    dirty_since: None,
                    ..self.repositories[i]
                },
            ),
            ..self
        }
    }

    /// The state once the directories that have been quiet for long enough are no
    /// longer taken to have changed.
    pub open spec fn calmed(self, now: u64) -> MonitorView {
        MonitorView {
            dirty: self.dirty.filter(
                |one: DirtyView|
                    crate::recovery::elapsed_since(one.since, now) < EVENT_QUIET_PERIOD,
            ),
            ..self
        }
    }

    /// The roots whose worktrees have to be listed: those of the first repository
    /// of each directory, of the first `n`, that has been quiet for long enough.
    pub open spec fn listing_roots(self, now: u64, n: nat) -> Seq<Parts>
        decreases n,
    {
        if n == 0 {
            Seq::empty()
        } else {
            let earlier = self.listing_roots(now, (n - 1) as nat);
            let one = self.dirty[n - 1];
            match sharing(self.repositories, one.common_dir, 0) {
                Some(i) if crate::recovery::elapsed_since(one.since, now)
                    >= EVENT_QUIET_PERIOD => earlier.push(self.repositories[i].root),
                _ => earlier,
            }
        }
    }

    /// The worktrees that are new, of the first `n`.
    pub open spec fn new_worktrees(self, found: Seq<Parts>, n: nat) -> Seq<Parts>
        decreases n,
    {
        if n == 0 {
            Seq::empty()
        } else {
            let earlier = self.new_worktrees(found, (n - 1) as nat);
            if self.worktrees.contains(found[n - 1]) || earlier.contains(found[n - 1]) {
                earlier
            } else {
                earlier.push(found[n - 1])
            }
        }
    }
}

/// The first repository, from the `from`-th on, whose worktrees share a
/// directory.
pub open spec fn sharing(
    repositories: Seq<RepositoryView>,
    common_dir: Parts,
    from: int,
) -> Option<int>
    decreases repositories.len() - from,
{
    if from < 0 || from >= repositories.len() {
        None
    } else if repositories[from].common_dir == common_dir {
        Some(from)
    } else {
        sharing(repositories, common_dir, from + 1)
    }
}

/// No fewer watches are due among more failed directories.
proof fn lemma_due_grows(failed: Seq<FailedView>, now: u64, few: nat, many: nat)
    requires
        few <= many,
    ensures
        crate::watcher::due_roots(failed, now, few).len() <= crate::watcher::due_roots(
            failed,
            now,
            many,
        ).len(),
    decreases many,
{
    if few < many {
        lemma_due_grows(failed, now, few, (many - 1) as nat);
    }
}

impl GitMonitor {
    /// Lists the directories whose watch is to be tried again by now.
    pub fn due_metadata(&self, now: u64) -> (due: Vec<FsPath>)
        ensures
            crate::path::paths_of(due@) == crate::watcher::due_roots(
                self@.failed,
                now,
                self@.failed.len(),
            ),
    {
        let mut due: Vec<FsPath> = Vec::new();
        let mut i: usize = 0;
        let ghost failed = self@.failed;
        assert(crate::path::paths_of(due@) =~= Seq::<Parts>::empty());
        while i < self.failed_metadata.len()
            invariant
                i <= self.failed_metadata@.len(),
                failed == crate::watcher::failed_views(self.failed_metadata@),
                crate::path::paths_of(due@) == crate::watcher::due_roots(failed, now, i as nat),
            decreases self.failed_metadata@.len() - i,
        {
            let ghost before = crate::path::paths_of(due@);
            assert(failed[i as int] == self.failed_metadata@[i as int]@);
            if self.failed_metadata[i].state.next_attempt <= now {
                due.push(self.failed_metadata[i].root.clone());
                assert(crate::path::paths_of(due@) =~= before.push(failed[i as int].root));
            }
            i += 1;
        }
        due
    }

    /// Finds the first repository that a directory belongs to.
    pub fn find_repository(&self, path: &FsPath) -> (at: Option<usize>)
        ensures
            match at {
                Some(i) => i < self@.repositories.len() && repository_at(
                    self@.repositories,
                    path@,
                    0,
                ) == Some(i as int),
                None => repository_at(self@.repositories, path@, 0) is None,
            },
    {
        let ghost all = self@.repositories;
        let mut i: usize = 0;
        while i < self.repositories.len()
            invariant
                i <= self.repositories@.len(),
                all == self@.repositories,
                repository_at(all, path@, 0) == repository_at(all, path@, i as int),
            decreases self.repositories@.len() - i,
        {
            let one = &self.repositories[i];
            assert(all[i as int] == one@);
            if path.same(&one.git_dir) || path.same(&one.common_dir) {
                return Some(i);
            }
            i += 1;
        }
        None
    }

    /// Notes what trying the due watches again has given: there is an attempt for
    /// each directory that is due, in order.
    pub fn recover_metadata(&mut self, attempts: Vec<MetadataAttempt>, now: u64) -> (events: Vec<
        IntegrityEvent,
    >)
        requires
            crate::recovery::has_time_left(now),
            attempts@.len() == crate::watcher::due_roots(
                old(self)@.failed,
                now,
                old(self)@.failed.len(),
            ).len(),
        ensures
            final(self)@ == old(self)@.metadata_retried(attempt_views(attempts@), now),
            crate::model::integrity_views(events@) == old(self)@.metadata_run(
                attempt_views(attempts@),
                now,
                old(self)@.failed.len(),
            ).reports,
    {
        let ghost before = self@;
        let ghost failed = self@.failed;
        let ghost tried = attempt_views(attempts@);
        let mut waiting: Vec<FailedRoot> = Vec::new();
        std::mem::swap(&mut waiting, &mut self.failed_metadata);
        let mut attempts = attempts;
        let mut events: Vec<IntegrityEvent> = Vec::new();
        let ghost mut i: int = 0;
        let ghost mut asked: int = 0;
        proof {
            assert(failed.skip(0) =~= failed);
            assert(tried.skip(0) =~= tried);
            assert(crate::watcher::failed_views(waiting@) =~= failed);
            assert(self@.failed =~= Seq::<FailedView>::empty());
            assert(crate::model::integrity_views(events@) =~= Seq::<IntegrityView>::empty());
        }
        while waiting.len() > 0
            invariant
                crate::recovery::has_time_left(now),
                0 <= i <= failed.len(),
                failed == before.failed,
                tried.len() == crate::watcher::due_roots(failed, now, failed.len()).len(),
                asked == crate::watcher::due_roots(failed, now, i as nat).len(),
                0 <= asked <= tried.len(),
                crate::watcher::failed_views(waiting@) == failed.skip(i),
                attempt_views(attempts@) == tried.skip(asked),
                self@ == (MonitorView {
                    repositories: before.metadata_run(tried, now, i as nat).repositories,
                    watched: before.metadata_run(tried, now, i as nat).watched,
                    failed: before.metadata_run(tried, now, i as nat).failed,
                    ..before
                }),
                crate::model::integrity_views(events@) == before.metadata_run(
                    tried,
                    now,
                    i as nat,
                ).reports,
            decreases waiting@.len(),
        {
            let ghost queue = crate::watcher::failed_views(waiting@);
            let ghost so_far = before.metadata_run(tried, now, i as nat);
            let ghost reported = crate::model::integrity_views(events@);
            let one = waiting.remove(0);
            assert(queue.len() > 0);
            assert(queue[0] == one@);
            assert(failed.skip(i)[0] == failed[i]);
            assert(crate::watcher::failed_views(waiting@) =~= queue.skip(1));
            assert(failed.skip(i).skip(1) =~= failed.skip(i + 1));
            let ghost view = one@;
            if one.state.next_attempt > now {
                self.failed_metadata.push(one);
                assert(self@.failed =~= so_far.failed.push(view));
            } else {
                proof {
                    lemma_due_grows(failed, now, (i + 1) as nat, failed.len());
                }
                let ghost pile = attempt_views(attempts@);
                assert(crate::watcher::due_roots(failed, now, (i + 1) as nat).len() == asked + 1);
                assert(pile.len() == tried.len() - asked);
                assert(pile.len() == attempts@.len());
                let attempt = attempts.remove(0);
                assert(pile[0] == attempt@);
                assert(tried.skip(asked)[0] == tried[asked]);
                assert(attempt_views(attempts@) =~= pile.skip(1));
                assert(tried.skip(asked).skip(1) =~= tried.skip(asked + 1));
                if attempt.watched {
                    let _ = insert_path(&mut self.watched_metadata, &one.root);
                    let at = self.find_repository(&one.root);
                    let root = match at {
                        Some(k) => {
                            assert(self@.repositories[k as int] == self.repositories@[k as int]@);
                            self.repositories[k].root.clone()
                        },
                        None => FsPath::empty(),
                    };
                    if let (Some(k), Some(snapshot)) = (at, attempt.snapshot) {
                        let ghost listed = self@.repositories;
                        assert(listed[k as int] == self.repositories@[k as int]@);
                        let ghost now_view = snapshot@;
                        self.repositories[k].snapshot = snapshot;
                        assert(self@.repositories =~= listed.update(
                            k as int,
                            RepositoryView { snapshot: now_view, ..listed[k as int] },
                        ));
                    }
                    let event = integrity(
                        IntegrityLevel::Info,
                        "git",
                        "Git metadata watch recovered",
                        "native observation resumed; events during the gap were not reconstructed",
                        &root,
                    );
                    events.push(event);
                    assert(crate::model::integrity_views(events@) =~= reported.push(event@));
                } else {
                    self.failed_metadata.push(
                        FailedRoot { root: one.root, state: one.state.retry(now) },
                    );
                    assert(self@.failed =~= so_far.failed.push(
                        FailedView { root: view.root, state: view.state.retried(now) },
                    ));
                }
                proof {
                    asked = asked + 1;
                }
            }
            proof {
                i = i + 1;
            }
        }
        assert(i == failed.len());
        events
    }

    /// Lists the repositories that have been quiet for long enough to be looked
    /// at.
    pub fn ready_repositories(&self, now: u64) -> (ready: Vec<usize>)
        ensures
            ready@.map_values(|i: usize| i as int) == self@.ready_among(
                now,
                self@.repositories.len(),
            ),
            forall|k: int| 0 <= k < ready@.len() ==> #[trigger] ready@[k] < self@.repositories.len(),
    {
        let mut ready: Vec<usize> = Vec::new();
        let mut i: usize = 0;
        assert(ready@.map_values(|i: usize| i as int) =~= Seq::<int>::empty());
        while i < self.repositories.len()
            invariant
                i <= self.repositories@.len(),
                ready@.map_values(|i: usize| i as int) == self@.ready_among(now, i as nat),
                forall|k: int| 0 <= k < ready@.len() ==> #[trigger] ready@[k] < i,
            decreases self.repositories@.len() - i,
        {
            let ghost before = ready@;
            assert(self@.repositories[i as int] == self.repositories@[i as int]@);
            if let Some(since) = self.repositories[i].dirty_since {
                if elapsed(since, now) >= EVENT_QUIET_PERIOD {
                    ready.push(i);
                    assert(ready@.map_values(|i: usize| i as int) =~= before.map_values(
                        |i: usize| i as int,
                    ).push(i as int));
                }
            }
            i += 1;
        }
        ready
    }

    /// Takes in what a repository looks like now, and reports what happened in it
    /// since it was last looked at.
    pub fn drain_repository(
        &mut self,
        i: usize,
        current: RepoSnapshot,
        ancestry: Ancestry,
    ) -> (activities: Vec<GitActivity>)
        requires
            i < old(self)@.repositories.len(),
        ensures
            final(self)@ == old(self)@.settled(i as int, current@),
            crate::git::activity_views(activities@) == crate::classify::repo_changes(
                old(self)@.repositories[i as int].root,
                old(self)@.repositories[i as int].snapshot,
                current@,
                ancestry,
            ),
    {
        let ghost before = self@;
        assert(before.repositories[i as int] == self.repositories@[i as int]@);
        let mut activities: Vec<GitActivity> = Vec::new();
        let one = &self.repositories[i];
        classify_changes(&one.root, &one.snapshot, &current, ancestry, &mut activities);
        assert(crate::git::activity_views(activities@) =~= crate::classify::repo_changes(
            before.repositories[i as int].root,
            before.repositories[i as int].snapshot,
            current@,
            ancestry,
        ));
        let ghost view = current@;
        self.repositories[i].snapshot = current;
        self.repositories[i].dirty_since = None;
        assert(self@.repositories =~= before.settled(i as int, view).repositories);
        activities
    }

    /// Finds the first repository whose worktrees share a directory.
    fn find_sharing(&self, common_dir: &FsPath) -> (at: Option<usize>)
        ensures
            match at {
                Some(i) => i < self@.repositories.len() && sharing(
                    self@.repositories,
                    common_dir@,
                    0,
                ) == Some(i as int),
                None => sharing(self@.repositories, common_dir@, 0) is None,
            },
    {
        let ghost all = self@.repositories;
        let mut i: usize = 0;
        while i < self.repositories.len()
            invariant
                i <= self.repositories@.len(),
                all == self@.repositories,
                sharing(all, common_dir@, 0) == sharing(all, common_dir@, i as int),
            decreases self.repositories@.len() - i,
        {
            assert(all[i as int] == self.repositories@[i as int]@);
            if self.repositories[i].common_dir.same(common_dir) {
                return Some(i);
            }
            i += 1;
        }
        None
    }

    /// Lists the roots whose worktrees have to be listed now.
    pub fn ready_worktrees(&mut self, now: u64) -> (roots: Vec<FsPath>)
        ensures
            final(self)@ == old(self)@.calmed(now),
            crate::path::paths_of(roots@) == old(self)@.listing_roots(
                now,
                old(self)@.dirty.len(),
            ),
    {
        let ghost before = self@;
        let ghost all = self@.dirty;
        let ghost keep = |one: DirtyView|
            crate::recovery::elapsed_since(one.since, now) < EVENT_QUIET_PERIOD;
        let mut rest: Vec<DirtyWorktrees> = Vec::new();
        std::mem::swap(&mut rest, &mut self.worktrees_dirty_since);
        let mut roots: Vec<FsPath> = Vec::new();
        let ghost mut i: int = 0;
        proof {
            reveal_with_fuel(Seq::filter, 1);
            assert(dirty_views(rest@) =~= all);
            assert(all.skip(0) =~= all);
            assert(all.take(0).filter(keep) =~= Seq::<DirtyView>::empty());
            assert(self@.dirty =~= Seq::<DirtyView>::empty());
            assert(crate::path::paths_of(roots@) =~= Seq::<Parts>::empty());
        }
        while rest.len() > 0
            invariant
                0 <= i <= all.len(),
                all == before.dirty,
                keep == (|one: DirtyView|
                    crate::recovery::elapsed_since(one.since, now) < EVENT_QUIET_PERIOD),
                dirty_views(rest@) == all.skip(i),
                self@ == (MonitorView { dirty: all.take(i).filter(keep), ..before }),
                crate::path::paths_of(roots@) == before.listing_roots(now, i as nat),
            decreases rest@.len(),
        {
            let ghost queue = dirty_views(rest@);
            let ghost listed = crate::path::paths_of(roots@);
            let ghost kept = self@.dirty;
            let one = rest.remove(0);
            assert(queue.len() > 0);
            assert(queue[0] == one@);
            assert(all.skip(i)[0] == all[i]);
            assert(dirty_views(rest@) =~= queue.skip(1));
            assert(all.skip(i).skip(1) =~= all.skip(i + 1));
            proof {
                assert(all.take(i + 1).drop_last() =~= all.take(i));
                assert(all.take(i + 1).last() == all[i]);
                reveal_with_fuel(Seq::filter, 1);
            }
            let ghost view = one@;
            if elapsed(one.since, now) >= EVENT_QUIET_PERIOD {
                if let Some(k) = self.find_sharing(&one.common_dir) {
                    assert(self@.repositories[k as int] == self.repositories@[k as int]@);
                    roots.push(self.repositories[k].root.clone());
                    assert(crate::path::paths_of(roots@) =~= listed.push(
                        before.repositories[k as int].root,
                    ));
                }
            } else {
                self.worktrees_dirty_since.push(one);
                assert(self@.dirty =~= kept.push(view));
            }
            proof {
                i = i + 1;
            }
        }
        assert(i == all.len());
        assert(all.take(i) =~= all);
        roots
    }

    /// Takes in which worktrees there are, and tells which of them are new.
    pub fn drain_worktrees(&mut self, found: &Vec<FsPath>) -> (new: Vec<FsPath>)
        ensures
            final(self)@ == (MonitorView {
                worktrees: old(self)@.worktrees + old(self)@.new_worktrees(
                    crate::path::paths_of(found@),
                    found@.len(),
                ),
                ..old(self)@
            }),
            crate::path::paths_of(new@) == old(self)@.new_worktrees(
                crate::path::paths_of(found@),
                found@.len(),
            ),
    {
        let ghost before = self@;
        let ghost all = crate::path::paths_of(found@);
        let mut new: Vec<FsPath> = Vec::new();
        let mut i: usize = 0;
        assert(crate::path::paths_of(new@) =~= Seq::<Parts>::empty());
        assert(before.worktrees + Seq::<Parts>::empty() =~= before.worktrees);
        while i < found.len()
            invariant
                i <= found@.len(),
                all == crate::path::paths_of(found@),
                crate::path::paths_of(new@) == before.new_worktrees(all, i as nat),
                self@ == (MonitorView {
                    worktrees: before.worktrees + before.new_worktrees(all, i as nat),
                    ..before
                }),
            decreases found@.len() - i,
        {
            let ghost so_far = before.new_worktrees(all, i as nat);
            assert(all[i as int] == found@[i as int]@);
            proof {
                lemma_contains_sum(before.worktrees, so_far, all[i as int]);
            }
            if insert_path(&mut self.known_worktrees, &found[i]) {
                new.push(found[i].clone());
                assert(crate::path::paths_of(new@) =~= so_far.push(all[i as int]));
                assert((before.worktrees + so_far).push(all[i as int]) =~= before.worktrees
                    + so_far.push(all[i as int]));
            }
            i += 1;
        }
        new
    }
}

/// A path stands in one of two lists where it stands in both together.
proof fn lemma_contains_sum(a: Seq<Parts>, b: Seq<Parts>, path: Parts)
    ensures
        (a + b).contains(path) == (a.contains(path) || b.contains(path)),
{
    if a.contains(path) {
        let i = choose|i: int| 0 <= i < a.len() && a[i] == path;
        assert((a + b)[i] == path);
    }
    if b.contains(path) {
        let i = choose|i: int| 0 <= i < b.len() && b[i] == path;
        assert((a + b)[a.len() + i] == path);
    }
    if (a + b).contains(path) {
        let i = choose|i: int| 0 <= i < (a + b).len() && (a + b)[i] == path;
        if i < a.len() {
            assert(a[i] == path);
        } else {
            assert(b[i - a.len()] == path);
        }
    }
}

/// Whether a repository is observed.
pub open spec fn has_repository(repositories: Seq<RepositoryView>, root: Parts) -> bool {
    exists|i: int| 0 <= i < repositories.len() && (#[trigger] repositories[i]).root == root
}

/// The report of a fault that kept a repository from being observed.
pub open spec fn joining_fault(fault: NotifyFault, root: Parts) -> GitNews {
    GitNews::Integrity(
        crate::watcher::fault_report(
            "git"@,
            fault.kind,
            crate::path::paths_of(fault.paths@),
            fault.description@,
            crate::text::lowercase_text(fault.description@),
            root,
        ),
    )
}

/// What came of taking a repository in: the state, and the news.
#[verifier::ext_equal]
pub struct Joining {
    pub monitor: MonitorView,
    pub news: Option<GitNews>,
}

impl MonitorView {
    /// Whether Git names a repository that is not observed yet.
    pub open spec fn can_join(self, probe: ProbeView) -> bool {
        probe.root is Some && probe.git_dir is Some && !has_repository(
            self.repositories,
            probe.root->0,
        )
    }

    /// What comes of taking the repository of a related folder in, where its
    /// directories are watched but for the faults that are given. A directory
    /// that is watched already counts as watched.
    pub open spec fn joined(
        self,
        probe: ProbeView,
        git_fault: Option<NotifyFault>,
        common_fault: Option<NotifyFault>,
    ) -> Joining {
        if !self.can_join(probe) {
            Joining { monitor: self, news: None }
        } else {
            let root = probe.root->0;
            let watched = with_path(self.watched, probe.git_dir->0);
            if !self.watched.contains(probe.git_dir->0) && git_fault is Some {
                Joining { monitor: self, news: Some(joining_fault(git_fault->0, root)) }
            } else if !watched.contains(shared_dir(probe)) && common_fault is Some {
                Joining {
                    monitor: MonitorView { watched, ..self },
                    news: Some(joining_fault(common_fault->0, root)),
                }
            } else {
                Joining {
                    monitor: MonitorView {
                        watched: with_path(watched, shared_dir(probe)),
                        repositories: self.repositories.push(repository_of(probe)),
                        ..self
                    },
                    news: Some(
                        GitNews::Activity(
                            crate::git::activity_of(
                                root,
                                "linked worktree joined"@,
                                "discovered from native Git worktree metadata"@,
                            ),
                        ),
                    ),
                }
            }
        }
    }

    /// The folder that may have become a repository, given a path that has
    /// changed: the one whose `.git` the path lies in, unless it is observed.
    pub open spec fn candidate(self, path: Parts) -> Option<Parts> {
        match crate::git::worktree_of(path, 0) {
            Some(root) => if has_repository(self.repositories, root) {
                None
            } else {
                Some(root)
            },
            None => None,
        }
    }

    /// What comes of a change at a path that may have made a repository.
    pub open spec fn initialized(
        self,
        path: Parts,
        probe: ProbeView,
        git_fault: Option<NotifyFault>,
        common_fault: Option<NotifyFault>,
    ) -> Joining {
        if self.candidate(path) is None || !self.can_join(probe) {
            Joining { monitor: self, news: None }
        } else {
            let root = probe.root->0;
            if git_fault is Some {
                Joining { monitor: self, news: Some(joining_fault(git_fault->0, root)) }
            } else if shared_dir(probe) != probe.git_dir->0 && common_fault is Some {
                Joining { monitor: self, news: Some(joining_fault(common_fault->0, root)) }
            } else {
                Joining {
                    monitor: MonitorView {
                        repositories: self.repositories.push(repository_of(probe)),
                        ..self
                    },
                    news: Some(
                        GitNews::Activity(
                            crate::git::activity_of(
                                root,
                                "repository initialized"@,
                                "watching "@ + crate::path::path_text(probe.git_dir->0),
                            ),
                        ),
                    ),
                }
            }
        }
    }
}

/// The contents of optional news.
pub open spec fn opt_news(event: Option<GitMonitorEvent>) -> Option<GitNews> {
    match event {
        Some(event) => Some(event@),
        None => None,
    }
}

impl GitMonitor {
    /// Tests whether a repository is observed.
    pub fn has_root(&self, root: &FsPath) -> (b: bool)
        ensures
            b == has_repository(self@.repositories, root@),
    {
        let ghost all = self@.repositories;
        let mut i: usize = 0;
        while i < self.repositories.len()
            invariant
                i <= self.repositories@.len(),
                all == self@.repositories,
                forall|j: int| 0 <= j < i ==> (#[trigger] all[j]).root != root@,
            decreases self.repositories@.len() - i,
        {
            assert(all[i as int] == self.repositories@[i as int]@);
            if self.repositories[i].root.same(root) {
                return true;
            }
            i += 1;
        }
        false
    }

    /// Tests whether a directory is watched.
    pub fn is_watched(&self, path: &FsPath) -> (b: bool)
        ensures
            b == self@.watched.contains(path@),
    {
        has_path(&self.watched_metadata, path)
    }

    /// Takes a repository in.
    fn push_repository(
        &mut self,
        root: &FsPath,
        git_dir: FsPath,
        common_dir: FsPath,
        snapshot: RepoSnapshot,
    )
        ensures
            final(self)@ == (MonitorView {
                repositories: old(self)@.repositories.push(
                    RepositoryView {
                        root: root@,
                        git_dir: git_dir@,
                        common_dir: common_dir@,
                        snapshot: snapshot@,
                        dirty_since: None,
                    },
                ),
                ..old(self)@
            }),
    {
        let ghost before = self@.repositories;
        let one = Repository {
            root: root.clone(),
            git_dir,
            common_dir,
            snapshot,
            dirty_since: None,
        };
        self.repositories.push(one);
        assert(self@.repositories =~= before.push(one@));
    }

    /// Takes in the repository of a related folder. The faults are what kept its
    /// Git directory, and the one that its worktrees share, from being watched.
    pub fn add_root(
        &mut self,
        probe: RepoProbe,
        git_fault: Option<NotifyFault>,
        common_fault: Option<NotifyFault>,
    ) -> (event: Option<GitMonitorEvent>)
        ensures
            final(self)@ == old(self)@.joined(probe@, git_fault, common_fault).monitor,
            opt_news(event) == old(self)@.joined(probe@, git_fault, common_fault).news,
    {
        let root = match probe.root {
            Some(root) => root,
            None => {
                return None;
            },
        };
        let git_dir = match probe.git_dir {
            Some(path) => path,
            None => {
                return None;
            },
        };
        if self.has_root(&root) {
            return None;
        }
        let common_dir = match probe.common_dir {
            Some(path) => path,
            None => git_dir.clone(),
        };
        if !self.is_watched(&git_dir) {
            if let Some(fault) = git_fault {
                return Some(
                    GitMonitorEvent::Integrity(integrity_from_notify_error("git", fault, &root)),
                );
            }
            let _ = insert_path(&mut self.watched_metadata, &git_dir);
        }
        if !self.is_watched(&common_dir) {
            if let Some(fault) = common_fault {
                return Some(
                    GitMonitorEvent::Integrity(integrity_from_notify_error("git", fault, &root)),
                );
            }
            let _ = insert_path(&mut self.watched_metadata, &common_dir);
        }
        self.push_repository(&root, git_dir, common_dir, probe.snapshot);
        Some(
            GitMonitorEvent::Activity(
                activity(
                    &root,
                    "linked worktree joined".to_owned(),
                    "discovered from native Git worktree metadata",
                ),
            ),
        )
    }

    /// Finds the folder that may have become a repository, given a path that has
    /// changed.
    pub fn find_candidate(&self, path: &FsPath) -> (root: Option<FsPath>)
        ensures
            crate::path::opt_path(root) == self@.candidate(path@),
    {
        match worktree_from_git_path(path) {
            Some(root) => {
                if self.has_root(&root) {
                    None
                } else {
                    Some(root)
                }
            },
            None => None,
        }
    }

    /// Takes in a change at a path that may have made a repository.
    pub fn observe_workspace_event(
        &mut self,
        path: &FsPath,
        probe: RepoProbe,
        git_fault: Option<NotifyFault>,
        common_fault: Option<NotifyFault>,
    ) -> (event: Option<GitMonitorEvent>)
        ensures
            final(self)@ == old(self)@.initialized(
                path@,
                probe@,
                git_fault,
                common_fault,
            ).monitor,
            opt_news(event) == old(self)@.initialized(
                path@,
                probe@,
                git_fault,
                common_fault,
            ).news,
    {
        if self.find_candidate(path).is_none() {
            return None;
        }
        let root = match probe.root {
            Some(root) => root,
            None => {
                return None;
            },
        };
        let git_dir = match probe.git_dir {
            Some(path) => path,
            None => {
                return None;
            },
        };
        if self.has_root(&root) {
            return None;
        }
        let common_dir = match probe.common_dir {
            Some(path) => path,
            None => git_dir.clone(),
        };
        if let Some(fault) = git_fault {
            return Some(
                GitMonitorEvent::Integrity(integrity_from_notify_error("git", fault, &root)),
            );
        }
        if !common_dir.same(&git_dir) {
            if let Some(fault) = common_fault {
                return Some(
                    GitMonitorEvent::Integrity(integrity_from_notify_error("git", fault, &root)),
                );
            }
        }
        let detail = join2("watching ", git_dir.display().as_str());
        self.push_repository(&root, git_dir, common_dir, probe.snapshot);
        Some(
            GitMonitorEvent::Activity(
                activity(&root, "repository initialized".to_owned(), detail.as_str()),
            ),
        )
    }
}

/// No repository is observed twice: where that holds it keeps holding, whatever
/// joins.
pub proof fn no_repository_is_observed_twice(
    monitor: MonitorView,
    path: Parts,
    probe: ProbeView,
    git_fault: Option<NotifyFault>,
    common_fault: Option<NotifyFault>,
)
    requires
        roots_of(monitor.repositories).no_duplicates(),
    ensures
        roots_of(
            monitor.joined(probe, git_fault, common_fault).monitor.repositories,
        ).no_duplicates(),
        roots_of(
            monitor.initialized(path, probe, git_fault, common_fault).monitor.repositories,
        ).no_duplicates(),
{
    if monitor.can_join(probe) {
        let before = roots_of(monitor.repositories);
        let after = roots_of(monitor.repositories.push(repository_of(probe)));
        assert(after =~= before.push(probe.root->0));
        if before.contains(probe.root->0) {
            let i = choose|i: int| 0 <= i < before.len() && before[i] == probe.root->0;
            assert(monitor.repositories[i].root == probe.root->0);
        }
        assert forall|i: int, j: int|
            0 <= i < after.len() && 0 <= j < after.len() && i != j implies after[i] != after[j] by {
            if i < before.len() && j < before.len() {
                assert(before[i] != before[j]);
            } else if i < before.len() {
                assert(before.contains(before[i]));
            } else {
                assert(before.contains(before[j]));
            }
        }
    }
}

/// The roots of some repositories.
pub open spec fn roots_of(repositories: Seq<RepositoryView>) -> Seq<Parts> {
    repositories.map_values(|one: RepositoryView| one.root)
}

/// Discovery observes no repository twice.
pub proof fn discovery_observes_no_repository_twice(probes: Seq<ProbeView>, n: nat)
    requires
        n <= probes.len(),
    ensures
        roots_of(discovered(probes, n).repositories).no_duplicates(),
        forall|i: int|
            0 <= i < discovered(probes, n).repositories.len() ==> discovered(
                probes,
                n,
            ).seen.contains((#[trigger] discovered(probes, n).repositories[i]).root),
    decreases n,
{
    if n > 0 {
        discovery_observes_no_repository_twice(probes, (n - 1) as nat);
        let earlier = discovered(probes, (n - 1) as nat);
        let now = discovered(probes, n);
        let probe = probes[n - 1];
        if probe.root is Some && !earlier.seen.contains(probe.root->0) {
            let root = probe.root->0;
            assert(now.seen == earlier.seen.push(root));
            assert forall|other: Parts| earlier.seen.contains(other) implies now.seen.contains(
                other,
            ) by {
                let k = choose|k: int| 0 <= k < earlier.seen.len() && earlier.seen[k] == other;
                assert(now.seen[k] == other);
            }
            assert(now.seen[earlier.seen.len() as int] == root);
            if probe.git_dir is Some {
                let before = roots_of(earlier.repositories);
                let after = roots_of(now.repositories);
                assert(after =~= before.push(root));
                assert forall|i: int, j: int|
                    0 <= i < after.len() && 0 <= j < after.len() && i != j implies after[i]
                    != after[j] by {
                    if i < before.len() && j < before.len() {
                        assert(before[i] != before[j]);
                    } else if i < before.len() {
                        assert(earlier.seen.contains(earlier.repositories[i].root));
                    } else {
                        assert(earlier.seen.contains(earlier.repositories[j].root));
                    }
                }
            }
        }
    }
}

/// A worktree is told of only once: those that are told of were not known
/// before, no two of them are the same, and a second look at the same worktrees
/// tells of none.
pub proof fn worktrees_are_told_of_once(monitor: MonitorView, found: Seq<Parts>)
    ensures
        ({
            let new = monitor.new_worktrees(found, found.len());
            let next = MonitorView { worktrees: monitor.worktrees + new, ..monitor };
            &&& new.no_duplicates()
            &&& forall|i: int| 0 <= i < new.len() ==> !monitor.worktrees.contains(#[trigger] new[i])
            &&& next.new_worktrees(found, found.len()).len() == 0
        }),
{
    let new = monitor.new_worktrees(found, found.len());
    let next = MonitorView { worktrees: monitor.worktrees + new, ..monitor };
    lemma_new_worktrees(monitor, found, found.len());
    lemma_second_look(monitor, next, found, found.len());
}

/// What the new worktrees are.
proof fn lemma_new_worktrees(monitor: MonitorView, found: Seq<Parts>, n: nat)
    requires
        n <= found.len(),
    ensures
        monitor.new_worktrees(found, n).no_duplicates(),
        forall|i: int|
            0 <= i < monitor.new_worktrees(found, n).len() ==> !monitor.worktrees.contains(
                #[trigger] monitor.new_worktrees(found, n)[i],
            ),
        forall|k: int|
            0 <= k < n ==> monitor.worktrees.contains(#[trigger] found[k])
                || monitor.new_worktrees(found, n).contains(found[k]),
    decreases n,
{
    if n > 0 {
        lemma_new_worktrees(monitor, found, (n - 1) as nat);
        let earlier = monitor.new_worktrees(found, (n - 1) as nat);
        let now = monitor.new_worktrees(found, n);
        let last = found[n - 1];
        assert forall|k: int| 0 <= k < n implies monitor.worktrees.contains(#[trigger] found[k])
            || now.contains(found[k]) by {
            if k < n - 1 {
                if earlier.contains(found[k]) {
                    let i = choose|i: int| 0 <= i < earlier.len() && earlier[i] == found[k];
                    assert(now[i] == found[k]);
                }
            } else if !monitor.worktrees.contains(last) && !earlier.contains(last) {
                assert(now[earlier.len() as int] == last);
            }
        }
        if !monitor.worktrees.contains(last) && !earlier.contains(last) {
            assert(now == earlier.push(last));
            assert forall|i: int, j: int|
                0 <= i < now.len() && 0 <= j < now.len() && i != j implies now[i] != now[j] by {
                if i < earlier.len() && j < earlier.len() {
                    assert(earlier[i] != earlier[j]);
                } else if i < earlier.len() {
                    assert(earlier.contains(earlier[i]));
                } else {
                    assert(earlier.contains(earlier[j]));
                }
            }
        }
    }
}

/// A second look tells of nothing.
proof fn lemma_second_look(monitor: MonitorView, next: MonitorView, found: Seq<Parts>, n: nat)
    requires
        n <= found.len(),
        next.worktrees == monitor.worktrees + monitor.new_worktrees(found, found.len()),
    ensures
        next.new_worktrees(found, n).len() == 0,
    decreases n,
{
    if n > 0 {
        lemma_second_look(monitor, next, found, (n - 1) as nat);
        lemma_new_worktrees(monitor, found, found.len());
        lemma_contains_sum(
            monitor.worktrees,
            monitor.new_worktrees(found, found.len()),
            found[n - 1],
        );
    }
}

/// What came of some messages: the state, the reports, and the directories that
/// are no longer to be watched.
#[verifier::ext_equal]
pub struct Hearing {
    pub monitor: MonitorView,
    pub reports: Seq<IntegrityView>,
    pub unwatched: Seq<Parts>,
}

impl MonitorView {
    /// What came of the first `n` messages, behind the report that `dropped`
    /// native events were dropped.
    pub open spec fn heard(
        self,
        dropped: u64,
        messages: Seq<GitMessage>,
        now: u64,
        n: nat,
    ) -> Hearing
        decreases n,
    {
        if n == 0 {
            Hearing {
                monitor: self,
                reports: match overflow_report(dropped) {
                    Some(report) => seq![report],
                    None => Seq::empty(),
                },
                unwatched: Seq::empty(),
            }
        } else {
            let earlier = self.heard(dropped, messages, now, (n - 1) as nat);
            let message = messages[n - 1];
            Hearing {
                monitor: earlier.monitor.told(message, now),
                reports: match earlier.monitor.told_news(message) {
                    Some(report) => earlier.reports.push(report),
                    None => earlier.reports,
                },
                unwatched: earlier.unwatched + earlier.monitor.told_unwatched(message),
            }
        }
    }
}

/// How many of so many messages are taken in at a time.
pub open spec fn taken_in(count: nat) -> nat {
    if count < MAX_GIT_EVENTS_PER_DRAIN {
        count
    } else {
        MAX_GIT_EVENTS_PER_DRAIN as nat
    }
}

impl GitMonitor {
    /// Takes in what the native watcher has had to say, as far as it is taken in
    /// at a time, where `dropped` events never came through. Returns what is to
    /// be reported, and the directories that are no longer to be watched.
    pub fn drain(&mut self, dropped: u64, messages: Vec<GitMessage>, now: u64) -> (out: (
        Vec<IntegrityEvent>,
        Vec<FsPath>,
    ))
        requires
            crate::recovery::has_time_left(now),
        ensures
            ({
                let hearing = old(self)@.heard(
                    dropped,
                    messages@,
                    now,
                    taken_in(messages@.len()),
                );
                &&& final(self)@ == hearing.monitor
                &&& crate::model::integrity_views(out.0@) == hearing.reports
                &&& crate::path::paths_of(out.1@) == hearing.unwatched
            }),
    {
        let ghost before = self@;
        let ghost all = messages@;
        let mut events: Vec<IntegrityEvent> = Vec::new();
        let mut unwatched: Vec<FsPath> = Vec::new();
        assert(crate::model::integrity_views(events@) =~= Seq::<IntegrityView>::empty());
        assert(crate::path::paths_of(unwatched@) =~= Seq::<Parts>::empty());
        if let Some(event) = drain_overflow(dropped) {
            events.push(event);
            assert(crate::model::integrity_views(events@) =~= seq![event@]);
        }
        let mut rest = messages;
        let mut processed: usize = 0;
        assert(all.skip(0) =~= all);
        while processed < MAX_GIT_EVENTS_PER_DRAIN && rest.len() > 0
            invariant
                crate::recovery::has_time_left(now),
                processed <= MAX_GIT_EVENTS_PER_DRAIN,
                processed <= all.len(),
                rest@ == all.skip(processed as int),
                self@ == before.heard(dropped, all, now, processed as nat).monitor,
                crate::model::integrity_views(events@) == before.heard(
                    dropped,
                    all,
                    now,
                    processed as nat,
                ).reports,
                crate::path::paths_of(unwatched@) == before.heard(
                    dropped,
                    all,
                    now,
                    processed as nat,
                ).unwatched,
            decreases rest@.len(),
        {
            let ghost reported = crate::model::integrity_views(events@);
            let ghost listed = crate::path::paths_of(unwatched@);
            let message = rest.remove(0);
            assert(message == all[processed as int]);
            assert(rest@ =~= all.skip(processed + 1));
            let (event, dropped_paths) = self.drain_message(message, now);
            if let Some(event) = event {
                events.push(event);
                assert(crate::model::integrity_views(events@) =~= reported.push(event@));
            }
            let ghost more = crate::path::paths_of(dropped_paths@);
            let mut paths = dropped_paths;
            unwatched.append(&mut paths);
            assert(crate::path::paths_of(unwatched@) =~= listed + more);
            processed += 1;
        }
        (events, unwatched)
    }
}

/// A repository is looked at once it has been touched and has then been quiet for
/// long enough, and only then.
pub proof fn repositories_are_looked_at_once_they_are_quiet(
    monitor: MonitorView,
    now: u64,
    n: nat,
    i: int,
)
    requires
        n <= monitor.repositories.len(),
    ensures
        monitor.ready_among(now, n).contains(i) <==> 0 <= i < n && (
        monitor.repositories[i].dirty_since matches Some(since)
            && crate::recovery::elapsed_since(since, now) >= EVENT_QUIET_PERIOD),
    decreases n,
{
    if n > 0 {
        repositories_are_looked_at_once_they_are_quiet(monitor, now, (n - 1) as nat, i);
        let earlier = monitor.ready_among(now, (n - 1) as nat);
        let longer = earlier.push(n - 1);
        assert(longer[earlier.len() as int] == n - 1);
        if earlier.contains(i) {
            let k = choose|k: int| 0 <= k < earlier.len() && earlier[k] == i;
            assert(longer[k] == i);
        }
        if longer.contains(i) && i != n - 1 {
            let k = choose|k: int| 0 <= k < longer.len() && longer[k] == i;
            assert(earlier[k] == i);
        }
    }
}

/// What can happen to the observation of repositories.
pub enum MonitorStep {
    /// What the native watcher had to say was taken in.
    Heard { dropped: u64, messages: Seq<GitMessage>, now: u64 },
    /// The watches that were due have been tried again.
    Retried { attempts: Seq<AttemptView>, now: u64 },
    /// A repository was looked at.
    Settled { i: int, current: RepoView },
    /// The worktrees of the roots that were due have been listed, in order.
    Listed { lists: Seq<Seq<Parts>>, now: u64 },
    /// A related folder was taken in.
    Joined {
        probe: ProbeView,
        git_fault: Option<NotifyFault>,
        common_fault: Option<NotifyFault>,
    },
    /// A change at a path was taken in that may have made a repository.
    Initialized {
        path: Parts,
        probe: ProbeView,
        git_fault: Option<NotifyFault>,
        common_fault: Option<NotifyFault>,
    },
}

/// What has come of some steps: the state, and the worktrees that were told of.
#[verifier::ext_equal]
pub struct MonitorRun {
    pub monitor: MonitorView,
    pub told: Seq<Parts>,
}

impl MonitorView {
    /// What comes of taking in the first `n` lists of worktrees.
    pub open spec fn looked(self, lists: Seq<Seq<Parts>>, n: nat) -> MonitorRun
        decreases n,
    {
        if n == 0 {
            MonitorRun { monitor: self, told: Seq::empty() }
        } else {
            let earlier = self.looked(lists, (n - 1) as nat);
            let found = lists[n - 1];
            let new = earlier.monitor.new_worktrees(found, found.len());
            MonitorRun {
                monitor: MonitorView {
                    worktrees: earlier.monitor.worktrees + new,
                    ..earlier.monitor
                },
                told: earlier.told + new,
            }
        }
    }

    /// What comes of a step.
    pub open spec fn stepped(self, step: MonitorStep) -> MonitorRun {
        match step {
            MonitorStep::Heard { dropped, messages, now } => MonitorRun {
                monitor: self.heard(dropped, messages, now, taken_in(messages.len())).monitor,
                told: Seq::empty(),
            },
            MonitorStep::Retried { attempts, now } => MonitorRun {
                monitor: self.metadata_retried(attempts, now),
                told: Seq::empty(),
            },
            MonitorStep::Settled { i, current } => MonitorRun {
                monitor: self.settled(i, current),
                told: Seq::empty(),
            },
            MonitorStep::Listed { lists, now } => self.calmed(now).looked(
                lists,
                self.listing_roots(now, self.dirty.len()).len(),
            ),
            MonitorStep::Joined { probe, git_fault, common_fault } => MonitorRun {
                monitor: self.joined(probe, git_fault, common_fault).monitor,
                told: Seq::empty(),
            },
            MonitorStep::Initialized { path, probe, git_fault, common_fault } => MonitorRun {
                monitor: self.initialized(path, probe, git_fault, common_fault).monitor,
                told: Seq::empty(),
            },
        }
    }

    /// What comes of the first `n` steps.
    pub open spec fn run(self, steps: Seq<MonitorStep>, n: nat) -> MonitorRun
        decreases n,
    {
        if n == 0 {
            MonitorRun { monitor: self, told: Seq::empty() }
        } else {
            let earlier = self.run(steps, (n - 1) as nat);
            let last = earlier.monitor.stepped(steps[n - 1]);
            MonitorRun { monitor: last.monitor, told: earlier.told + last.told }
        }
    }
}

/// Whether worktrees that were told of are new: none is known, and none comes twice.
pub open spec fn are_new(known: Seq<Parts>, told: Seq<Parts>) -> bool {
    &&& told.no_duplicates()
    &&& forall|i: int| 0 <= i < told.len() ==> !known.contains(#[trigger] told[i])
}

/// What is new once more is known is new beside it.
proof fn lemma_new_beside(known: Seq<Parts>, told: Seq<Parts>, more: Seq<Parts>)
    requires
        are_new(known, told),
        are_new(known + told, more),
    ensures
        are_new(known, told + more),
{
    let all = told + more;
    assert forall|i: int| 0 <= i < all.len() implies !known.contains(#[trigger] all[i]) by {
        if i >= told.len() {
            lemma_contains_sum(known, told, more[i - told.len()]);
        }
    }
    assert forall|i: int, j: int|
        0 <= i < all.len() && 0 <= j < all.len() && i != j implies all[i] != all[j] by {
        if i < told.len() && j < told.len() {
            assert(told[i] != told[j]);
        } else if i >= told.len() && j >= told.len() {
            assert(more[i - told.len()] != more[j - told.len()]);
        } else if i < told.len() {
            assert(told.contains(told[i]));
            lemma_contains_sum(known, told, more[j - told.len()]);
        } else {
            assert(told.contains(told[j]));
            lemma_contains_sum(known, told, more[i - told.len()]);
        }
    }
}

/// Whether one of the first `n` lists holds a path.
pub open spec fn is_listed(lists: Seq<Seq<Parts>>, n: int, path: Parts) -> bool {
    exists|k: int| 0 <= k < n && #[trigger] lists[k].contains(path)
}

/// What lists of worktrees come to: those that are told of are new, come from the
/// lists, and are all that is known besides; and what was listed is known.
proof fn lemma_looked(monitor: MonitorView, lists: Seq<Seq<Parts>>, n: nat)
    ensures
        are_new(monitor.worktrees, monitor.looked(lists, n).told),
        monitor.looked(lists, n).monitor == (MonitorView {
            worktrees: monitor.worktrees + monitor.looked(lists, n).told,
            ..monitor
        }),
        forall|i: int|
            0 <= i < monitor.looked(lists, n).told.len() ==> is_listed(
                lists,
                n as int,
                #[trigger] monitor.looked(lists, n).told[i],
            ),
        forall|path: Parts| #[trigger]
            is_listed(lists, n as int, path) ==> monitor.looked(
                lists,
                n,
            ).monitor.worktrees.contains(path),
    decreases n,
{
    let run = monitor.looked(lists, n);
    if n == 0 {
        assert(monitor.worktrees + run.told =~= monitor.worktrees);
    } else {
        lemma_looked(monitor, lists, (n - 1) as nat);
        let earlier = monitor.looked(lists, (n - 1) as nat);
        let found = lists[n - 1];
        let new = earlier.monitor.new_worktrees(found, found.len());
        lemma_new_worktrees(earlier.monitor, found, found.len());
        lemma_new_beside(monitor.worktrees, earlier.told, new);
        assert(run.monitor.worktrees =~= monitor.worktrees + run.told);
        assert forall|i: int| 0 <= i < run.told.len() implies is_listed(
            lists,
            n as int,
            #[trigger] run.told[i],
        ) by {
            if i < earlier.told.len() {
                assert(run.told[i] == earlier.told[i]);
                assert(is_listed(lists, n - 1, earlier.told[i]));
                let k = choose|k: int|
                    0 <= k < n - 1 && #[trigger] lists[k].contains(earlier.told[i]);
                assert(lists[k].contains(run.told[i]));
            } else {
                lemma_new_come_from(earlier.monitor, found, found.len());
                assert(run.told[i] == new[i - earlier.told.len()]);
                assert(lists[n - 1].contains(run.told[i]));
            }
        }
        assert forall|path: Parts| #[trigger]
            is_listed(lists, n as int, path) implies run.monitor.worktrees.contains(path) by {
            let k = choose|k: int| 0 <= k < n && #[trigger] lists[k].contains(path);
            lemma_contains_sum(earlier.monitor.worktrees, new, path);
            if k < n - 1 {
                assert(is_listed(lists, n - 1, path));
            } else {
                let j = choose|j: int| 0 <= j < found.len() && found[j] == path;
                assert(earlier.monitor.worktrees.contains(found[j]) || new.contains(found[j]));
            }
        }
    }
}

/// New worktrees come from the list.
proof fn lemma_new_come_from(monitor: MonitorView, found: Seq<Parts>, n: nat)
    requires
        n <= found.len(),
    ensures
        forall|i: int|
            0 <= i < monitor.new_worktrees(found, n).len() ==> found.contains(
                #[trigger] monitor.new_worktrees(found, n)[i],
            ),
    decreases n,
{
    if n > 0 {
        lemma_new_come_from(monitor, found, (n - 1) as nat);
        let earlier = monitor.new_worktrees(found, (n - 1) as nat);
        let now = monitor.new_worktrees(found, n);
        assert forall|i: int| 0 <= i < now.len() implies found.contains(#[trigger] now[i]) by {
            if i < earlier.len() {
                assert(now[i] == earlier[i]);
            } else {
                assert(now[i] == found[n - 1]);
            }
        }
    }
}

/// What the native watcher has to say leaves the known worktrees alone.
proof fn lemma_heard_worktrees(
    monitor: MonitorView,
    dropped: u64,
    messages: Seq<GitMessage>,
    now: u64,
    n: nat,
)
    ensures
        monitor.heard(dropped, messages, now, n).monitor.worktrees == monitor.worktrees,
    decreases n,
{
    if n > 0 {
        lemma_heard_worktrees(monitor, dropped, messages, now, (n - 1) as nat);
    }
}

/// Over any sequence of steps each worktree is told of once at most, and none that
/// was known at first.
pub proof fn worktrees_are_never_told_of_again(
    monitor: MonitorView,
    steps: Seq<MonitorStep>,
    n: nat,
)
    requires
        n <= steps.len(),
    ensures
        are_new(monitor.worktrees, monitor.run(steps, n).told),
        monitor.run(steps, n).monitor.worktrees == monitor.worktrees + monitor.run(steps, n).told,
    decreases n,
{
    let run = monitor.run(steps, n);
    if n == 0 {
        assert(monitor.worktrees + run.told =~= monitor.worktrees);
    } else {
        worktrees_are_never_told_of_again(monitor, steps, (n - 1) as nat);
        let earlier = monitor.run(steps, (n - 1) as nat);
        let last = earlier.monitor.stepped(steps[n - 1]);
        match steps[n - 1] {
            MonitorStep::Heard { dropped, messages, now } => {
                lemma_heard_worktrees(
                    earlier.monitor,
                    dropped,
                    messages,
                    now,
                    taken_in(messages.len()),
                );
            },
            MonitorStep::Listed { lists, now } => {
                lemma_looked(
                    earlier.monitor.calmed(now),
                    lists,
                    earlier.monitor.listing_roots(now, earlier.monitor.dirty.len()).len(),
                );
            },
            _ => {},
        }
        assert(are_new(earlier.monitor.worktrees, last.told));
        lemma_new_beside(monitor.worktrees, earlier.told, last.told);
        assert(last.monitor.worktrees =~= earlier.monitor.worktrees + last.told);
        assert(run.monitor.worktrees =~= monitor.worktrees + run.told);
    }
}

/// The worktrees that were listed at first are known, so that they are never told
/// of.
pub proof fn worktrees_listed_at_first_are_known(paths: Seq<Parts>, n: nat, k: int)
    requires
        0 <= k < n <= paths.len(),
    ensures
        distinct(paths, n).contains(paths[k]),
    decreases n,
{
    let earlier = distinct(paths, (n - 1) as nat);
    let now = distinct(paths, n);
    if k < n - 1 {
        worktrees_listed_at_first_are_known(paths, (n - 1) as nat, k);
        let i = choose|i: int| 0 <= i < earlier.len() && earlier[i] == paths[k];
        assert(now[i] == paths[k]);
    } else if !earlier.contains(paths[k]) {
        assert(now[earlier.len() as int] == paths[k]);
    }
}

/// Worktrees are told of only where the lists of the roots that were due hold them,
/// and every worktree of these lists that was not known is told of.
pub proof fn listed_worktrees_are_told_of(
    monitor: MonitorView,
    lists: Seq<Seq<Parts>>,
    now: u64,
    path: Parts,
)
    requires
        lists.len() == monitor.listing_roots(now, monitor.dirty.len()).len(),
    ensures
        monitor.stepped(MonitorStep::Listed { lists, now }).told.contains(path) <==> is_listed(
            lists,
            lists.len() as int,
            path,
        ) && !monitor.worktrees.contains(path),
{
    let run = monitor.stepped(MonitorStep::Listed { lists, now });
    let calm = monitor.calmed(now);
    lemma_looked(calm, lists, lists.len());
    if run.told.contains(path) {
        let i = choose|i: int| 0 <= i < run.told.len() && run.told[i] == path;
        assert(!calm.worktrees.contains(run.told[i]));
    }
    lemma_contains_sum(calm.worktrees, run.told, path);
}

/// The worktrees of a root are listed once a directory that it shares with them has
/// changed and has then been quiet for long enough, and only then.
pub proof fn worktrees_are_listed_once_all_is_quiet(
    monitor: MonitorView,
    now: u64,
    n: nat,
    root: Parts,
)
    requires
        n <= monitor.dirty.len(),
    ensures
        monitor.listing_roots(now, n).contains(root) <==> exists|k: int|
            0 <= k < n && lists_root(monitor, now, #[trigger] monitor.dirty[k], root),
    decreases n,
{
    if n > 0 {
        worktrees_are_listed_once_all_is_quiet(monitor, now, (n - 1) as nat, root);
        let earlier = monitor.listing_roots(now, (n - 1) as nat);
        let all = monitor.listing_roots(now, n);
        let one = monitor.dirty[n - 1];
        if earlier.contains(root) {
            let i = choose|i: int| 0 <= i < earlier.len() && earlier[i] == root;
            assert(all[i] == root);
        }
        if lists_root(monitor, now, one, root) {
            assert(all[earlier.len() as int] == root);
        }
        if all.contains(root) && !earlier.contains(root) {
            let i = choose|i: int| 0 <= i < all.len() && all[i] == root;
            if i < earlier.len() {
                assert(earlier[i] == root);
            }
            assert(lists_root(monitor, now, one, root));
        }
    }
}

/// Whether a directory that has changed asks for the worktrees of a root: it has
/// been quiet for long enough, and the root is that of the first repository that
/// shares it.
pub open spec fn lists_root(
    monitor: MonitorView,
    now: u64,
    one: DirtyView,
    root: Parts,
) -> bool {
    &&& crate::recovery::elapsed_since(one.since, now) >= EVENT_QUIET_PERIOD
    &&& sharing(monitor.repositories, one.common_dir, 0) matches Some(i)
    &&& monitor.repositories[i].root == root
}

} // verus!
