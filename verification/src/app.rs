//! The timeline: which events it keeps, which of them are shown, and which one is
//! selected.

use crate::beads::{BeadsActivity, BeadsActivityView};
use crate::diff::{DiffResult, DiffView};
use crate::git::{GitActivity, GitActivityView};
use crate::model::{
    ChangeEvent, ChangeKind, EventView, IntegrityEvent, IntegrityLevel, IntegrityView, TargetKind,
};
use crate::path::{FsPath, PartView, Parts};
use crate::path_map::PathMap;
use crate::recovery::elapsed;
use crate::snapshot::{Snapshot, SnapshotView};
use crate::text::{contains, join3, lowercase, Text};
use crate::watcher::WatchState;
use std::collections::VecDeque;
use vstd::prelude::*;
use vstd::string::*;

verus! {

/// How long a path that was moved away waits for the place it was moved to.
pub const RENAME_TIMEOUT: u64 = 400_000_000;

/// How soon a change follows another to be shown as part of it.
pub const DEDUP_WINDOW: u64 = 80_000_000;

/// How long the last change of a path is kept in mind.
pub const RECENT_RETENTION: u64 = 2_000_000_000;

/// A path that was moved away.
#[derive(Debug)]
pub struct PendingRename {
    pub path: FsPath,
    pub snapshot: Snapshot,
    pub had_baseline: bool,
    pub tracker: Option<usize>,
    pub observed_at: u64,
}

/// What is known of a path that was moved away.
#[verifier::ext_equal]
pub struct PendingView {
    pub path: Parts,
    pub snapshot: SnapshotView,
    pub had_baseline: bool,
    pub tracker: Option<usize>,
    pub observed_at: u64,
}

impl View for PendingRename {
    type V = PendingView;

    open spec fn view(&self) -> PendingView {
        PendingView {
            path: self.path@,
            snapshot: self.snapshot@,
            had_baseline: self.had_baseline,
            tracker: self.tracker,
            observed_at: self.observed_at,
        }
    }
}

/// The contents of a list of moves.
pub open spec fn pending_views(pending: Seq<PendingRename>) -> Seq<PendingView> {
    pending.map_values(|one: PendingRename| one@)
}

/// The last change of a path, and when it was seen.
#[derive(Clone, Copy, Debug, PartialEq, Eq, Structural)]
pub struct Recent {
    pub kind: ChangeKind,
    pub seen: u64,
}

/// The timeline and how it is looked at.
pub struct App {
    pub events: VecDeque<ChangeEvent>,
    pub paused_events: VecDeque<ChangeEvent>,
    pub selected: usize,
    pub paused: bool,
    pub should_quit: bool,
    pub search: String,
    pub search_mode: bool,
    pub enabled: [bool; 7],
    pub status: Option<String>,
    pub catching_up: bool,
    pub folders_open: bool,
    pub workspace_filter: Option<FsPath>,
    pub max_events: usize,
    pub observer_level: IntegrityLevel,
    pub next_id: u64,
    pub pending_renames: Vec<PendingRename>,
    pub recent: PathMap<Recent>,
}

/// What the timeline is, newest event first.
#[verifier::ext_equal]
pub struct AppView {
    pub events: Seq<EventView>,
    pub paused_events: Seq<EventView>,
    pub selected: usize,
    pub paused: bool,
    pub should_quit: bool,
    pub search: Text,
    pub search_mode: bool,
    pub enabled: Seq<bool>,
    pub status: Option<Text>,
    pub catching_up: bool,
    pub folders_open: bool,
    pub workspace_filter: Option<Parts>,
    pub max_events: usize,
    pub observer_level: IntegrityLevel,
    pub next_id: u64,
    pub pending: Seq<PendingView>,
    pub recent: Map<Parts, Recent>,
}

impl View for App {
    type V = AppView;

    open spec fn view(&self) -> AppView {
        AppView {
            events: crate::model::event_views(self.events@),
            paused_events: crate::model::event_views(self.paused_events@),
            selected: self.selected,
            paused: self.paused,
            should_quit: self.should_quit,
            search: self.search@,
            search_mode: self.search_mode,
            enabled: self.enabled@,
            status: crate::text::opt_text(self.status),
            catching_up: self.catching_up,
            folders_open: self.folders_open,
            workspace_filter: crate::path::opt_path(self.workspace_filter),
            max_events: self.max_events,
            observer_level: self.observer_level,
            next_id: self.next_id,
            pending: pending_views(self.pending_renames@),
            recent: self.recent@,
        }
    }
}

/// The empty timeline that keeps up to `max_events` events.
pub open spec fn fresh(max_events: usize) -> AppView {
    AppView {
        events: Seq::empty(),
        paused_events: Seq::empty(),
        selected: 0,
        paused: false,
        should_quit: false,
        search: Seq::empty(),
        search_mode: false,
        enabled: Seq::new(crate::model::KINDS as nat, |i: int| true),
        status: None,
        catching_up: false,
        folders_open: false,
        workspace_filter: None,
        max_events,
        observer_level: IntegrityLevel::Info,
        next_id: 1,
        pending: Seq::empty(),
        recent: Map::empty(),
    }
}

/// The first `max` events.
pub open spec fn bounded(events: Seq<EventView>, max: usize) -> Seq<EventView> {
    if events.len() <= max {
        events
    } else {
        events.take(max as int)
    }
}

/// Whether a query stands in the path of an event or in its previous path. All
/// texts are in lower case.
pub open spec fn is_hit(query: Text, path: Text, previous: Option<Text>) -> bool {
    ||| query.len() == 0
    ||| crate::text::has_text(path, query)
    ||| previous matches Some(previous) && crate::text::has_text(previous, query)
}

/// The lower case of how the path of an event is written.
pub open spec fn lowered(event: EventView) -> Text {
    crate::text::lowercase_text(event.written(event.path))
}

/// The lower case of how the path is written that an event was moved from.
pub open spec fn previous_lowered(event: EventView) -> Option<Text> {
    match event.previous_path {
        Some(path) => Some(crate::text::lowercase_text(event.written(path))),
        None => None,
    }
}

impl AppView {
    /// The limits hold: no list is longer than it may be.
    pub open spec fn within_limits(self) -> bool {
        &&& self.events.len() <= self.max_events
        &&& self.paused_events.len() <= self.max_events
        &&& self.recent.dom().finite()
        &&& self.enabled.len() == crate::model::KINDS
    }

    /// Whether an event is shown: its kind is switched on, it belongs to the
    /// workspace in focus, and it meets the search.
    pub open spec fn shows(self, event: EventView) -> bool {
        &&& self.enabled[event.kind.place()]
        &&& self.workspace_filter matches Some(root) ==> event.root == root
        &&& is_hit(
            crate::text::lowercase_text(self.search),
            lowered(event),
            previous_lowered(event),
        )
    }

    /// The places of those of the first `n` events that are shown.
    pub open spec fn shown_among(self, n: nat) -> Seq<int>
        decreases n,
    {
        if n == 0 {
            Seq::empty()
        } else if self.shows(self.events[n - 1]) {
            self.shown_among((n - 1) as nat).push(n - 1)
        } else {
            self.shown_among((n - 1) as nat)
        }
    }

    /// The places of the events that are shown.
    pub open spec fn shown(self) -> Seq<int> {
        self.shown_among(self.events.len())
    }

    /// The selected event.
    pub open spec fn selection(self) -> Option<EventView> {
        if self.selected < self.shown().len() {
            Some(self.events[self.shown()[self.selected as int]])
        } else {
            None
        }
    }

    /// The timeline with one more event. Where not the newest event is selected,
    /// the selection stays on its event.
    pub open spec fn pushed(self, event: EventView) -> AppView {
        AppView {
            events: bounded(seq![event] + self.events, self.max_events),
            selected: if self.selected > 0 && self.shows(event) {
                (self.selected + 1) as usize
            } else {
                self.selected
            },
            ..self
        }
    }

    /// The timeline once an event has come in: it waits while the timeline is
    /// paused.
    pub open spec fn recorded(self, event: EventView) -> AppView {
        if self.paused {
            AppView {
                paused_events: bounded(seq![event] + self.paused_events, self.max_events),
                ..self
            }
        } else {
            self.pushed(event)
        }
    }

    /// The timeline with all waiting events, the oldest first.
    pub open spec fn resumed(self) -> AppView
        decreases self.paused_events.len(),
    {
        if self.paused_events.len() == 0 {
            self
        } else {
            (AppView { paused_events: self.paused_events.drop_last(), ..self }).pushed(
                self.paused_events.last(),
            ).resumed()
        }
    }

    /// The timeline once it is paused, or goes on.
    pub open spec fn pause_toggled(self) -> AppView {
        let next = AppView { paused: !self.paused, ..self };
        if self.paused {
            next.resumed()
        } else {
            next
        }
    }

    /// The timeline without events.
    pub open spec fn cleared(self) -> AppView {
        AppView { events: Seq::empty(), paused_events: Seq::empty(), selected: 0, ..self }
    }

    /// The timeline with the number for the next event used up.
    pub open spec fn numbered(self) -> AppView {
        AppView { next_id: (self.next_id + 1) as u64, ..self }
    }

    /// Whether `n` more events can be counted.
    pub open spec fn has_room(self, n: int) -> bool {
        &&& self.next_id + n <= u64::MAX
        &&& self.selected + n <= usize::MAX
        &&& self.recent.len() + n <= usize::MAX
    }

    /// Whether `after` has used up the room of no more than `n` events.
    pub open spec fn grew(self, after: AppView, n: int) -> bool {
        &&& after.next_id <= self.next_id + n
        &&& after.selected <= self.selected + n
        &&& after.recent.len() <= self.recent.len() + n
    }
}

/// The event of a report on the observation.
pub open spec fn integrity_event(report: IntegrityView, id: u64, now: u64) -> EventView {
    EventView {
        id,
        kind: ChangeKind::Integrity,
        target: TargetKind::Observer,
        path: seq![PartView::Normal(report.source + " · "@ + report.summary)],
        previous_path: None,
        root: report.root,
        occurred_at: now,
        size: 0,
        lines_added: 0,
        lines_removed: 0,
        diff: Seq::empty(),
        detail: Some(report.detail),
        integrity_level: Some(report.level),
    }
}

/// The event of an activity in a repository.
pub open spec fn git_event(activity: GitActivityView, id: u64, now: u64) -> EventView {
    EventView {
        id,
        kind: ChangeKind::Git,
        target: TargetKind::Repository,
        path: seq![PartView::Normal(activity.summary)],
        previous_path: None,
        root: activity.root,
        occurred_at: now,
        size: 0,
        lines_added: 0,
        lines_removed: 0,
        diff: Seq::empty(),
        detail: Some(activity.detail),
        integrity_level: None,
    }
}

/// How an issue is called: by its id, and by its title where it has one.
pub open spec fn issue_text(issue_id: Text, title: Text) -> Text {
    if title.len() == 0 {
        issue_id
    } else {
        issue_id + " · "@ + title
    }
}

/// The event of an activity on an issue.
pub open spec fn work_event(activity: BeadsActivityView, id: u64, now: u64) -> EventView {
    EventView {
        id,
        kind: ChangeKind::Work,
        target: TargetKind::WorkItem,
        path: seq![PartView::Normal(issue_text(activity.issue_id, activity.title))],
        previous_path: None,
        root: activity.root,
        occurred_at: now,
        size: 0,
        lines_added: 0,
        lines_removed: 0,
        diff: Seq::empty(),
        detail: Some(activity.action + " · "@ + activity.detail),
        integrity_level: None,
    }
}

/// The graver of two levels.
pub open spec fn graver(a: IntegrityLevel, b: IntegrityLevel) -> IntegrityLevel {
    if b.rank() > a.rank() {
        b
    } else {
        a
    }
}

impl AppView {
    /// The timeline once a report on the observation has come in.
    pub open spec fn observed(self, report: IntegrityView, now: u64) -> AppView {
        (AppView {
            observer_level: graver(self.observer_level, report.level),
            ..self
        }).numbered().recorded(integrity_event(report, self.next_id, now))
    }

    /// The timeline once an activity in a repository has come in.
    pub open spec fn with_git(self, activity: GitActivityView, now: u64) -> AppView {
        self.numbered().recorded(git_event(activity, self.next_id, now))
    }

    /// The timeline once an activity on an issue has come in.
    pub open spec fn with_work(self, activity: BeadsActivityView, now: u64) -> AppView {
        self.numbered().recorded(work_event(activity, self.next_id, now))
    }
}

impl App {
    /// The timeline is well formed.
    pub open spec fn wf(&self) -> bool {
        &&& self.recent.wf()
        &&& self@.within_limits()
    }

    /// An empty timeline that keeps up to `max_events` events.
    pub fn new(max_events: usize) -> (app: App)
        ensures
            app.wf(),
            app@ == fresh(max_events),
    {
        let app = App {
            events: VecDeque::new(),
            paused_events: VecDeque::new(),
            selected: 0,
            paused: false,
            should_quit: false,
            search: String::new(),
            search_mode: false,
            enabled: [true, true, true, true, true, true, true],
            status: None,
            catching_up: false,
            folders_open: false,
            workspace_filter: None,
            max_events,
            observer_level: IntegrityLevel::Info,
            next_id: 1,
            pending_renames: Vec::new(),
            recent: PathMap::new(),
        };
        assert(app@ =~= fresh(max_events));
        app
    }
}

/// Tests whether `query` stands in the path of an event or in its previous path.
/// All texts are in lower case.
pub fn hits(query: &str, path: &str, previous: &Option<String>) -> (b: bool)
    ensures
        b == is_hit(query@, path@, crate::text::opt_text(*previous)),
{
    if query.unicode_len() == 0 || contains(path, query) {
        return true;
    }
    match previous {
        Some(previous) => contains(previous.as_str(), query),
        None => false,
    }
}

/// Where an index stands that was moved by `delta`, in a list of `length` items.
pub open spec fn moved_index(selected: int, delta: int, length: int) -> int {
    if length == 0 || selected + delta < 0 {
        0
    } else if selected + delta > length - 1 {
        length - 1
    } else {
        selected + delta
    }
}

/// The workspace that the focus moves on to: through all of `roots`, forwards or
/// backwards, and then to none.
pub open spec fn next_workspace(
    roots: Seq<Parts>,
    current: Option<Parts>,
    reverse: bool,
) -> Option<Parts> {
    if roots.len() == 0 {
        None
    } else {
        match current {
            None => if reverse {
                Some(roots.last())
            } else {
                Some(roots[0])
            },
            Some(root) => match crate::watcher::place_of(roots, root, 0) {
                None => None,
                Some(i) => if reverse {
                    if i > 0 {
                        Some(roots[i - 1])
                    } else {
                        None
                    }
                } else if i + 1 < roots.len() {
                    Some(roots[i + 1])
                } else {
                    None
                },
            },
        }
    }
}

/// Finds where `root` stands in `roots`.
pub fn position_of(roots: &Vec<FsPath>, root: &FsPath) -> (at: Option<usize>)
    ensures
        match at {
            Some(i) => crate::watcher::place_of(crate::path::paths_of(roots@), root@, 0) == Some(
                i as int,
            ) && i < roots@.len(),
            None => crate::watcher::place_of(crate::path::paths_of(roots@), root@, 0) is None,
        },
{
    let ghost all = crate::path::paths_of(roots@);
    let mut i: usize = 0;
    while i < roots.len()
        invariant
            i <= roots@.len(),
            all == crate::path::paths_of(roots@),
            crate::watcher::place_of(all, root@, 0) == crate::watcher::place_of(
                all,
                root@,
                i as int,
            ),
        decreases roots@.len() - i,
    {
        assert(all[i as int] == roots@[i as int]@);
        if roots[i].same(root) {
            return Some(i);
        }
        i += 1;
    }
    None
}

/// The contents of a list with one more event in front.
proof fn lemma_front(events: Seq<ChangeEvent>, event: ChangeEvent)
    ensures
        crate::model::event_views(seq![event] + events) == seq![event@]
            + crate::model::event_views(events),
{
    assert(crate::model::event_views(seq![event] + events) =~= seq![event@]
        + crate::model::event_views(events));
}

/// Puts an event in front of a list and cuts the list off at `max` events.
fn push_bounded(events: &mut VecDeque<ChangeEvent>, event: ChangeEvent, max: usize)
    ensures
        crate::model::event_views(final(events)@) == bounded(
            seq![event@] + crate::model::event_views(old(events)@),
            max,
        ),
        final(events)@.len() <= max,
{
    proof {
        lemma_front(events@, event);
    }
    let ghost all = seq![event] + events@;
    events.push_front(event);
    events.truncate(max);
    proof {
        assert(crate::model::event_views(all).len() == all.len());
        if all.len() > max {
            assert(crate::model::event_views(all.subrange(0, max as int))
                =~= crate::model::event_views(all).take(max as int));
        }
    }
}

impl App {
    /// Tests whether events of a kind are shown.
    pub fn kind_enabled(&self, kind: ChangeKind) -> (b: bool)
        ensures
            b == self@.enabled[kind.place()],
    {
        self.enabled[kind.index()]
    }

    /// Tests whether an event is shown.
    pub fn is_visible(&self, event: &ChangeEvent) -> (b: bool)
        ensures
            b == self@.shows(event@),
    {
        if !self.kind_enabled(event.kind) {
            return false;
        }
        if let Some(root) = &self.workspace_filter {
            if !event.root.same(root) {
                return false;
            }
        }
        let query = lowercase(self.search.as_str());
        let path = lowercase(event.write(&event.path).as_str());
        let previous = match &event.previous_path {
            Some(path) => Some(lowercase(event.write(path).as_str())),
            None => None,
        };
        hits(query.as_str(), path.as_str(), &previous)
    }

    /// Lists the places of the events that are shown.
    pub fn visible_indices(&self) -> (visible: Vec<usize>)
        ensures
            visible@.map_values(|i: usize| i as int) == self@.shown(),
    {
        let mut visible: Vec<usize> = Vec::new();
        let mut i: usize = 0;
        assert(visible@.map_values(|i: usize| i as int) =~= Seq::<int>::empty());
        while i < self.events.len()
            invariant
                i <= self.events@.len(),
                visible@.map_values(|i: usize| i as int) == self@.shown_among(i as nat),
            decreases self.events@.len() - i,
        {
            let ghost before = visible@;
            assert(self@.events[i as int] == self.events@[i as int]@);
            if self.is_visible(&self.events[i]) {
                visible.push(i);
                assert(visible@.map_values(|i: usize| i as int) =~= before.map_values(
                    |i: usize| i as int,
                ).push(i as int));
            }
            i += 1;
        }
        visible
    }

    /// Finds the selected event.
    pub fn selected_event(&self) -> (event: Option<&ChangeEvent>)
        ensures
            match event {
                Some(event) => self@.selection() == Some(event@),
                None => self@.selection() is None,
            },
    {
        let visible = self.visible_indices();
        assert(self@.shown().len() == visible@.len());
        if self.selected < visible.len() {
            let at: usize = visible[self.selected];
            assert(self@.shown()[self.selected as int] == at);
            proof {
                lemma_shown(self@, self@.events.len());
            }
            Some(&self.events[at])
        } else {
            None
        }
    }

    /// How grave the gravest report so far was.
    pub fn observer_level(&self) -> (level: IntegrityLevel)
        ensures
            level == self@.observer_level,
    {
        self.observer_level
    }

    /// Moves the selection by `delta` events, as far as there are any.
    pub fn move_selection(&mut self, delta: isize)
        requires
            old(self).wf(),
        ensures
            final(self).wf(),
            final(self)@ == (AppView {
                selected: moved_index(
                    old(self)@.selected as int,
                    delta as int,
                    old(self)@.shown().len() as int,
                ) as usize,
                ..old(self)@
            }),
    {
        let visible = self.visible_indices();
        let length: usize = visible.len();
        assert(self@.shown().len() == length);
        if length == 0 {
            self.selected = 0;
            return;
        }
        let last: usize = length - 1;
        if delta >= 0 {
            let step: usize = delta as usize;
            self.selected = if self.selected >= last || step > last - self.selected {
                last
            } else {
                self.selected + step
            };
        } else {
            let back: isize = -(delta + 1);
            let step: usize = back as usize;
            let moved: usize = if self.selected <= step {
                0
            } else {
                self.selected - step - 1
            };
            self.selected = if moved > last {
                last
            } else {
                moved
            };
        }
    }

    /// Switches the kind at a place on or off.
    pub fn toggle_kind(&mut self, index: usize)
        requires
            old(self).wf(),
        ensures
            final(self).wf(),
            final(self)@ == (if index < crate::model::KINDS {
                AppView {
                    enabled: old(self)@.enabled.update(
                        index as int,
                        !old(self)@.enabled[index as int],
                    ),
                    selected: 0,
                    ..old(self)@
                }
            } else {
                old(self)@
            }),
    {
        if index < crate::model::KINDS {
            let enabled: bool = self.enabled[index];
            self.enabled[index] = !enabled;
            self.selected = 0;
        }
    }

    /// Moves the focus on to the next workspace, or to the one before.
    pub fn cycle_workspace(&mut self, roots: &Vec<FsPath>, reverse: bool)
        requires
            old(self).wf(),
        ensures
            final(self).wf(),
            final(self)@ == (AppView {
                workspace_filter: next_workspace(
                    crate::path::paths_of(roots@),
                    old(self)@.workspace_filter,
                    reverse,
                ),
                selected: if roots@.len() == 0 {
                    old(self)@.selected
                } else {
                    0
                },
                ..old(self)@
            }),
    {
        let total: usize = roots.len();
        if total == 0 {
            self.workspace_filter = None;
            return;
        }
        assert(crate::path::paths_of(roots@)[total - 1] == roots@[total - 1]@);
        let next = match &self.workspace_filter {
            None => {
                if reverse {
                    Some(roots[total - 1].clone())
                } else {
                    Some(roots[0].clone())
                }
            },
            Some(current) => match position_of(roots, current) {
                None => None,
                Some(i) => {
                    if reverse {
                        if i > 0 {
                            Some(roots[i - 1].clone())
                        } else {
                            None
                        }
                    } else if i < total - 1 {
                        Some(roots[i + 1].clone())
                    } else {
                        None
                    }
                },
            },
        };
        self.workspace_filter = next;
        self.selected = 0;
    }

    /// Puts an event on the timeline. The selection stays on its event, whether or
    /// not the new one is shown.
    pub fn push_event(&mut self, event: ChangeEvent)
        requires
            old(self).wf(),
            old(self)@.selected < usize::MAX,
        ensures
            final(self).wf(),
            final(self)@ == old(self)@.pushed(event@),
            old(self)@.selection() is Some && old(self)@.events.len() < old(self)@.max_events && (
            old(self)@.selected > 0 || !old(self)@.shows(event@)) ==> final(self)@.selection()
                == old(self)@.selection(),
    {
        let ghost before = self@;
        let ghost view = event@;
        if self.selected > 0 && self.is_visible(&event) {
            self.selected = self.selected + 1;
        }
        let max: usize = self.max_events;
        push_bounded(&mut self.events, event, max);
        proof {
            if before.selection() is Some && before.events.len() < before.max_events && (
            before.selected > 0 || !before.shows(view)) {
                lemma_shown(before, before.events.len());
                assert(before.shown()[before.selected as int] < before.events.len());
                crate::laws::the_selection_stays_on_its_event(before, view);
            }
        }
    }

    /// Notes whether native events are still waiting: the intake has either run
    /// full, or has come to the end of them.
    pub fn note_backlog(&mut self, full: bool)
        requires
            old(self).wf(),
        ensures
            final(self).wf(),
            final(self)@ == (AppView { catching_up: full, ..old(self)@ }),
    {
        self.catching_up = full;
    }

    /// Takes in an event: it waits while the timeline is paused.
    fn record(&mut self, event: ChangeEvent)
        requires
            old(self).wf(),
            old(self)@.selected < usize::MAX,
        ensures
            final(self).wf(),
            final(self)@ == old(self)@.recorded(event@),
            old(self)@.grew(final(self)@, 1),
            final(self)@.next_id == old(self)@.next_id,
            final(self)@.recent == old(self)@.recent,
    {
        if self.paused {
            let max: usize = self.max_events;
            push_bounded(&mut self.paused_events, event, max);
        } else {
            self.push_event(event);
        }
    }

    /// Pauses the timeline, or lets it go on with the events that have waited.
    pub fn toggle_pause(&mut self)
        requires
            old(self).wf(),
            old(self)@.selected + old(self)@.paused_events.len() <= usize::MAX,
        ensures
            final(self).wf(),
            final(self)@ == old(self)@.pause_toggled(),
    {
        self.paused = !self.paused;
        if !self.paused {
            let ghost start = self@;
            while self.paused_events.len() > 0
                invariant
                    self.wf(),
                    start.resumed() == self@.resumed(),
                    self@.selected + self@.paused_events.len() <= usize::MAX,
                decreases self.paused_events@.len(),
            {
                let ghost before = self@;
                let ghost waiting = self.paused_events@;
                match self.paused_events.pop_back() {
                    Some(event) => {
                        assert(before.paused_events.last() == event@);
                        assert(self@.paused_events =~= before.paused_events.drop_last());
                        self.push_event(event);
                    },
                    None => {},
                }
            }
        }
    }

    /// Takes all events off the timeline, those that wait too.
    pub fn clear(&mut self)
        requires
            old(self).wf(),
        ensures
            final(self).wf(),
            final(self)@ == old(self)@.cleared(),
    {
        self.events.clear();
        self.paused_events.clear();
        self.selected = 0;
        assert(self@.events =~= Seq::<EventView>::empty());
        assert(self@.paused_events =~= Seq::<EventView>::empty());
    }

    /// Tests whether `n` more events can be counted.
    pub fn has_room(&self, n: usize) -> (b: bool)
        requires
            self.wf(),
        ensures
            b == self@.has_room(n as int),
    {
        self.next_id <= u64::MAX - n as u64 && self.selected <= usize::MAX - n && self.recent.len()
            <= usize::MAX - n
    }

    /// Takes the number for the next event.
    fn take_id(&mut self) -> (id: u64)
        requires
            old(self).wf(),
            old(self)@.next_id < u64::MAX,
        ensures
            final(self).wf(),
            id == old(self)@.next_id,
            final(self)@ == old(self)@.numbered(),
    {
        let id: u64 = self.next_id;
        self.next_id = id + 1;
        id
    }

    /// Takes in an activity in a repository.
    pub fn process_git(&mut self, activity: GitActivity, now: u64)
        requires
            old(self).wf(),
            old(self)@.has_room(1),
        ensures
            final(self).wf(),
            final(self)@ == old(self)@.with_git(activity@, now),
            old(self)@.grew(final(self)@, 1),
    {
        let id: u64 = self.take_id();
        let event = ChangeEvent {
            id,
            kind: ChangeKind::Git,
            target: TargetKind::Repository,
            path: FsPath::of_name(activity.summary),
            previous_path: None,
            root: activity.root,
            occurred_at: now,
            size: 0,
            lines_added: 0,
            lines_removed: 0,
            diff: Vec::new(),
            detail: Some(activity.detail),
            integrity_level: None,
        };
        assert(event@ =~= git_event(activity@, id, now));
        self.record(event);
    }

    /// Takes in an activity on an issue.
    pub fn process_work(&mut self, activity: BeadsActivity, now: u64)
        requires
            old(self).wf(),
            old(self)@.has_room(1),
        ensures
            final(self).wf(),
            final(self)@ == old(self)@.with_work(activity@, now),
            old(self)@.grew(final(self)@, 1),
    {
        let id: u64 = self.take_id();
        let name = if activity.title.as_str().unicode_len() == 0 {
            activity.issue_id.clone()
        } else {
            join3(activity.issue_id.as_str(), " · ", activity.title.as_str())
        };
        let detail = join3(activity.action.as_str(), " · ", activity.detail.as_str());
        let event = ChangeEvent {
            id,
            kind: ChangeKind::Work,
            target: TargetKind::WorkItem,
            path: FsPath::of_name(name),
            previous_path: None,
            root: activity.root,
            occurred_at: now,
            size: 0,
            lines_added: 0,
            lines_removed: 0,
            diff: Vec::new(),
            detail: Some(detail),
            integrity_level: None,
        };
        assert(event@ =~= work_event(activity@, id, now));
        self.record(event);
    }

    /// Takes in a report on the observation.
    pub fn process_integrity(&mut self, integrity: IntegrityEvent, now: u64)
        requires
            old(self).wf(),
            old(self)@.has_room(1),
        ensures
            final(self).wf(),
            final(self)@ == old(self)@.observed(integrity@, now),
            old(self)@.grew(final(self)@, 1),
    {
        if integrity.level.severity() > self.observer_level.severity() {
            self.observer_level = integrity.level;
        }
        let id: u64 = self.take_id();
        let event = ChangeEvent {
            id,
            kind: ChangeKind::Integrity,
            target: TargetKind::Observer,
            path: FsPath::of_name(
                join3(integrity.source, " · ", integrity.summary.as_str()),
            ),
            previous_path: None,
            root: integrity.root,
            occurred_at: now,
            size: 0,
            lines_added: 0,
            lines_removed: 0,
            diff: Vec::new(),
            detail: Some(integrity.detail),
            integrity_level: Some(integrity.level),
        };
        assert(event@ =~= integrity_event(integrity@, id, now));
        self.record(event);
    }
}

/// The shown events stand in their order on the timeline.
pub proof fn lemma_shown(app: AppView, n: nat)
    ensures
        forall|i: int|
            0 <= i < app.shown_among(n).len() ==> 0 <= #[trigger] app.shown_among(n)[i] < n,
        forall|i: int, j: int|
            0 <= i < j < app.shown_among(n).len() ==> (#[trigger] app.shown_among(n)[i]) < (
            #[trigger] app.shown_among(n)[j]),
        forall|i: int|
            0 <= i < app.shown_among(n).len() ==> app.shows(
                app.events[#[trigger] app.shown_among(n)[i]],
            ),
        forall|k: int|
            0 <= k < n && app.shows(#[trigger] app.events[k]) ==> app.shown_among(n).contains(k),
    decreases n,
{
    if n > 0 {
        lemma_shown(app, (n - 1) as nat);
        let earlier = app.shown_among((n - 1) as nat);
        let all = app.shown_among(n);
        assert forall|k: int| 0 <= k < n && app.shows(#[trigger] app.events[k]) implies all.contains(
            k,
        ) by {
            if k == n - 1 {
                assert(all[earlier.len() as int] == k);
            } else {
                let i = choose|i: int| 0 <= i < earlier.len() && earlier[i] == k;
                assert(all[i] == k);
            }
        }
    }
}

/// Whether a change of a path is part of an earlier one of it: it is of the same
/// kind, or the file was written once it had been created or moved.
pub open spec fn follows(earlier: ChangeKind, kind: ChangeKind) -> bool {
    ||| earlier == kind
    ||| kind == ChangeKind::Modify && (earlier == ChangeKind::Create || earlier
        == ChangeKind::Rename)
}

/// Whether an event shows an earlier change that a change of the path at
/// `absolute` is part of.
pub open spec fn takes_in(event: EventView, absolute: Parts, kind: ChangeKind) -> bool {
    crate::path::path_join(event.root, event.path) == absolute && follows(event.kind, kind)
}

/// The first event, from the `from`-th on, that takes in a change.
pub open spec fn first_taking_in(
    events: Seq<EventView>,
    absolute: Parts,
    kind: ChangeKind,
    from: int,
) -> Option<int>
    decreases events.len() - from,
{
    if from < 0 || from >= events.len() {
        None
    } else if takes_in(events[from], absolute, kind) {
        Some(from)
    } else {
        first_taking_in(events, absolute, kind, from + 1)
    }
}

/// A change of a path: of what kind it is, and what it left behind.
#[verifier::ext_equal]
pub struct FileChange {
    pub kind: ChangeKind,
    pub path: Parts,
    pub previous_path: Option<Parts>,
    pub size: u64,
    pub is_dir: bool,
    pub diff: DiffView,
}

/// An event brought up to date with a later change.
pub open spec fn refreshed(event: EventView, change: FileChange, now: u64) -> EventView {
    EventView {
        occurred_at: now,
        size: change.size,
        lines_added: change.diff.added,
        lines_removed: change.diff.removed,
        diff: change.diff.lines,
        detail: change.diff.detail,
        ..event
    }
}

/// The event of a change.
pub open spec fn file_event(
    roots: Seq<Parts>,
    change: FileChange,
    id: u64,
    now: u64,
) -> EventView {
    EventView {
        id,
        kind: change.kind,
        target: if change.is_dir {
            TargetKind::Directory
        } else {
            TargetKind::File
        },
        path: crate::roots::relative(roots, change.path),
        previous_path: change.previous_path,
        root: crate::roots::owner(roots, change.path),
        occurred_at: now,
        size: change.size,
        lines_added: change.diff.added,
        lines_removed: change.diff.removed,
        diff: change.diff.lines,
        detail: change.diff.detail,
        integrity_level: None,
    }
}

/// A diff that says nothing.
pub open spec fn blank_diff() -> DiffView {
    DiffView { lines: Seq::empty(), added: 0, removed: 0, detail: None }
}

impl AppView {
    /// Whether a change follows so soon on an earlier one of the same path that
    /// it is shown as part of it.
    pub open spec fn is_duplicate(self, path: Parts, kind: ChangeKind, now: u64) -> bool {
        self.recent.contains_key(path) && crate::recovery::elapsed_since(
            self.recent[path].seen,
            now,
        ) < DEDUP_WINDOW && follows(self.recent[path].kind, kind)
    }

    /// The timeline once a change has come in: the event that takes it in is
    /// brought up to date, or else there is a new event.
    pub open spec fn emitted(self, roots: Seq<Parts>, change: FileChange, now: u64) -> AppView {
        if self.is_duplicate(change.path, change.kind, now) {
            match first_taking_in(self.events, change.path, change.kind, 0) {
                Some(i) => AppView {
                    events: self.events.update(i, refreshed(self.events[i], change, now)),
                    ..self
                },
                None => match first_taking_in(self.paused_events, change.path, change.kind, 0) {
                    Some(i) => AppView {
                        paused_events: self.paused_events.update(
                            i,
                            refreshed(self.paused_events[i], change, now),
                        ),
                        ..self
                    },
                    None => self,
                },
            }
        } else {
            (AppView {
                recent: self.recent.insert(change.path, Recent { kind: change.kind, seen: now }),
                ..self
            }).numbered().recorded(file_event(roots, change, self.next_id, now))
        }
    }
}

/// Tests whether a change is part of an earlier one.
pub fn is_part(earlier: ChangeKind, kind: ChangeKind) -> (b: bool)
    ensures
        b == follows(earlier, kind),
{
    earlier == kind || (kind == ChangeKind::Modify && (earlier == ChangeKind::Create || earlier
        == ChangeKind::Rename))
}

/// Finds the first event that takes in a change.
fn find_taking_in(events: &VecDeque<ChangeEvent>, path: &FsPath, kind: ChangeKind) -> (at: Option<
    usize,
>)
    ensures
        match at {
            Some(i) => first_taking_in(
                crate::model::event_views(events@),
                path@,
                kind,
                0,
            ) == Some(i as int) && i < events@.len(),
            None => first_taking_in(crate::model::event_views(events@), path@, kind, 0) is None,
        },
{
    let ghost all = crate::model::event_views(events@);
    let mut i: usize = 0;
    while i < events.len()
        invariant
            i <= events@.len(),
            all == crate::model::event_views(events@),
            first_taking_in(all, path@, kind, 0) == first_taking_in(all, path@, kind, i as int),
        decreases events@.len() - i,
    {
        let event = &events[i];
        assert(all[i as int] == event@);
        if is_part(event.kind, kind) && event.root.join(&event.path).same(path) {
            return Some(i);
        }
        i += 1;
    }
    None
}

/// Brings the `i`-th event up to date with a later change.
fn refresh(
    events: &mut VecDeque<ChangeEvent>,
    i: usize,
    size: u64,
    diff: DiffResult,
    now: u64,
    Ghost(change): Ghost<FileChange>,
)
    requires
        i < old(events)@.len(),
        change.size == size,
        change.diff == diff@,
    ensures
        crate::model::event_views(final(events)@) == crate::model::event_views(
            old(events)@,
        ).update(i as int, refreshed(old(events)@[i as int]@, change, now)),
{
    let ghost before = events@;
    if let Some(event) = events.remove(i) {
        let mut event = event;
        event.occurred_at = now;
        event.size = size;
        event.lines_added = diff.added;
        event.lines_removed = diff.removed;
        event.diff = diff.lines;
        event.detail = diff.detail;
        assert(event@ =~= refreshed(before[i as int]@, change, now));
        events.insert(i, event);
        assert(events@ =~= before.update(i as int, event));
        assert(crate::model::event_views(events@) =~= crate::model::event_views(before).update(
            i as int,
            event@,
        ));
    }
}

impl App {
    /// Takes in a change of the path `absolute_path`, which `snapshot` and `diff`
    /// describe.
    pub fn emit(
        &mut self,
        watcher: &WatchState,
        kind: ChangeKind,
        absolute_path: FsPath,
        snapshot: Snapshot,
        previous_path: Option<FsPath>,
        diff: DiffResult,
        now: u64,
    )
        requires
            old(self).wf(),
            old(self)@.has_room(1),
            watcher@.roots.len() > 0,
        ensures
            final(self).wf(),
            final(self)@ == old(self)@.emitted(
                watcher@.roots,
                (FileChange {
                    kind,
                    path: absolute_path@,
                    previous_path: crate::path::opt_path(previous_path),
                    size: snapshot@.size,
                    is_dir: snapshot@.is_dir,
                    diff: diff@,
                }),
                now,
            ),
            old(self)@.grew(final(self)@, 1),
    {
        let ghost change = FileChange {
            kind,
            path: absolute_path@,
            previous_path: crate::path::opt_path(previous_path),
            size: snapshot@.size,
            is_dir: snapshot@.is_dir,
            diff: diff@,
        };
        let path = watcher.relative_path(&absolute_path);
        let root = watcher.root_for(&absolute_path);
        let duplicate = match self.recent.get(&absolute_path) {
            Some(recent) => elapsed(recent.seen, now) < DEDUP_WINDOW && is_part(recent.kind, kind),
            None => false,
        };
        if duplicate {
            if let Some(i) = find_taking_in(&self.events, &absolute_path, kind) {
                refresh(&mut self.events, i, snapshot.size, diff, now, Ghost(change));
                return;
            }
            if let Some(i) = find_taking_in(&self.paused_events, &absolute_path, kind) {
                refresh(&mut self.paused_events, i, snapshot.size, diff, now, Ghost(change));
            }
            return;
        }
        self.recent.insert(absolute_path, Recent { kind, seen: now });
        let id: u64 = self.take_id();
        let event = ChangeEvent {
            id,
            kind,
            target: if snapshot.is_dir {
                TargetKind::Directory
            } else {
                TargetKind::File
            },
            path,
            previous_path,
            root,
            occurred_at: now,
            size: snapshot.size,
            lines_added: diff.added,
            lines_removed: diff.removed,
            diff: diff.lines,
            detail: diff.detail,
            integrity_level: None,
        };
        assert(event@ =~= file_event(watcher@.roots, change, id, now));
        self.record(event);
    }

    /// Takes in a change without a diff.
    pub fn emit_basic(
        &mut self,
        watcher: &WatchState,
        kind: ChangeKind,
        path: FsPath,
        snapshot: Snapshot,
        previous_path: Option<FsPath>,
        now: u64,
    )
        requires
            old(self).wf(),
            old(self)@.has_room(1),
            watcher@.roots.len() > 0,
        ensures
            final(self).wf(),
            final(self)@ == old(self)@.emitted(
                watcher@.roots,
                (FileChange {
                    kind,
                    path: path@,
                    previous_path: crate::path::opt_path(previous_path),
                    size: snapshot@.size,
                    is_dir: snapshot@.is_dir,
                    diff: blank_diff(),
                }),
                now,
            ),
            old(self)@.grew(final(self)@, 1),
    {
        let diff = DiffResult { lines: Vec::new(), added: 0, removed: 0, detail: None };
        assert(diff@ =~= blank_diff());
        self.emit(watcher, kind, path, snapshot, previous_path, diff, now);
    }
}

/// Whether a path that was moved away has waited long enough.
pub open spec fn is_overdue(pending: PendingView, now: u64) -> bool {
    crate::recovery::elapsed_since(pending.observed_at, now) >= RENAME_TIMEOUT
}

/// The change that a path was deleted.
pub open spec fn deletion(path: Parts, snapshot: SnapshotView) -> FileChange {
    FileChange {
        kind: ChangeKind::Delete,
        path,
        previous_path: None,
        size: snapshot.size,
        is_dir: snapshot.is_dir,
        diff: blank_diff(),
    }
}

impl AppView {
    /// The timeline once those of the first `n` moves of `pending` that have
    /// waited long enough are deletions; the others go on waiting.
    pub open spec fn given_up(
        self,
        roots: Seq<Parts>,
        pending: Seq<PendingView>,
        now: u64,
        n: nat,
    ) -> AppView
        decreases n,
    {
        if n == 0 {
            AppView { pending: Seq::empty(), ..self }
        } else {
            let earlier = self.given_up(roots, pending, now, (n - 1) as nat);
            let one = pending[n - 1];
            if is_overdue(one, now) {
                earlier.emitted(roots, deletion(one.path, one.snapshot), now)
            } else {
                AppView { pending: earlier.pending.push(one), ..earlier }
            }
        }
    }

    /// The timeline with only those changes in mind that are recent.
    pub open spec fn reminded(self, now: u64) -> AppView {
        AppView { recent: still_recent(self.recent, now), ..self }
    }

    /// The timeline once what has waited long enough is dealt with.
    pub open spec fn flushed(self, roots: Seq<Parts>, now: u64) -> AppView {
        self.given_up(roots, self.pending, now, self.pending.len()).reminded(now)
    }
}

/// The changes that are still recent.
pub open spec fn still_recent(recent: Map<Parts, Recent>, now: u64) -> Map<Parts, Recent> {
    recent.restrict(
        Set::new(
            |path: Parts|
                recent.contains_key(path) && crate::recovery::elapsed_since(
                    recent[path].seen,
                    now,
                ) < RECENT_RETENTION,
        ),
    )
}

/// Whether a change is kept in mind once the first `n` known paths have been
/// looked at.
spec fn kept(
    recent: Map<Parts, Recent>,
    known: Seq<Parts>,
    n: int,
    now: u64,
    path: Parts,
) -> bool {
    recent.contains_key(path) && !(known.take(n).contains(path) && crate::recovery::elapsed_since(
        recent[path].seen,
        now,
    ) >= RECENT_RETENTION)
}

impl App {
    /// Forgets the changes that are no longer recent.
    fn forget_old(&mut self, now: u64)
        requires
            old(self).wf(),
        ensures
            final(self).wf(),
            final(self)@ == old(self)@.reminded(now),
            final(self)@.recent.len() <= old(self)@.recent.len(),
    {
        let paths = self.recent.paths();
        let ghost before = self@;
        let ghost known = crate::path::paths_of(paths@);
        let mut i: usize = 0;
        proof {
            assert forall|path: Parts| before.recent.contains_key(path) implies known.contains(
                path,
            ) by {
                assert(known.contains(path) <==> self.recent@.contains_key(path));
            }
            assert(before.recent =~= before.recent.restrict(
                Set::new(|path: Parts| kept(before.recent, known, 0, now, path)),
            ));
        }
        while i < paths.len()
            invariant
                i <= paths@.len(),
                known == crate::path::paths_of(paths@),
                self.wf(),
                before.recent.dom().finite(),
                self@.recent.len() <= before.recent.len(),
                self@ == (AppView {
                    recent: before.recent.restrict(
                        Set::new(|path: Parts| kept(before.recent, known, i as int, now, path)),
                    ),
                    ..before
                }),
            decreases paths@.len() - i,
        {
            let ghost here = known[i as int];
            assert(here == paths@[i as int]@);
            let old = match self.recent.get(&paths[i]) {
                Some(recent) => elapsed(recent.seen, now) >= RECENT_RETENTION,
                None => false,
            };
            if old {
                let _ = self.recent.remove(&paths[i]);
            }
            proof {
                assert forall|path: Parts|
                    kept(before.recent, known, i + 1, now, path) == (kept(
                        before.recent,
                        known,
                        i as int,
                        now,
                        path,
                    ) && !(path == here && crate::recovery::elapsed_since(
                        before.recent[path].seen,
                        now,
                    ) >= RECENT_RETENTION)) by {
                    crate::watcher::lemma_push_contains(known, i as int, path);
                }
                assert(self@.recent =~= before.recent.restrict(
                    Set::new(|path: Parts| kept(before.recent, known, i + 1, now, path)),
                ));
            }
            i += 1;
        }
        proof {
            assert(known.take(i as int) =~= known);
            assert(self@.recent =~= still_recent(before.recent, now));
        }
    }

    /// Takes paths that were moved away for deleted once they have waited long
    /// enough, and forgets the changes that are no longer recent.
    pub fn flush_pending(&mut self, watcher: &WatchState, now: u64)
        requires
            old(self).wf(),
            old(self)@.has_room(old(self)@.pending.len() as int),
            watcher@.roots.len() > 0 || old(self)@.pending.len() == 0,
        ensures
            final(self).wf(),
            final(self)@ == old(self)@.flushed(watcher@.roots, now),
            old(self)@.grew(final(self)@, old(self)@.pending.len() as int),
    {
        let ghost before = self@;
        let mut rest: Vec<PendingRename> = Vec::new();
        std::mem::swap(&mut rest, &mut self.pending_renames);
        let ghost all = pending_views(rest@);
        let ghost mut i: int = 0;
        assert(self@ =~= before.given_up(watcher@.roots, all, now, 0));
        assert(all.skip(0) =~= all);
        while rest.len() > 0
            invariant
                self.wf(),
                0 <= i <= all.len(),
                pending_views(rest@) == all.skip(i),
                watcher@.roots.len() > 0 || all.len() == 0,
                before.has_room(all.len() as int),
                before.grew(self@, i),
                self@ == before.given_up(watcher@.roots, all, now, i as nat),
            decreases rest@.len(),
        {
            let ghost waiting = pending_views(rest@);
            let one = rest.remove(0);
            assert(waiting.len() > 0);
            assert(waiting[0] == one@);
            assert(all.skip(i)[0] == all[i]);
            assert(pending_views(rest@) =~= waiting.skip(1));
            assert(all.skip(i).skip(1) =~= all.skip(i + 1));
            if elapsed(one.observed_at, now) >= RENAME_TIMEOUT {
                self.emit_basic(watcher, ChangeKind::Delete, one.path, one.snapshot, None, now);
            } else {
                let ghost listed = self@.pending;
                self.pending_renames.push(one);
                assert(self@.pending =~= listed.push(all[i]));
            }
            proof {
                i = i + 1;
            }
        }
        assert(i == all.len());
        self.forget_old(now);
    }
}

} // verus!
