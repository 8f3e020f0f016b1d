//! What holds of the timeline as a whole.

use crate::app::{AppView, FileChange, PendingView};
use crate::beads::BeadsActivityView;
use crate::changes::{NotifyKind, NotifyView, Scene, SightingView};
use crate::git::GitActivityView;
use crate::keys::Key;
use crate::model::{ChangeKind, EventView, IntegrityLevel, IntegrityView};
use crate::path::Parts;
use crate::snapshot::{InspectionView, SnapshotView};
use crate::watcher::WatchView;
use vstd::prelude::*;

verus! {

/// Whether the newer of any two events stands in front, and every event was
/// numbered before the next one will be. Events wait only while the timeline is
/// paused, and those that wait are newer than those that do not.
pub open spec fn is_chronological(app: AppView) -> bool {
    let all = app.paused_events + app.events;
    &&& !app.paused ==> app.paused_events.len() == 0
    &&& forall|i: int| 0 <= i < all.len() ==> (#[trigger] all[i]).id < app.next_id
    &&& forall|i: int, j: int|
        0 <= i < j < all.len() ==> (#[trigger] all[i]).id > (#[trigger] all[j]).id
}

/// An event that is newer than all others can be recorded.
proof fn lemma_recorded(app: AppView, event: EventView)
    requires
        is_chronological(app),
        app.next_id < u64::MAX,
        event.id == app.next_id,
    ensures
        is_chronological(app.numbered().recorded(event)),
{
    let before = app.paused_events + app.events;
    let next = app.numbered().recorded(event);
    let all = next.paused_events + next.events;
    if app.paused {
        let longer = seq![event] + app.paused_events;
        assert forall|i: int| 0 <= i < all.len() implies (i == 0 && all[i] == event
            && next.paused_events.len() > 0) || (exists|k: int|
            0 <= k < before.len() && before[k] == #[trigger] all[i]) by {
            if i < next.paused_events.len() {
                assert(all[i] == longer[i]);
                if i > 0 {
                    assert(before[i - 1] == all[i]);
                }
            } else {
                assert(before[i - next.paused_events.len() + app.paused_events.len()] == all[i]);
            }
        }
        assert forall|i: int, j: int| 0 <= i < j < all.len() implies (#[trigger] all[i]).id > (
        #[trigger] all[j]).id by {
            let shift = app.paused_events.len() - next.paused_events.len();
            let bi = if i < next.paused_events.len() { i - 1 } else { i + shift };
            let bj = if j < next.paused_events.len() { j - 1 } else { j + shift };
            assert(all[j] == before[bj]);
            if i < next.paused_events.len() && i == 0 {
                assert(all[i] == event);
            } else {
                assert(all[i] == before[bi]);
            }
        }
    } else {
        let longer = seq![event] + app.events;
        assert forall|i: int| 0 <= i < all.len() implies #[trigger] all[i] == longer[i] by {}
        assert forall|i: int| 0 < i < longer.len() implies #[trigger] longer[i] == before[i - 1] by {}
    }
}

/// Bringing an event up to date leaves the order as it was.
proof fn lemma_refreshed(app: AppView, i: int, change: FileChange, now: u64)
    requires
        is_chronological(app),
    ensures
        0 <= i < app.events.len() ==> is_chronological(
            AppView {
                events: app.events.update(
                    i,
                    crate::app::refreshed(app.events[i], change, now),
                ),
                ..app
            },
        ),
        0 <= i < app.paused_events.len() ==> is_chronological(
            AppView {
                paused_events: app.paused_events.update(
                    i,
                    crate::app::refreshed(app.paused_events[i], change, now),
                ),
                ..app
            },
        ),
{
    let before = app.paused_events + app.events;
    if 0 <= i < app.events.len() {
        let events = app.events.update(i, crate::app::refreshed(app.events[i], change, now));
        let all = app.paused_events + events;
        assert forall|k: int| 0 <= k < all.len() implies (#[trigger] all[k]).id == before[k].id by {}
    }
    if 0 <= i < app.paused_events.len() {
        let waiting = app.paused_events.update(
            i,
            crate::app::refreshed(app.paused_events[i], change, now),
        );
        let all = waiting + app.events;
        assert forall|k: int| 0 <= k < all.len() implies (#[trigger] all[k]).id == before[k].id by {}
    }
}

/// Where an event is found that takes in a change, it is one of the events, and
/// it does take it in.
pub proof fn lemma_first_taking_in(
    events: Seq<EventView>,
    path: Parts,
    kind: ChangeKind,
    from: int,
)
    requires
        0 <= from,
    ensures
        crate::app::first_taking_in(events, path, kind, from) matches Some(i) ==> from <= i
            < events.len() && crate::app::takes_in(events[i], path, kind),
    decreases events.len() - from,
{
    if from < events.len() && !crate::app::takes_in(events[from], path, kind) {
        lemma_first_taking_in(events, path, kind, from + 1);
    }
}

/// What waits and what does not are in order once they are one list.
proof fn lemma_resumed(app: AppView)
    requires
        !app.paused,
        forall|i: int|
            #![trigger (app.paused_events + app.events)[i]]
            0 <= i < (app.paused_events + app.events).len() ==> (app.paused_events
                + app.events)[i].id < app.next_id,
        forall|i: int, j: int|
            #![trigger (app.paused_events + app.events)[i], (app.paused_events + app.events)[j]]
            0 <= i < j < (app.paused_events + app.events).len() ==> (app.paused_events
                + app.events)[i].id > (app.paused_events + app.events)[j].id,
    ensures
        is_chronological(app.resumed()),
    decreases app.paused_events.len(),
{
    let all = app.paused_events + app.events;
    if app.paused_events.len() > 0 {
        let event = app.paused_events.last();
        let next = (AppView { paused_events: app.paused_events.drop_last(), ..app }).pushed(event);
        let now = next.paused_events + next.events;
        assert forall|i: int| 0 <= i < now.len() implies #[trigger] now[i] == all[i] by {
            let longer = seq![event] + app.events;
            if i >= next.paused_events.len() {
                assert(now[i] == longer[i - next.paused_events.len()]);
            }
        }
        lemma_resumed(next);
    }
}

/// A change that comes in leaves the timeline chronological.
proof fn lemma_emitted(app: AppView, roots: Seq<Parts>, change: FileChange, now: u64)
    requires
        is_chronological(app),
        app.next_id < u64::MAX,
    ensures
        is_chronological(app.emitted(roots, change, now)),
{
    if app.is_duplicate(change.path, change.kind, now) {
        lemma_first_taking_in(app.events, change.path, change.kind, 0);
        lemma_first_taking_in(app.paused_events, change.path, change.kind, 0);
        match crate::app::first_taking_in(app.events, change.path, change.kind, 0) {
            Some(i) => lemma_refreshed(app, i, change, now),
            None => match crate::app::first_taking_in(
                app.paused_events,
                change.path,
                change.kind,
                0,
            ) {
                Some(i) => lemma_refreshed(app, i, change, now),
                None => {},
            },
        }
    } else {
        let minded = AppView {
            recent: app.recent.insert(
                change.path,
                crate::app::Recent { kind: change.kind, seen: now },
            ),
            ..app
        };
        lemma_recorded(minded, crate::app::file_event(roots, change, app.next_id, now));
    }
}

/// A report that comes in leaves the timeline chronological.
proof fn lemma_observed(app: AppView, report: IntegrityView, now: u64)
    requires
        is_chronological(app),
        app.next_id < u64::MAX,
    ensures
        is_chronological(app.observed(report, now)),
{
    let graver = AppView {
        observer_level: crate::app::graver(app.observer_level, report.level),
        ..app
    };
    lemma_recorded(graver, crate::app::integrity_event(report, app.next_id, now));
}

/// Going on after a pause, or pausing, leaves the timeline chronological.
proof fn lemma_toggled(app: AppView)
    requires
        is_chronological(app),
    ensures
        is_chronological(app.pause_toggled()),
{
    let toggled = AppView { paused: !app.paused, ..app };
    if app.paused {
        lemma_resumed(toggled);
    } else {
        assert(toggled.paused_events + toggled.events == app.paused_events + app.events);
    }
}

/// Whatever comes in, the timeline stays chronological: no two events have the
/// same number, and the newer one stands in front.
pub proof fn the_timeline_stays_chronological(
    app: AppView,
    roots: Seq<Parts>,
    change: FileChange,
    report: IntegrityView,
    git: GitActivityView,
    work: BeadsActivityView,
    now: u64,
)
    requires
        is_chronological(app),
        app.next_id < u64::MAX,
    ensures
        is_chronological(app.emitted(roots, change, now)),
        is_chronological(app.observed(report, now)),
        is_chronological(app.with_git(git, now)),
        is_chronological(app.with_work(work, now)),
        is_chronological(app.pause_toggled()),
        is_chronological(app.cleared()),
{
    lemma_recorded(app, crate::app::git_event(git, app.next_id, now));
    lemma_recorded(app, crate::app::work_event(work, app.next_id, now));
    lemma_observed(app, report, now);
    lemma_emitted(app, roots, change, now);
    lemma_toggled(app);
    assert(app.cleared().paused_events + app.cleared().events =~= Seq::<EventView>::empty());
}

/// Whatever key is pressed, the timeline stays chronological.
pub proof fn keys_leave_the_timeline_chronological(
    app: AppView,
    key: Key,
    control: bool,
    roots: Seq<Parts>,
)
    requires
        is_chronological(app),
    ensures
        is_chronological(crate::keys::pressed(app, key, control, roots)),
        crate::keys::pressed(app, key, control, roots).observer_level == app.observer_level,
{
    lemma_toggled(app);
    lemma_resumed_level(AppView { paused: !app.paused, ..app });
    assert(app.cleared().paused_events + app.cleared().events =~= Seq::<EventView>::empty());
    let next = crate::keys::pressed(app, key, control, roots);
    if next.events == app.events && next.paused_events == app.paused_events {
        assert(next.paused_events + next.events == app.paused_events + app.events);
    }
}

/// The observer level is the gravest that was ever reported: a report never
/// lowers it, and neither clearing the timeline nor anything else that happens
/// to it changes it.
pub proof fn the_observer_level_never_falls(
    app: AppView,
    report: IntegrityView,
    roots: Seq<Parts>,
    change: FileChange,
    git: GitActivityView,
    work: BeadsActivityView,
    now: u64,
)
    ensures
        app.observed(report, now).observer_level.rank() >= app.observer_level.rank(),
        app.observed(report, now).observer_level.rank() >= report.level.rank(),
        app.observed(report, now).observer_level == app.observer_level || app.observed(
            report,
            now,
        ).observer_level == report.level,
        app.cleared().observer_level == app.observer_level,
        app.pause_toggled().observer_level == app.observer_level,
        app.emitted(roots, change, now).observer_level == app.observer_level,
        app.with_git(git, now).observer_level == app.observer_level,
        app.with_work(work, now).observer_level == app.observer_level,
{
    lemma_resumed_level(AppView { paused: !app.paused, ..app });
}

/// Going on with the events that have waited leaves the observer level alone.
proof fn lemma_resumed_level(app: AppView)
    ensures
        app.resumed().observer_level == app.observer_level,
    decreases app.paused_events.len(),
{
    if app.paused_events.len() > 0 {
        lemma_resumed_level(
            (AppView { paused_events: app.paused_events.drop_last(), ..app }).pushed(
                app.paused_events.last(),
            ),
        );
    }
}

/// The timeline once events have come in one after another.
pub open spec fn recorded_all(app: AppView, events: Seq<EventView>) -> AppView
    decreases events.len(),
{
    if events.len() == 0 {
        app
    } else {
        recorded_all(app, events.drop_last()).recorded(events.last())
    }
}

/// Cutting a list off twice is cutting it off once.
proof fn lemma_bounded(front: Seq<EventView>, back: Seq<EventView>, max: usize)
    ensures
        crate::app::bounded(front + crate::app::bounded(back, max), max) == crate::app::bounded(
            front + back,
            max,
        ),
        crate::app::bounded(crate::app::bounded(front, max) + back, max) == crate::app::bounded(
            front + back,
            max,
        ),
{
    assert(crate::app::bounded(front + crate::app::bounded(back, max), max)
        =~= crate::app::bounded(front + back, max));
    assert(crate::app::bounded(crate::app::bounded(front, max) + back, max)
        =~= crate::app::bounded(front + back, max));
}

/// What the lists are once events have come in.
proof fn lemma_recorded_all(app: AppView, events: Seq<EventView>)
    requires
        app.events.len() <= app.max_events,
        app.paused_events.len() <= app.max_events,
    ensures
        recorded_all(app, events).paused == app.paused,
        recorded_all(app, events).max_events == app.max_events,
        app.paused ==> recorded_all(app, events).events == app.events && recorded_all(
            app,
            events,
        ).paused_events == crate::app::bounded(
            events.reverse() + app.paused_events,
            app.max_events,
        ),
        !app.paused ==> recorded_all(app, events).paused_events == app.paused_events
            && recorded_all(app, events).events == crate::app::bounded(
            events.reverse() + app.events,
            app.max_events,
        ),
    decreases events.len(),
{
    let list = if app.paused { app.paused_events } else { app.events };
    if events.len() == 0 {
        assert(events.reverse() + list =~= list);
    } else {
        let front = events.drop_last();
        lemma_recorded_all(app, front);
        lemma_bounded(seq![events.last()], front.reverse() + list, app.max_events);
        assert(seq![events.last()] + (front.reverse() + list) =~= events.reverse() + list);
    }
}

/// What the lists are once the events that have waited go on.
pub proof fn lemma_resumed_lists(app: AppView)
    requires
        app.events.len() <= app.max_events,
    ensures
        app.resumed().events == crate::app::bounded(
            app.paused_events + app.events,
            app.max_events,
        ),
        app.resumed().paused_events.len() == 0,
    decreases app.paused_events.len(),
{
    if app.paused_events.len() == 0 {
        assert(app.paused_events + app.events =~= app.events);
    } else {
        let event = app.paused_events.last();
        let front = app.paused_events.drop_last();
        let next = (AppView { paused_events: front, ..app }).pushed(event);
        lemma_resumed_lists(next);
        lemma_bounded(front, seq![event] + app.events, app.max_events);
        assert(front + (seq![event] + app.events) =~= app.paused_events + app.events);
    }
}

/// Pausing loses nothing: once the timeline goes on, it shows the same events as
/// if it had never been paused.
pub proof fn pausing_loses_nothing(app: AppView, events: Seq<EventView>)
    requires
        !app.paused,
        app.paused_events.len() == 0,
        app.events.len() <= app.max_events,
    ensures
        recorded_all(app.pause_toggled(), events).pause_toggled().events == recorded_all(
            app,
            events,
        ).events,
        recorded_all(app.pause_toggled(), events).pause_toggled().paused_events.len() == 0,
        !recorded_all(app.pause_toggled(), events).pause_toggled().paused,
{
    let paused = recorded_all(app.pause_toggled(), events);
    lemma_recorded_all(app, events);
    lemma_recorded_all(app.pause_toggled(), events);
    let going = AppView { paused: false, ..paused };
    lemma_resumed_lists(going);
    lemma_resumed_paused(going);
    assert(events.reverse() + app.paused_events =~= events.reverse());
    lemma_bounded(events.reverse(), app.events, app.max_events);
}

/// A timeline that goes on is not paused.
proof fn lemma_resumed_paused(app: AppView)
    ensures
        app.resumed().paused == app.paused,
    decreases app.paused_events.len(),
{
    if app.paused_events.len() > 0 {
        lemma_resumed_paused(
            (AppView { paused_events: app.paused_events.drop_last(), ..app }).pushed(
                app.paused_events.last(),
            ),
        );
    }
}

/// Filters and searches leave the order alone: the events that are shown are
/// those that meet them, each once, in the order of the timeline.
pub proof fn filtering_keeps_the_order(app: AppView)
    ensures
        forall|i: int, j: int|
            0 <= i < j < app.shown().len() ==> (#[trigger] app.shown()[i]) < (
            #[trigger] app.shown()[j]),
        forall|k: int|
            app.shown().contains(k) <==> (0 <= k < app.events.len() && app.shows(
                #[trigger] app.events[k],
            )),
{
    crate::app::lemma_shown(app, app.events.len());
    assert forall|k: int| app.shown().contains(k) implies (0 <= k < app.events.len() && app.shows(
        #[trigger] app.events[k],
    )) by {
        let i = choose|i: int| 0 <= i < app.shown().len() && app.shown()[i] == k;
        assert(app.shown()[i] == k);
    }
}

/// The events that are shown among the first ones do not depend on the others,
/// nor on what is selected.
proof fn lemma_shown_prefix(app: AppView, other: AppView, n: nat)
    requires
        n <= app.events.len(),
        n <= other.events.len(),
        other.enabled == app.enabled,
        other.workspace_filter == app.workspace_filter,
        other.search == app.search,
        forall|i: int| 0 <= i < n ==> app.events[i] == other.events[i],
    ensures
        app.shown_among(n) == other.shown_among(n),
    decreases n,
{
    if n > 0 {
        lemma_shown_prefix(app, other, (n - 1) as nat);
    }
}

/// One more event in front moves the places of the others.
proof fn lemma_shown_shift(app: AppView, event: EventView, n: nat)
    requires
        n <= app.events.len(),
    ensures
        ({
            let longer = AppView { events: seq![event] + app.events, ..app };
            let front: Seq<int> = if app.shows(event) { seq![0] } else { Seq::empty() };
            longer.shown_among(n + 1) == front + app.shown_among(n).map_values(|i: int| i + 1)
        }),
    decreases n,
{
    let longer = AppView { events: seq![event] + app.events, ..app };
    let front: Seq<int> = if app.shows(event) { seq![0] } else { Seq::empty() };
    if n == 0 {
        assert(longer.shown_among(0) =~= Seq::<int>::empty());
        assert(longer.events[0] == event);
        assert(longer.shown_among(1) =~= front);
        assert(app.shown_among(0).map_values(|i: int| i + 1) =~= Seq::<int>::empty());
        assert(front + Seq::<int>::empty() =~= front);
    } else {
        lemma_shown_shift(app, event, (n - 1) as nat);
        assert(longer.events[n as int] == app.events[n - 1]);
        let earlier = app.shown_among((n - 1) as nat);
        assert(earlier.push(n - 1).map_values(|i: int| i + 1) =~= earlier.map_values(
            |i: int| i + 1,
        ).push(n as int));
        assert(longer.shown_among(n + 1) =~= front + app.shown_among(n).map_values(
            |i: int| i + 1,
        ));
    }
}

/// More events are shown among more events.
proof fn lemma_shown_grows(app: AppView, few: nat, many: nat)
    requires
        few <= many,
    ensures
        app.shown_among(few).len() <= app.shown_among(many).len(),
        app.shown_among(many).take(app.shown_among(few).len() as int) == app.shown_among(few),
    decreases many,
{
    if few < many {
        lemma_shown_grows(app, few, (many - 1) as nat);
        assert(app.shown_among(many).take(app.shown_among(few).len() as int)
            =~= app.shown_among((many - 1) as nat).take(app.shown_among(few).len() as int));
    } else {
        assert(app.shown_among(many).take(app.shown_among(few).len() as int)
            =~= app.shown_among(few));
    }
}

/// The selection stays on its event when another one comes in, unless the newest
/// event is selected and the new one is shown, or the selected event is the one
/// that has to go. An event that is not shown never moves it.
pub proof fn the_selection_stays_on_its_event(app: AppView, event: EventView)
    requires
        app.selected < usize::MAX,
        app.selected > 0 || !app.shows(event),
        app.selected < app.shown().len(),
        app.shown()[app.selected as int] < app.max_events - 1,
    ensures
        app.pushed(event).selection() == app.selection(),
        app.selection() is Some,
{
    let longer = AppView { events: seq![event] + app.events, ..app };
    let next = app.pushed(event);
    let n = app.events.len();
    let old_index = app.shown()[app.selected as int];
    lemma_shown_shift(app, event, n);
    crate::app::lemma_shown(app, n);
    let front: Seq<int> = if app.shows(event) { seq![0] } else { Seq::empty() };
    let shifted = app.shown().map_values(|i: int| i + 1);
    let position = front.len() + app.selected;
    assert((front + shifted)[position as int] == shifted[app.selected as int]);
    assert(longer.shown()[position as int] == old_index + 1);
    assert(longer.events.len() == n + 1);
    assert(next.selected == position);
    // The events that are kept are the first ones of the longer list.
    let kept = next.events.len();
    lemma_shown_prefix(longer, next, kept);
    lemma_shown_grows(longer, kept, longer.events.len());
    crate::app::lemma_shown(longer, longer.events.len());
    assert(old_index + 1 < kept);
    assert(longer.shows(longer.events[old_index + 1]));
    crate::app::lemma_shown(longer, kept);
    assert(longer.shown_among(kept).contains(old_index + 1));
    let at = choose|i: int|
        0 <= i < longer.shown_among(kept).len() && longer.shown_among(kept)[i] == old_index + 1;
    assert(longer.shown().take(longer.shown_among(kept).len() as int)[at] == longer.shown()[at]);
    if at < position {
        assert(longer.shown()[at] < longer.shown()[position as int]);
    } else if at > position {
        assert(longer.shown()[position as int] < longer.shown()[at]);
    }
    assert(next.shown()[position as int] == old_index + 1);
    assert(next.events[old_index + 1] == app.events[old_index]);
}

/// Timelines whose events are shown alike have the same event selected.
proof fn lemma_selected_alike(app: AppView, other: AppView)
    requires
        other.enabled == app.enabled,
        other.workspace_filter == app.workspace_filter,
        other.search == app.search,
        other.selected == app.selected,
        other.events.len() == app.events.len(),
        forall|i: int|
            #![trigger app.events[i]]
            0 <= i < app.events.len() ==> other.events[i].id == app.events[i].id
                && other.events[i].kind == app.events[i].kind && other.events[i].root
                == app.events[i].root && other.events[i].path == app.events[i].path
                && other.events[i].previous_path == app.events[i].previous_path,
    ensures
        keeps_selection(app, other),
{
    lemma_shown_alike(app, other, app.events.len());
    crate::app::lemma_shown(app, app.events.len());
}

/// Timelines whose events are shown alike show them at the same places.
proof fn lemma_shown_alike(app: AppView, other: AppView, n: nat)
    requires
        n <= app.events.len() == other.events.len(),
        forall|i: int|
            #![trigger app.events[i]]
            0 <= i < app.events.len() ==> app.shows(app.events[i]) == other.shows(
                other.events[i],
            ),
    ensures
        other.shown_among(n) == app.shown_among(n),
    decreases n,
{
    if n > 0 {
        lemma_shown_alike(app, other, (n - 1) as nat);
        assert(app.shows(app.events[n - 1]) == other.shows(other.events[n - 1]));
    }
}

/// Whether the event that is selected, if one is, still is.
pub open spec fn keeps_selection(before: AppView, after: AppView) -> bool {
    before.selection() matches Some(event) ==> after.selection() is Some
        && after.selection()->0.id == event.id
}

/// An event that is recorded leaves the selection on its event.
proof fn lemma_recorded_selection(app: AppView, base: AppView, event: EventView)
    requires
        app.selected > 0,
        app.selected < usize::MAX,
        app.events.len() < app.max_events,
        base == (AppView {
            next_id: base.next_id,
            recent: base.recent,
            observer_level: base.observer_level,
            ..app
        }),
    ensures
        keeps_selection(app, base.recorded(event)),
{
    lemma_selected_alike(app, base);
    if app.paused {
        lemma_selected_alike(app, base.recorded(event));
    } else if base.selection() is Some {
        crate::app::lemma_shown(base, base.events.len());
        assert(base.shown()[base.selected as int] < base.events.len());
        the_selection_stays_on_its_event(base, event);
    }
}

/// Whatever comes in, the selection stays on its event, whether or not the new
/// event is shown, as long as not the newest event is selected and none has to go.
pub proof fn the_selection_stays_whatever_comes_in(
    app: AppView,
    roots: Seq<Parts>,
    change: FileChange,
    report: IntegrityView,
    git: GitActivityView,
    work: BeadsActivityView,
    now: u64,
)
    requires
        app.selected > 0,
        app.selected < usize::MAX,
        app.events.len() < app.max_events,
    ensures
        keeps_selection(app, app.emitted(roots, change, now)),
        keeps_selection(app, app.observed(report, now)),
        keeps_selection(app, app.with_git(git, now)),
        keeps_selection(app, app.with_work(work, now)),
{
    lemma_recorded_selection(
        app,
        app.numbered(),
        crate::app::git_event(git, app.next_id, now),
    );
    lemma_recorded_selection(
        app,
        app.numbered(),
        crate::app::work_event(work, app.next_id, now),
    );
    let graver = AppView {
        observer_level: crate::app::graver(app.observer_level, report.level),
        ..app
    };
    lemma_recorded_selection(
        app,
        graver.numbered(),
        crate::app::integrity_event(report, app.next_id, now),
    );
    if app.is_duplicate(change.path, change.kind, now) {
        lemma_first_taking_in(app.events, change.path, change.kind, 0);
        lemma_selected_alike(app, app.emitted(roots, change, now));
    } else {
        let minded = AppView {
            recent: app.recent.insert(
                change.path,
                crate::app::Recent { kind: change.kind, seen: now },
            ),
            ..app
        };
        lemma_recorded_selection(
            app,
            minded.numbered(),
            crate::app::file_event(roots, change, app.next_id, now),
        );
    }
}

/// Where a root stands in a list without repetitions.
pub proof fn lemma_place_of(roots: Seq<Parts>, i: int, from: int)
    requires
        0 <= from <= i < roots.len(),
        roots.no_duplicates(),
    ensures
        crate::watcher::place_of(roots, roots[i], from) == Some(i),
    decreases i - from,
{
    if from < i {
        lemma_place_of(roots, i, from + 1);
    }
}

/// Moving the focus on and back again leaves it where it was: on a root, or on
/// none.
pub proof fn focus_moves_on_and_back(roots: Seq<Parts>, focus: Option<Parts>, reverse: bool)
    requires
        roots.no_duplicates(),
        focus matches Some(root) ==> roots.contains(root),
    ensures
        crate::app::next_workspace(
            roots,
            crate::app::next_workspace(roots, focus, reverse),
            !reverse,
        ) == focus,
{
    match focus {
        Some(root) => {
            let i = choose|i: int| 0 <= i < roots.len() && roots[i] == root;
            lemma_place_of(roots, i, 0);
            if i + 1 < roots.len() {
                lemma_place_of(roots, i + 1, 0);
            }
            if i > 0 {
                lemma_place_of(roots, i - 1, 0);
            }
        },
        None => {
            if roots.len() > 0 {
                lemma_place_of(roots, 0, 0);
                lemma_place_of(roots, roots.len() - 1, 0);
            }
        },
    }
}

/// Where the focus is after `n` moves from none.
pub open spec fn focus_after(roots: Seq<Parts>, n: nat) -> Option<Parts>
    decreases n,
{
    if n == 0 {
        None
    } else {
        crate::app::next_workspace(roots, focus_after(roots, (n - 1) as nat), false)
    }
}

/// The focus goes through every root in order, and then back to none.
pub proof fn focus_goes_through_every_root(roots: Seq<Parts>, n: nat)
    requires
        roots.no_duplicates(),
        n <= roots.len(),
    ensures
        n > 0 ==> focus_after(roots, n) == Some(roots[n - 1]),
        focus_after(roots, roots.len() + 1) is None,
    decreases n,
{
    if n > 0 {
        lemma_focus_after(roots, n);
    }
    if roots.len() > 0 {
        lemma_focus_after(roots, roots.len());
        lemma_place_of(roots, roots.len() - 1, 0);
    } else {
        assert(focus_after(roots, 0) is None);
    }
}

/// Where the focus is after a number of moves.
proof fn lemma_focus_after(roots: Seq<Parts>, n: nat)
    requires
        roots.no_duplicates(),
        0 < n <= roots.len(),
    ensures
        focus_after(roots, n) == Some(roots[n - 1]),
    decreases n,
{
    if n > 1 {
        lemma_focus_after(roots, (n - 1) as nat);
        lemma_place_of(roots, n - 2, 0);
    } else {
        assert(focus_after(roots, 0) is None);
    }
}

/// A change that follows soon on another of the same path adds no event: at most
/// one event is brought up to date, it is one of that very path, and no other
/// event is touched.
pub proof fn coalescing_is_local_to_a_path(
    app: AppView,
    roots: Seq<Parts>,
    change: FileChange,
    now: u64,
    i: int,
)
    requires
        app.is_duplicate(change.path, change.kind, now),
        0 <= i,
    ensures
        app.emitted(roots, change, now).events.len() == app.events.len(),
        app.emitted(roots, change, now).paused_events.len() == app.paused_events.len(),
        app.emitted(roots, change, now).next_id == app.next_id,
        i < app.events.len() && app.emitted(roots, change, now).events[i] != app.events[i]
            ==> crate::path::path_join(app.events[i].root, app.events[i].path) == change.path
            && app.emitted(roots, change, now).events[i] == crate::app::refreshed(
            app.events[i],
            change,
            now,
        ),
        i < app.paused_events.len() && app.emitted(roots, change, now).paused_events[i]
            != app.paused_events[i] ==> crate::path::path_join(
            app.paused_events[i].root,
            app.paused_events[i].path,
        ) == change.path && app.emitted(roots, change, now).paused_events[i]
            == crate::app::refreshed(app.paused_events[i], change, now),
{
    lemma_first_taking_in(app.events, change.path, change.kind, 0);
    lemma_first_taking_in(app.paused_events, change.path, change.kind, 0);
}

/// A change that stands alone is one new event, in front of all others.
pub proof fn a_change_that_stands_alone_is_a_new_event(
    app: AppView,
    roots: Seq<Parts>,
    change: FileChange,
    now: u64,
)
    requires
        !app.is_duplicate(change.path, change.kind, now),
        !app.paused,
        app.max_events > 0,
        app.next_id < u64::MAX,
    ensures
        app.emitted(roots, change, now).events[0] == crate::app::file_event(
            roots,
            change,
            app.next_id,
            now,
        ),
        app.emitted(roots, change, now).events.len() > 0,
        app.emitted(roots, change, now).next_id == app.next_id + 1,
{
}

/// A root is not hidden, whatever it is called.
pub proof fn roots_are_not_hidden(roots: Seq<Parts>, root: Parts)
    requires
        roots.contains(root),
    ensures
        !crate::roots::is_hidden_below(roots, root),
{
    assert(root.subrange(0, root.len() as int) =~= root);
    crate::roots::paths_belong_to_the_deepest_root(roots, root, root);
    let owner = crate::roots::owner(roots, root);
    assert(root.subrange(0, owner.len() as int) =~= root);
    assert(crate::path::stripped(root, owner) =~= Parts::empty());
}

/// A native event of hidden paths alone leaves no trace: nothing comes on the
/// timeline, and nothing is remembered or forgotten.
pub proof fn what_is_hidden_leaves_no_trace(scene: Scene, event: NotifyView, now: u64)
    requires
        !event.rescan,
        forall|i: int|
            0 <= i < event.sightings.len() ==> crate::roots::is_hidden_below(
                scene.watch.roots,
                (#[trigger] event.sightings[i]).path,
            ),
    ensures
        scene.notified(event, now) == (Scene {
            app: AppView { status: None, ..scene.app },
            ..scene
        }),
{
    let start = Scene { app: AppView { status: None, ..scene.app }, ..scene };
    let roots = scene.watch.roots;
    let keep = |one: SightingView| !crate::roots::is_hidden_below(roots, one.path);
    let shown = event.sightings.filter(keep);
    if shown.len() > 0 {
        crate::roots::lemma_filtered(event.sightings, keep, 0);
        let i = choose|i: int|
            0 <= i < event.sightings.len() && event.sightings[i] == shown[0];
        assert(crate::roots::is_hidden_below(roots, event.sightings[i].path));
    }
    lemma_no_roots_lost(start, event.sightings, now, event.sightings.len());
}

/// Where no path is a root, no root was lost.
proof fn lemma_no_roots_lost(scene: Scene, sightings: Seq<SightingView>, now: u64, n: nat)
    requires
        n <= sightings.len(),
        forall|i: int|
            0 <= i < sightings.len() ==> crate::roots::is_hidden_below(
                scene.watch.roots,
                (#[trigger] sightings[i]).path,
            ),
    ensures
        scene.roots_lost(sightings, now, n) == scene,
    decreases n,
{
    if n > 0 {
        lemma_no_roots_lost(scene, sightings, now, (n - 1) as nat);
        let path = sightings[n - 1].path;
        if scene.watch.roots.contains(path) {
            roots_are_not_hidden(scene.watch.roots, path);
        }
    }
}

/// The ends of a move that share a tracker are paired, whatever other moves go
/// on at the same time.
pub proof fn trackers_pair_the_ends_of_a_move(
    pending: Seq<PendingView>,
    tracker: usize,
    i: int,
)
    requires
        0 <= i < pending.len(),
        pending[i].tracker == Some(tracker),
        forall|j: int|
            0 <= j < pending.len() && (#[trigger] pending[j]).tracker == Some(tracker) ==> j == i,
    ensures
        crate::changes::matching_move(pending, Some(tracker)) == Some(i),
{
    lemma_tracked(pending, tracker, i, 0);
}

/// Where the search for a tracker stops.
proof fn lemma_tracked(pending: Seq<PendingView>, tracker: usize, i: int, from: int)
    requires
        0 <= from <= i < pending.len(),
        pending[i].tracker == Some(tracker),
        forall|j: int|
            0 <= j < pending.len() && (#[trigger] pending[j]).tracker == Some(tracker) ==> j == i,
    ensures
        crate::changes::tracked_move(pending, Some(tracker), from) == Some(i),
    decreases i - from,
{
    if from < i {
        lemma_tracked(pending, tracker, i, from + 1);
    }
}

/// A change of a file, or a move, of which nothing was remembered carries no diff,
/// but says why.
pub proof fn no_diff_is_made_up(scene: Scene, one: SightingView, from: Parts, now: u64)
    requires
        !scene.watch.snapshots.contains_key(one.path),
        one.found is File,
        !scene.watch.snapshots.contains_key(from),
    ensures
        ({
            let snapshot = scene.watch.taken_snapshot(one.path, one.found);
            scene.modified(one, now) == (Scene {
                watch: scene.watch.taken(one.path, one.found),
                ..scene
            }).reported(one.path, one.found, snapshot, now).emitted(
                FileChange {
                    kind: ChangeKind::Modify,
                    path: one.path,
                    previous_path: None,
                    size: snapshot.size,
                    is_dir: false,
                    diff: crate::diff::unavailable(crate::changes::baseline_text()),
                },
                now,
            )
        }),
        ({
            let watch = scene.watch.forgotten(from).remapped(from, one.path);
            let snapshot = watch.taken_snapshot(one.path, one.found);
            scene.renamed(from, one, now) == (Scene {
                watch: watch.taken(one.path, one.found),
                ..scene
            }).emitted(
                FileChange {
                    kind: ChangeKind::Rename,
                    path: one.path,
                    previous_path: Some(crate::roots::relative(scene.watch.roots, from)),
                    size: snapshot.size,
                    is_dir: snapshot.is_dir,
                    diff: crate::diff::unavailable(crate::changes::baseline_text()),
                },
                now,
            )
        }),
{
}

/// The diff of a modification starts from what was seen last, as long as there is
/// room to remember it.
pub proof fn diffs_start_from_what_was_seen_last(
    watch: WatchView,
    path: Parts,
    seen: InspectionView,
    found: InspectionView,
)
    requires
        watch.snapshots.remove(path).len() < watch.max_entries,
    ensures
        ({
            let later = watch.taken(path, seen);
            &&& later.remembered(path) == Some(watch.taken_snapshot(path, seen))
            &&& crate::changes::diff_from(
                later.remembered(path),
                later.taken_snapshot(path, found),
            ) == crate::diff::diff_of(
                watch.taken_snapshot(path, seen).content,
                later.taken_snapshot(path, found).content,
            )
        }),
{
}

/// Whether a timeline has only gone on, by up to `n` events: it is still
/// chronological if it was, and is trusted no more than before.
pub open spec fn has_gone_on(before: AppView, after: AppView, n: nat) -> bool {
    &&& is_chronological(before) ==> is_chronological(after)
    &&& before.next_id <= after.next_id <= before.next_id + n
    &&& after.observer_level.rank() >= before.observer_level.rank()
}

/// A change goes on by an event at most.
proof fn lemma_emitted_goes_on(app: AppView, roots: Seq<Parts>, change: FileChange, now: u64)
    requires
        app.next_id < u64::MAX,
    ensures
        has_gone_on(app, app.emitted(roots, change, now), 1),
{
    if is_chronological(app) {
        lemma_emitted(app, roots, change, now);
    }
}

/// A report goes on by an event.
proof fn lemma_observed_goes_on(app: AppView, report: IntegrityView, now: u64)
    requires
        app.next_id < u64::MAX,
    ensures
        has_gone_on(app, app.observed(report, now), 1),
        app.observed(report, now).observer_level.rank() >= report.level.rank(),
{
    if is_chronological(app) {
        lemma_observed(app, report, now);
    }
}

/// A created or modified path goes on by two events at most.
proof fn lemma_path_goes_on(scene: Scene, one: SightingView, now: u64)
    requires
        scene.app.next_id + 2 <= u64::MAX,
    ensures
        has_gone_on(scene.app, scene.modified(one, now).app, 2),
        has_gone_on(scene.app, scene.created(one, now).app, 2),
{
    let snapshot = scene.watch.taken_snapshot(one.path, one.found);
    let taken = Scene { watch: scene.watch.taken(one.path, one.found), ..scene };
    let next = taken.reported(one.path, one.found, snapshot, now);
    if let Some(detail) = snapshot.read_error {
        lemma_observed_goes_on(
            scene.app,
            crate::changes::inspection_report(
                crate::roots::owner(taken.watch.roots, one.path),
                detail,
            ),
            now,
        );
    }
    assert(has_gone_on(scene.app, next.app, 1));
    lemma_emitted_goes_on(
        next.app,
        next.watch.roots,
        FileChange {
            kind: ChangeKind::Modify,
            path: one.path,
            previous_path: None,
            size: snapshot.size,
            is_dir: snapshot.is_dir,
            diff: crate::changes::diff_from(scene.watch.remembered(one.path), snapshot),
        },
        now,
    );
    lemma_emitted_goes_on(
        next.app,
        next.watch.roots,
        FileChange {
            kind: ChangeKind::Create,
            path: one.path,
            previous_path: None,
            size: snapshot.size,
            is_dir: snapshot.is_dir,
            diff: crate::diff::diff_of(Some(""@), snapshot.content),
        },
        now,
    );
}

/// A deleted path goes on by an event at most.
proof fn lemma_deleted_goes_on(scene: Scene, one: SightingView, now: u64)
    requires
        scene.app.next_id < u64::MAX,
    ensures
        has_gone_on(scene.app, scene.deleted(one, now).app, 1),
{
    let snapshot = scene.watch.forgotten_snapshot(one.path, one.found is Directory);
    let forgotten = Scene { watch: scene.watch.forgotten(one.path), ..scene };
    lemma_emitted_goes_on(
        scene.app,
        forgotten.watch.roots,
        crate::app::deletion(one.path, snapshot),
        now,
    );
}

/// A move goes on by an event at most.
proof fn lemma_rename_goes_on(
    scene: Scene,
    from: Parts,
    previous: Option<SnapshotView>,
    to: SightingView,
    now: u64,
)
    requires
        scene.app.next_id < u64::MAX,
    ensures
        has_gone_on(scene.app, scene.rename_finished(from, previous, to, now).app, 1),
{
    let watch = scene.watch.remapped(from, to.path);
    let snapshot = watch.taken_snapshot(to.path, to.found);
    lemma_emitted_goes_on(
        scene.app,
        watch.taken(to.path, to.found).roots,
        FileChange {
            kind: ChangeKind::Rename,
            path: to.path,
            previous_path: Some(crate::roots::relative(scene.watch.roots, from)),
            size: snapshot.size,
            is_dir: snapshot.is_dir,
            diff: crate::changes::diff_from(previous, snapshot),
        },
        now,
    );
}

/// The end of a move goes on by an event at most.
proof fn lemma_arrived_goes_on(scene: Scene, i: int, one: SightingView, now: u64)
    requires
        scene.app.next_id < u64::MAX,
    ensures
        has_gone_on(scene.app, scene.arrived(i, one, now).app, 1),
{
    let pending = scene.app.pending[i];
    let rest = Scene {
        app: AppView { pending: scene.app.pending.remove(i), ..scene.app },
        ..scene
    };
    lemma_rename_goes_on(
        rest,
        pending.path,
        if pending.had_baseline {
            Some(pending.snapshot)
        } else {
            None
        },
        one,
        now,
    );
}

/// Several paths go on by two events each at most.
proof fn lemma_each_goes_on(
    scene: Scene,
    kind: NotifyKind,
    sightings: Seq<SightingView>,
    now: u64,
    n: nat,
)
    requires
        scene.app.next_id + 2 * n <= u64::MAX,
    ensures
        has_gone_on(scene.app, scene.each(kind, sightings, now, n).app, 2 * n),
    decreases n,
{
    if n > 0 {
        lemma_each_goes_on(scene, kind, sightings, now, (n - 1) as nat);
        let earlier = scene.each(kind, sightings, now, (n - 1) as nat);
        lemma_path_goes_on(earlier, sightings[n - 1], now);
        lemma_deleted_goes_on(earlier, sightings[n - 1], now);
    }
}

/// Lost roots go on by an event each at most, and the observation is lost where
/// there is one.
proof fn lemma_roots_lost_go_on(scene: Scene, sightings: Seq<SightingView>, now: u64, n: nat)
    requires
        n <= sightings.len(),
        scene.app.next_id + n <= u64::MAX,
    ensures
        has_gone_on(scene.app, scene.roots_lost(sightings, now, n).app, n),
        (exists|i: int|
            0 <= i < n && scene.watch.roots.contains((#[trigger] sightings[i]).path))
            ==> scene.roots_lost(sightings, now, n).app.observer_level == IntegrityLevel::Lost,
        scene.roots_lost(sightings, now, n).watch == scene.watch,
    decreases n,
{
    if n > 0 {
        lemma_roots_lost_go_on(scene, sightings, now, (n - 1) as nat);
        let earlier = scene.roots_lost(sightings, now, (n - 1) as nat);
        lemma_observed_goes_on(
            earlier.app,
            crate::changes::removal_report(sightings[n - 1].path),
            now,
        );
    }
}

/// What the shown paths of a native event have come to goes on by two events for
/// each of them at most.
proof fn lemma_changed_goes_on(
    scene: Scene,
    kind: NotifyKind,
    sightings: Seq<SightingView>,
    tracker: Option<usize>,
    now: u64,
)
    requires
        scene.app.next_id + 2 * sightings.len() <= u64::MAX,
    ensures
        has_gone_on(
            scene.app,
            scene.changed(kind, sightings, tracker, now).app,
            2 * sightings.len(),
        ),
{
    if sightings.len() > 0 {
        let one = sightings[0];
        lemma_each_goes_on(scene, kind, sightings, now, sightings.len());
        lemma_path_goes_on(scene, one, now);
        if let Some(i) = crate::changes::matching_move(scene.app.pending, tracker) {
            lemma_arrived_goes_on(scene, i, one, now);
        }
        if sightings.len() >= 2 {
            lemma_rename_goes_on(
                Scene { watch: scene.watch.forgotten(one.path), ..scene },
                one.path,
                scene.watch.remembered(one.path),
                sightings[1],
                now,
            );
        }
    }
}

/// Whatever native event is taken in, the timeline stays chronological, and the
/// observation is trusted no more than before.
pub proof fn native_events_only_go_on(scene: Scene, event: NotifyView, now: u64)
    requires
        scene.app.next_id + 3 * event.sightings.len() + 1 <= u64::MAX,
    ensures
        has_gone_on(scene.app, scene.notified(event, now).app, 3 * event.sightings.len() + 1),
{
    let start = Scene { app: AppView { status: None, ..scene.app }, ..scene };
    assert(start.app.paused_events + start.app.events == scene.app.paused_events
        + scene.app.events);
    let roots = scene.watch.roots;
    lemma_observed_goes_on(start.app, crate::changes::rescan_report(roots, event), now);
    lemma_roots_lost_go_on(start, event.sightings, now, event.sightings.len());
    let next = if event.kind == NotifyKind::Remove {
        start.roots_lost(event.sightings, now, event.sightings.len())
    } else {
        start
    };
    let shown = crate::changes::shown_sightings(roots, event.sightings);
    lemma_shown_are_fewer(
        event.sightings,
        |one: SightingView| !crate::roots::is_hidden_below(roots, one.path),
    );
    lemma_changed_goes_on(next, event.kind, shown, event.tracker, now);
}

/// No more items are kept than there are.
proof fn lemma_shown_are_fewer(items: Seq<SightingView>, keep: spec_fn(SightingView) -> bool)
    ensures
        items.filter(keep).len() <= items.len(),
    decreases items.len(),
{
    reveal(Seq::filter);
    if items.len() > 0 {
        lemma_shown_are_fewer(items.drop_last(), keep);
    }
}

/// That a root was removed is never passed over: the observation is lost then.
pub proof fn a_removed_root_is_lost(scene: Scene, event: NotifyView, i: int, now: u64)
    requires
        scene.app.next_id + 3 * event.sightings.len() + 1 <= u64::MAX,
        event.kind == NotifyKind::Remove,
        !event.rescan,
        0 <= i < event.sightings.len(),
        scene.watch.roots.contains(event.sightings[i].path),
    ensures
        scene.notified(event, now).app.observer_level == IntegrityLevel::Lost,
{
    let start = Scene { app: AppView { status: None, ..scene.app }, ..scene };
    let roots = scene.watch.roots;
    lemma_roots_lost_go_on(start, event.sightings, now, event.sightings.len());
    let next = start.roots_lost(event.sightings, now, event.sightings.len());
    lemma_shown_are_fewer(
        event.sightings,
        |one: SightingView| !crate::roots::is_hidden_below(roots, one.path),
    );
    let shown = crate::changes::shown_sightings(roots, event.sightings);
    lemma_changed_goes_on(next, event.kind, shown, event.tracker, now);
}

/// That events may have been lost is never passed over: the observation is
/// uncertain then, or worse.
pub proof fn lost_events_are_told(scene: Scene, event: NotifyView, now: u64)
    requires
        event.rescan,
        scene.app.next_id < u64::MAX,
    ensures
        scene.notified(event, now).app.observer_level.rank() >= IntegrityLevel::Uncertain.rank(),
        scene.notified(event, now).app.next_id == scene.app.next_id + 1,
{
}

/// A path that was moved away waits no longer than its time: then it is a
/// deletion. The others go on waiting, in order.
pub proof fn moves_do_not_wait_forever(app: AppView, roots: Seq<Parts>, now: u64)
    requires
        app.next_id + app.pending.len() <= u64::MAX,
    ensures
        app.flushed(roots, now).pending == app.pending.filter(
            |one: PendingView| !crate::app::is_overdue(one, now),
        ),
        has_gone_on(app, app.flushed(roots, now), app.pending.len()),
{
    lemma_given_up(app, roots, app.pending, now, app.pending.len());
    assert(app.pending.take(app.pending.len() as int) =~= app.pending);
    let given_up = app.given_up(roots, app.pending, now, app.pending.len());
    let next = app.flushed(roots, now);
    assert(next.paused_events + next.events == given_up.paused_events + given_up.events);
}

/// Those that have waited too long no longer do.
proof fn lemma_given_up(
    app: AppView,
    roots: Seq<Parts>,
    pending: Seq<PendingView>,
    now: u64,
    n: nat,
)
    requires
        n <= pending.len(),
        app.next_id + n <= u64::MAX,
    ensures
        app.given_up(roots, pending, now, n).pending == pending.take(n as int).filter(
            |one: PendingView| !crate::app::is_overdue(one, now),
        ),
        has_gone_on(app, app.given_up(roots, pending, now, n), n),
    decreases n,
{
    let keep = |one: PendingView| !crate::app::is_overdue(one, now);
    reveal(Seq::filter);
    if n == 0 {
        let next = app.given_up(roots, pending, now, n);
        assert(next.paused_events + next.events == app.paused_events + app.events);
        assert(pending.take(0).filter(keep) =~= Seq::<PendingView>::empty());
    } else {
        lemma_given_up(app, roots, pending, now, (n - 1) as nat);
        let earlier = app.given_up(roots, pending, now, (n - 1) as nat);
        let one = pending[n - 1];
        assert(pending.take(n as int).drop_last() =~= pending.take(n - 1));
        assert(pending.take(n as int).last() == one);
        lemma_emitted_goes_on(
            earlier,
            roots,
            crate::app::deletion(one.path, one.snapshot),
            now,
        );
        let waiting = AppView { pending: earlier.pending.push(one), ..earlier };
        assert(waiting.paused_events + waiting.events == earlier.paused_events
            + earlier.events);
    }
}

/// What is remembered of the paths below a folder is kept when the folder is
/// moved.
pub proof fn what_lies_below_moves_along(watch: WatchView, from: Parts, to: Parts, path: Parts)
    requires
        crate::watcher::goes_along(path, from),
        watch.snapshots.contains_key(path),
    ensures
        watch.remapped(from, to).snapshots.contains_key(
            crate::watcher::new_place(path, from, to),
        ),
        watch.remapped(from, to).snapshots[crate::watcher::new_place(path, from, to)]
            == watch.snapshots[path],
{
    let place = crate::watcher::new_place(path, from, to);
    let rest = crate::path::stripped(path, from);
    assert(place.subrange(0, to.len() as int) =~= to);
    assert(crate::path::stripped(place, to) =~= rest);
    assert(crate::watcher::old_place(place, from, to) =~= path);
    if place == to {
        assert(rest.len() == 0);
        assert(path =~= from);
    }
}

/// A root keeps its number, and so its colour, when other roots join.
pub proof fn roots_keep_their_colors(watch: WatchView, root: Parts, other: Parts)
    requires
        watch.roots.contains(root),
    ensures
        watch.joined(other).index_of_root(root) == watch.index_of_root(root),
        watch.roots[watch.index_of_root(root)] == root,
{
    let i = choose|i: int| 0 <= i < watch.roots.len() && watch.roots[i] == root;
    lemma_place_of_joined(watch.roots, root, other, i, 0);
}

/// Where a root is found does not depend on the roots behind it.
proof fn lemma_place_of_joined(roots: Seq<Parts>, root: Parts, other: Parts, i: int, from: int)
    requires
        0 <= from <= i < roots.len(),
        roots[i] == root,
    ensures
        crate::watcher::place_of(roots.push(other), root, from) == crate::watcher::place_of(
            roots,
            root,
            from,
        ),
        crate::watcher::place_of(roots, root, from) matches Some(k) && from <= k < roots.len()
            && roots[k] == root,
    decreases i - from,
{
    if roots[from] != root {
        lemma_place_of_joined(roots, root, other, i, from + 1);
    }
}

} // verus!
