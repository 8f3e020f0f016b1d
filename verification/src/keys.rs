//! What the keys do.

use crate::app::{App, AppView};
use crate::model::ChangeKind;
use crate::path::{FsPath, Parts};
use crate::text::{chars_of, string_of, Text};
use vstd::prelude::*;
use vstd::string::*;

verus! {

/// A key.
#[derive(Clone, Copy, Debug, PartialEq, Eq, Structural)]
pub enum Key {
    Char(char),
    Escape,
    Enter,
    Backspace,
    Up,
    Down,
    Home,
    End,
    Other,
}

/// A text without its last character.
pub open spec fn shortened(text: Text) -> Text {
    if text.len() > 0 {
        text.drop_last()
    } else {
        text
    }
}

/// What a key does while a search is written.
pub open spec fn searching(app: AppView, key: Key, control: bool) -> AppView {
    match key {
        Key::Escape | Key::Enter => AppView { search_mode: false, ..app },
        Key::Backspace => AppView { search: shortened(app.search), selected: 0, ..app },
        Key::Char(c) => if control {
            app
        } else {
            AppView { search: app.search.push(c), selected: 0, ..app }
        },
        _ => app,
    }
}

/// The timeline with the selection moved.
pub open spec fn selection_moved(app: AppView, delta: int) -> AppView {
    AppView {
        selected: crate::app::moved_index(
            app.selected as int,
            delta,
            app.shown().len() as int,
        ) as usize,
        ..app
    }
}

/// The timeline with a kind switched on or off.
pub open spec fn kind_toggled(app: AppView, index: int) -> AppView {
    AppView {
        enabled: app.enabled.update(index, !app.enabled[index]),
        selected: 0,
        ..app
    }
}

/// The timeline with the focus on another workspace.
pub open spec fn focus_moved(app: AppView, roots: Seq<Parts>, reverse: bool) -> AppView {
    AppView {
        workspace_filter: crate::app::next_workspace(roots, app.workspace_filter, reverse),
        selected: if roots.len() == 0 {
            app.selected
        } else {
            0
        },
        ..app
    }
}

/// What a character does while the timeline is looked at.
pub open spec fn typed(app: AppView, c: char, control: bool, roots: Seq<Parts>) -> AppView {
    if c == 'q' || (c == 'c' && control) {
        AppView { should_quit: true, ..app }
    } else if c == 'j' {
        selection_moved(app, 1)
    } else if c == 'k' {
        selection_moved(app, -1)
    } else if c == 'g' {
        AppView { selected: 0, ..app }
    } else if c == 'G' {
        last_selected(app)
    } else if c == '/' {
        AppView { search_mode: true, ..app }
    } else if c == ' ' {
        app.pause_toggled()
    } else if c == 'c' {
        app.cleared()
    } else if c == '1' {
        kind_toggled(app, 0)
    } else if c == '2' {
        kind_toggled(app, 1)
    } else if c == '3' {
        kind_toggled(app, 2)
    } else if c == '4' {
        kind_toggled(app, 3)
    } else if c == '5' {
        kind_toggled(app, 4)
    } else if c == '6' {
        kind_toggled(app, 5)
    } else if c == 'w' {
        focus_moved(app, roots, false)
    } else if c == 'W' {
        focus_moved(app, roots, true)
    } else if c == 't' {
        AppView { folders_open: !app.folders_open, ..app }
    } else {
        app
    }
}

/// The timeline with its oldest event selected.
pub open spec fn last_selected(app: AppView) -> AppView {
    AppView {
        selected: (if app.shown().len() > 0 {
            app.shown().len() - 1
        } else {
            0
        }) as usize,
        ..app
    }
}

/// What a key does.
pub open spec fn pressed(app: AppView, key: Key, control: bool, roots: Seq<Parts>) -> AppView {
    if app.search_mode {
        searching(app, key, control)
    } else {
        match key {
            Key::Char(c) => typed(app, c, control, roots),
            Key::Down => selection_moved(app, 1),
            Key::Up => selection_moved(app, -1),
            Key::Home => AppView { selected: 0, ..app },
            Key::End => last_selected(app),
            Key::Escape => if app.search.len() > 0 {
                AppView { search: Seq::empty(), selected: 0, ..app }
            } else {
                app
            },
            _ => app,
        }
    }
}

/// Takes in a key while a search is written.
fn handle_search_key(app: &mut App, key: Key, control: bool)
    requires
        old(app).wf(),
    ensures
        final(app).wf(),
        final(app)@ == searching(old(app)@, key, control),
{
    match key {
        Key::Escape | Key::Enter => {
            app.search_mode = false;
        },
        Key::Backspace => {
            let all = chars_of(app.search.as_str());
            let total: usize = all.len();
            if total > 0 {
                app.search = string_of(&all, 0, total - 1);
                assert(app.search@ =~= old(app)@.search.drop_last());
            }
            app.selected = 0;
        },
        Key::Char(c) => {
            if !control {
                app.search.push(c);
                app.selected = 0;
            }
        },
        _ => {},
    }
}

/// Selects the oldest event.
fn select_last(app: &mut App)
    requires
        old(app).wf(),
    ensures
        final(app).wf(),
        final(app)@ == last_selected(old(app)@),
{
    let visible = app.visible_indices();
    let total: usize = visible.len();
    assert(app@.shown().len() == total);
    app.selected = if total > 0 {
        total - 1
    } else {
        0
    };
}

/// Takes in a character while the timeline is looked at.
fn handle_char(app: &mut App, c: char, control: bool, roots: &Vec<FsPath>)
    requires
        old(app).wf(),
        old(app)@.selected + old(app)@.paused_events.len() <= usize::MAX,
    ensures
        final(app).wf(),
        final(app)@ == typed(old(app)@, c, control, crate::path::paths_of(roots@)),
{
    if c == 'q' || (c == 'c' && control) {
        app.should_quit = true;
    } else if c == 'j' {
        app.move_selection(1);
    } else if c == 'k' {
        app.move_selection(-1);
    } else if c == 'g' {
        app.selected = 0;
    } else if c == 'G' {
        select_last(app);
    } else if c == '/' {
        app.search_mode = true;
    } else if c == ' ' {
        app.toggle_pause();
    } else if c == 'c' {
        app.clear();
    } else if c == '1' {
        app.toggle_kind(0);
    } else if c == '2' {
        app.toggle_kind(1);
    } else if c == '3' {
        app.toggle_kind(2);
    } else if c == '4' {
        app.toggle_kind(3);
    } else if c == '5' {
        app.toggle_kind(4);
    } else if c == '6' {
        app.toggle_kind(5);
    } else if c == 'w' {
        app.cycle_workspace(roots, false);
    } else if c == 'W' {
        app.cycle_workspace(roots, true);
    } else if c == 't' {
        app.folders_open = !app.folders_open;
    }
}

/// Takes in a key.
pub fn handle_key(app: &mut App, key: Key, control: bool, roots: &Vec<FsPath>)
    requires
        old(app).wf(),
        old(app)@.selected + old(app)@.paused_events.len() <= usize::MAX,
    ensures
        final(app).wf(),
        final(app)@ == pressed(old(app)@, key, control, crate::path::paths_of(roots@)),
{
    if app.search_mode {
        handle_search_key(app, key, control);
        return;
    }
    match key {
        Key::Char(c) => {
            handle_char(app, c, control, roots);
        },
        Key::Down => {
            app.move_selection(1);
        },
        Key::Up => {
            app.move_selection(-1);
        },
        Key::Home => {
            app.selected = 0;
        },
        Key::End => {
            select_last(app);
        },
        Key::Escape => {
            if app.search.as_str().unicode_len() > 0 {
                app.search = String::new();
                assert(app.search@ =~= Seq::<char>::empty());
                app.selected = 0;
            }
        },
        _ => {},
    }
}

/// While a search is written, no key leaves the program, clears the timeline or
/// pauses it: keys go into the search, or end it.
pub proof fn a_search_takes_the_keys(app: AppView, key: Key, control: bool, roots: Seq<Parts>)
    requires
        app.search_mode,
    ensures
        pressed(app, key, control, roots).events == app.events,
        pressed(app, key, control, roots).paused_events == app.paused_events,
        pressed(app, key, control, roots).paused == app.paused,
        pressed(app, key, control, roots).should_quit == app.should_quit,
        pressed(app, key, control, roots).enabled == app.enabled,
        pressed(app, key, control, roots).workspace_filter == app.workspace_filter,
        !pressed(app, key, control, roots).search_mode ==> key == Key::Escape || key == Key::Enter,
{
}

/// Outside a search, `q` and control with `c` leave the program, and no other key
/// does. While a search is written, no key does.
pub proof fn only_two_keys_quit(app: AppView, key: Key, control: bool, roots: Seq<Parts>)
    ensures
        pressed(app, key, control, roots).should_quit == (app.should_quit || (!app.search_mode && (
        key == Key::Char('q') || (key == Key::Char('c') && control)))),
        !app.search_mode && key == Key::Char('q') ==> pressed(app, key, control, roots) == (
        AppView { should_quit: true, ..app }),
{
    lemma_toggling_keeps(app);
}

/// What pausing and going on leave as it was.
proof fn lemma_toggling_keeps(app: AppView)
    ensures
        app.pause_toggled().should_quit == app.should_quit,
        app.pause_toggled().search == app.search,
        app.pause_toggled().search_mode == app.search_mode,
        app.pause_toggled().enabled == app.enabled,
        app.pause_toggled().workspace_filter == app.workspace_filter,
        app.pause_toggled().folders_open == app.folders_open,
        app.pause_toggled().next_id == app.next_id,
        app.pause_toggled().pending == app.pending,
        app.pause_toggled().recent == app.recent,
        app.pause_toggled().max_events == app.max_events,
        app.pause_toggled().paused == !app.paused,
        app.pause_toggled().status == app.status,
        app.pause_toggled().catching_up == app.catching_up,
        app.pause_toggled().observer_level == app.observer_level,
{
    lemma_resuming_keeps(AppView { paused: !app.paused, ..app });
}

/// What the events that have waited leave as it was.
proof fn lemma_resuming_keeps(app: AppView)
    ensures
        app.resumed() == (AppView {
            events: app.resumed().events,
            paused_events: app.resumed().paused_events,
            selected: app.resumed().selected,
            ..app
        }),
    decreases app.paused_events.len(),
{
    if app.paused_events.len() > 0 {
        lemma_resuming_keeps(
            (AppView { paused_events: app.paused_events.drop_last(), ..app }).pushed(
                app.paused_events.last(),
            ),
        );
    }
}

/// Outside a search, `j` and the arrow down go to the next older event that is
/// shown, `k` and the arrow up to the next newer one; `g` and `Home` go to the
/// newest, `G` and `End` to the oldest. None of them goes past an end, and none does
/// anything else.
pub proof fn keys_move_the_selection(app: AppView, control: bool, roots: Seq<Parts>)
    requires
        !app.search_mode,
        app.shown().len() <= usize::MAX,
    ensures
        forall|key: Key|
            key == Key::Char('j') || key == Key::Down ==> (#[trigger] pressed(
                app,
                key,
                control,
                roots,
            )) == (AppView {
                selected: (if app.selected + 1 < app.shown().len() {
                    app.selected + 1
                } else if app.shown().len() > 0 {
                    app.shown().len() - 1
                } else {
                    0
                }) as usize,
                ..app
            }),
        forall|key: Key|
            key == Key::Char('k') || key == Key::Up ==> (#[trigger] pressed(
                app,
                key,
                control,
                roots,
            )) == (AppView {
                selected: (if app.shown().len() == 0 || app.selected == 0 {
                    0
                } else if app.selected - 1 < app.shown().len() {
                    app.selected - 1
                } else {
                    app.shown().len() - 1
                }) as usize,
                ..app
            }),
        forall|key: Key|
            key == Key::Char('g') || key == Key::Home ==> (#[trigger] pressed(
                app,
                key,
                control,
                roots,
            )) == (AppView { selected: 0, ..app }),
        forall|key: Key|
            key == Key::Char('G') || key == Key::End ==> (#[trigger] pressed(
                app,
                key,
                control,
                roots,
            )) == (AppView {
                selected: (if app.shown().len() > 0 {
                    app.shown().len() - 1
                } else {
                    0
                }) as usize,
                ..app
            }),
{
}

/// A search begins with a slash. Every character goes to its end, and a backspace
/// takes the last one off; both go back to the newest event. `Enter` and `Escape`
/// end the writing and keep the text; another `Escape` gives it up.
pub proof fn searches_are_written_and_given_up(
    app: AppView,
    c: char,
    control: bool,
    roots: Seq<Parts>,
)
    ensures
        !app.search_mode ==> pressed(app, Key::Char('/'), control, roots) == (AppView {
            search_mode: true,
            ..app
        }),
        app.search_mode && !control ==> pressed(app, Key::Char(c), control, roots) == (AppView {
            search: app.search.push(c),
            selected: 0,
            ..app
        }),
        app.search_mode && control ==> pressed(app, Key::Char(c), control, roots) == app,
        app.search_mode && !control ==> pressed(
            pressed(app, Key::Char(c), control, roots),
            Key::Backspace,
            control,
            roots,
        ) == (AppView { selected: 0, ..app }),
        app.search_mode && app.search.len() == 0 ==> pressed(
            app,
            Key::Backspace,
            control,
            roots,
        ) == (AppView { selected: 0, ..app }),
        app.search_mode ==> pressed(app, Key::Enter, control, roots) == (AppView {
            search_mode: false,
            ..app
        }),
        app.search_mode ==> pressed(app, Key::Escape, control, roots) == (AppView {
            search_mode: false,
            ..app
        }),
        !app.search_mode && app.search.len() > 0 ==> pressed(app, Key::Escape, control, roots) == (
        AppView { search: Seq::empty(), selected: 0, ..app }),
        !app.search_mode && app.search.len() == 0 ==> pressed(app, Key::Escape, control, roots)
            == app,
{
    if app.search_mode && !control {
        assert(app.search.push(c).drop_last() =~= app.search);
    }
}

/// The kind that a number key switches on and off.
pub open spec fn kind_of_key(c: char) -> Option<ChangeKind> {
    match c {
        '1' => Some(ChangeKind::Modify),
        '2' => Some(ChangeKind::Create),
        '3' => Some(ChangeKind::Rename),
        '4' => Some(ChangeKind::Delete),
        '5' => Some(ChangeKind::Git),
        '6' => Some(ChangeKind::Work),
        _ => None,
    }
}

/// Outside a search, each of the keys one to six switches a kind of its own on or
/// off, leaves every other kind as it was, and goes back to the newest event.
/// Pressing it again switches the kind back. No key switches off the reports on the
/// observation.
pub proof fn number_keys_switch_kinds(
    app: AppView,
    c: char,
    kind: ChangeKind,
    control: bool,
    roots: Seq<Parts>,
)
    requires
        !app.search_mode,
        app.enabled.len() == 7,
    ensures
        kind_of_key(c) == Some(kind) ==> {
            let next = pressed(app, Key::Char(c), control, roots);
            &&& next.enabled[kind.place()] == !app.enabled[kind.place()]
            &&& next.selected == 0
            &&& next == (AppView { enabled: next.enabled, selected: 0, ..app })
            &&& pressed(next, Key::Char(c), control, roots).enabled == app.enabled
        },
        kind_of_key(c) != Some(kind) ==> pressed(
            app,
            Key::Char(c),
            control,
            roots,
        ).enabled[kind.place()] == app.enabled[kind.place()],
        pressed(app, Key::Char(c), control, roots).enabled.len() == 7,
{
    lemma_toggling_keeps(app);
    let next = pressed(app, Key::Char(c), control, roots);
    if kind_of_key(c) == Some(kind) {
        assert(pressed(next, Key::Char(c), control, roots).enabled =~= app.enabled);
    }
}

/// Outside a search, `w` goes from all workspaces to the first root, from each root
/// to the next and from the last back to all; `W` goes the other way. Both go back to
/// the newest event, and change nothing else. A focus on what is no root any more is
/// given up.
pub proof fn focus_keys_go_round(app: AppView, i: int, control: bool, roots: Seq<Parts>)
    requires
        !app.search_mode,
        roots.no_duplicates(),
        0 <= i < roots.len(),
    ensures
        app.workspace_filter is None ==> pressed(
            app,
            Key::Char('w'),
            control,
            roots,
        ).workspace_filter == Some(roots[0]),
        app.workspace_filter is None ==> pressed(
            app,
            Key::Char('W'),
            control,
            roots,
        ).workspace_filter == Some(roots.last()),
        app.workspace_filter == Some(roots[i]) ==> pressed(
            app,
            Key::Char('w'),
            control,
            roots,
        ).workspace_filter == (if i + 1 < roots.len() {
            Some(roots[i + 1])
        } else {
            None
        }),
        app.workspace_filter == Some(roots[i]) ==> pressed(
            app,
            Key::Char('W'),
            control,
            roots,
        ).workspace_filter == (if i > 0 {
            Some(roots[i - 1])
        } else {
            None
        }),
        app.workspace_filter is Some && !roots.contains(app.workspace_filter->0) ==> pressed(
            app,
            Key::Char('w'),
            control,
            roots,
        ).workspace_filter is None && pressed(
            app,
            Key::Char('W'),
            control,
            roots,
        ).workspace_filter is None,
        forall|key: Key|
            key == Key::Char('w') || key == Key::Char('W') ==> (#[trigger] pressed(
                app,
                key,
                control,
                roots,
            )) == (AppView {
                workspace_filter: pressed(app, key, control, roots).workspace_filter,
                selected: 0,
                ..app
            }),
{
    crate::laws::lemma_place_of(roots, i, 0);
    if app.workspace_filter is Some && !roots.contains(app.workspace_filter->0) {
        lemma_no_place(roots, app.workspace_filter->0, 0);
    }
}

/// What is not in a list has no place in it.
proof fn lemma_no_place(roots: Seq<Parts>, root: Parts, from: int)
    requires
        !roots.contains(root),
        0 <= from,
    ensures
        crate::watcher::place_of(roots, root, from) is None,
    decreases roots.len() - from,
{
    if from < roots.len() {
        assert(roots[from] != root);
        lemma_no_place(roots, root, from + 1);
    }
}

/// Outside a search, `c` takes every event off the timeline, those that wait too, and
/// nothing else; `t` opens and closes the list of folders and does nothing else; and
/// the blank pauses the timeline, which keeps its events, or lets it go on.
pub proof fn keys_clear_fold_and_pause(app: AppView, roots: Seq<Parts>, control: bool)
    requires
        !app.search_mode,
    ensures
        pressed(app, Key::Char('c'), false, roots) == (AppView {
            events: Seq::empty(),
            paused_events: Seq::empty(),
            selected: 0,
            ..app
        }),
        pressed(app, Key::Char('t'), control, roots) == (AppView {
            folders_open: !app.folders_open,
            ..app
        }),
        !app.paused ==> pressed(app, Key::Char(' '), control, roots) == (AppView {
            paused: true,
            ..app
        }),
        app.paused ==> !pressed(app, Key::Char(' '), control, roots).paused,
        app.paused && app.events.len() <= app.max_events && app.paused_events.len()
            + app.events.len() <= app.max_events ==> pressed(
            app,
            Key::Char(' '),
            control,
            roots,
        ).events == app.paused_events + app.events,
        app.paused && app.events.len() <= app.max_events ==> pressed(
            app,
            Key::Char(' '),
            control,
            roots,
        ).paused_events.len() == 0,
{
    lemma_toggling_keeps(app);
    if app.paused && app.events.len() <= app.max_events {
        crate::laws::lemma_resumed_lists(AppView { paused: false, ..app });
    }
}

/// Outside a search, what is no key of the timeline does nothing.
pub proof fn other_keys_do_nothing(app: AppView, key: Key, control: bool, roots: Seq<Parts>)
    requires
        !app.search_mode,
        match key {
            Key::Char(c) => !seq![
                'q', 'j', 'k', 'g', 'G', '/', ' ', 'c', '1', '2', '3', '4', '5', '6', 'w', 'W', 't',
            ].contains(c),
            Key::Enter | Key::Backspace | Key::Other => true,
            _ => false,
        },
    ensures
        pressed(app, key, control, roots) == app,
{
    if let Key::Char(c) = key {
        let all = seq![
            'q', 'j', 'k', 'g', 'G', '/', ' ', 'c', '1', '2', '3', '4', '5', '6', 'w', 'W', 't',
        ];
        assert forall|i: int| 0 <= i < all.len() implies #[trigger] all[i] != c by {
            assert(all.contains(all[i]));
        }
        assert(all[0] == 'q' && all[1] == 'j' && all[2] == 'k' && all[3] == 'g' && all[4] == 'G');
        assert(all[5] == '/' && all[6] == ' ' && all[7] == 'c' && all[8] == '1' && all[9] == '2');
        assert(all[10] == '3' && all[11] == '4' && all[12] == '5' && all[13] == '6');
        assert(all[14] == 'w' && all[15] == 'W' && all[16] == 't');
    }
}

} // verus!
