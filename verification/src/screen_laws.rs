//! What the screen shows.

use crate::app::AppView;
use crate::model::{ChangeKind, DiffKind, DiffLineView, EventView, IntegrityLevel, TargetKind};
use crate::path::{PartView, Parts};
use crate::style::{Color, SpanView, Style};
use crate::text::Text;
use crate::ui::{DetailView, FooterView};
use crate::watcher::WatchView;
use vstd::prelude::*;

verus! {

/// The sign in front of a line of a diff.
pub open spec fn sign_of(kind: DiffKind) -> Text {
    match kind {
        DiffKind::Add => "+ "@,
        DiffKind::Remove => "- "@,
        DiffKind::Equal => "  "@,
    }
}

/// The number of a line of a diff: a removed line bears the one that it had, any other
/// the one that it has.
pub open spec fn number_of(line: DiffLineView) -> nat {
    if line.kind == DiffKind::Remove && line.old_number is Some {
        line.old_number->0 as nat
    } else if line.kind != DiffKind::Remove && line.new_number is Some {
        line.new_number->0 as nat
    } else {
        0
    }
}

/// Lines of different kinds never bear the same sign.
pub proof fn signs_tell_lines_apart(a: DiffKind, b: DiffKind)
    ensures
        sign_of(a) == sign_of(b) ==> a == b,
{
    reveal_strlit("+ ");
    reveal_strlit("- ");
    reveal_strlit("  ");
    assert("+ "@[0] == '+' && "- "@[0] == '-' && "  "@[0] == ' ');
}

/// The preview of an event with a diff shows every line of it, in order: its number,
/// the sign of its kind, and its text, added lines in green and removed ones in red.
/// Above them stand the counts of added and removed lines.
pub proof fn the_preview_shows_the_diff(
    app: AppView,
    watch: WatchView,
    now: u64,
    event: EventView,
    i: int,
)
    requires
        app.selection() == Some(event),
        0 <= i < event.diff.len(),
    ensures
        crate::ui::detail_of(app, watch, now) matches DetailView::Event { title, color, lines } && ({
            let at = if event.previous_path is Some {
                7int
            } else {
                6int
            };
            let line = event.diff[i];
            let number = crate::text::decimal_text(number_of(line));
            &&& lines.len() == at + event.diff.len() + (if event.detail is Some {
                1int
            } else {
                0
            })
            &&& lines[at + i].len() == 3
            &&& lines[at + i][0].text == crate::text::blanks(4 - number.len()) + number + " "@
            &&& lines[at + i][1].text == sign_of(line.kind)
            &&& lines[at + i][2].text == line.text
            &&& line.kind == DiffKind::Add ==> lines[at + i][2].style.fg == Some(Color::Green)
            &&& line.kind == DiffKind::Remove ==> lines[at + i][2].style.fg == Some(Color::Red)
            &&& line.kind == DiffKind::Equal ==> lines[at + i][2].style.fg != Some(Color::Green)
                && lines[at + i][2].style.fg != Some(Color::Red)
            &&& lines[at - 2].len() == 4
            &&& lines[at - 2][1].text == " +"@ + crate::text::decimal_text(
                event.lines_added as nat,
            ) + " "@
            &&& lines[at - 2][3].text == " -"@ + crate::text::decimal_text(
                event.lines_removed as nat,
            ) + " "@
            &&& event.detail matches Some(detail) ==> lines.last().len() == 1
                && lines.last()[0].text == "… "@ + detail
        }),
{
    let head = crate::ui::preview_head(event, watch, now);
    let body = crate::ui::preview_diff(event);
    let at = if event.previous_path is Some {
        7int
    } else {
        6int
    };
    assert(head.len() == at - 2);
    let lines = crate::ui::preview_of(event, watch, now);
    assert(lines == head + body);
    assert(lines[at + i] == body[2 + i]);
    assert(body[2 + i] == crate::ui::diff_line_of(event.diff[i]));
    assert(lines[at - 2] == body[0]);
    let number = crate::text::decimal_text(number_of(event.diff[i]));
    assert(crate::text::padded_left(number, 4) =~= crate::text::blanks(4 - number.len()) + number);
    if event.detail is Some {
        assert(lines.last() == body.last());
    }
}

/// The preview of an event names its path, its workspace and its root; a move names
/// both of its paths.
pub proof fn the_preview_names_the_event(
    app: AppView,
    watch: WatchView,
    now: u64,
    event: EventView,
)
    requires
        app.selection() == Some(event),
    ensures
        crate::ui::detail_of(app, watch, now) matches DetailView::Event { title, color, lines } && ({
            &&& lines.len() >= 4
            &&& lines[1].len() == 1
            &&& lines[1][0].text == event.written(event.path)
            &&& lines[2][1].text == watch.label(event.root)
            &&& lines[2][3].text == crate::ui::compact_text(event.root)
            &&& title[2].text == "  "@ + kind_name(event.kind) + "  #"@
                + crate::text::decimal_text(event.id as nat) + " "@
            &&& lines[0][1].text == " "@ + kind_name(event.kind) + " "@
            &&& event.integrity_level matches Some(level) ==> lines[0][3].text == "  "@
                + level_name(level)
            &&& event.previous_path matches Some(previous) ==> lines[3].len() == 3
                && lines[3][0].text == event.written(previous) && lines[3][2].text
                == event.written(event.path)
        }),
{
    let head = crate::ui::preview_head(event, watch, now);
    let lines = crate::ui::preview_of(event, watch, now);
    assert(lines[0] == head[0]);
    assert(lines[1] == head[1]);
    assert(lines[2] == head[2]);
    assert(lines[3] == head[3]);
}

/// The preview of an event without a diff gives its detail, or says in general what an
/// event of its kind is; and how large the path is, unless it is empty.
pub proof fn the_preview_gives_the_detail(
    app: AppView,
    watch: WatchView,
    now: u64,
    event: EventView,
)
    requires
        app.selection() == Some(event),
        event.diff.len() == 0,
    ensures
        crate::ui::detail_of(app, watch, now) matches DetailView::Event { title, color, lines } && ({
            let at = if event.previous_path is Some {
                5int
            } else {
                4int
            };
            &&& lines.len() == at + (if event.size > 0 {
                2int
            } else {
                1
            })
            &&& lines[at][1].text == (match event.detail {
                Some(detail) => detail,
                None => match event.kind {
                    ChangeKind::Delete => "removed from the workspace"@,
                    ChangeKind::Rename => "moved without textual changes"@,
                    ChangeKind::Git => "repository state changed"@,
                    ChangeKind::Work => "work item changed"@,
                    ChangeKind::Integrity => "observation state changed"@,
                    ChangeKind::Create | ChangeKind::Modify => if event.target
                        == TargetKind::Directory {
                        "directory event"@
                    } else {
                        "metadata changed"@
                    },
                },
            })
            &&& event.size > 0 ==> lines[at + 1][0].text == crate::text::decimal_text(
                event.size as nat,
            ) + " bytes"@
        }),
{
    let head = crate::ui::preview_head(event, watch, now);
    let body = crate::ui::preview_plain(event);
    let at = if event.previous_path is Some {
        5int
    } else {
        4int
    };
    let lines = crate::ui::preview_of(event, watch, now);
    assert(head.len() == at);
    assert(lines[at] == body[0]);
    if event.size > 0 {
        assert(lines[at + 1] == body[1]);
    }
}

/// Without a selected event, the preview says that it waits.
pub proof fn the_preview_waits(app: AppView, watch: WatchView, now: u64)
    requires
        app.selection() is None,
    ensures
        crate::ui::detail_of(app, watch, now) matches DetailView::Idle { lines } && lines.len() == 4
            && lines[1][0].text == "Waiting for filesystem activity…"@,
{
}

/// What a kind of event is called.
pub open spec fn kind_name(kind: ChangeKind) -> Text {
    match kind {
        ChangeKind::Create => "CREATE"@,
        ChangeKind::Modify => "MODIFY"@,
        ChangeKind::Rename => "MOVE"@,
        ChangeKind::Delete => "DELETE"@,
        ChangeKind::Git => "GIT"@,
        ChangeKind::Work => "WORK"@,
        ChangeKind::Integrity => "INTEGRITY"@,
    }
}

/// What a level is called.
pub open spec fn level_name(level: IntegrityLevel) -> Text {
    match level {
        IntegrityLevel::Info => "INFO"@,
        IntegrityLevel::Degraded => "DEGRADED"@,
        IntegrityLevel::Uncertain => "UNCERTAIN"@,
        IntegrityLevel::Lost => "LOST"@,
    }
}

/// The colour of a kind of event.
pub open spec fn kind_ink(kind: ChangeKind) -> Color {
    match kind {
        ChangeKind::Create => Color::Green,
        ChangeKind::Modify => Color::Amber,
        ChangeKind::Rename => Color::Blue,
        ChangeKind::Delete => Color::Red,
        ChangeKind::Git => Color::Violet,
        ChangeKind::Work => Color::Teal,
        ChangeKind::Integrity => Color::Coral,
    }
}

/// The colour of a level.
pub open spec fn level_ink(level: IntegrityLevel) -> Color {
    match level {
        IntegrityLevel::Info => Color::Green,
        IntegrityLevel::Degraded => Color::Amber,
        IntegrityLevel::Uncertain => Color::Orange,
        IntegrityLevel::Lost => Color::Red,
    }
}

/// Events of different kinds have different names and colours; reports have the colour
/// of their level, and graver levels other colours than lesser ones.
pub proof fn events_bear_the_colour_of_their_kind(event: EventView, a: ChangeKind, b: ChangeKind)
    ensures
        crate::ui::color_of(event) == (match event.integrity_level {
            Some(level) => level_ink(level),
            None => kind_ink(event.kind),
        }),
        a.label_text() == kind_name(a),
        kind_ink(a) == kind_ink(b) ==> a == b,
        kind_name(a) == kind_name(b) ==> a == b,
{
    reveal_strlit("CREATE");
    reveal_strlit("MODIFY");
    reveal_strlit("MOVE");
    reveal_strlit("DELETE");
    reveal_strlit("GIT");
    reveal_strlit("WORK");
    reveal_strlit("INTEGRITY");
    assert(kind_name(ChangeKind::Create)[0] == 'C' && kind_name(ChangeKind::Modify)[0] == 'M');
    assert(kind_name(ChangeKind::Rename)[0] == 'M' && kind_name(ChangeKind::Delete)[0] == 'D');
    assert(kind_name(ChangeKind::Git)[0] == 'G' && kind_name(ChangeKind::Work)[0] == 'W');
    assert(kind_name(ChangeKind::Integrity)[0] == 'I');
    assert(kind_name(ChangeKind::Modify).len() == 6 && kind_name(ChangeKind::Rename).len() == 4);
}

/// How long ago something was, in seconds up to a minute, in minutes up to an hour, and
/// then in hours; less than three seconds ago is now.
pub proof fn ages_are_rounded_down(age: int)
    requires
        age >= 0,
    ensures
        age < 3_000_000_000 ==> crate::ui::age_text(age) == "now"@,
        3_000_000_000 <= age < 60_000_000_000 ==> crate::ui::age_text(age)
            == crate::text::decimal_text((age / 1_000_000_000) as nat) + "s"@,
        60_000_000_000 <= age < 3_600_000_000_000 ==> crate::ui::age_text(age)
            == crate::text::decimal_text((age / 60_000_000_000) as nat) + "m"@,
        age >= 3_600_000_000_000 ==> crate::ui::age_text(age) == crate::text::decimal_text(
            (age / 3_600_000_000_000) as nat,
        ) + "h"@,
{
    assert((age / 1_000_000_000) / 60 == age / 60_000_000_000);
    assert((age / 1_000_000_000) / 3600 == age / 3_600_000_000_000);
}

/// The number that some digits write.
pub open spec fn value_of(text: Text) -> nat
    decreases text.len(),
{
    if text.len() == 0 {
        0
    } else {
        (10 * value_of(text.drop_last()) + (text.last() as int - '0' as int)) as nat
    }
}

/// A number is written with its decimal digits, without a zero in front.
pub proof fn numbers_are_written_in_decimal(n: nat)
    ensures
        value_of(crate::text::decimal_text(n)) == n,
        crate::text::decimal_text(n).len() > 0,
        forall|i: int|
            0 <= i < crate::text::decimal_text(n).len() ==> '0' <= (
            #[trigger] crate::text::decimal_text(n)[i]) <= '9',
        n > 0 ==> crate::text::decimal_text(n)[0] != '0',
    decreases n,
{
    let text = crate::text::decimal_text(n);
    if n < 10 {
        assert(text =~= seq![crate::text::digit(n)]);
        assert(text.drop_last() =~= Seq::<char>::empty());
        assert(value_of(text.drop_last()) == 0);
        assert(text.last() as int == '0' as int + n);
    } else {
        numbers_are_written_in_decimal(n / 10);
        let front = crate::text::decimal_text(n / 10);
        assert(text.drop_last() =~= front);
        assert(text.last() as int == '0' as int + n % 10);
        assert(text[0] == front[0]);
    }
}

/// Whether an event is so young that the screen marks it: less than three seconds.
pub open spec fn is_young(event: EventView, now: u64) -> bool {
    now < event.occurred_at + 3_000_000_000
}

/// The row of an event marks the selection and what is new, names the kind and the
/// path, and tells its number, its context, its counts and its age. The name of its
/// workspace stands there where there are several. What is long is cut off in front.
pub proof fn rows_show_their_event(
    event: EventView,
    selected: bool,
    width: int,
    watch: WatchView,
    now: u64,
)
    ensures
        ({
            let item = crate::ui::item_of(event, selected, width, watch, now);
            let age = crate::ui::age_text(
                if now >= event.occurred_at {
                    now - event.occurred_at
                } else {
                    0
                },
            );
            let number = crate::text::decimal_text(event.id as nat);
            let marker = if selected {
                "▶ "@
            } else if is_young(event, now) {
                "● "@
            } else {
                "  "@
            };
            &&& item.first.len() == 5
            &&& item.first[0].text == marker
            &&& item.first[2].text == " "@ + kind_name(event.kind) + " "@
            &&& item.first[4].text == crate::ui::middle_truncated(
                event.written(event.path),
                room_in(
                    width,
                    kind_name(event.kind).len() + age.len() + 9 + (if watch.roots.len() > 1 {
                        watch.label(event.root).len() + 3
                    } else {
                        0
                    }),
                ),
            )
            &&& watch.roots.len() <= 1 ==> item.first[1].text.len() == 0
            &&& watch.roots.len() > 1 ==> item.first[1].text == " "@
                + crate::ui::middle_truncated(watch.label(event.root), 16) + " "@
            &&& item.second.len() == 5
            &&& item.second[0].text == "  #"@ + (number + crate::text::blanks(4 - number.len()))
                + " "@
            &&& item.second[1].text == crate::ui::middle_truncated(
                crate::ui::context_text(event),
                room_in(
                    width,
                    item.second[0].text.len() + item.second[2].text.len()
                        + item.second[3].text.len() + age.len() + 2,
                ),
            )
            &&& item.second[2].text == (if event.lines_added > 0 || event.lines_removed > 0 {
                " +"@ + crate::text::decimal_text(event.lines_added as nat) + " -"@
                    + crate::text::decimal_text(event.lines_removed as nat)
            } else {
                Seq::empty()
            })
            &&& item.second[3].text == (if is_young(event, now) {
                "  NEW"@
            } else {
                ""@
            })
            &&& item.second[4].text == "  "@ + age
            &&& item.background == (if selected {
                Color::SelectedPanel
            } else if is_young(event, now) {
                Color::FreshPanel
            } else {
                Color::Reset
            })
        }),
{
}

/// How much of a width is left beside what is written already, but at least eight.
pub open spec fn room_in(width: int, used: nat) -> int {
    if width - used > 8 {
        width - used
    } else {
        8
    }
}

/// Where an event happened: a move says from where to where, a file names the folder
/// that it lies in, and a folder and a file at the top name their root.
pub proof fn contexts_say_where(event: EventView)
    ensures
        event.previous_path matches Some(previous) ==> crate::ui::context_text(event)
            == event.written(previous) + " → "@ + event.written(event.path),
        event.previous_path is None && event.target == TargetKind::File && event.path.len() > 1
            && crate::path::is_name(event.path.last()) ==> crate::ui::context_text(event)
            == event.written(event.path.drop_last()),
        event.previous_path is None && event.target == TargetKind::File && event.path.len() == 1
            ==> crate::ui::context_text(event) == crate::ui::compact_text(event.root),
        event.previous_path is None && event.target == TargetKind::Directory
            ==> crate::ui::context_text(event) == "directory · "@ + crate::ui::compact_text(
            event.root,
        ),
        event.previous_path is None && (event.target == TargetKind::Repository || event.target
            == TargetKind::WorkItem) && event.detail is Some ==> crate::ui::context_text(event)
            == event.detail->0,
        event.previous_path is None && event.target == TargetKind::Observer && event.detail is Some
            && event.integrity_level is Some ==> crate::ui::context_text(event) == level_name(
            event.integrity_level->0,
        ) + " · "@ + event.detail->0,
{
}

/// A short path is written in full, a long one by its last two names.
pub proof fn long_paths_are_written_by_their_end(path: Parts)
    ensures
        path.len() <= 3 ==> crate::ui::compact_text(path) == crate::path::path_text(path),
        path.len() > 3 && path[path.len() - 2] is Normal && path.last() is Normal
            ==> crate::ui::compact_text(path) == "…/"@ + (path[path.len() - 2]->Normal_0 + "/"@
            + path.last()->Normal_0),
{
    if path.len() > 3 && path[path.len() - 2] is Normal && path.last() is Normal {
        let names = crate::roots::names_of(path).skip(path.len() - 2);
        reveal_with_fuel(crate::text::joined, 3);
        assert(names.len() == 2);
        assert(names[0] == path[path.len() - 2]->Normal_0);
        assert(names[1] == path.last()->Normal_0);
        assert(names.drop_last() =~= seq![names[0]]);
        assert(crate::text::joined(names, "/"@) =~= names[0] + "/"@ + names[1]);
    }
}

/// A text that is cut off keeps its end, behind a sign for what is missing.
pub proof fn cut_texts_keep_their_end(value: Text, max: int)
    requires
        max >= 2,
    ensures
        value.len() <= max ==> crate::ui::middle_truncated(value, max) == value,
        value.len() > max ==> crate::ui::middle_truncated(value, max) == "…/"@ + value.skip(
            value.len() - (max - 2),
        ),
{
}

/// The header tells the state of the observation: paused, and with how many events
/// waiting; catching up; the gravest level so far; or live.
pub proof fn the_header_tells_the_state(app: AppView)
    ensures
        app.paused ==> crate::ui::live_span(app).text == " PAUSED  +"@ + crate::text::decimal_text(
            app.paused_events.len(),
        ) + " queued "@,
        !app.paused && app.catching_up ==> crate::ui::live_span(app).text == " CATCHING UP "@,
        !app.paused && !app.catching_up && app.observer_level != IntegrityLevel::Info
            ==> crate::ui::live_span(app).text == " "@ + level_name(app.observer_level) + " "@,
        !app.paused && !app.catching_up && app.observer_level == IntegrityLevel::Info
            ==> crate::ui::live_span(app).text == " ● LIVE "@,
        crate::ui::live_span(app).style.fg == Some(
            if app.paused || app.catching_up {
                Color::Amber
            } else {
                level_ink(app.observer_level)
            },
        ),
{
}

/// The header counts the folders and the repositories.
pub proof fn the_header_counts(folders: nat, repositories: nat)
    ensures
        crate::ui::title_line(folders, repositories).len() == 5,
        crate::ui::title_line(folders, repositories)[1].text == " FLUX "@,
        crate::ui::title_line(folders, repositories)[4].text == crate::text::decimal_text(folders)
            + " folders  ·  "@ + crate::text::decimal_text(repositories) + " repos"@,
{
}

/// The list of folders shows the first five, each with its label, its colour and its
/// path, and says how many more there are.
pub proof fn the_folders_are_listed(watch: WatchView, i: int, open: bool)
    ensures
        crate::ui::folder_lines(watch).len() == (if watch.roots.len() < 5 {
            watch.roots.len()
        } else {
            5
        }),
        0 <= i < crate::ui::folder_lines(watch).len() ==> {
            let line = crate::ui::folder_lines(watch)[i];
            &&& line.len() == 3
            &&& line[0].text == " "@ + crate::ui::middle_truncated(
                watch.label(watch.roots[i]),
                16,
            ) + " "@
            &&& line[2].text == crate::path::path_text(watch.roots[i])
        },
        watch.roots.len() > 5 ==> crate::ui::folders_title_text(watch.roots.len())
            == " TRACKED FOLDERS  ·  +"@ + crate::text::decimal_text(
            (watch.roots.len() - 5) as nat,
        ) + " more  ·  t hide "@,
        watch.roots.len() <= 5 ==> crate::ui::folders_title_text(watch.roots.len())
            == " TRACKED FOLDERS  ·  t hide "@,
        crate::ui::folders_rows(open, watch.roots.len() as int) == (if open {
            crate::ui::folder_lines(watch).len() + 2
        } else {
            0
        }),
{
}

/// The line of filters counts the events, names the workspace in focus, and lists every
/// kind with its key, its sign, and its name on a wide screen; what is switched off is
/// dimmed. A search stands at its end.
pub proof fn the_filters_are_listed(app: AppView, watch: WatchView, wide: bool, kind: ChangeKind)
    requires
        app.enabled.len() == 7,
    ensures
        ({
            let line = crate::ui::filter_line_of(app, watch, wide);
            let i = match kind {
                ChangeKind::Modify => 0int,
                ChangeKind::Create => 1,
                ChangeKind::Rename => 2,
                ChangeKind::Delete => 3,
                ChangeKind::Git => 4,
                ChangeKind::Work => 5,
                ChangeKind::Integrity => 6,
            };
            let sign = match kind {
                ChangeKind::Create => "+"@,
                ChangeKind::Modify => "~"@,
                ChangeKind::Rename => ">"@,
                ChangeKind::Delete => "-"@,
                ChangeKind::Git => "◆"@,
                ChangeKind::Work => "●"@,
                ChangeKind::Integrity => "!"@,
            };
            let key = crate::text::decimal_text((i + 1) as nat);
            &&& line.len() == 10 + (if app.search.len() > 0 {
                1int
            } else {
                0
            })
            &&& line[0].text == " "@ + crate::text::decimal_text(app.events.len()) + " events  "@
            &&& line[1].text == " w:"@ + (match app.workspace_filter {
                Some(root) => watch.label(root),
                None => "ALL"@,
            }) + " "@
            &&& line[3 + i].text == (if wide {
                " "@ + key + ":"@ + sign + " "@ + kind_name(kind) + " "@
            } else {
                " "@ + key + sign + " "@
            })
            &&& line[3 + i].style == crate::ui::filter_style(kind, app.enabled[i])
            &&& crate::ui::filter_style(kind, true) != crate::ui::filter_style(kind, false)
            &&& app.search.len() > 0 ==> line[10].text == "  /"@ + app.search + " "@
        }),
{
    crate::model::kinds_are_listed_once(kind);
    let line = crate::ui::filter_line_of(app, watch, wide);
    let head = crate::ui::filter_head(app, watch);
    let spans = crate::ui::filter_spans(app.enabled, wide);
    assert(head.len() == 3 && spans.len() == 7);
    assert(line[3 + kind.place()] == spans[kind.place()]);
}

/// The timeline shows as many rows as there is room for, two lines each, from an event
/// on that keeps the selected one in sight, in the order of the timeline; and says which
/// of how many events is selected.
pub proof fn the_timeline_shows_a_window(
    app: AppView,
    watch: WatchView,
    width: u16,
    height: u16,
    now: u64,
)
    requires
        app.selected < app.shown().len(),
        width >= 2,
        height >= 4,
    ensures
        ({
            let pane = crate::ui::timeline_of(app, watch, width, height, now);
            let rows = (height - 2) / 2;
            &&& pane.items.len() <= rows
            &&& pane.items.len() == rows || pane.items.len() == app.shown().len()
            &&& app.selected < rows ==> forall|i: int|
                0 <= i < pane.items.len() ==> #[trigger] pane.items[i] == crate::ui::item_of(
                    app.events[app.shown()[i]],
                    i == app.selected,
                    width - 2,
                    watch,
                    now,
                )
            &&& app.selected >= rows ==> pane.items.len() == rows && forall|i: int|
                0 <= i < pane.items.len() ==> #[trigger] pane.items[i] == crate::ui::item_of(
                    app.events[app.shown()[app.selected - (rows - 1) + i]],
                    i == rows - 1,
                    width - 2,
                    watch,
                    now,
                )
            &&& pane.title == " TIMELINE  "@ + crate::text::decimal_text(
                (app.selected + 1) as nat,
            ) + "/"@ + crate::text::decimal_text(app.shown().len()) + " "@
        }),
{
}

/// The footer explains the keys, or takes a search; on a wide screen the last message
/// stands beside the keys.
pub proof fn the_footer_explains_or_takes(app: AppView, wide: bool)
    ensures
        ({
            let footer = crate::ui::footer_of(app, wide);
            &&& app.search_mode ==> footer.status is None && footer.main.len() == 4
                && footer.main[0].text == " / "@ && footer.main[1].text == app.search
            &&& !app.search_mode && wide ==> footer.status is Some && footer.status->0.text == (
            match app.status {
                Some(status) => status,
                None => "no notifications · local only"@,
            })
            &&& !app.search_mode && !wide ==> footer.status is None
            &&& !app.search_mode ==> footer.main[0].text == " "@ + "j/k"@ + " "@
                && footer.main[1].text == " move  "@ && footer.main[2].text == " "@ + "/"@ + " "@
                && footer.main.last().text == " quit"@ && footer.main[footer.main.len()
                - 2].text == " "@ + "q"@ + " "@
        }),
{
}

/// Whether a piece of a line is written in one colour on another, bold or not.
pub open spec fn looks(span: SpanView, fg: Color, bg: Option<Color>, bold: bool) -> bool {
    span.style == (Style { fg: Some(fg), bg, bold, dim: false, underlined: false })
}

/// The row of an event bears the colour of the event: its mark, its kind and, where it
/// is selected, its number. The path is brighter where the event is selected.
pub proof fn rows_bear_the_colour_of_their_event(
    event: EventView,
    selected: bool,
    width: int,
    watch: WatchView,
    now: u64,
)
    ensures
        ({
            let item = crate::ui::item_of(event, selected, width, watch, now);
            let colour = match event.integrity_level {
                Some(level) => level_ink(level),
                None => kind_ink(event.kind),
            };
            &&& looks(item.first[0], colour, None, true)
            &&& looks(item.first[2], Color::Black, Some(colour), true)
            &&& looks(
                item.first[4],
                if selected {
                    Color::White
                } else {
                    Color::Silver
                },
                None,
                true,
            )
            &&& looks(
                item.second[0],
                if selected {
                    colour
                } else {
                    Color::Dim
                },
                None,
                false,
            )
            &&& looks(
                item.second[1],
                if selected {
                    Color::Muted
                } else {
                    Color::Dim
                },
                None,
                false,
            )
            &&& looks(item.second[2], Color::Muted, None, false)
            &&& looks(item.second[3], colour, None, true)
            &&& looks(item.second[4], Color::Dim, None, false)
        }),
{
}

/// A column is as wide as the bytes of its text and two more, as far as a screen goes.
pub proof fn columns_fit_their_text(text: Text)
    ensures
        vstd::utf8::encode_utf8(text).len() <= 65533 ==> crate::ui::column_of(text)
            == vstd::utf8::encode_utf8(text).len() + 2,
        vstd::utf8::encode_utf8(text).len() > 65533 ==> crate::ui::column_of(text) == 65535,
{
}

/// Of what the colours are mixed: red, green and blue. Black, white and the colour of
/// the terminal are its own.
pub proof fn colours_are_mixed_of_red_green_and_blue()
    ensures
        Color::Reset.parts() is None,
        Color::Black.parts() is None,
        Color::White.parts() is None,
        Color::Green.parts() == Some((116u8, 214u8, 154u8)),
        Color::Amber.parts() == Some((226u8, 180u8, 104u8)),
        Color::Blue.parts() == Some((117u8, 164u8, 232u8)),
        Color::Red.parts() == Some((224u8, 116u8, 116u8)),
        Color::Violet.parts() == Some((196u8, 143u8, 255u8)),
        Color::Teal.parts() == Some((94u8, 205u8, 214u8)),
        Color::Coral.parts() == Some((255u8, 109u8, 109u8)),
        Color::Orange.parts() == Some((255u8, 145u8, 85u8)),
        Color::Silver.parts() == Some((190u8, 190u8, 195u8)),
        Color::Pale.parts() == Some((180u8, 180u8, 185u8)),
        Color::Ash.parts() == Some((155u8, 155u8, 160u8)),
        Color::Stone.parts() == Some((126u8, 126u8, 132u8)),
        Color::Muted.parts() == Some((112u8, 112u8, 120u8)),
        Color::Dim.parts() == Some((70u8, 70u8, 77u8)),
        Color::Slate.parts() == Some((35u8, 35u8, 40u8)),
        Color::Panel.parts() == Some((18u8, 18u8, 21u8)),
        Color::SelectedPanel.parts() == Some((27u8, 30u8, 31u8)),
        Color::FreshPanel.parts() == Some((20u8, 24u8, 22u8)),
        Color::Workspace(0).parts() == Some((104u8, 190u8, 255u8)),
        Color::Workspace(1).parts() == Some((220u8, 140u8, 255u8)),
        Color::Workspace(2).parts() == Some((105u8, 210u8, 190u8)),
        Color::Workspace(3).parts() == Some((245u8, 180u8, 100u8)),
        Color::Workspace(4).parts() == Some((245u8, 130u8, 155u8)),
        Color::Workspace(5).parts() == Some((170u8, 190u8, 110u8)),
        Color::Workspace(6).parts() == Some((135u8, 155u8, 245u8)),
        Color::Workspace(7).parts() == Some((190u8, 160u8, 120u8)),
{
}

/// Eight workspaces bear eight colours; from there on they come round again.
pub proof fn workspaces_are_told_apart_by_colour(i: usize, j: usize)
    ensures
        Color::Workspace(i).parts() == Color::Workspace(j).parts() <==> i % 8 == j % 8,
{
}

/// Whether a piece of a line names a key, in a box of its own.
pub open spec fn names_key(span: SpanView, key: Text) -> bool {
    span.text == " "@ + key + " "@ && looks(span, Color::Silver, Some(Color::Slate), false)
}

/// Whether a piece of a line says in passing what a key does.
pub open spec fn hints(span: SpanView, text: Text) -> bool {
    span.text == text && looks(span, Color::Dim, None, false)
}

/// The help names each key and says behind it what the key does; on a narrow screen in
/// fewer words, and without the key that clears. While a search is typed, its text
/// stands there in its place, and how it is accepted or given up.
pub proof fn the_help_says_what_keys_do(app: AppView)
    ensures
        !app.search_mode ==> {
            let help = crate::ui::footer_of(app, true).main;
            &&& help.len() == 16
            &&& names_key(help[0], "j/k"@) && hints(help[1], " move  "@)
            &&& names_key(help[2], "/"@) && hints(help[3], " search  "@)
            &&& names_key(help[4], "w"@) && hints(help[5], " workspace  "@)
            &&& names_key(help[6], "1-6"@) && hints(help[7], " filters  "@)
            &&& names_key(help[8], "t"@) && hints(help[9], " folders  "@)
            &&& names_key(help[10], "space"@) && hints(help[11], " pause  "@)
            &&& names_key(help[12], "c"@) && hints(help[13], " clear  "@)
            &&& names_key(help[14], "q"@) && hints(help[15], " quit"@)
        },
        !app.search_mode ==> {
            let help = crate::ui::footer_of(app, false).main;
            &&& help.len() == 14
            &&& names_key(help[0], "j/k"@) && hints(help[1], " move  "@)
            &&& names_key(help[2], "/"@) && hints(help[3], " find  "@)
            &&& names_key(help[4], "w"@) && hints(help[5], " root  "@)
            &&& names_key(help[6], "1-6"@) && hints(help[7], " types  "@)
            &&& names_key(help[8], "t"@) && hints(help[9], " folders  "@)
            &&& names_key(help[10], "spc"@) && hints(help[11], " pause  "@)
            &&& names_key(help[12], "q"@) && hints(help[13], " quit"@)
        },
        app.search_mode ==> {
            let line = crate::ui::footer_of(app, true).main;
            &&& looks(line[0], Color::Black, Some(Color::Amber), true)
            &&& looks(line[1], Color::White, None, false)
            &&& line[2].text == "█"@ && looks(line[2], Color::Amber, None, false)
            &&& hints(line[3], "  enter accept  esc cancel"@)
        },
{
}

/// The head of the preview bears the colour of the event, and of its workspace where the
/// workspace is named.
pub proof fn the_preview_bears_the_colour_of_its_event(
    app: AppView,
    watch: WatchView,
    now: u64,
    event: EventView,
)
    requires
        app.selection() == Some(event),
    ensures
        crate::ui::detail_of(app, watch, now) matches DetailView::Event { title, color, lines } && ({
            let colour = match event.integrity_level {
                Some(level) => level_ink(level),
                None => kind_ink(event.kind),
            };
            let workspace = Color::Workspace(watch.index_of_root(event.root) as usize);
            &&& color == colour
            &&& title[0].text == " SELECTED "@
            &&& looks(title[0], Color::Black, Some(colour), true)
            &&& looks(title[2], colour, None, true)
            &&& watch.roots.len() > 1 ==> looks(title[1], Color::Black, Some(workspace), true)
                && lines[0][0] == title[1]
            &&& looks(lines[0][1], Color::Black, Some(colour), true)
            &&& looks(lines[0][2], Color::Muted, None, false)
            &&& looks(lines[0][3], colour, None, true)
            &&& looks(lines[0][4], Color::Dim, None, false)
            &&& lines[1][0].style == (Style {
                fg: Some(Color::White),
                bg: None,
                bold: true,
                dim: false,
                underlined: true,
            })
            &&& lines[2][0].text == "WORKSPACE  "@ && looks(lines[2][0], workspace, None, true)
            &&& looks(lines[2][1], Color::White, None, true)
            &&& lines[2][2].text == "  ROOT  "@ && looks(lines[2][2], colour, None, true)
            &&& looks(lines[2][3], Color::Muted, None, false)
            &&& event.previous_path is Some ==> looks(lines[3][0], Color::Muted, None, false)
                && lines[3][1].text == "  →  "@ && looks(lines[3][1], colour, None, true)
                && looks(lines[3][2], colour, None, true)
        }),
{
    let head = crate::ui::preview_head(event, watch, now);
    let lines = crate::ui::preview_of(event, watch, now);
    assert(lines[0] == head[0]);
    assert(lines[1] == head[1]);
    assert(lines[2] == head[2]);
    assert(lines[3] == head[3]);
}

/// The body of the preview is coloured: the counts on green and on red, the numbers of
/// lines dim, and what there is to say of a diff in amber; a detail pale.
pub proof fn the_body_of_the_preview_is_coloured(event: EventView, i: int)
    requires
        0 <= i < event.diff.len(),
    ensures
        ({
            let body = crate::ui::preview_diff(event);
            let colour = match event.integrity_level {
                Some(level) => level_ink(level),
                None => kind_ink(event.kind),
            };
            &&& body[0][0].text == "DIFF  "@ && looks(body[0][0], colour, None, true)
            &&& looks(body[0][1], Color::Black, Some(Color::Green), true)
            &&& looks(body[0][3], Color::Black, Some(Color::Red), true)
            &&& looks(body[2 + i][0], Color::Dim, None, false)
            &&& looks(
                body[2 + i][1],
                match event.diff[i].kind {
                    DiffKind::Add => Color::Green,
                    DiffKind::Remove => Color::Red,
                    DiffKind::Equal => Color::Stone,
                },
                None,
                true,
            )
            &&& looks(
                body[2 + i][2],
                match event.diff[i].kind {
                    DiffKind::Add => Color::Green,
                    DiffKind::Remove => Color::Red,
                    DiffKind::Equal => Color::Stone,
                },
                None,
                false,
            )
            &&& event.detail is Some ==> looks(body.last()[0], Color::Amber, None, false)
            &&& looks(crate::ui::preview_plain(event)[0][0], colour, None, true)
            &&& crate::ui::preview_plain(event)[0][0].text == "DETAIL  "@
            &&& looks(crate::ui::preview_plain(event)[0][1], Color::Pale, None, false)
            &&& event.size > 0 ==> looks(
                crate::ui::preview_plain(event)[1][0],
                Color::Dim,
                None,
                false,
            )
        }),
{
    let body = crate::ui::preview_diff(event);
    assert(body[2 + i] == crate::ui::diff_line_of(event.diff[i]));
}

/// The header is coloured, and the folders and the focus bear the colours of their
/// workspaces; without a focus, blue.
pub proof fn the_header_is_coloured(
    app: AppView,
    watch: WatchView,
    folders: nat,
    repositories: nat,
    i: int,
    wide: bool,
)
    ensures
        ({
            let title = crate::ui::title_line(folders, repositories);
            &&& title[0].text == " ϟ "@ && looks(title[0], Color::Black, Some(Color::Green), true)
            &&& looks(title[1], Color::White, None, true)
            &&& title[2].text == "workspace activity"@ && looks(
                title[2],
                Color::Muted,
                None,
                false,
            )
            &&& looks(title[4], Color::Ash, None, false)
        }),
        crate::ui::live_span(app).style.bold && crate::ui::live_span(app).style.bg is None,
        0 <= i < crate::ui::folder_lines(watch).len() ==> looks(
            crate::ui::folder_lines(watch)[i][0],
            Color::Black,
            Some(Color::Workspace(i as usize)),
            true,
        ) && looks(crate::ui::folder_lines(watch)[i][2], Color::Muted, None, false),
        ({
            let line = crate::ui::filter_line_of(app, watch, wide);
            &&& looks(line[0], Color::White, None, true)
            &&& looks(
                line[1],
                Color::Black,
                Some(
                    match app.workspace_filter {
                        Some(root) => Color::Workspace(watch.index_of_root(root) as usize),
                        None => Color::Blue,
                    },
                ),
                true,
            )
            &&& app.search.len() > 0 ==> looks(line.last(), Color::Black, Some(Color::Amber), false)
        }),
{
    let line = crate::ui::filter_line_of(app, watch, wide);
    let head = crate::ui::filter_head(app, watch);
    assert(line[0] == head[0]);
    assert(line[1] == head[1]);
}

} // verus!
