//! What the screen shows of the timeline.

use crate::app::{App, AppView};
use crate::model::{
    ChangeEvent, ChangeKind, DiffKind, DiffLine, DiffLineView, EventView, IntegrityLevel, TargetKind,
};
use crate::path::{FsPath, Parts};
use crate::recovery::elapsed;
use crate::style::{bold, bold_chip, chip, ink, label, push_line, raw, span, Color, Line, Span, SpanView, Style};
use crate::text::{chars_of, decimal, join2, join3, join_all, pad_left, pad_right, string_of, Text};
use crate::watcher::{WatchState, WatchView};
use vstd::prelude::*;
use vstd::string::*;

verus! {

/// How long an event counts as new.
pub const FRESH_PERIOD: u64 = 3_000_000_000;

/// From which width on the screen is laid out in two columns.
pub const WIDE: u16 = 100;

/// The colour of a kind of event.
#[verifier::allow_in_spec]
pub fn kind_color(kind: ChangeKind) -> (color: Color)
    returns
        (match kind {
            ChangeKind::Create => Color::Green,
            ChangeKind::Modify => Color::Amber,
            ChangeKind::Rename => Color::Blue,
            ChangeKind::Delete => Color::Red,
            ChangeKind::Git => Color::Violet,
            ChangeKind::Work => Color::Teal,
            ChangeKind::Integrity => Color::Coral,
        }),
{
    match kind {
        ChangeKind::Create => Color::Green,
        ChangeKind::Modify => Color::Amber,
        ChangeKind::Rename => Color::Blue,
        ChangeKind::Delete => Color::Red,
        ChangeKind::Git => Color::Violet,
        ChangeKind::Work => Color::Teal,
        ChangeKind::Integrity => Color::Coral,
    }
}

/// The colour of a level of integrity.
#[verifier::allow_in_spec]
pub fn integrity_color(level: IntegrityLevel) -> (color: Color)
    returns
        (match level {
            IntegrityLevel::Info => Color::Green,
            IntegrityLevel::Degraded => Color::Amber,
            IntegrityLevel::Uncertain => Color::Orange,
            IntegrityLevel::Lost => Color::Red,
        }),
{
    match level {
        IntegrityLevel::Info => Color::Green,
        IntegrityLevel::Degraded => Color::Amber,
        IntegrityLevel::Uncertain => Color::Orange,
        IntegrityLevel::Lost => Color::Red,
    }
}

/// The colour of an event: that of its level, where it has one, or of its kind.
pub open spec fn color_of(event: EventView) -> Color {
    match event.integrity_level {
        Some(level) => integrity_color(level),
        None => kind_color(event.kind),
    }
}

/// Finds the colour of an event.
pub fn event_color(event: &ChangeEvent) -> (color: Color)
    ensures
        color == color_of(event@),
{
    match event.integrity_level {
        Some(level) => integrity_color(level),
        None => kind_color(event.kind),
    }
}

/// The colour of a workspace.
#[verifier::allow_in_spec]
pub fn workspace_color(index: usize) -> (color: Color)
    returns
        Color::Workspace(index),
{
    Color::Workspace(index)
}

/// How long ago something was, in words.
pub open spec fn age_text(age: int) -> Text {
    let seconds = age / 1_000_000_000;
    if seconds <= 2 {
        "now"@
    } else if seconds <= 59 {
        crate::text::decimal_text(seconds as nat) + "s"@
    } else if seconds <= 3599 {
        crate::text::decimal_text((seconds / 60) as nat) + "m"@
    } else {
        crate::text::decimal_text((seconds / 3600) as nat) + "h"@
    }
}

/// Tells how long ago something was.
pub fn format_age(age: u64) -> (out: String)
    ensures
        out@ == age_text(age as int),
{
    let seconds: u64 = age / 1_000_000_000;
    if seconds <= 2 {
        "now".to_owned()
    } else if seconds <= 59 {
        join2(decimal(seconds).as_str(), "s")
    } else if seconds <= 3599 {
        join2(decimal(seconds / 60).as_str(), "m")
    } else {
        join2(decimal(seconds / 3600).as_str(), "h")
    }
}

/// A text that is no longer than `max`: where it is, its end behind an ellipsis.
pub open spec fn middle_truncated(value: Text, max: int) -> Text {
    if value.len() <= max {
        value
    } else {
        let kept = if max >= 2 {
            max - 2
        } else {
            0
        };
        "…/"@ + value.skip(value.len() - kept)
    }
}

/// Cuts a text that is too long.
pub fn truncate_middle(value: &str, max: usize) -> (out: String)
    ensures
        out@ == middle_truncated(value@, max as int),
{
    let all = chars_of(value);
    let total: usize = all.len();
    if total <= max {
        return value.to_owned();
    }
    let kept: usize = if max >= 2 {
        max - 2
    } else {
        0
    };
    let tail = string_of(&all, total - kept, total);
    join2("…/", tail.as_str())
}

/// A text that was cut fits, and one that was not is as it was.
pub proof fn cut_texts_fit(value: Text, max: int)
    requires
        max >= 2,
    ensures
        middle_truncated(value, max).len() <= max,
        value.len() <= max ==> middle_truncated(value, max) == value,
        value.len() > max ==> middle_truncated(value, max).len() == max && middle_truncated(
            value,
            max,
        ).skip(2) == value.skip(value.len() - (max - 2)),
{
    reveal_strlit("…/");
    if value.len() > max {
        assert(middle_truncated(value, max).skip(2) =~= value.skip(value.len() - (max - 2)));
    }
}

/// A path in short: all of it, or an ellipsis and its last two names.
pub open spec fn compact_text(path: Parts) -> Text {
    if path.len() <= 3 {
        crate::path::path_text(path)
    } else {
        "…/"@ + crate::text::joined(
            crate::roots::names_of(path).skip(path.len() - 2),
            "/"@,
        )
    }
}

/// Writes a path in short.
pub fn compact_path(path: &FsPath) -> (out: String)
    ensures
        out@ == compact_text(path@),
{
    let total: usize = path.parts.len();
    if total <= 3 {
        return path.display();
    }
    let separator = path.separator();
    let mut names: Vec<String> = Vec::new();
    names.push(path.parts[total - 2].shown(separator));
    names.push(path.parts[total - 1].shown(separator));
    proof {
        assert(crate::text::texts(names@).skip(0) =~= crate::roots::names_of(path@).skip(
            path@.len() - 2,
        ));
    }
    join2("…/", join_all(&names, 0, "/").as_str())
}

/// The text between two blanks.
pub open spec fn boxed(text: Text) -> Text {
    " "@ + text + " "@
}

/// The label of a workspace.
pub open spec fn workspace_span_of(label: Text, index: usize) -> SpanView {
    crate::style::span_of(
        boxed(middle_truncated(label, 16)),
        bold_chip(Color::Black, workspace_color(index)),
    )
}

/// Makes the label of a workspace.
pub fn workspace_span(label: &str, index: usize) -> (out: Span)
    ensures
        out@ == workspace_span_of(label@, index),
{
    let text = truncate_middle(label, 16);
    span(
        join3(" ", text.as_str(), " "),
        bold_chip(Color::Black, workspace_color(index)),
    )
}

/// The badge of an event.
pub open spec fn badge_span_of(event: EventView) -> SpanView {
    crate::style::span_of(
        boxed(event.kind.label_text()),
        bold_chip(Color::Black, color_of(event)),
    )
}

/// Makes the badge of an event.
pub fn badge_span(event: &ChangeEvent) -> (out: Span)
    ensures
        out@ == badge_span_of(event@),
{
    span(
        join3(" ", event.kind.label(), " "),
        bold_chip(Color::Black, event_color(event)),
    )
}

/// The detail of an event, or its root in short.
pub open spec fn detail_or_root(event: EventView) -> Text {
    match event.detail {
        Some(detail) => detail,
        None => compact_text(event.root),
    }
}

/// Where an event happened, or what it was about.
pub open spec fn context_text(event: EventView) -> Text {
    match event.previous_path {
        Some(previous) => event.written(previous) + " → "@ + event.written(event.path),
        None => match event.target {
            TargetKind::Repository | TargetKind::WorkItem => detail_or_root(event),
            TargetKind::Observer => (match event.integrity_level {
                Some(level) => level.label_text(),
                None => "INFO"@,
            }) + " · "@ + detail_or_root(event),
            TargetKind::Directory => "directory · "@ + compact_text(event.root),
            TargetKind::File => match crate::path::parent_of(event.path) {
                Some(parent) => if parent.len() > 0 {
                    event.written(parent)
                } else {
                    compact_text(event.root)
                },
                None => compact_text(event.root),
            },
        },
    }
}

/// Finds the detail of an event, or writes its root in short.
fn detail_text(event: &ChangeEvent) -> (out: String)
    ensures
        out@ == detail_or_root(event@),
{
    match &event.detail {
        Some(detail) => detail.clone(),
        None => compact_path(&event.root),
    }
}

/// Tells where an event happened, or what it was about.
pub fn event_context(event: &ChangeEvent) -> (out: String)
    ensures
        out@ == context_text(event@),
{
    if let Some(previous) = &event.previous_path {
        return join3(
            event.write(previous).as_str(),
            " → ",
            event.write(&event.path).as_str(),
        );
    }
    match event.target {
        TargetKind::Repository | TargetKind::WorkItem => detail_text(event),
        TargetKind::Observer => {
            let severity = match event.integrity_level {
                Some(level) => level.label(),
                None => "INFO",
            };
            join3(severity, " · ", detail_text(event).as_str())
        },
        TargetKind::Directory => join2("directory · ", compact_path(&event.root).as_str()),
        TargetKind::File => {
            if let Some(parent) = event.path.parent() {
                if !parent.is_empty() {
                    return event.write(&parent);
                }
            }
            compact_path(&event.root)
        },
    }
}

/// How much of a width is left, but at least eight.
pub open spec fn room_left(width: int, used: int) -> int {
    if width - used > 8 {
        width - used
    } else {
        8
    }
}

/// What a width loses.
fn less(width: usize, used: usize) -> (left: usize)
    ensures
        left == (if width > used {
            width - used
        } else {
            0
        }),
{
    if width > used {
        width - used
    } else {
        0
    }
}

/// An event as the timeline shows it: two lines on a ground.
#[derive(Debug)]
pub struct TimelineItem {
    pub first: Line,
    pub second: Line,
    pub background: Color,
}

/// What the timeline shows of an event.
#[verifier::ext_equal]
pub struct ItemView {
    pub first: Seq<SpanView>,
    pub second: Seq<SpanView>,
    pub background: Color,
}

impl View for TimelineItem {
    type V = ItemView;

    open spec fn view(&self) -> ItemView {
        ItemView { first: self.first@, second: self.second@, background: self.background }
    }
}

/// The contents of a list of items.
pub open spec fn item_views(items: Seq<TimelineItem>) -> Seq<ItemView> {
    items.map_values(|item: TimelineItem| item@)
}

/// Whether an event is new.
pub open spec fn is_fresh(event: EventView, now: u64) -> bool {
    crate::recovery::elapsed_since(event.occurred_at, now) < FRESH_PERIOD
}

/// How old an event is, in words.
pub open spec fn event_age(event: EventView, now: u64) -> Text {
    age_text(crate::recovery::elapsed_since(event.occurred_at, now))
}

/// The count of lines that an event has changed.
pub open spec fn stats_text(event: EventView) -> Text {
    if event.lines_added == 0 && event.lines_removed == 0 {
        Seq::empty()
    } else {
        " +"@ + crate::text::decimal_text(event.lines_added as nat) + " -"@
            + crate::text::decimal_text(event.lines_removed as nat)
    }
}

/// The number of an event in front of a line.
pub open spec fn id_prefix(event: EventView) -> Text {
    "  #"@ + crate::text::padded_right(crate::text::decimal_text(event.id as nat), 4) + " "@
}

/// The label of the workspace of an event, where there are several workspaces.
pub open spec fn event_workspace(event: EventView, watch: WatchView) -> Option<Text> {
    if watch.roots.len() > 1 {
        Some(watch.label(event.root))
    } else {
        None
    }
}

/// The first line of an event.
pub open spec fn first_line(
    event: EventView,
    selected: bool,
    width: int,
    watch: WatchView,
    now: u64,
) -> Seq<SpanView> {
    let marker = if selected {
        "▶ "@
    } else if is_fresh(event, now) {
        "● "@
    } else {
        "  "@
    };
    let workspace = event_workspace(event, watch);
    let used = event.kind.label_text().len() + 2 + (match workspace {
        Some(label) => label.len() + 3,
        None => 0,
    }) + event_age(event, now).len() + 3 + 4;
    seq![
        crate::style::span_of(marker, bold(color_of(event))),
        match workspace {
            Some(label) => workspace_span_of(label, watch.index_of_root(event.root) as usize),
            None => crate::style::span_of(Seq::empty(), raw()),
        },
        badge_span_of(event),
        crate::style::span_of(" "@, raw()),
        crate::style::span_of(
            middle_truncated(
                event.written(event.path),
                room_left(width, used as int),
            ),
            bold(
                if selected {
                    Color::White
                } else {
                    Color::Silver
                },
            ),
        ),
    ]
}

/// The second line of an event.
pub open spec fn second_line(
    event: EventView,
    selected: bool,
    width: int,
    now: u64,
) -> Seq<SpanView> {
    let freshness = if is_fresh(event, now) {
        "  NEW"@
    } else {
        ""@
    };
    let used = id_prefix(event).len() + stats_text(event).len() + freshness.len() + event_age(
        event,
        now,
    ).len() + 2;
    seq![
        crate::style::span_of(
            id_prefix(event),
            ink(
                if selected {
                    color_of(event)
                } else {
                    Color::Dim
                },
            ),
        ),
        crate::style::span_of(
            middle_truncated(context_text(event), room_left(width, used as int)),
            ink(
                if selected {
                    Color::Muted
                } else {
                    Color::Dim
                },
            ),
        ),
        crate::style::span_of(stats_text(event), ink(Color::Muted)),
        crate::style::span_of(freshness, bold(color_of(event))),
        crate::style::span_of("  "@ + event_age(event, now), ink(Color::Dim)),
    ]
}

/// An event as the timeline shows it.
pub open spec fn item_of(
    event: EventView,
    selected: bool,
    width: int,
    watch: WatchView,
    now: u64,
) -> ItemView {
    ItemView {
        first: first_line(event, selected, width, watch, now),
        second: second_line(event, selected, width, now),
        background: if selected {
            Color::SelectedPanel
        } else if is_fresh(event, now) {
            Color::FreshPanel
        } else {
            Color::Reset
        },
    }
}

/// Writes the count of lines that an event has changed.
fn event_stats(event: &ChangeEvent) -> (out: String)
    ensures
        out@ == stats_text(event@),
{
    if event.lines_added == 0 && event.lines_removed == 0 {
        return String::new();
    }
    let added = decimal(event.lines_added as u64);
    let removed = decimal(event.lines_removed as u64);
    let mut out = join3(" +", added.as_str(), " -");
    out.append(removed.as_str());
    out
}

/// Writes the number of an event in front of a line.
fn event_prefix(event: &ChangeEvent) -> (out: String)
    ensures
        out@ == id_prefix(event@),
{
    join3("  #", pad_right(decimal(event.id).as_str(), 4).as_str(), " ")
}

/// Makes the first line of an event.
fn timeline_first(
    event: &ChangeEvent,
    selected: bool,
    width: usize,
    watcher: &WatchState,
    now: u64,
) -> (line: Line)
    requires
        watcher.wf(),
    ensures
        line@ == first_line(event@, selected, width as int, watcher@, now),
{
    let age = format_age(elapsed(event.occurred_at, now));
    let fresh = elapsed(event.occurred_at, now) < FRESH_PERIOD;
    let marker = if selected {
        "▶ "
    } else if fresh {
        "● "
    } else {
        "  "
    };
    let color = event_color(event);
    let mut left: usize = less(less(width, event.kind.label().unicode_len()), 2);
    let mut line = Line::of(label(marker, bold(color)));
    if watcher.roots.len() > 1 {
        let name = watcher.root_label(&event.root);
        left = less(less(left, name.as_str().unicode_len()), 3);
        line.push(workspace_span(name.as_str(), watcher.root_index(&event.root)));
    } else {
        let empty = String::new();
        assert(empty@ =~= Seq::<char>::empty());
        line.push(span(empty, raw()));
    }
    left = less(less(left, age.as_str().unicode_len()), 7);
    if left < 8 {
        left = 8;
    }
    line.push(badge_span(event));
    line.push(label(" ", raw()));
    line.push(
        span(
            truncate_middle(event.write(&event.path).as_str(), left),
            bold(
                if selected {
                    Color::White
                } else {
                    Color::Silver
                },
            ),
        ),
    );
    assert(line@ =~= first_line(event@, selected, width as int, watcher@, now));
    line
}

/// Makes the second line of an event.
fn timeline_second(event: &ChangeEvent, selected: bool, width: usize, now: u64) -> (line: Line)
    ensures
        line@ == second_line(event@, selected, width as int, now),
{
    let age = format_age(elapsed(event.occurred_at, now));
    let fresh = elapsed(event.occurred_at, now) < FRESH_PERIOD;
    let freshness = if fresh {
        "  NEW"
    } else {
        ""
    };
    let color = event_color(event);
    let prefix = event_prefix(event);
    let stats = event_stats(event);
    let mut left: usize = less(
        less(
            less(
                less(less(width, prefix.as_str().unicode_len()), stats.as_str().unicode_len()),
                freshness.unicode_len(),
            ),
            age.as_str().unicode_len(),
        ),
        2,
    );
    if left < 8 {
        left = 8;
    }
    let mut line = Line::of(
        span(
            prefix,
            ink(
                if selected {
                    color
                } else {
                    Color::Dim
                },
            ),
        ),
    );
    line.push(
        span(
            truncate_middle(event_context(event).as_str(), left),
            ink(
                if selected {
                    Color::Muted
                } else {
                    Color::Dim
                },
            ),
        ),
    );
    line.push(span(stats, ink(Color::Muted)));
    line.push(label(freshness, bold(color)));
    line.push(span(join2("  ", age.as_str()), ink(Color::Dim)));
    assert(line@ =~= second_line(event@, selected, width as int, now));
    line
}

/// Makes what the timeline shows of an event.
pub fn timeline_item(
    event: &ChangeEvent,
    selected: bool,
    width: usize,
    watcher: &WatchState,
    now: u64,
) -> (item: TimelineItem)
    requires
        watcher.wf(),
    ensures
        item@ == item_of(event@, selected, width as int, watcher@, now),
{
    let fresh = elapsed(event.occurred_at, now) < FRESH_PERIOD;
    TimelineItem {
        first: timeline_first(event, selected, width, watcher, now),
        second: timeline_second(event, selected, width, now),
        background: if selected {
            Color::SelectedPanel
        } else if fresh {
            Color::FreshPanel
        } else {
            Color::Reset
        },
    }
}

/// How many tracked folders are listed.
pub const LISTED_FOLDERS: usize = 5;

/// How high the list of tracked folders is.
pub open spec fn folders_rows(open: bool, roots: int) -> int {
    if open {
        (if roots < LISTED_FOLDERS {
            roots
        } else {
            LISTED_FOLDERS as int
        }) + 2
    } else {
        0
    }
}

/// Finds how high the list of tracked folders is.
pub fn folders_height(app: &App, watcher: &WatchState) -> (rows: u16)
    ensures
        rows == folders_rows(app@.folders_open, watcher@.roots.len() as int),
{
    if !app.folders_open {
        return 0;
    }
    let roots: usize = watcher.roots.len();
    if roots < LISTED_FOLDERS {
        roots as u16 + 2
    } else {
        7
    }
}

/// Finds how high the footer is.
pub fn footer_height(app: &App) -> (rows: u16)
    ensures
        rows == (if app@.search_mode {
            3int
        } else {
            2
        }),
{
    if app.search_mode {
        3
    } else {
        2
    }
}

/// Tests whether a screen is wide.
pub fn is_wide(width: u16) -> (b: bool)
    ensures
        b == (width >= WIDE),
{
    width >= WIDE
}

/// How wide a column for a text is: its bytes and two more, as far as a screen
/// goes.
pub open spec fn column_of(text: Text) -> int {
    let bytes = vstd::utf8::encode_utf8(text).len() as int;
    if bytes + 2 <= u16::MAX {
        bytes + 2
    } else {
        u16::MAX as int
    }
}

/// Finds how wide a column for a text is.
pub fn column_width(text: &str) -> (width: u16)
    ensures
        width == column_of(text@),
{
    let bytes: usize = text.as_bytes().len();
    if bytes <= 65533 {
        bytes as u16 + 2
    } else {
        u16::MAX
    }
}

/// What the header says of the observation.
pub open spec fn live_text(app: AppView) -> Text {
    if app.paused {
        " PAUSED  +"@ + crate::text::decimal_text(app.paused_events.len()) + " queued "@
    } else if app.catching_up {
        " CATCHING UP "@
    } else if app.observer_level != IntegrityLevel::Info {
        boxed(app.observer_level.label_text())
    } else {
        " ● LIVE "@
    }
}

/// The state of the observation, for the header.
pub open spec fn live_span(app: AppView) -> SpanView {
    crate::style::span_of(
        live_text(app),
        bold(
            if app.paused || app.catching_up {
                Color::Amber
            } else {
                integrity_color(app.observer_level)
            },
        ),
    )
}

/// Makes the state of the observation, for the header.
pub fn header_status(app: &App) -> (out: Span)
    ensures
        out@ == live_span(app@),
{
    let text = if app.paused {
        let count = decimal(app.paused_events.len() as u64);
        assert(app@.paused_events.len() == app.paused_events@.len());
        join3(" PAUSED  +", count.as_str(), " queued ")
    } else if app.catching_up {
        " CATCHING UP ".to_owned()
    } else if app.observer_level != IntegrityLevel::Info {
        join3(" ", app.observer_level.label(), " ")
    } else {
        " ● LIVE ".to_owned()
    };
    span(
        text,
        bold(
            if app.paused || app.catching_up {
                Color::Amber
            } else {
                integrity_color(app.observer_level)
            },
        ),
    )
}

/// The title of the screen.
pub open spec fn title_line(folders: nat, repositories: nat) -> Seq<SpanView> {
    seq![
        crate::style::span_of(" ϟ "@, bold_chip(Color::Black, Color::Green)),
        crate::style::span_of(" FLUX "@, bold(Color::White)),
        crate::style::span_of("workspace activity"@, ink(Color::Muted)),
        crate::style::span_of("  "@, raw()),
        crate::style::span_of(
            crate::text::decimal_text(folders) + " folders  ·  "@ + crate::text::decimal_text(
                repositories,
            ) + " repos"@,
            ink(Color::Ash),
        ),
    ]
}

/// Makes the title of the screen.
pub fn header_title(watcher: &WatchState, git_repositories: usize) -> (line: Line)
    ensures
        line@ == title_line(watcher@.roots.len(), git_repositories as nat),
{
    let mut counts = join3(
        decimal(watcher.roots.len() as u64).as_str(),
        " folders  ·  ",
        decimal(git_repositories as u64).as_str(),
    );
    counts.append(" repos");
    let mut line = Line::of(label(" ϟ ", bold_chip(Color::Black, Color::Green)));
    line.push(label(" FLUX ", bold(Color::White)));
    line.push(label("workspace activity", ink(Color::Muted)));
    line.push(label("  ", raw()));
    line.push(span(counts, ink(Color::Ash)));
    assert(line@ =~= title_line(watcher@.roots.len(), git_repositories as nat));
    line
}

/// A tracked folder as it is listed.
pub open spec fn folder_line(watch: WatchView, index: int) -> Seq<SpanView> {
    seq![
        workspace_span_of(watch.label(watch.roots[index]), index as usize),
        crate::style::span_of("  "@, raw()),
        crate::style::span_of(crate::path::path_text(watch.roots[index]), ink(Color::Muted)),
    ]
}

/// How many of the tracked folders are listed.
pub open spec fn listed_count(watch: WatchView) -> nat {
    if watch.roots.len() < LISTED_FOLDERS {
        watch.roots.len()
    } else {
        LISTED_FOLDERS as nat
    }
}

/// The list of the tracked folders.
pub open spec fn folder_lines(watch: WatchView) -> Seq<Seq<SpanView>> {
    Seq::new(listed_count(watch), |i: int| folder_line(watch, i))
}

/// The title of the list of the tracked folders.
pub open spec fn folders_title_text(roots: nat) -> Text {
    if roots <= LISTED_FOLDERS {
        " TRACKED FOLDERS  ·  t hide "@
    } else {
        " TRACKED FOLDERS  ·  +"@ + crate::text::decimal_text(
            (roots - LISTED_FOLDERS) as nat,
        ) + " more  ·  t hide "@
    }
}

/// Makes the title of the list of the tracked folders.
pub fn folders_title(watcher: &WatchState) -> (title: String)
    ensures
        title@ == folders_title_text(watcher@.roots.len()),
{
    let roots: usize = watcher.roots.len();
    if roots <= LISTED_FOLDERS {
        " TRACKED FOLDERS  ·  t hide ".to_owned()
    } else {
        join3(
            " TRACKED FOLDERS  ·  +",
            decimal((roots - LISTED_FOLDERS) as u64).as_str(),
            " more  ·  t hide ",
        )
    }
}

/// Makes the list of the tracked folders.
pub fn tracked_folders(watcher: &WatchState) -> (lines: Vec<Line>)
    requires
        watcher.wf(),
    ensures
        crate::style::line_views(lines@) == folder_lines(watcher@),
{
    let mut lines: Vec<Line> = Vec::new();
    let mut i: usize = 0;
    while i < watcher.roots.len() && i < LISTED_FOLDERS
        invariant
            watcher.wf(),
            i <= watcher.roots@.len(),
            i <= LISTED_FOLDERS,
            lines@.len() == i,
            forall|j: int| 0 <= j < i ==> (#[trigger] lines@[j])@ == folder_line(watcher@, j),
        decreases watcher.roots@.len() - i,
    {
        let root = &watcher.roots[i];
        assert(watcher@.roots[i as int] == root@);
        let mut line = Line::of(workspace_span(watcher.root_label(root).as_str(), i));
        line.push(label("  ", raw()));
        line.push(span(root.display(), ink(Color::Muted)));
        assert(line@ =~= folder_line(watcher@, i as int));
        lines.push(line);
        i += 1;
    }
    assert(crate::style::line_views(lines@) =~= folder_lines(watcher@));
    lines
}

/// The filter of a kind, in short or in full.
pub open spec fn filter_text(index: int, kind: ChangeKind, wide: bool) -> Text {
    if wide {
        " "@ + crate::text::decimal_text((index + 1) as nat) + ":"@ + kind.symbol_text() + " "@
            + kind.label_text() + " "@
    } else {
        " "@ + crate::text::decimal_text((index + 1) as nat) + kind.symbol_text() + " "@
    }
}

/// How a filter looks.
#[verifier::allow_in_spec]
pub fn filter_style(kind: ChangeKind, active: bool) -> (style: Style)
    returns
        (if active {
            bold(kind_color(kind))
        } else {
            Style {
                fg: Some(Color::Dim),
                bg: None,
                bold: false,
                dim: true,
                underlined: false,
            }
        }),
{
    if active {
        bold(kind_color(kind))
    } else {
        Style { fg: Some(Color::Dim), bg: None, bold: false, dim: true, underlined: false }
    }
}

/// The filters of all kinds.
pub open spec fn filter_spans(enabled: Seq<bool>, wide: bool) -> Seq<SpanView> {
    Seq::new(
        crate::model::KINDS as nat,
        |i: int|
            crate::style::span_of(
                filter_text(i, ChangeKind::ALL@[i], wide),
                filter_style(ChangeKind::ALL@[i], enabled[i]),
            ),
    )
}

/// What the line of filters begins with.
pub open spec fn filter_head(app: AppView, watch: WatchView) -> Seq<SpanView> {
    seq![
        crate::style::span_of(
            " "@ + crate::text::decimal_text(app.events.len()) + " events  "@,
            bold(Color::White),
        ),
        crate::style::span_of(
            " w:"@ + (match app.workspace_filter {
                Some(root) => watch.label(root),
                None => "ALL"@,
            }) + " "@,
            bold_chip(
                Color::Black,
                match app.workspace_filter {
                    Some(root) => workspace_color(watch.index_of_root(root) as usize),
                    None => Color::Blue,
                },
            ),
        ),
        crate::style::span_of(" "@, raw()),
    ]
}

/// The line of filters.
pub open spec fn filter_line_of(app: AppView, watch: WatchView, wide: bool) -> Seq<SpanView> {
    filter_head(app, watch) + filter_spans(app.enabled, wide) + (if app.search.len() == 0 {
        Seq::empty()
    } else {
        seq![
            crate::style::span_of(
                "  /"@ + app.search + " "@,
                chip(Color::Black, Color::Amber),
            ),
        ]
    })
}

/// Writes the filter of a kind.
fn filter_label(index: usize, kind: ChangeKind, wide: bool) -> (out: String)
    requires
        index < crate::model::KINDS,
    ensures
        out@ == filter_text(index as int, kind, wide),
{
    let number = decimal(index as u64 + 1);
    if wide {
        let mut out = join3(" ", number.as_str(), ":");
        out.append(kind.symbol());
        out.append(" ");
        out.append(kind.label());
        out.append(" ");
        out
    } else {
        let mut out = join3(" ", number.as_str(), kind.symbol());
        out.append(" ");
        out
    }
}

/// Makes the line of filters.
pub fn filter_line(app: &App, watcher: &WatchState, wide: bool) -> (line: Line)
    requires
        app.wf(),
        watcher.wf(),
    ensures
        line@ == filter_line_of(app@, watcher@, wide),
{
    assert(app@.events.len() == app.events@.len());
    let mut line = Line::of(
        span(
            join3(" ", decimal(app.events.len() as u64).as_str(), " events  "),
            bold(Color::White),
        ),
    );
    match &app.workspace_filter {
        Some(root) => {
            let name = watcher.root_label(root);
            line.push(
                span(
                    join3(" w:", name.as_str(), " "),
                    bold_chip(Color::Black, workspace_color(watcher.root_index(root))),
                ),
            );
        },
        None => {
            line.push(span(join3(" w:", "ALL", " "), bold_chip(Color::Black, Color::Blue)));
        },
    }
    line.push(label(" ", raw()));
    assert(line@ =~= filter_head(app@, watcher@));
    let ghost head = line@;
    let mut i: usize = 0;
    assert(head + filter_spans(app@.enabled, wide).take(0) =~= head);
    while i < crate::model::KINDS
        invariant
            i <= crate::model::KINDS,
            app.wf(),
            line@ == head + filter_spans(app@.enabled, wide).take(i as int),
        decreases crate::model::KINDS - i,
    {
        let kind = ChangeKind::ALL[i];
        let active: bool = app.enabled[i];
        let ghost before = line@;
        line.push(span(filter_label(i, kind, wide), filter_style(kind, active)));
        assert(line@ =~= head + filter_spans(app@.enabled, wide).take(i + 1));
        i += 1;
    }
    assert(filter_spans(app@.enabled, wide).take(i as int) =~= filter_spans(app@.enabled, wide));
    if app.search.as_str().unicode_len() > 0 {
        line.push(
            span(
                join3("  /", app.search.as_str(), " "),
                chip(Color::Black, Color::Amber),
            ),
        );
    }
    assert(line@ =~= filter_line_of(app@, watcher@, wide));
    line
}

/// The timeline as it is shown: its title, its colour and its events.
#[derive(Debug)]
pub struct TimelinePane {
    pub title: String,
    pub color: Color,
    pub items: Vec<TimelineItem>,
}

/// What the timeline shows.
#[verifier::ext_equal]
pub struct TimelineView {
    pub title: Text,
    pub color: Color,
    pub items: Seq<ItemView>,
}

impl View for TimelinePane {
    type V = TimelineView;

    open spec fn view(&self) -> TimelineView {
        TimelineView { title: self.title@, color: self.color, items: item_views(self.items@) }
    }
}

/// How many events fit on a timeline of some height.
pub open spec fn rows_of(height: u16) -> int {
    let inner = if height >= 2 {
        height - 2
    } else {
        0
    };
    if inner / 2 > 1 {
        inner / 2
    } else {
        1
    }
}

/// The first event that is shown, so that the selected one is among them.
pub open spec fn window_start(selected: int, rows: int) -> int {
    if selected > rows - 1 {
        selected - (rows - 1)
    } else {
        0
    }
}

/// How many events are shown from the first one on.
pub open spec fn window_len(shown: int, start: int, rows: int) -> nat {
    if start >= shown {
        0
    } else if shown - start < rows {
        (shown - start) as nat
    } else {
        rows as nat
    }
}

/// The colour of the selection.
pub open spec fn selection_color(app: AppView) -> Color {
    match app.selection() {
        Some(event) => color_of(event),
        None => Color::Dim,
    }
}

/// The title of the timeline.
pub open spec fn timeline_title_text(app: AppView) -> Text {
    let total = app.shown().len();
    let position = if app.selected + 1 < total {
        (app.selected + 1) as nat
    } else {
        total
    };
    " TIMELINE  "@ + crate::text::decimal_text(position) + "/"@ + crate::text::decimal_text(total)
        + " "@
}

/// The timeline as it is shown in a space of some width and height.
pub open spec fn timeline_of(
    app: AppView,
    watch: WatchView,
    width: u16,
    height: u16,
    now: u64,
) -> TimelineView {
    let rows = rows_of(height);
    let start = window_start(app.selected as int, rows);
    let row_width = if width >= 2 {
        width - 2
    } else {
        0
    };
    TimelineView {
        title: timeline_title_text(app),
        color: selection_color(app),
        items: Seq::new(
            window_len(app.shown().len() as int, start, rows),
            |i: int|
                item_of(
                    app.events[app.shown()[start + i]],
                    start + i == app.selected,
                    row_width,
                    watch,
                    now,
                ),
        ),
    }
}

/// Makes the timeline as it is shown in a space of some width and height.
pub fn timeline_pane(
    app: &App,
    watcher: &WatchState,
    width: u16,
    height: u16,
    now: u64,
) -> (pane: TimelinePane)
    requires
        app.wf(),
        watcher.wf(),
    ensures
        pane@ == timeline_of(app@, watcher@, width, height, now),
{
    let visible = app.visible_indices();
    let total: usize = visible.len();
    let ghost shown = app@.shown();
    assert(shown.len() == total);
    proof {
        crate::app::lemma_shown(app@, app@.events.len());
    }
    let color = match app.selected_event() {
        Some(event) => event_color(event),
        None => Color::Dim,
    };
    let inner: u16 = if height >= 2 {
        height - 2
    } else {
        0
    };
    let rows: usize = if inner / 2 > 1 {
        (inner / 2) as usize
    } else {
        1
    };
    let start: usize = if app.selected > rows - 1 {
        app.selected - (rows - 1)
    } else {
        0
    };
    let row_width: usize = if width >= 2 {
        width as usize - 2
    } else {
        0
    };
    let mut items: Vec<TimelineItem> = Vec::new();
    let ghost expected = timeline_of(app@, watcher@, width, height, now);
    let mut i: usize = 0;
    while i < rows && start < total && i < total - start
        invariant
            app.wf(),
            watcher.wf(),
            i <= rows,
            rows >= 1,
            rows == rows_of(height),
            start == window_start(app@.selected as int, rows as int),
            total == visible@.len(),
            shown == app@.shown(),
            shown == visible@.map_values(|i: usize| i as int),
            start < total ==> i <= total - start,
            start >= total ==> i == 0,
            row_width == (if width >= 2 {
                width - 2
            } else {
                0
            }),
            forall|j: int|
                0 <= j < shown.len() ==> 0 <= #[trigger] shown[j] < app@.events.len(),
            items@.len() == i,
            forall|j: int|
                0 <= j < i ==> (#[trigger] items@[j])@ == item_of(
                    app@.events[shown[start + j]],
                    start + j == app@.selected,
                    row_width as int,
                    watcher@,
                    now,
                ),
        decreases rows - i,
    {
        let at: usize = visible[start + i];
        assert(shown[start + i] == at);
        assert(app@.events[at as int] == app.events@[at as int]@);
        items.push(
            timeline_item(&app.events[at], start + i == app.selected, row_width, watcher, now),
        );
        i += 1;
    }
    assert(item_views(items@) =~= expected.items);
    let position: usize = if app.selected < total && app.selected + 1 < total {
        app.selected + 1
    } else {
        total
    };
    let mut title = join3(" TIMELINE  ", decimal(position as u64).as_str(), "/");
    title.append(decimal(total as u64).as_str());
    title.append(" ");
    TimelinePane { title, color, items }
}

/// The selected event is among those that are shown, wherever the timeline has
/// any rows.
pub proof fn the_selected_event_is_in_the_window(app: AppView, height: u16)
    requires
        app.selected < app.shown().len(),
    ensures
        ({
            let rows = rows_of(height);
            let start = window_start(app.selected as int, rows);
            start <= app.selected < start + window_len(app.shown().len() as int, start, rows)
        }),
{
}

/// What an event is about, in words.
pub open spec fn target_text(target: TargetKind) -> Text {
    match target {
        TargetKind::Directory => "directory"@,
        TargetKind::Repository => "repository"@,
        TargetKind::WorkItem => "work item"@,
        TargetKind::File => "file"@,
        TargetKind::Observer => "observer"@,
    }
}

/// Tells what an event is about.
pub fn target_label(target: TargetKind) -> (label: &'static str)
    ensures
        label@ == target_text(target),
{
    match target {
        TargetKind::Directory => "directory",
        TargetKind::Repository => "repository",
        TargetKind::WorkItem => "work item",
        TargetKind::File => "file",
        TargetKind::Observer => "observer",
    }
}

/// What is said of an event that says nothing itself.
pub open spec fn default_detail_text(kind: ChangeKind, target: TargetKind) -> Text {
    match kind {
        ChangeKind::Delete => "removed from the workspace"@,
        ChangeKind::Rename => "moved without textual changes"@,
        ChangeKind::Git => "repository state changed"@,
        ChangeKind::Work => "work item changed"@,
        ChangeKind::Integrity => "observation state changed"@,
        _ => if target == TargetKind::Directory {
            "directory event"@
        } else {
            "metadata changed"@
        },
    }
}

/// Tells what is said of an event that says nothing itself.
pub fn default_detail(kind: ChangeKind, target: TargetKind) -> (detail: &'static str)
    ensures
        detail@ == default_detail_text(kind, target),
{
    match kind {
        ChangeKind::Delete => "removed from the workspace",
        ChangeKind::Rename => "moved without textual changes",
        ChangeKind::Git => "repository state changed",
        ChangeKind::Work => "work item changed",
        ChangeKind::Integrity => "observation state changed",
        _ => {
            if target == TargetKind::Directory {
                "directory event"
            } else {
                "metadata changed"
            }
        },
    }
}

/// Underlined bold text.
#[verifier::allow_in_spec]
pub fn heading(color: Color) -> (style: Style)
    returns
        (Style { fg: Some(color), bg: None, bold: true, dim: false, underlined: true }),
{
    Style { fg: Some(color), bg: None, bold: true, dim: false, underlined: true }
}

/// The label of the workspace of an event, or nothing where there is one alone.
pub open spec fn optional_workspace(event: EventView, watch: WatchView) -> SpanView {
    if watch.roots.len() > 1 {
        workspace_span_of(
            watch.label(event.root),
            watch.index_of_root(event.root) as usize,
        )
    } else {
        crate::style::span_of(Seq::empty(), raw())
    }
}

/// Makes the label of the workspace of an event, or nothing where there is one
/// alone.
fn maybe_workspace(event: &ChangeEvent, watcher: &WatchState) -> (out: Span)
    requires
        watcher.wf(),
    ensures
        out@ == optional_workspace(event@, watcher@),
{
    if watcher.roots.len() > 1 {
        workspace_span(
            watcher.root_label(&event.root).as_str(),
            watcher.root_index(&event.root),
        )
    } else {
        let empty = String::new();
        assert(empty@ =~= Seq::<char>::empty());
        span(empty, raw())
    }
}

/// The first line of the preview: what kind of event it is, and how old.
pub open spec fn preview_badge(event: EventView, watch: WatchView, now: u64) -> Seq<SpanView> {
    seq![
        optional_workspace(event, watch),
        badge_span_of(event),
        crate::style::span_of(
            "  #"@ + crate::text::padded_right(crate::text::decimal_text(event.id as nat), 4)
                + " "@ + target_text(event.target),
            ink(Color::Muted),
        ),
        crate::style::span_of(
            match event.integrity_level {
                Some(level) => "  "@ + level.label_text(),
                None => Seq::empty(),
            },
            bold(color_of(event)),
        ),
        crate::style::span_of("  "@ + event_age(event, now), ink(Color::Dim)),
    ]
}

/// The line of the preview that tells where the event happened.
pub open spec fn preview_place(event: EventView, watch: WatchView) -> Seq<SpanView> {
    seq![
        crate::style::span_of(
            "WORKSPACE  "@,
            bold(workspace_color(watch.index_of_root(event.root) as usize)),
        ),
        crate::style::span_of(watch.label(event.root), bold(Color::White)),
        crate::style::span_of("  ROOT  "@, bold(color_of(event))),
        crate::style::span_of(compact_text(event.root), ink(Color::Muted)),
    ]
}

/// The line of the preview that tells where a path was moved from.
pub open spec fn preview_move(event: EventView) -> Seq<Seq<SpanView>> {
    match event.previous_path {
        Some(previous) => seq![
            seq![
                crate::style::span_of(event.written(previous), ink(Color::Muted)),
                crate::style::span_of("  →  "@, bold(color_of(event))),
                crate::style::span_of(event.written(event.path), bold(color_of(event))),
            ],
        ],
        None => Seq::empty(),
    }
}

/// What the preview begins with.
pub open spec fn preview_head(
    event: EventView,
    watch: WatchView,
    now: u64,
) -> Seq<Seq<SpanView>> {
    seq![
        preview_badge(event, watch, now),
        seq![crate::style::span_of(event.written(event.path), heading(Color::White))],
        preview_place(event, watch),
    ] + preview_move(event) + seq![Seq::empty()]
}

/// The preview of an event without a diff.
pub open spec fn preview_plain(event: EventView) -> Seq<Seq<SpanView>> {
    let detail = match event.detail {
        Some(detail) => detail,
        None => default_detail_text(event.kind, event.target),
    };
    seq![
        seq![
            crate::style::span_of("DETAIL  "@, bold(color_of(event))),
            crate::style::span_of(detail, ink(Color::Pale)),
        ],
    ] + (if event.size > 0 {
        seq![
            seq![
                crate::style::span_of(
                    crate::text::decimal_text(event.size as nat) + " bytes"@,
                    ink(Color::Dim),
                ),
            ],
        ]
    } else {
        Seq::empty()
    })
}

/// The sign of a line of a diff.
pub open spec fn diff_symbol(kind: DiffKind) -> Text {
    match kind {
        DiffKind::Add => "+ "@,
        DiffKind::Remove => "- "@,
        DiffKind::Equal => "  "@,
    }
}

/// The colour of a line of a diff.
#[verifier::allow_in_spec]
pub fn diff_color(kind: DiffKind) -> (color: Color)
    returns
        (match kind {
            DiffKind::Add => Color::Green,
            DiffKind::Remove => Color::Red,
            DiffKind::Equal => Color::Stone,
        }),
{
    match kind {
        DiffKind::Add => Color::Green,
        DiffKind::Remove => Color::Red,
        DiffKind::Equal => Color::Stone,
    }
}

/// The number that a line of a diff is shown with: that of the older text for a
/// line that was removed, and that of the newer one for the others.
pub open spec fn shown_number(line: DiffLineView) -> nat {
    let number = match line.kind {
        DiffKind::Remove => line.old_number,
        _ => line.new_number,
    };
    match number {
        Some(n) => n as nat,
        None => 0,
    }
}

/// A line of a diff in the preview.
pub open spec fn diff_line_of(line: DiffLineView) -> Seq<SpanView> {
    seq![
        crate::style::span_of(
            crate::text::padded_left(crate::text::decimal_text(shown_number(line)), 4) + " "@,
            ink(Color::Dim),
        ),
        crate::style::span_of(diff_symbol(line.kind), bold(diff_color(line.kind))),
        crate::style::span_of(line.text, ink(diff_color(line.kind))),
    ]
}

/// The preview of an event with a diff.
pub open spec fn preview_diff(event: EventView) -> Seq<Seq<SpanView>> {
    seq![
        seq![
            crate::style::span_of("DIFF  "@, bold(color_of(event))),
            crate::style::span_of(
                " +"@ + crate::text::decimal_text(event.lines_added as nat) + " "@,
                bold_chip(Color::Black, Color::Green),
            ),
            crate::style::span_of("  "@, raw()),
            crate::style::span_of(
                " -"@ + crate::text::decimal_text(event.lines_removed as nat) + " "@,
                bold_chip(Color::Black, Color::Red),
            ),
        ],
        Seq::empty(),
    ] + event.diff.map_values(|line: DiffLineView| diff_line_of(line)) + (match event.detail {
        Some(detail) => seq![
            seq![crate::style::span_of("… "@ + detail, ink(Color::Amber))],
        ],
        None => Seq::empty(),
    })
}

/// The preview of an event.
pub open spec fn preview_of(event: EventView, watch: WatchView, now: u64) -> Seq<Seq<SpanView>> {
    preview_head(event, watch, now) + (if event.diff.len() == 0 {
        preview_plain(event)
    } else {
        preview_diff(event)
    })
}

/// The title of the preview of an event.
pub open spec fn preview_title(event: EventView, watch: WatchView) -> Seq<SpanView> {
    seq![
        crate::style::span_of(" SELECTED "@, bold_chip(Color::Black, color_of(event))),
        optional_workspace(event, watch),
        crate::style::span_of(
            "  "@ + event.kind.label_text() + "  #"@ + crate::text::decimal_text(event.id as nat)
                + " "@,
            bold(color_of(event)),
        ),
    ]
}

/// What the preview says while nothing is selected.
pub open spec fn idle_lines() -> Seq<Seq<SpanView>> {
    seq![
        Seq::empty(),
        seq![crate::style::span_of("Waiting for filesystem activity…"@, ink(Color::Muted))],
        Seq::empty(),
        seq![
            crate::style::span_of(
                "File, Git, and observer-integrity events appear here."@,
                ink(Color::Dim),
            ),
        ],
    ]
}

/// The preview as it is shown.
#[derive(Debug)]
pub enum DetailPane {
    /// Nothing is selected.
    Idle { lines: Vec<Line> },
    /// An event is selected.
    Event { title: Line, color: Color, lines: Vec<Line> },
}

/// What the preview shows.
#[verifier::ext_equal]
pub enum DetailView {
    Idle { lines: Seq<Seq<SpanView>> },
    Event { title: Seq<SpanView>, color: Color, lines: Seq<Seq<SpanView>> },
}

impl View for DetailPane {
    type V = DetailView;

    open spec fn view(&self) -> DetailView {
        match *self {
            DetailPane::Idle { lines } => DetailView::Idle {
                lines: crate::style::line_views(lines@),
            },
            DetailPane::Event { title, color, lines } => DetailView::Event {
                title: title@,
                color,
                lines: crate::style::line_views(lines@),
            },
        }
    }
}

/// The preview of the selected event.
pub open spec fn detail_of(app: AppView, watch: WatchView, now: u64) -> DetailView {
    match app.selection() {
        Some(event) => DetailView::Event {
            title: preview_title(event, watch),
            color: color_of(event),
            lines: preview_of(event, watch, now),
        },
        None => DetailView::Idle { lines: idle_lines() },
    }
}

/// Makes the first line of the preview.
fn badge_line(event: &ChangeEvent, watcher: &WatchState, now: u64) -> (line: Line)
    requires
        watcher.wf(),
    ensures
        line@ == preview_badge(event@, watcher@, now),
{
    let color = event_color(event);
    let mut line = Line::of(maybe_workspace(event, watcher));
    line.push(badge_span(event));
    let mut number = join3("  #", pad_right(decimal(event.id).as_str(), 4).as_str(), " ");
    number.append(target_label(event.target));
    line.push(span(number, ink(Color::Muted)));
    let level = match event.integrity_level {
        Some(level) => join2("  ", level.label()),
        None => String::new(),
    };
    proof {
        if event.integrity_level is None {
            assert(level@ =~= Seq::<char>::empty());
        }
    }
    line.push(span(level, bold(color)));
    let age = format_age(elapsed(event.occurred_at, now));
    line.push(span(join2("  ", age.as_str()), ink(Color::Dim)));
    assert(line@ =~= preview_badge(event@, watcher@, now));
    line
}

/// Makes the line of the preview that tells where the event happened.
fn place_line(event: &ChangeEvent, watcher: &WatchState) -> (line: Line)
    requires
        watcher.wf(),
    ensures
        line@ == preview_place(event@, watcher@),
{
    let mut line = Line::of(
        label("WORKSPACE  ", bold(workspace_color(watcher.root_index(&event.root)))),
    );
    line.push(span(watcher.root_label(&event.root), bold(Color::White)));
    line.push(label("  ROOT  ", bold(event_color(event))));
    line.push(span(compact_path(&event.root), ink(Color::Muted)));
    assert(line@ =~= preview_place(event@, watcher@));
    line
}

/// Makes what the preview begins with.
fn head_lines(event: &ChangeEvent, watcher: &WatchState, now: u64) -> (lines: Vec<Line>)
    requires
        watcher.wf(),
    ensures
        crate::style::line_views(lines@) == preview_head(event@, watcher@, now),
{
    let color = event_color(event);
    let mut lines: Vec<Line> = Vec::new();
    assert(crate::style::line_views(lines@) =~= Seq::<Seq<SpanView>>::empty());
    push_line(&mut lines, badge_line(event, watcher, now));
    push_line(&mut lines, Line::of(span(event.write(&event.path), heading(Color::White))));
    push_line(&mut lines, place_line(event, watcher));
    if let Some(previous) = &event.previous_path {
        let mut line = Line::of(span(event.write(previous), ink(Color::Muted)));
        line.push(label("  →  ", bold(color)));
        line.push(span(event.write(&event.path), bold(color)));
        assert(line@ =~= preview_move(event@)[0]);
        push_line(&mut lines, line);
    }
    push_line(&mut lines, Line::new());
    assert(crate::style::line_views(lines@) =~= preview_head(event@, watcher@, now));
    lines
}

/// Makes the preview of an event without a diff.
fn plain_lines(event: &ChangeEvent, lines: &mut Vec<Line>)
    ensures
        crate::style::line_views(final(lines)@) == crate::style::line_views(old(lines)@)
            + preview_plain(event@),
{
    let ghost before = crate::style::line_views(lines@);
    let mut line = Line::of(label("DETAIL  ", bold(event_color(event))));
    match &event.detail {
        Some(detail) => {
            line.push(label(detail.as_str(), ink(Color::Pale)));
        },
        None => {
            line.push(label(default_detail(event.kind, event.target), ink(Color::Pale)));
        },
    }
    assert(line@ =~= preview_plain(event@)[0]);
    push_line(lines, line);
    if event.size > 0 {
        let size = Line::of(
            span(join2(decimal(event.size).as_str(), " bytes"), ink(Color::Dim)),
        );
        assert(size@ =~= preview_plain(event@)[1]);
        push_line(lines, size);
    }
    assert(crate::style::line_views(lines@) =~= before + preview_plain(event@));
}

/// Makes a line of a diff in the preview.
fn diff_preview_line(line: &DiffLine) -> (out: Line)
    ensures
        out@ == diff_line_of(line@),
{
    let number = match line.kind {
        DiffKind::Remove => line.old_number,
        _ => line.new_number,
    };
    let n: usize = match number {
        Some(n) => n,
        None => 0,
    };
    let symbol = match line.kind {
        DiffKind::Add => "+ ",
        DiffKind::Remove => "- ",
        DiffKind::Equal => "  ",
    };
    let color = diff_color(line.kind);
    let mut out = Line::of(
        span(
            join2(pad_left(decimal(n as u64).as_str(), 4).as_str(), " "),
            ink(Color::Dim),
        ),
    );
    out.push(label(symbol, bold(color)));
    out.push(label(line.text.as_str(), ink(color)));
    assert(out@ =~= diff_line_of(line@));
    out
}

/// Makes the preview of an event with a diff.
fn diff_lines(event: &ChangeEvent, lines: &mut Vec<Line>)
    ensures
        crate::style::line_views(final(lines)@) == crate::style::line_views(old(lines)@)
            + preview_diff(event@),
{
    let ghost before = crate::style::line_views(lines@);
    let ghost all = event@.diff.map_values(|line: DiffLineView| diff_line_of(line));
    let mut line = Line::of(label("DIFF  ", bold(event_color(event))));
    line.push(
        span(
            join3(" +", decimal(event.lines_added as u64).as_str(), " "),
            bold_chip(Color::Black, Color::Green),
        ),
    );
    line.push(label("  ", raw()));
    line.push(
        span(
            join3(" -", decimal(event.lines_removed as u64).as_str(), " "),
            bold_chip(Color::Black, Color::Red),
        ),
    );
    assert(line@ =~= preview_diff(event@)[0]);
    push_line(lines, line);
    push_line(lines, Line::new());
    let ghost start = crate::style::line_views(lines@);
    let mut i: usize = 0;
    assert(start =~= start + all.take(0));
    while i < event.diff.len()
        invariant
            i <= event.diff@.len(),
            all == event@.diff.map_values(|line: DiffLineView| diff_line_of(line)),
            crate::style::line_views(lines@) == start + all.take(i as int),
        decreases event.diff@.len() - i,
    {
        assert(event@.diff[i as int] == event.diff@[i as int]@);
        push_line(lines, diff_preview_line(&event.diff[i]));
        assert(crate::style::line_views(lines@) =~= start + all.take(i + 1));
        i += 1;
    }
    assert(all.take(i as int) =~= all);
    if let Some(detail) = &event.detail {
        let tail = Line::of(span(join2("… ", detail.as_str()), ink(Color::Amber)));
        push_line(lines, tail);
    }
    assert(crate::style::line_views(lines@) =~= before + preview_diff(event@));
}

/// Makes the title of the preview of an event.
fn detail_title(event: &ChangeEvent, watcher: &WatchState) -> (line: Line)
    requires
        watcher.wf(),
    ensures
        line@ == preview_title(event@, watcher@),
{
    let color = event_color(event);
    let mut line = Line::of(label(" SELECTED ", bold_chip(Color::Black, color)));
    line.push(maybe_workspace(event, watcher));
    let mut text = join3("  ", event.kind.label(), "  #");
    text.append(decimal(event.id).as_str());
    text.append(" ");
    line.push(span(text, bold(color)));
    assert(line@ =~= preview_title(event@, watcher@));
    line
}

/// Makes what the preview says while nothing is selected.
fn idle_preview() -> (lines: Vec<Line>)
    ensures
        crate::style::line_views(lines@) == idle_lines(),
{
    let mut lines: Vec<Line> = Vec::new();
    assert(crate::style::line_views(lines@) =~= Seq::<Seq<SpanView>>::empty());
    push_line(&mut lines, Line::new());
    push_line(
        &mut lines,
        Line::of(label("Waiting for filesystem activity…", ink(Color::Muted))),
    );
    push_line(&mut lines, Line::new());
    push_line(
        &mut lines,
        Line::of(
            label("File, Git, and observer-integrity events appear here.", ink(Color::Dim)),
        ),
    );
    assert(crate::style::line_views(lines@) =~= idle_lines());
    lines
}

/// Makes the preview of the selected event.
pub fn detail_pane(app: &App, watcher: &WatchState, now: u64) -> (pane: DetailPane)
    requires
        watcher.wf(),
    ensures
        pane@ == detail_of(app@, watcher@, now),
{
    let event = match app.selected_event() {
        Some(event) => event,
        None => {
            return DetailPane::Idle { lines: idle_preview() };
        },
    };
    let mut lines = head_lines(event, watcher, now);
    assert(event@.diff.len() == event.diff@.len());
    if event.diff.len() == 0 {
        plain_lines(event, &mut lines);
    } else {
        diff_lines(event, &mut lines);
    }
    DetailPane::Event { title: detail_title(event, watcher), color: event_color(event), lines }
}

/// A key in the footer.
pub open spec fn key_of(value: Text) -> SpanView {
    crate::style::span_of(boxed(value), chip(Color::Silver, Color::Slate))
}

/// Makes a key in the footer.
pub fn key(value: &str) -> (out: Span)
    ensures
        out@ == key_of(value@),
{
    span(join3(" ", value, " "), chip(Color::Silver, Color::Slate))
}

/// A hint in the footer.
pub open spec fn hint_of(value: Text) -> SpanView {
    crate::style::span_of(value, ink(Color::Dim))
}

/// Makes a hint in the footer.
pub fn hint(value: &str) -> (out: Span)
    ensures
        out@ == hint_of(value@),
{
    label(value, ink(Color::Dim))
}

/// The keys that the footer of a narrow or of a wide screen explains.
pub open spec fn help_line(wide: bool) -> Seq<SpanView> {
    if wide {
        seq![
            key_of("j/k"@),
            hint_of(" move  "@),
            key_of("/"@),
            hint_of(" search  "@),
            key_of("w"@),
            hint_of(" workspace  "@),
            key_of("1-6"@),
            hint_of(" filters  "@),
            key_of("t"@),
            hint_of(" folders  "@),
            key_of("space"@),
            hint_of(" pause  "@),
            key_of("c"@),
            hint_of(" clear  "@),
            key_of("q"@),
            hint_of(" quit"@),
        ]
    } else {
        seq![
            key_of("j/k"@),
            hint_of(" move  "@),
            key_of("/"@),
            hint_of(" find  "@),
            key_of("w"@),
            hint_of(" root  "@),
            key_of("1-6"@),
            hint_of(" types  "@),
            key_of("t"@),
            hint_of(" folders  "@),
            key_of("spc"@),
            hint_of(" pause  "@),
            key_of("q"@),
            hint_of(" quit"@),
        ]
    }
}

/// The line in which a search is written.
pub open spec fn search_line(search: Text) -> Seq<SpanView> {
    seq![
        crate::style::span_of(" / "@, bold_chip(Color::Black, Color::Amber)),
        crate::style::span_of(search, ink(Color::White)),
        crate::style::span_of("█"@, ink(Color::Amber)),
        crate::style::span_of("  enter accept  esc cancel"@, ink(Color::Dim)),
    ]
}

/// The footer as it is shown: a line, and beside it the status where there is
/// room.
#[derive(Debug)]
pub struct FooterPane {
    pub main: Line,
    pub status: Option<Span>,
}

/// What the footer shows.
#[verifier::ext_equal]
pub struct FooterView {
    pub main: Seq<SpanView>,
    pub status: Option<SpanView>,
}

impl View for FooterPane {
    type V = FooterView;

    open spec fn view(&self) -> FooterView {
        FooterView {
            main: self.main@,
            status: match self.status {
                Some(span) => Some(span@),
                None => None,
            },
        }
    }
}

/// The footer.
pub open spec fn footer_of(app: AppView, wide: bool) -> FooterView {
    if app.search_mode {
        FooterView { main: search_line(app.search), status: None }
    } else {
        FooterView {
            main: help_line(wide),
            status: if wide {
                Some(
                    crate::style::span_of(
                        match app.status {
                            Some(status) => status,
                            None => "no notifications · local only"@,
                        },
                        ink(Color::Dim),
                    ),
                )
            } else {
                None
            },
        }
    }
}

/// Puts a key and what it does at the end of a line.
fn push_help(line: &mut Line, name: &str, meaning: &str)
    ensures
        final(line)@ == old(line)@.push(key_of(name@)).push(hint_of(meaning@)),
{
    line.push(key(name));
    line.push(hint(meaning));
}

/// Makes the footer.
pub fn footer(app: &App, wide: bool) -> (pane: FooterPane)
    ensures
        pane@ == footer_of(app@, wide),
{
    if app.search_mode {
        let mut line = Line::of(label(" / ", bold_chip(Color::Black, Color::Amber)));
        line.push(label(app.search.as_str(), ink(Color::White)));
        line.push(label("█", ink(Color::Amber)));
        line.push(label("  enter accept  esc cancel", ink(Color::Dim)));
        assert(line@ =~= search_line(app@.search));
        return FooterPane { main: line, status: None };
    }
    let mut line = Line::new();
    push_help(&mut line, "j/k", " move  ");
    if !wide {
        push_help(&mut line, "/", " find  ");
        push_help(&mut line, "w", " root  ");
        push_help(&mut line, "1-6", " types  ");
        push_help(&mut line, "t", " folders  ");
        push_help(&mut line, "spc", " pause  ");
        push_help(&mut line, "q", " quit");
        assert(line@ =~= help_line(false));
        return FooterPane { main: line, status: None };
    }
    push_help(&mut line, "/", " search  ");
    push_help(&mut line, "w", " workspace  ");
    push_help(&mut line, "1-6", " filters  ");
    push_help(&mut line, "t", " folders  ");
    push_help(&mut line, "space", " pause  ");
    push_help(&mut line, "c", " clear  ");
    push_help(&mut line, "q", " quit");
    assert(line@ =~= help_line(true));
    let status = match &app.status {
        Some(status) => status.as_str(),
        None => "no notifications · local only",
    };
    FooterPane { main: line, status: Some(label(status, ink(Color::Dim))) }
}

/// The selected event has the same colour, the same badge and the same workspace
/// in the timeline and in the preview.
pub proof fn row_and_preview_go_together(
    app: AppView,
    watch: WatchView,
    width: u16,
    height: u16,
    event: EventView,
    now: u64,
)
    requires
        app.selection() == Some(event),
    ensures
        ({
            let row = first_line(event, true, width as int, watch, now);
            &&& timeline_of(app, watch, width, height, now).color == color_of(event)
            &&& detail_of(app, watch, now) matches DetailView::Event { title, color, lines }
            &&& color == color_of(event)
            &&& lines.len() > 0 && lines[0].len() > 1
            &&& row[1] == lines[0][0]
            &&& row[2] == lines[0][1]
        }),
{
}

} // verus!
