//! The events of the timeline.

use crate::path::{FsPath, Parts};
use crate::text::Text;
use vstd::prelude::*;

verus! {

/// What happened.
#[derive(Clone, Copy, Debug, Hash, PartialEq, Eq, Structural)]
pub enum ChangeKind {
    Create,
    Modify,
    Rename,
    Delete,
    Git,
    Work,
    Integrity,
}

/// How many kinds of event there are.
pub const KINDS: usize = 7;

impl ChangeKind {
    /// The kinds in the order in which the filters list them.
    pub const ALL: [ChangeKind; 7] = [
        ChangeKind::Modify,
        ChangeKind::Create,
        ChangeKind::Rename,
        ChangeKind::Delete,
        ChangeKind::Git,
        ChangeKind::Work,
        ChangeKind::Integrity,
    ];

    /// The name of a kind.
    pub open spec fn label_text(self) -> Text {
        match self {
            ChangeKind::Create => "CREATE"@,
            ChangeKind::Modify => "MODIFY"@,
            ChangeKind::Rename => "MOVE"@,
            ChangeKind::Delete => "DELETE"@,
            ChangeKind::Git => "GIT"@,
            ChangeKind::Work => "WORK"@,
            ChangeKind::Integrity => "INTEGRITY"@,
        }
    }

    /// Names the kind.
    pub fn label(self) -> (label: &'static str)
        ensures
            label@ == self.label_text(),
    {
        match self {
            ChangeKind::Create => "CREATE",
            ChangeKind::Modify => "MODIFY",
            ChangeKind::Rename => "MOVE",
            ChangeKind::Delete => "DELETE",
            ChangeKind::Git => "GIT",
            ChangeKind::Work => "WORK",
            ChangeKind::Integrity => "INTEGRITY",
        }
    }

    /// The sign of a kind.
    pub open spec fn symbol_text(self) -> Text {
        match self {
            ChangeKind::Create => "+"@,
            ChangeKind::Modify => "~"@,
            ChangeKind::Rename => ">"@,
            ChangeKind::Delete => "-"@,
            ChangeKind::Git => "◆"@,
            ChangeKind::Work => "●"@,
            ChangeKind::Integrity => "!"@,
        }
    }

    /// Gives the sign of the kind.
    pub fn symbol(self) -> (symbol: &'static str)
        ensures
            symbol@ == self.symbol_text(),
    {
        match self {
            ChangeKind::Create => "+",
            ChangeKind::Modify => "~",
            ChangeKind::Rename => ">",
            ChangeKind::Delete => "-",
            ChangeKind::Git => "◆",
            ChangeKind::Work => "●",
            ChangeKind::Integrity => "!",
        }
    }

    /// The place of a kind in `ALL`.
    pub open spec fn place(self) -> int {
        match self {
            ChangeKind::Modify => 0,
            ChangeKind::Create => 1,
            ChangeKind::Rename => 2,
            ChangeKind::Delete => 3,
            ChangeKind::Git => 4,
            ChangeKind::Work => 5,
            ChangeKind::Integrity => 6,
        }
    }

    /// Finds the place of the kind in `ALL`.
    pub fn index(self) -> (index: usize)
        ensures
            index == self.place(),
            index < KINDS,
    {
        match self {
            ChangeKind::Modify => 0,
            ChangeKind::Create => 1,
            ChangeKind::Rename => 2,
            ChangeKind::Delete => 3,
            ChangeKind::Git => 4,
            ChangeKind::Work => 5,
            ChangeKind::Integrity => 6,
        }
    }
}

/// Every kind stands in `ALL` at its place, and so exactly once.
pub proof fn kinds_are_listed_once(kind: ChangeKind)
    ensures
        0 <= kind.place() < KINDS,
        ChangeKind::ALL@[kind.place()] == kind,
        forall|i: int| 0 <= i < KINDS && ChangeKind::ALL@[i] == kind ==> i == kind.place(),
{
}

/// What an event is about.
#[derive(Clone, Copy, Debug, PartialEq, Eq, Structural)]
pub enum TargetKind {
    File,
    Directory,
    Repository,
    WorkItem,
    Observer,
}

/// How far the observation can be trusted.
#[derive(Clone, Copy, Debug, PartialEq, Eq, Structural)]
pub enum IntegrityLevel {
    Info,
    Degraded,
    Uncertain,
    Lost,
}

impl IntegrityLevel {
    /// The name of a level.
    pub open spec fn label_text(self) -> Text {
        match self {
            IntegrityLevel::Info => "INFO"@,
            IntegrityLevel::Degraded => "DEGRADED"@,
            IntegrityLevel::Uncertain => "UNCERTAIN"@,
            IntegrityLevel::Lost => "LOST"@,
        }
    }

    /// Names the level.
    pub fn label(self) -> (label: &'static str)
        ensures
            label@ == self.label_text(),
    {
        match self {
            IntegrityLevel::Info => "INFO",
            IntegrityLevel::Degraded => "DEGRADED",
            IntegrityLevel::Uncertain => "UNCERTAIN",
            IntegrityLevel::Lost => "LOST",
        }
    }

    /// How grave a level is.
    pub open spec fn rank(self) -> int {
        match self {
            IntegrityLevel::Info => 0,
            IntegrityLevel::Degraded => 1,
            IntegrityLevel::Uncertain => 2,
            IntegrityLevel::Lost => 3,
        }
    }

    /// Ranks the level.
    pub fn severity(self) -> (rank: u8)
        ensures
            rank == self.rank(),
    {
        match self {
            IntegrityLevel::Info => 0,
            IntegrityLevel::Degraded => 1,
            IntegrityLevel::Uncertain => 2,
            IntegrityLevel::Lost => 3,
        }
    }
}

/// Levels of the same gravity are the same level.
pub proof fn levels_are_ranked_apart(a: IntegrityLevel, b: IntegrityLevel)
    ensures
        a.rank() == b.rank() ==> a == b,
{
}

/// A report on the observation itself.
#[derive(Clone, Debug)]
pub struct IntegrityEvent {
    pub level: IntegrityLevel,
    pub source: &'static str,
    pub summary: String,
    pub detail: String,
    pub root: FsPath,
}

/// What a report on the observation says.
#[verifier::ext_equal]
pub struct IntegrityView {
    pub level: IntegrityLevel,
    pub source: Text,
    pub summary: Text,
    pub detail: Text,
    pub root: Parts,
}

impl View for IntegrityEvent {
    type V = IntegrityView;

    open spec fn view(&self) -> IntegrityView {
        IntegrityView {
            level: self.level,
            source: self.source@,
            summary: self.summary@,
            detail: self.detail@,
            root: self.root@,
        }
    }
}

/// Builds a report.
pub fn integrity(
    level: IntegrityLevel,
    source: &'static str,
    summary: &str,
    detail: &str,
    root: &FsPath,
) -> (event: IntegrityEvent)
    ensures
        event@ == integrity_view(level, source@, summary@, detail@, root@),
{
    IntegrityEvent {
        level,
        source,
        summary: summary.to_owned(),
        detail: detail.to_owned(),
        root: root.clone(),
    }
}

/// A report of these contents.
pub open spec fn integrity_view(
    level: IntegrityLevel,
    source: Text,
    summary: Text,
    detail: Text,
    root: Parts,
) -> IntegrityView {
    IntegrityView { level, source, summary, detail, root }
}

/// The contents of a list of reports.
pub open spec fn integrity_views(events: Seq<IntegrityEvent>) -> Seq<IntegrityView> {
    events.map_values(|event: IntegrityEvent| event@)
}

/// What a line of a diff is.
#[derive(Clone, Copy, Debug, PartialEq, Eq, Structural)]
pub enum DiffKind {
    Add,
    Remove,
    Equal,
}

/// A line of a diff.
#[derive(Clone, Debug)]
pub struct DiffLine {
    pub kind: DiffKind,
    pub old_number: Option<usize>,
    pub new_number: Option<usize>,
    pub text: String,
}

/// What a line of a diff says.
#[verifier::ext_equal]
pub struct DiffLineView {
    pub kind: DiffKind,
    pub old_number: Option<usize>,
    pub new_number: Option<usize>,
    pub text: Text,
}

impl View for DiffLine {
    type V = DiffLineView;

    open spec fn view(&self) -> DiffLineView {
        DiffLineView {
            kind: self.kind,
            old_number: self.old_number,
            new_number: self.new_number,
            text: self.text@,
        }
    }
}

/// The contents of a diff.
pub open spec fn diff_views(lines: Seq<DiffLine>) -> Seq<DiffLineView> {
    lines.map_values(|line: DiffLine| line@)
}

/// An event of the timeline. Times are nanoseconds on a clock that never runs
/// backwards.
#[derive(Clone, Debug)]
pub struct ChangeEvent {
    pub id: u64,
    pub kind: ChangeKind,
    pub target: TargetKind,
    pub path: FsPath,
    pub previous_path: Option<FsPath>,
    pub root: FsPath,
    pub occurred_at: u64,
    pub size: u64,
    pub lines_added: usize,
    pub lines_removed: usize,
    pub diff: Vec<DiffLine>,
    pub detail: Option<String>,
    pub integrity_level: Option<IntegrityLevel>,
}

/// What an event says.
#[verifier::ext_equal]
pub struct EventView {
    pub id: u64,
    pub kind: ChangeKind,
    pub target: TargetKind,
    pub path: Parts,
    pub previous_path: Option<Parts>,
    pub root: Parts,
    pub occurred_at: u64,
    pub size: u64,
    pub lines_added: usize,
    pub lines_removed: usize,
    pub diff: Seq<DiffLineView>,
    pub detail: Option<Text>,
    pub integrity_level: Option<IntegrityLevel>,
}

impl View for ChangeEvent {
    type V = EventView;

    open spec fn view(&self) -> EventView {
        EventView {
            id: self.id,
            kind: self.kind,
            target: self.target,
            path: self.path@,
            previous_path: crate::path::opt_path(self.previous_path),
            root: self.root@,
            occurred_at: self.occurred_at,
            size: self.size,
            lines_added: self.lines_added,
            lines_removed: self.lines_removed,
            diff: diff_views(self.diff@),
            detail: crate::text::opt_text(self.detail),
            integrity_level: self.integrity_level,
        }
    }
}

impl EventView {
    /// How a path below the root of an event is written: as the root is.
    pub open spec fn written(self, path: Parts) -> Text {
        crate::path::written(path, crate::path::separator_of(self.root))
    }
}

impl ChangeEvent {
    /// Writes a path below the root of the event.
    pub fn write(&self, path: &FsPath) -> (out: String)
        ensures
            out@ == self@.written(path@),
    {
        path.display_with(self.root.separator())
    }
}

/// The contents of a list of events.
pub open spec fn event_views(events: Seq<ChangeEvent>) -> Seq<EventView> {
    events.map_values(|event: ChangeEvent| event@)
}

} // verus!
