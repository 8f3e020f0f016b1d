//! The line diff that an event carries.

use crate::model::{DiffKind, DiffLine, DiffLineView};
use crate::text::{trim_end, Text, Trimmed};
use vstd::prelude::*;

verus! {

/// How many lines of a diff are kept.
pub const MAX_DIFF_LINES: usize = 300;

/// How many unchanged lines surround a changed one.
pub const CONTEXT_LINES: usize = 2;

/// A line that the comparison of two texts speaks of: where it stands in the
/// older text, where in the newer one, and the line itself.
#[derive(Debug)]
pub struct LineChange {
    pub kind: DiffKind,
    pub old_index: Option<usize>,
    pub new_index: Option<usize>,
    pub value: String,
}

/// What a line of the comparison says.
#[verifier::ext_equal]
pub struct LineChangeView {
    pub kind: DiffKind,
    pub old_index: Option<usize>,
    pub new_index: Option<usize>,
    pub value: Text,
}

impl View for LineChange {
    type V = LineChangeView;

    open spec fn view(&self) -> LineChangeView {
        LineChangeView {
            kind: self.kind,
            old_index: self.old_index,
            new_index: self.new_index,
            value: self.value@,
        }
    }
}

/// The contents of a comparison.
pub open spec fn change_views(changes: Seq<LineChange>) -> Seq<LineChangeView> {
    changes.map_values(|change: LineChange| change@)
}

/// The changes that lead from one text to another line by line, each group of
/// them with `context` unchanged lines around it, as the `similar` crate finds
/// them.
pub uninterp spec fn grouped_changes(
    previous: Seq<char>,
    current: Seq<char>,
    context: usize,
) -> Seq<LineChangeView>;

/// Whether a line of a comparison stands where its kind says: a line that stayed
/// in both texts, a removed one in the older and an added one in the newer; and
/// whether the lines in front of it can be counted.
pub open spec fn well_placed(change: LineChangeView) -> bool {
    &&& (change.old_index is Some) == (change.kind != DiffKind::Add)
    &&& (change.new_index is Some) == (change.kind != DiffKind::Remove)
    &&& change.old_index matches Some(i) ==> i < usize::MAX
    &&& change.new_index matches Some(i) ==> i < usize::MAX
}

/// Where the line ends that starts at a place of a text: behind a line feed, behind
/// a carriage return that stands alone, behind both where the one follows the
/// other, or with the text.
pub open spec fn line_end(text: Text, from: int) -> int
    decreases text.len() - from,
{
    if from >= text.len() {
        text.len() as int
    } else if text[from] == '\n' {
        from + 1
    } else if text[from] == '\r' {
        if from + 1 < text.len() && text[from + 1] == '\n' {
            from + 2
        } else {
            from + 1
        }
    } else {
        line_end(text, from + 1)
    }
}

/// A line ends behind its start and inside its text.
pub proof fn lemma_line_end(text: Text, from: int)
    requires
        0 <= from < text.len(),
    ensures
        from < line_end(text, from) <= text.len(),
    decreases text.len() - from,
{
    if text[from] != '\n' && text[from] != '\r' {
        if from + 1 < text.len() {
            lemma_line_end(text, from + 1);
        } else {
            assert(line_end(text, from + 1) == text.len());
        }
    }
}

/// The lines of a text, each with what ends it.
pub open spec fn lines_of(text: Text) -> Seq<Text>
    decreases text.len(),
{
    if text.len() == 0 {
        Seq::empty()
    } else {
        let end = line_end(text, 0);
        proof {
            lemma_line_end(text, 0);
        }
        seq![text.take(end)] + lines_of(text.skip(end))
    }
}

/// Whether a line of a comparison is the very line that stands at its place in the
/// older text, and at its place in the newer one.
pub open spec fn is_line_of(change: LineChangeView, previous: Text, current: Text) -> bool {
    &&& change.old_index matches Some(i) ==> i < lines_of(previous).len() && change.value
        == lines_of(previous)[i as int]
    &&& change.new_index matches Some(i) ==> i < lines_of(current).len() && change.value
        == lines_of(current)[i as int]
}

/// Whether a changed line stands within `context` lines of the `i`-th of a
/// comparison.
pub open spec fn is_near(changes: Seq<LineChangeView>, i: int, context: int) -> bool {
    exists|j: int|
        0 <= j < changes.len() && i - context <= j <= i + context && (#[trigger] changes[j]).kind
            != DiffKind::Equal
}

/// Whether every unchanged line of a comparison stands within `context` lines of a
/// changed one.
pub open spec fn is_close(changes: Seq<LineChangeView>, context: int) -> bool {
    forall|i: int|
        0 <= i < changes.len() && changes[i].kind == DiffKind::Equal ==> #[trigger] is_near(
            changes,
            i,
            context,
        )
}

/// Whether the line after the `i`-th of a comparison stands right behind it, in each
/// text that both stand in.
pub open spec fn goes_on_at(changes: Seq<LineChangeView>, i: int) -> bool {
    let one = changes[i];
    let next = changes[i + 1];
    &&& one.old_index is Some && next.old_index is Some ==> next.old_index->0 == one.old_index->0
        + 1
    &&& one.new_index is Some && next.new_index is Some ==> next.new_index->0 == one.new_index->0
        + 1
}

/// Whether no line is left out within `context` lines of a changed one: neighbours
/// stand right behind each other there, and where there are fewer lines in front of
/// the changed one or behind it, its text begins or ends.
pub open spec fn is_gapless(
    changes: Seq<LineChangeView>,
    previous: Text,
    current: Text,
    context: int,
) -> bool {
    forall|i: int|
        0 <= i < changes.len() && (#[trigger] changes[i]).kind != DiffKind::Equal ==> {
            &&& forall|j: int|
                0 <= j && i - context <= j < i + context && j + 1 < changes.len()
                    ==> #[trigger] goes_on_at(changes, j)
            &&& i < context ==> {
                &&& changes[0].old_index matches Some(k) ==> k == 0
                &&& changes[0].new_index matches Some(k) ==> k == 0
            }
            &&& i + context >= changes.len() ==> {
                &&& changes.last().old_index matches Some(k) ==> k + 1 == lines_of(previous).len()
                &&& changes.last().new_index matches Some(k) ==> k + 1 == lines_of(current).len()
            }
        }
}

/// Whether two texts have no more lines together than 32 bits can number.
pub open spec fn is_numerable(previous: Text, current: Text) -> bool {
    lines_of(previous).len() + lines_of(current).len() <= u32::MAX
}

/// `similar::TextDiff::from_lines`, `TextDiff::grouped_ops` and
/// `TextDiff::iter_changes`: the changes of all groups in order. The result is
/// named; each line stands in the text or texts that its tag names, and is the line
/// there, as long as the lines can be told apart by the 32 bits that the crate
/// numbers them with; what was added less what was removed is what the newer text
/// has more lines; of two equal texts there are no changes; and a group holds no
/// unchanged line that is not within `context` lines of a changed one, and leaves out
/// none that is. Left unsaid is which
/// of the ways from one text to the other is found. The crate doubles the number of
/// unchanged lines, which therefore has to be small enough.
#[verifier::external_body]
pub(crate) fn compare_lines(previous: &str, current: &str, context: usize) -> (changes: Vec<
    LineChange,
>)
    requires
        context <= usize::MAX / 2,
    ensures
        change_views(changes@) == grouped_changes(previous@, current@, context),
        forall|i: int| 0 <= i < changes@.len() ==> well_placed((#[trigger] changes@[i])@),
        is_numerable(previous@, current@) ==> forall|i: int|
            0 <= i < changes@.len() ==> is_line_of(
                (#[trigger] changes@[i])@,
                previous@,
                current@,
            ),
        count_kind(change_views(changes@), DiffKind::Add) - count_kind(
            change_views(changes@),
            DiffKind::Remove,
        ) == lines_of(current@).len() - lines_of(previous@).len(),
        previous@ == current@ ==> changes@.len() == 0,
        is_close(change_views(changes@), context as int),
        is_gapless(change_views(changes@), previous@, current@, context as int),
{
    let diff = similar::TextDiff::from_lines(previous, current);
    let groups = diff.grouped_ops(context);
    groups.iter().flatten().flat_map(|operation| diff.iter_changes(operation)).map(
        |change| LineChange {
            kind: match change.tag() {
                similar::ChangeTag::Delete => DiffKind::Remove,
                similar::ChangeTag::Insert => DiffKind::Add,
                similar::ChangeTag::Equal => DiffKind::Equal,
            },
            old_index: change.old_index(),
            new_index: change.new_index(),
            value: change.value().to_string(),
        },
    ).collect()
}

/// The diff of an event.
#[derive(Debug)]
pub struct DiffResult {
    pub lines: Vec<DiffLine>,
    pub added: usize,
    pub removed: usize,
    pub detail: Option<String>,
}

/// What the diff of an event says.
#[verifier::ext_equal]
pub struct DiffView {
    pub lines: Seq<DiffLineView>,
    pub added: usize,
    pub removed: usize,
    pub detail: Option<Text>,
}

impl View for DiffResult {
    type V = DiffView;

    open spec fn view(&self) -> DiffView {
        DiffView {
            lines: crate::model::diff_views(self.lines@),
            added: self.added,
            removed: self.removed,
            detail: crate::text::opt_text(self.detail),
        }
    }
}

/// How many of some changes are of a kind.
pub open spec fn count_kind(changes: Seq<LineChangeView>, kind: DiffKind) -> nat
    decreases changes.len(),
{
    if changes.len() == 0 {
        0
    } else {
        count_kind(changes.drop_last(), kind) + (if changes.last().kind == kind {
            1nat
        } else {
            0nat
        })
    }
}

/// Added and removed lines together are no more than all lines.
pub proof fn lemma_counts(changes: Seq<LineChangeView>)
    ensures
        count_kind(changes, DiffKind::Add) + count_kind(changes, DiffKind::Remove) <= changes.len(),
    decreases changes.len(),
{
    if changes.len() > 0 {
        lemma_counts(changes.drop_last());
    }
}

/// The number of the line at an index: lines are counted from one.
pub open spec fn line_number(index: Option<usize>) -> Option<usize> {
    match index {
        Some(i) => Some((i + 1) as usize),
        None => None,
    }
}

/// The diff line of a change, without the line feed that ends it.
pub open spec fn diff_line(change: LineChangeView) -> DiffLineView {
    DiffLineView {
        kind: change.kind,
        old_number: line_number(change.old_index),
        new_number: line_number(change.new_index),
        text: crate::text::without_tail(change.value, Trimmed::LineFeed),
    }
}

/// Whether a line carries the numbers that its kind calls for: an added line its
/// number in the newer text alone, a removed one its number in the older text
/// alone, and a line that stayed both.
pub open spec fn well_numbered(line: DiffLineView) -> bool {
    &&& (line.old_number is Some) == (line.kind != DiffKind::Add)
    &&& (line.new_number is Some) == (line.kind != DiffKind::Remove)
}

/// Whether a line of a diff shows the line that its numbers name, of the older text
/// and of the newer one, without the line feed that ends it.
pub open spec fn shows_line(line: DiffLineView, previous: Text, current: Text) -> bool {
    &&& line.old_number matches Some(n) ==> 1 <= n <= lines_of(previous).len() && line.text
        == crate::text::without_tail(lines_of(previous)[n - 1], Trimmed::LineFeed)
    &&& line.new_number matches Some(n) ==> 1 <= n <= lines_of(current).len() && line.text
        == crate::text::without_tail(lines_of(current)[n - 1], Trimmed::LineFeed)
}

/// The diff that some changes make: the first lines of it, and the count of all
/// that were added and removed.
pub open spec fn summary_of(changes: Seq<LineChangeView>) -> DiffView {
    let added = count_kind(changes, DiffKind::Add);
    let removed = count_kind(changes, DiffKind::Remove);
    DiffView {
        lines: changes.take(
            if changes.len() < MAX_DIFF_LINES {
                changes.len() as int
            } else {
                MAX_DIFF_LINES as int
            },
        ).map_values(|change: LineChangeView| diff_line(change)),
        added: added as usize,
        removed: removed as usize,
        detail: if added + removed > MAX_DIFF_LINES {
            Some("diff preview truncated"@)
        } else {
            None
        },
    }
}

/// The diff of texts one of which is not at hand.
pub open spec fn unavailable(detail: Text) -> DiffView {
    DiffView { lines: Seq::empty(), added: 0, removed: 0, detail: Some(detail) }
}

/// The diff from one text to another.
pub open spec fn diff_of(previous: Option<Text>, current: Option<Text>) -> DiffView {
    match (previous, current) {
        (Some(p), Some(c)) => summary_of(grouped_changes(p, c, CONTEXT_LINES)),
        _ => unavailable("binary, unreadable, or larger than 1 MiB"@),
    }
}

/// Makes a diff of some changes.
pub fn summarize_changes(changes: &Vec<LineChange>) -> (diff: DiffResult)
    requires
        forall|i: int| 0 <= i < changes@.len() ==> well_placed((#[trigger] changes@[i])@),
    ensures
        diff@ == summary_of(change_views(changes@)),
        forall|i: int| 0 <= i < diff@.lines.len() ==> well_numbered(#[trigger] diff@.lines[i]),
{
    let mut lines: Vec<DiffLine> = Vec::new();
    let mut added: usize = 0;
    let mut removed: usize = 0;
    let mut i: usize = 0;
    let ghost all = change_views(changes@);
    let ghost make = |change: LineChangeView| diff_line(change);
    while i < changes.len()
        invariant
            i <= changes@.len(),
            all == change_views(changes@),
            make == (|change: LineChangeView| diff_line(change)),
            forall|j: int| 0 <= j < changes@.len() ==> well_placed((#[trigger] changes@[j])@),
            added == count_kind(all.take(i as int), DiffKind::Add),
            removed == count_kind(all.take(i as int), DiffKind::Remove),
            added + removed <= i,
            lines@.len() == (if i < MAX_DIFF_LINES {
                i
            } else {
                MAX_DIFF_LINES
            }),
            crate::model::diff_views(lines@) =~= all.take(lines@.len() as int).map_values(make),
        decreases changes@.len() - i,
    {
        let change = &changes[i];
        assert(well_placed(change@));
        proof {
            assert(all.take(i + 1).drop_last() =~= all.take(i as int));
            assert(all.take(i + 1).last() == change@);
            lemma_counts(all.take(i + 1));
        }
        match change.kind {
            DiffKind::Remove => {
                removed += 1;
            },
            DiffKind::Add => {
                added += 1;
            },
            DiffKind::Equal => {},
        }
        if lines.len() < MAX_DIFF_LINES {
            let line = DiffLine {
                kind: change.kind,
                old_number: match change.old_index {
                    Some(index) => Some(index + 1),
                    None => None,
                },
                new_number: match change.new_index {
                    Some(index) => Some(index + 1),
                    None => None,
                },
                text: trim_end(change.value.as_str(), Trimmed::LineFeed),
            };
            assert(line@ == diff_line(change@));
            let ghost before = lines@;
            lines.push(line);
            assert(crate::model::diff_views(lines@) =~= crate::model::diff_views(before).push(
                line@,
            ));
            assert(all.take(i + 1) =~= all.take(i as int).push(change@));
        }
        i += 1;
    }
    assert(all.take(i as int) =~= all);
    let detail = if added + removed > MAX_DIFF_LINES {
        Some("diff preview truncated".to_owned())
    } else {
        None
    };
    let diff = DiffResult { lines, added, removed, detail };
    assert forall|k: int| 0 <= k < diff@.lines.len() implies well_numbered(
        #[trigger] diff@.lines[k],
    ) by {
        assert(diff@.lines[k] == diff_line(all[k]));
        assert(well_placed(changes@[k]@));
    }
    diff
}

/// The text that an optional string slice holds.
pub open spec fn opt_str(s: Option<&str>) -> Option<Text> {
    match s {
        Some(s) => Some(s@),
        None => None,
    }
}

/// A diff that only explains why there is none.
pub fn no_diff(detail: &str) -> (diff: DiffResult)
    ensures
        diff@ == unavailable(detail@),
{
    let diff = DiffResult {
        lines: Vec::new(),
        added: 0,
        removed: 0,
        detail: Some(detail.to_owned()),
    };
    assert(diff@ =~= unavailable(detail@));
    diff
}

/// Makes the diff from one text to another.
pub fn build_diff(previous: Option<&str>, current: Option<&str>) -> (diff: DiffResult)
    ensures
        diff@ == diff_of(opt_str(previous), opt_str(current)),
        forall|i: int| 0 <= i < diff@.lines.len() ==> well_numbered(#[trigger] diff@.lines[i]),
        opt_str(previous) is Some && opt_str(previous) == opt_str(current) ==> {
            &&& diff@.lines.len() == 0
            &&& diff@.added == 0
            &&& diff@.removed == 0
            &&& diff@.detail is None
        },
        (opt_str(previous), opt_str(current)) matches (Some(p), Some(c)) ==> {
            &&& diff@.added - diff@.removed == lines_of(c).len() - lines_of(p).len()
            &&& is_numerable(p, c) ==> forall|i: int|
                0 <= i < diff@.lines.len() ==> shows_line(#[trigger] diff@.lines[i], p, c)
            &&& shows_near_lines(diff@.lines)
            &&& leaves_out_no_near_line(diff@.lines, lines_of(p).len(), lines_of(c).len())
            &&& diff@.added + diff@.removed > 0 ==> begins_with_change(diff@.lines)
            &&& diff@.lines.len() <= 300
            &&& diff@.lines.len() < 300 ==> diff@.added == count_lines(diff@.lines, DiffKind::Add)
                && diff@.removed == count_lines(diff@.lines, DiffKind::Remove)
            &&& diff@.detail == (if diff@.added + diff@.removed > 300 {
                Some("diff preview truncated"@)
            } else {
                None
            })
        },
        opt_str(previous) is None || opt_str(current) is None ==> {
            &&& diff@.lines.len() == 0
            &&& diff@.added == 0
            &&& diff@.removed == 0
            &&& diff@.detail == Some("binary, unreadable, or larger than 1 MiB"@)
        },
{
    match (previous, current) {
        (Some(previous), Some(current)) => {
            let changes = compare_lines(previous, current, CONTEXT_LINES);
            let diff = summarize_changes(&changes);
            proof {
                let all = change_views(changes@);
                lemma_counts(all);
                assert(all.len() == changes.len());
                diffs_show_what_changed(all, previous@, current@);
                assert forall|i: int|
                    is_numerable(previous@, current@) && 0 <= i
                        < diff@.lines.len() implies shows_line(
                    #[trigger] diff@.lines[i],
                    previous@,
                    current@,
                ) by {
                    assert(diff@.lines[i] == diff_line(all[i]));
                    assert(well_placed(changes@[i]@));
                    assert(is_line_of(changes@[i]@, previous@, current@));
                }
            }
            diff
        },
        _ => no_diff("binary, unreadable, or larger than 1 MiB"),
    }
}

/// Whether a changed line stands within two lines of the `i`-th of a diff.
pub open spec fn is_near_change(lines: Seq<DiffLineView>, i: int) -> bool {
    exists|j: int|
        0 <= j < lines.len() && i - 2 <= j <= i + 2 && (#[trigger] lines[j]).kind
            != DiffKind::Equal
}

/// Whether every unchanged line of a diff stands within two lines of a changed one,
/// as far as the diff was not cut off behind it.
pub open spec fn shows_near_lines(lines: Seq<DiffLineView>) -> bool {
    forall|i: int|
        0 <= i < lines.len() && i + 2 < 300 && lines[i].kind == DiffKind::Equal
            ==> #[trigger] is_near_change(lines, i)
}

/// Whether one of the first three lines of a diff is a changed one.
pub open spec fn begins_with_change(lines: Seq<DiffLineView>) -> bool {
    exists|i: int|
        0 <= i < 3 && i < lines.len() && (#[trigger] lines[i]).kind != DiffKind::Equal
}

/// Whether the line after the `i`-th of a diff bears the next number, in each text
/// that both stand in.
pub open spec fn counts_on_at(lines: Seq<DiffLineView>, i: int) -> bool {
    let one = lines[i];
    let next = lines[i + 1];
    &&& one.old_number is Some && next.old_number is Some ==> next.old_number->0
        == one.old_number->0 + 1
    &&& one.new_number is Some && next.new_number is Some ==> next.new_number->0
        == one.new_number->0 + 1
}

/// Whether a diff that was not cut off leaves out no line within two lines of a
/// changed one, given how many lines the texts have.
pub open spec fn leaves_out_no_near_line(lines: Seq<DiffLineView>, old: nat, new: nat) -> bool {
    lines.len() < 300 ==> forall|i: int|
        0 <= i < lines.len() && (#[trigger] lines[i]).kind != DiffKind::Equal ==> {
            &&& forall|j: int|
                0 <= j && i - 2 <= j < i + 2 && j + 1 < lines.len() ==> #[trigger] counts_on_at(
                    lines,
                    j,
                )
            &&& i < 2 ==> {
                &&& lines[0].old_number matches Some(n) ==> n == 1
                &&& lines[0].new_number matches Some(n) ==> n == 1
            }
            &&& i + 2 >= lines.len() ==> {
                &&& lines.last().old_number matches Some(n) ==> n == old
                &&& lines.last().new_number matches Some(n) ==> n == new
            }
        }
}

/// How many lines of a diff are of a kind.
pub open spec fn count_lines(lines: Seq<DiffLineView>, kind: DiffKind) -> nat
    decreases lines.len(),
{
    if lines.len() == 0 {
        0
    } else {
        count_lines(lines.drop_last(), kind) + (if lines.last().kind == kind {
            1nat
        } else {
            0nat
        })
    }
}

/// The lines of a diff are counted as its changes are.
proof fn lemma_lines_counted(changes: Seq<LineChangeView>, kind: DiffKind)
    ensures
        count_lines(changes.map_values(|change: LineChangeView| diff_line(change)), kind)
            == count_kind(changes, kind),
    decreases changes.len(),
{
    let make = |change: LineChangeView| diff_line(change);
    let lines = changes.map_values(make);
    if changes.len() > 0 {
        lemma_lines_counted(changes.drop_last(), kind);
        assert(lines.drop_last() =~= changes.drop_last().map_values(make));
    }
}

/// A count is positive only where there is something to count.
proof fn lemma_counted_lines_are_there(changes: Seq<LineChangeView>, kind: DiffKind)
    requires
        count_kind(changes, kind) > 0,
    ensures
        exists|i: int| 0 <= i < changes.len() && (#[trigger] changes[i]).kind == kind,
    decreases changes.len(),
{
    if changes.last().kind != kind {
        lemma_counted_lines_are_there(changes.drop_last(), kind);
        let i = choose|i: int|
            0 <= i < changes.drop_last().len() && (#[trigger] changes.drop_last()[i]).kind == kind;
        assert(changes[i].kind == kind);
    }
}

/// The diff of a comparison that keeps two unchanged lines around a changed one
/// shows the change: each unchanged line is near a changed one, the first changed
/// line is among the first three, and what is not cut off is counted by the lines
/// that are shown.
pub proof fn diffs_show_what_changed(changes: Seq<LineChangeView>, previous: Text, current: Text)
    requires
        is_close(changes, 2),
        is_gapless(changes, previous, current, 2),
        forall|i: int| 0 <= i < changes.len() ==> well_placed(#[trigger] changes[i]),
        changes.len() <= usize::MAX,
    ensures
        shows_near_lines(summary_of(changes).lines),
        leaves_out_no_near_line(
            summary_of(changes).lines,
            lines_of(previous).len(),
            lines_of(current).len(),
        ),
        summary_of(changes).added + summary_of(changes).removed > 0 ==> begins_with_change(
            summary_of(changes).lines,
        ),
        summary_of(changes).lines.len() <= 300,
        summary_of(changes).lines.len() < 300 ==> summary_of(changes).added == count_lines(
            summary_of(changes).lines,
            DiffKind::Add,
        ) && summary_of(changes).removed == count_lines(
            summary_of(changes).lines,
            DiffKind::Remove,
        ),
        summary_of(changes).detail == (if summary_of(changes).added + summary_of(changes).removed
            > 300 {
            Some("diff preview truncated"@)
        } else {
            None
        }),
{
    let lines = summary_of(changes).lines;
    lemma_counts(changes);
    assert forall|i: int|
        0 <= i < lines.len() && i + 2 < 300 && lines[i].kind
            == DiffKind::Equal implies #[trigger] is_near_change(lines, i) by {
        assert(changes[i].kind == DiffKind::Equal);
        assert(is_near(changes, i, 2));
        let j = choose|j: int|
            0 <= j < changes.len() && i - 2 <= j <= i + 2 && (#[trigger] changes[j]).kind
                != DiffKind::Equal;
        assert(lines[j] == diff_line(changes[j]));
    }
    if lines.len() < 300 {
        assert(changes.take(changes.len() as int) =~= changes);
        lemma_lines_counted(changes, DiffKind::Add);
        lemma_lines_counted(changes, DiffKind::Remove);
        lemma_gapless(changes, previous, current);
    }
    if count_kind(changes, DiffKind::Add) + count_kind(changes, DiffKind::Remove) > 0 {
        if count_kind(changes, DiffKind::Add) > 0 {
            lemma_counted_lines_are_there(changes, DiffKind::Add);
        } else {
            lemma_counted_lines_are_there(changes, DiffKind::Remove);
        }
        if changes[0].kind == DiffKind::Equal {
            assert(is_near(changes, 0, 2));
        }
        let k = if changes[0].kind != DiffKind::Equal {
            0
        } else {
            choose|j: int|
                0 <= j < changes.len() && 0 - 2 <= j <= 0 + 2 && (#[trigger] changes[j]).kind
                    != DiffKind::Equal
        };
        assert(lines[k] == diff_line(changes[k]));
    }
}

/// A comparison without gaps makes a diff without gaps.
proof fn lemma_gapless(changes: Seq<LineChangeView>, previous: Text, current: Text)
    requires
        is_gapless(changes, previous, current, 2),
        forall|i: int| 0 <= i < changes.len() ==> well_placed(#[trigger] changes[i]),
    ensures
        leaves_out_no_near_line(
            changes.map_values(|change: LineChangeView| diff_line(change)),
            lines_of(previous).len(),
            lines_of(current).len(),
        ),
{
    let lines = changes.map_values(|change: LineChangeView| diff_line(change));
    assert forall|i: int| 0 <= i < lines.len() && (#[trigger] lines[i]).kind != DiffKind::Equal implies {
        &&& forall|j: int|
            0 <= j && i - 2 <= j < i + 2 && j + 1 < lines.len() ==> #[trigger] counts_on_at(
                lines,
                j,
            )
        &&& i < 2 ==> {
            &&& lines[0].old_number matches Some(n) ==> n == 1
            &&& lines[0].new_number matches Some(n) ==> n == 1
        }
        &&& i + 2 >= lines.len() ==> {
            &&& lines.last().old_number matches Some(n) ==> n == lines_of(previous).len()
            &&& lines.last().new_number matches Some(n) ==> n == lines_of(current).len()
        }
    } by {
        assert(changes[i].kind != DiffKind::Equal);
        assert forall|j: int|
            0 <= j && i - 2 <= j < i + 2 && j + 1 < lines.len() implies #[trigger] counts_on_at(
            lines,
            j,
        ) by {
            assert(goes_on_at(changes, j));
            assert(well_placed(changes[j]) && well_placed(changes[j + 1]));
        }
        assert(well_placed(changes[0]) && well_placed(changes.last()));
        assert(lines[0] == diff_line(changes[0]));
        assert(lines.last() == diff_line(changes.last()));
    }
}

/// A diff never keeps more lines than its limit, keeps all of a short one, and
/// keeps them in order.
pub proof fn diff_preview_is_bounded(changes: Seq<LineChangeView>)
    ensures
        summary_of(changes).lines.len() <= MAX_DIFF_LINES,
        changes.len() <= MAX_DIFF_LINES ==> summary_of(changes).lines.len() == changes.len(),
        forall|i: int|
            0 <= i < summary_of(changes).lines.len() ==> #[trigger] summary_of(changes).lines[i]
                == diff_line(changes[i]),
{
}

/// A line of a diff shows what changed there: it is of the kind of the change, bears the
/// numbers of its line in the two texts, counted from one, and reads as the line does,
/// without its end. The first three hundred lines are shown, in order.
pub proof fn lines_are_shown_as_they_stand(changes: Seq<LineChangeView>, i: int, body: Text)
    requires
        0 <= i < changes.len(),
        i < 300,
        well_placed(changes[i]),
        body.len() > 0 ==> body.last() != '\n',
        changes[i].value == body || changes[i].value == body.push('\n'),
    ensures
        ({
            let lines = summary_of(changes).lines;
            &&& lines.len() == (if changes.len() < 300 {
                changes.len()
            } else {
                300
            })
            &&& lines[i].kind == changes[i].kind
            &&& lines[i].text == body
            &&& (lines[i].old_number is Some) == (changes[i].old_index is Some)
            &&& (lines[i].new_number is Some) == (changes[i].new_index is Some)
            &&& changes[i].old_index matches Some(k) ==> lines[i].old_number->0 == k + 1
            &&& changes[i].new_index matches Some(k) ==> lines[i].new_number->0 == k + 1
        }),
{
    reveal_with_fuel(crate::text::without_tail, 2);
    assert(body.push('\n').drop_last() =~= body);
    assert(crate::text::without_tail(body, Trimmed::LineFeed) == body);
    assert(summary_of(changes).lines[i] == diff_line(changes[i]));
}

/// A line does not end where none of its characters ends it.
proof fn lemma_line_goes_on(text: Text, from: int, to: int)
    requires
        0 <= from <= to <= text.len(),
        forall|i: int| from <= i < to ==> text[i] != '\n' && text[i] != '\r',
    ensures
        line_end(text, from) == line_end(text, to),
    decreases to - from,
{
    if from < to {
        lemma_line_goes_on(text, from + 1, to);
    }
}

/// A text is its lines, each with its end: a line feed, a carriage return, or both. The
/// last line needs no end.
pub proof fn lines_keep_their_ends(body: Text, rest: Text)
    requires
        !body.contains('\n'),
        !body.contains('\r'),
    ensures
        lines_of(Seq::empty()).len() == 0,
        body.len() > 0 ==> lines_of(body) == seq![body],
        lines_of(body.push('\n') + rest) == seq![body.push('\n')] + lines_of(rest),
        lines_of(body.push('\r').push('\n') + rest) == seq![body.push('\r').push('\n')] + lines_of(
            rest,
        ),
        rest.len() == 0 || rest[0] != '\n' ==> lines_of(body.push('\r') + rest) == seq![
            body.push('\r'),
        ] + lines_of(rest),
{
    reveal_with_fuel(lines_of, 2);
    let n = body.len() as int;
    assert forall|i: int| 0 <= i < n implies body[i] != '\n' && body[i] != '\r' by {
        assert(body.contains(body[i]));
    }
    lemma_line_goes_on(body, 0, n);
    assert(body.take(n) =~= body);
    assert(body.skip(n) =~= Seq::<char>::empty());
    if body.len() > 0 {
        assert(lines_of(body) =~= seq![body]);
    }
    let fed = body.push('\n') + rest;
    assert forall|i: int| 0 <= i < n implies fed[i] != '\n' && fed[i] != '\r' by {
        assert(fed[i] == body[i]);
    }
    lemma_line_goes_on(fed, 0, n);
    assert(fed[n] == '\n');
    assert(fed.take(n + 1) =~= body.push('\n'));
    assert(fed.skip(n + 1) =~= rest);
    let both = body.push('\r').push('\n') + rest;
    assert forall|i: int| 0 <= i < n implies both[i] != '\n' && both[i] != '\r' by {
        assert(both[i] == body[i]);
    }
    lemma_line_goes_on(both, 0, n);
    assert(both[n] == '\r' && both[n + 1] == '\n');
    assert(both.take(n + 2) =~= body.push('\r').push('\n'));
    assert(both.skip(n + 2) =~= rest);
    let returned = body.push('\r') + rest;
    assert forall|i: int| 0 <= i < n implies returned[i] != '\n' && returned[i] != '\r' by {
        assert(returned[i] == body[i]);
    }
    lemma_line_goes_on(returned, 0, n);
    assert(returned[n] == '\r');
    if rest.len() > 0 {
        assert(returned[n + 1] == rest[0]);
    }
    if rest.len() == 0 || rest[0] != '\n' {
        assert(returned.take(n + 1) =~= body.push('\r'));
        assert(returned.skip(n + 1) =~= rest);
    }
}

} // verus!
