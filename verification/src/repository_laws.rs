//! How repositories are read and observed.

use crate::git::{GitActivityView, GitOperation, OperationMarks, RefView, RepoReadings, RepoView};
use crate::git_monitor::{
    AttemptView, DirtyView, GitMessage, GitNews, MonitorView, ProbeView, RepositoryView,
};
use crate::model::{IntegrityLevel, IntegrityView};
use crate::path::{PartView, Parts};
use crate::recovery::RecoveryState;
use crate::text::Text;
use crate::watcher::{FailedView, NotifyFault};
use vstd::prelude::*;

verus! {

/// Which operation is under way is read from the marks that Git leaves: a merge before
/// a rebase, a rebase before a cherry-pick, that before a revert, and a bisection last.
pub proof fn operations_are_read_from_their_marks(marks: OperationMarks)
    ensures
        marks.merge_head ==> crate::git::operation_of(marks) == Some(GitOperation::Merge),
        !marks.merge_head && (marks.rebase_merge || marks.rebase_apply)
            ==> crate::git::operation_of(marks) == Some(GitOperation::Rebase),
        !marks.merge_head && !marks.rebase_merge && !marks.rebase_apply && marks.cherry_pick_head
            ==> crate::git::operation_of(marks) == Some(GitOperation::CherryPick),
        !marks.merge_head && !marks.rebase_merge && !marks.rebase_apply && !marks.cherry_pick_head
            && marks.revert_head ==> crate::git::operation_of(marks) == Some(GitOperation::Revert),
        !marks.merge_head && !marks.rebase_merge && !marks.rebase_apply && !marks.cherry_pick_head
            && !marks.revert_head && marks.bisect_start ==> crate::git::operation_of(marks) == Some(
            GitOperation::Bisect,
        ),
        !marks.merge_head && !marks.rebase_merge && !marks.rebase_apply && !marks.cherry_pick_head
            && !marks.revert_head && !marks.bisect_start ==> crate::git::operation_of(
            marks,
        ) is None,
{
}

/// A repository looks as Git says: each reading is taken for what it was asked for, and
/// the remote-tracking references that only point to another are left out.
pub proof fn repositories_look_as_git_says(readings: RepoReadings, entry: RefView)
    ensures
        ({
            let repo = crate::git::repo_of(readings);
            let remotes = crate::git::refs_of(crate::text::opt_text(readings.remotes));
            &&& repo.head == crate::text::opt_text(readings.head)
            &&& repo.branch == crate::text::opt_text(readings.branch)
            &&& repo.stash == crate::text::opt_text(readings.stash)
            &&& repo.branches == crate::git::refs_of(crate::text::opt_text(readings.branches))
            &&& repo.tags == crate::git::refs_of(crate::text::opt_text(readings.tags))
            &&& repo.operation == crate::git::operation_of(readings.marks)
            &&& readings.commit is None ==> repo.subject is None && repo.parent_count == 0
            &&& readings.branches is None ==> repo.branches.len() == 0
            &&& repo.remotes.contains(entry) <==> remotes.contains(entry)
                && !crate::text::ends_with(entry.name, "/HEAD"@)
        }),
{
    let remotes = crate::git::refs_of(crate::text::opt_text(readings.remotes));
    let keep = |entry: RefView| !crate::git::is_remote_head(entry);
    let rest = remotes.filter(keep);
    if rest.contains(entry) {
        let i = choose|i: int| 0 <= i < rest.len() && rest[i] == entry;
        crate::roots::lemma_filtered(remotes, keep, i);
    }
    if remotes.contains(entry) && keep(entry) {
        let i = choose|i: int| 0 <= i < remotes.len() && remotes[i] == entry;
        crate::roots::lemma_kept(remotes, keep, i);
    }
}

/// The part in front of the first zero character, and the part behind it.
pub proof fn lines_are_parted_at_the_first_zero(front: Text, back: Text)
    requires
        !front.contains('\0'),
    ensures
        crate::text::split_once_at(front + seq!['\0'] + back, '\0') == Some((front, back)),
{
    let text = front + seq!['\0'] + back;
    crate::text::lemma_find_from(text, '\0', 0);
    let at = crate::text::find_from(text, '\0', 0);
    assert(text[front.len() as int] == '\0');
    if at < front.len() {
        assert(text[at] == front[at]);
        assert(front.contains(front[at]));
    }
    assert(at == front.len());
    assert(text.subrange(0, at) =~= front);
    assert(text.subrange(at + 1, text.len() as int) =~= back);
}

/// The subject of a commit stands in front of a zero character, and its parents behind
/// it: the subject is taken as it is, and the parents are counted.
pub proof fn commits_are_read(subject: Text, parents: Text)
    requires
        !subject.contains('\0'),
    ensures
        crate::git::commit_of(Some(subject + seq!['\0'] + parents)).0 == Some(subject),
        crate::git::commit_of(Some(subject + seq!['\0'] + parents)).1 == crate::text::words_from(
            parents,
            0,
        ),
{
    lines_are_parted_at_the_first_zero(subject, parents);
}

/// Whether a text has no blank in it, and is not empty.
pub open spec fn is_word(text: Text) -> bool {
    text.len() > 0 && forall|i: int| 0 <= i < text.len() ==> !crate::text::is_blank(#[trigger] text[i])
}

/// No parents are none, one is one, and two with a blank between them are two.
pub proof fn parents_are_counted(one: Text, other: Text)
    requires
        is_word(one),
        is_word(other),
    ensures
        crate::text::words_from(Seq::empty(), 0) == 0,
        crate::text::words_from(one, 0) == 1,
        crate::text::words_from(one + seq![' '] + other, 0) == 2,
{
    let both = one + seq![' '] + other;
    lemma_word(one, 0, one.len() as int);
    assert(crate::text::words_from(one, one.len() as int) == 0);
    lemma_word(both, 0, one.len() as int);
    lemma_word(both, one.len() as int + 1, both.len() as int);
    assert(crate::text::is_blank(both[one.len() as int]));
    assert(crate::text::words_from(both, one.len() as int) == crate::text::words_from(
        both,
        one.len() as int + 1,
    ));
    assert(crate::text::words_from(both, both.len() as int) == 0);
}

/// A run of characters without a blank is one word.
proof fn lemma_word(text: Text, from: int, to: int)
    requires
        0 <= from < to <= text.len(),
        from == 0 || crate::text::is_blank(text[from - 1]),
        forall|i: int| from <= i < to ==> !crate::text::is_blank(#[trigger] text[i]),
    ensures
        crate::text::words_from(text, from) == 1 + crate::text::words_from(text, to),
{
    assert(!crate::text::is_blank(text[from]));
    lemma_inside_word(text, from, from + 1, to);
}

/// No word begins inside of one.
proof fn lemma_inside_word(text: Text, start: int, from: int, to: int)
    requires
        0 <= start < from <= to <= text.len(),
        forall|i: int| start <= i < to ==> !crate::text::is_blank(#[trigger] text[i]),
    ensures
        crate::text::words_from(text, from) == crate::text::words_from(text, to),
    decreases to - from,
{
    if from < to {
        assert(!crate::text::is_blank(text[from - 1]));
        assert(!crate::text::is_blank(text[from]));
        lemma_inside_word(text, start, from + 1, to);
    }
}

/// Every line of a listing with a name and an object is a reference, in order; lines
/// without an object are passed over.
pub proof fn references_are_read_line_by_line(
    lines: Seq<Text>,
    names: Seq<Text>,
    objects: Seq<Text>,
    n: nat,
    i: int,
)
    requires
        n <= lines.len(),
        lines.len() == names.len() == objects.len(),
        forall|k: int|
            #![trigger lines[k]]
            0 <= k < lines.len() ==> lines[k] == names[k] + seq!['\0'] + objects[k]
                && !names[k].contains('\0'),
        names.no_duplicates(),
    ensures
        crate::git::listed_refs(lines, n).len() == n,
        0 <= i < n ==> crate::git::listed_refs(lines, n)[i] == (RefView {
            name: names[i],
            object: objects[i],
        }),
    decreases n,
{
    if n > 0 {
        let earlier = crate::git::listed_refs(lines, (n - 1) as nat);
        references_are_read_line_by_line(lines, names, objects, (n - 1) as nat, i);
        assert(lines[n - 1] == names[n - 1] + seq!['\0'] + objects[n - 1]);
        lines_are_parted_at_the_first_zero(names[n - 1], objects[n - 1]);
        crate::git::lemma_ref_at(earlier, names[n - 1], 0);
        if let Some(k) = crate::git::ref_at(earlier, names[n - 1], 0) {
            references_are_read_line_by_line(lines, names, objects, (n - 1) as nat, k);
            assert(names[k] == names[n - 1]);
        }
    }
}

/// Where a name is listed twice, the later line counts; a line changes no other name,
/// and a line without an object changes nothing.
pub proof fn the_later_line_of_a_name_counts(
    lines: Seq<Text>,
    n: nat,
    name: Text,
    object: Text,
    other: Text,
)
    requires
        0 < n <= lines.len(),
    ensures
        lines[n - 1] == name + seq!['\0'] + object && !name.contains('\0')
            ==> crate::git::object_of(crate::git::listed_refs(lines, n), name) == Some(object)
            && (other != name ==> crate::git::object_of(crate::git::listed_refs(lines, n), other)
            == crate::git::object_of(crate::git::listed_refs(lines, (n - 1) as nat), other)),
        !lines[n - 1].contains('\0') ==> crate::git::listed_refs(lines, n)
            == crate::git::listed_refs(lines, (n - 1) as nat),
{
    let earlier = crate::git::listed_refs(lines, (n - 1) as nat);
    let all = crate::git::listed_refs(lines, n);
    if lines[n - 1] == name + seq!['\0'] + object && !name.contains('\0') {
        lines_are_parted_at_the_first_zero(name, object);
        crate::git::lemma_ref_at(earlier, name, 0);
        crate::git::lemma_ref_at(all, name, 0);
        lemma_first_ref(earlier, name, 0);
        lemma_first_ref(all, name, 0);
        match crate::git::ref_at(earlier, name, 0) {
            Some(i) => {
                assert(all[i].name == name);
                let k = crate::git::ref_at(all, name, 0)->0;
                if k < i {
                    assert(earlier[k].name == name);
                }
            },
            None => {
                let k = crate::git::ref_at(all, name, 0);
                assert(all[earlier.len() as int].name == name);
                assert(k is Some);
                if k->0 < earlier.len() {
                    assert(earlier[k->0].name == name);
                }
            },
        }
        if other != name {
            lemma_other_ref(earlier, all, name, other, 0);
        }
    }
    if !lines[n - 1].contains('\0') {
        let line = lines[n - 1];
        crate::text::lemma_find_from(line, '\0', 0);
        let at = crate::text::find_from(line, '\0', 0);
        if at < line.len() {
            assert(line.contains(line[at]));
        }
    }
}

/// The reference that is found is the first of its name.
proof fn lemma_first_ref(refs: Seq<RefView>, name: Text, from: int)
    requires
        0 <= from,
    ensures
        crate::git::ref_at(refs, name, from) matches Some(i) ==> forall|k: int|
            from <= k < i ==> (#[trigger] refs[k]).name != name,
    decreases refs.len() - from,
{
    if from < refs.len() && refs[from].name != name {
        lemma_first_ref(refs, name, from + 1);
    }
}

/// A name is found at the same place in two lists that differ in another name alone.
proof fn lemma_other_ref(
    before: Seq<RefView>,
    after: Seq<RefView>,
    name: Text,
    other: Text,
    from: int,
)
    requires
        0 <= from <= before.len() <= after.len() <= before.len() + 1,
        other != name,
        forall|k: int|
            0 <= k < before.len() ==> #[trigger] after[k] == before[k] || (after[k].name == name
                && before[k].name == name),
        after.len() > before.len() ==> after[before.len() as int].name == name,
    ensures
        crate::git::ref_at(after, other, from) == crate::git::ref_at(before, other, from),
        crate::git::ref_at(before, other, from) matches Some(i) ==> after[i] == before[i],
    decreases before.len() - from,
{
    if from < before.len() {
        assert(after[from] == before[from] || after[from].name == name);
        lemma_other_ref(before, after, name, other, from + 1);
    } else {
        reveal_with_fuel(crate::git::ref_at, 2);
    }
}

/// A worktree is told of by a line that begins with its name, and every such line tells
/// of one, in order.
pub proof fn worktrees_are_read_line_by_line(lines: Seq<Text>, n: nat, path: Text)
    requires
        n <= lines.len(),
    ensures
        crate::git::listed_worktrees(lines, n).contains(path) <==> lines.take(n as int).contains(
            "worktree "@ + path,
        ),
    decreases n,
{
    let line = "worktree "@ + path;
    reveal_strlit("worktree ");
    if n > 0 {
        worktrees_are_read_line_by_line(lines, (n - 1) as nat, path);
        let earlier = crate::git::listed_worktrees(lines, (n - 1) as nat);
        let all = crate::git::listed_worktrees(lines, n);
        let last = lines[n - 1];
        let front = lines.take(n - 1);
        let whole = lines.take(n as int);
        if crate::text::begins_with(last, "worktree "@) {
            assert(last =~= "worktree "@ + last.skip(9));
            if last.skip(9) == path {
                assert(last == line);
            }
        }
        if last == line {
            assert(last.subrange(0, 9) =~= "worktree "@);
            assert(last.skip(9) =~= path);
            assert(all[all.len() - 1] == path);
            assert(whole[n - 1] == line);
        }
        if all.contains(path) {
            let i = choose|i: int| 0 <= i < all.len() && all[i] == path;
            if i < earlier.len() {
                assert(earlier[i] == path);
                let k = choose|k: int| 0 <= k < front.len() && front[k] == line;
                assert(whole[k] == line);
            }
        }
        if whole.contains(line) && last != line {
            let k = choose|k: int| 0 <= k < whole.len() && whole[k] == line;
            assert(front[k] == line);
            let i = choose|i: int| 0 <= i < earlier.len() && earlier[i] == path;
            assert(all[i] == path);
        }
    } else {
        assert(lines.take(0).len() == 0);
    }
}

/// The worktree that a path of Git's own data belongs to is what stands in front of the
/// first folder of Git; a path without one belongs to none.
pub proof fn worktrees_stand_in_front_of_their_git_folder(root: Parts, rest: Parts, path: Parts)
    requires
        forall|i: int| 0 <= i < root.len() ==> #[trigger] root[i] != PartView::Normal(".git"@),
        forall|i: int| 0 <= i < path.len() ==> #[trigger] path[i] != PartView::Normal(".git"@),
    ensures
        crate::git::worktree_of(root.push(PartView::Normal(".git"@)) + rest, 0) == Some(root),
        crate::git::worktree_of(path, 0) is None,
{
    lemma_git_folder(root, rest, 0);
    lemma_no_git_folder(path, 0);
}

/// The first folder of Git is found.
proof fn lemma_git_folder(root: Parts, rest: Parts, from: int)
    requires
        0 <= from <= root.len(),
        forall|i: int| 0 <= i < root.len() ==> #[trigger] root[i] != PartView::Normal(".git"@),
    ensures
        crate::git::worktree_of(root.push(PartView::Normal(".git"@)) + rest, from) == Some(root),
    decreases root.len() - from,
{
    let path = root.push(PartView::Normal(".git"@)) + rest;
    if from < root.len() {
        assert(path[from] == root[from]);
        lemma_git_folder(root, rest, from + 1);
    } else {
        assert(path[from] == PartView::Normal(".git"@));
        assert(path.take(from) =~= root);
    }
}

/// Without a folder of Git, none is found.
proof fn lemma_no_git_folder(path: Parts, from: int)
    requires
        0 <= from,
        forall|i: int| 0 <= i < path.len() ==> #[trigger] path[i] != PartView::Normal(".git"@),
    ensures
        crate::git::worktree_of(path, from) is None,
    decreases path.len() - from,
{
    if from < path.len() {
        assert(path[from] != PartView::Normal(".git"@));
        lemma_no_git_folder(path, from + 1);
    }
}

/// What a command has said: nothing where it failed or said only blanks, else all of it
/// from the first to the last character that is no blank.
pub proof fn answers_are_trimmed(success: bool, output: Text)
    ensures
        match crate::git::said(success, output) {
            Some(text) => success && text.len() > 0 && !crate::text::is_blank(text[0])
                && !crate::text::is_blank(text.last()) && exists|from: int, to: int| #[trigger]
                is_core(output, from, to) && text == output.subrange(from, to),
            None => !success || forall|i: int|
                0 <= i < output.len() ==> crate::text::is_blank(#[trigger] output[i]),
        },
{
    let set = crate::text::Trimmed::Blank;
    let tail = crate::text::without_head(output, set);
    let from = lemma_without_head(output);
    let to = lemma_without_tail(tail);
    let text = crate::text::trimmed(output, set);
    assert(text == tail.take(to));
    if success && text.len() > 0 {
        assert(text =~= output.subrange(from, from + to));
        assert forall|i: int|
            0 <= i < output.len() && !(from <= i < from + to) implies crate::text::is_blank(
            #[trigger] output[i],
        ) by {
            if i >= from + to {
                assert(tail[i - from] == output[i]);
            }
        }
        assert(is_core(output, from, from + to));
        assert(text[0] == tail[0]);
    }
    if success && text.len() == 0 {
        assert forall|i: int| 0 <= i < output.len() implies crate::text::is_blank(
            #[trigger] output[i],
        ) by {
            if i >= from {
                assert(tail[i - from] == output[i]);
            }
        }
    }
}

/// Whether all of a text outside of a range is blank.
pub open spec fn is_core(text: Text, from: int, to: int) -> bool {
    &&& 0 <= from <= to <= text.len()
    &&& forall|i: int|
        0 <= i < text.len() && !(from <= i < to) ==> crate::text::is_blank(#[trigger] text[i])
}

/// What is left without the blanks in front.
proof fn lemma_without_head(text: Text) -> (from: int)
    ensures
        0 <= from <= text.len(),
        crate::text::without_head(text, crate::text::Trimmed::Blank) == text.skip(from),
        forall|i: int| 0 <= i < from ==> crate::text::is_blank(#[trigger] text[i]),
        from < text.len() ==> !crate::text::is_blank(text[from]),
    decreases text.len(),
{
    if text.len() > 0 && crate::text::is_blank(text[0]) {
        let rest = text.drop_first();
        let from = lemma_without_head(rest);
        assert(rest.skip(from) =~= text.skip(from + 1));
        assert forall|i: int| 0 <= i < from + 1 implies crate::text::is_blank(#[trigger] text[i]) by {
            if i > 0 {
                assert(rest[i - 1] == text[i]);
            }
        }
        from + 1
    } else {
        assert(text.skip(0) =~= text);
        0
    }
}

/// What is left without the blanks behind.
proof fn lemma_without_tail(text: Text) -> (to: int)
    ensures
        0 <= to <= text.len(),
        crate::text::without_tail(text, crate::text::Trimmed::Blank) == text.take(to),
        forall|i: int| to <= i < text.len() ==> crate::text::is_blank(#[trigger] text[i]),
        to > 0 ==> !crate::text::is_blank(text[to - 1]),
    decreases text.len(),
{
    if text.len() > 0 && crate::text::is_blank(text.last()) {
        let rest = text.drop_last();
        let to = lemma_without_tail(rest);
        assert(rest.take(to) =~= text.take(to));
        assert forall|i: int| to <= i < text.len() implies crate::text::is_blank(
            #[trigger] text[i],
        ) by {
            if i < text.len() - 1 {
                assert(rest[i] == text[i]);
            }
        }
        to
    } else {
        assert(text.take(text.len() as int) =~= text);
        text.len() as int
    }
}

/// Whether a native event is of the data of a repository: one of its paths lies in the
/// Git directory of the repository or in the one that its worktrees share; or it names
/// no path at all.
pub open spec fn is_about(one: RepositoryView, paths: Seq<Parts>) -> bool {
    paths.len() == 0 || exists|i: int|
        0 <= i < paths.len() && (one.git_dir.is_prefix_of(#[trigger] paths[i])
            || one.common_dir.is_prefix_of(paths[i]))
}

/// A native event makes exactly the repositories that it is about wait for quiet, and
/// leaves the others as they were. A repository is not looked at yet.
pub proof fn events_touch_their_repositories(
    monitor: MonitorView,
    message: GitMessage,
    now: u64,
    i: int,
)
    requires
        message is Event,
        !message->rescan,
        0 <= i < monitor.repositories.len(),
    ensures
        ({
            let one = monitor.repositories[i];
            let next = monitor.told(message, now);
            let paths = crate::path::paths_of(message->Event_paths@);
            &&& next.repositories.len() == monitor.repositories.len()
            &&& is_about(one, paths) ==> next.repositories[i] == (RepositoryView {
                dirty_since: Some(now),
                ..one
            })
            &&& !is_about(one, paths) ==> next.repositories[i] == one
            &&& next.watched == monitor.watched
            &&& next.failed == monitor.failed
            &&& next.worktrees == monitor.worktrees
            &&& monitor.told_news(message) is None
            &&& monitor.told_unwatched(message).len() == 0
        }),
{
    let one = monitor.repositories[i];
    let paths = crate::path::paths_of(message->Event_paths@);
    if crate::git_monitor::touches(one, paths) && paths.len() > 0 {
        let k = choose|k: int|
            0 <= k < paths.len() && crate::git_monitor::is_metadata(one, #[trigger] paths[k]);
        assert(one.git_dir.is_prefix_of(paths[k]) || one.common_dir.is_prefix_of(paths[k]));
    }
    if is_about(one, paths) && paths.len() > 0 {
        let k = choose|k: int|
            0 <= k < paths.len() && (one.git_dir.is_prefix_of(#[trigger] paths[k])
                || one.common_dir.is_prefix_of(paths[k]));
        assert(crate::git_monitor::is_metadata(one, paths[k]));
    }
}

/// Whether a report on Git says this of a root.
pub open spec fn says(
    report: IntegrityView,
    level: IntegrityLevel,
    summary: Text,
    detail: Text,
    root: Parts,
) -> bool {
    &&& report.source == "git"@
    &&& report.level == level
    &&& report.summary == summary
    &&& report.detail == detail
    &&& report.root == root
}

/// The root of the first repository.
pub open spec fn front(monitor: MonitorView) -> Parts {
    if monitor.repositories.len() > 0 {
        monitor.repositories[0].root
    } else {
        Parts::empty()
    }
}

/// Whether a native event is of the data that worktrees share: one of its paths lies
/// there, or it names no path at all.
pub open spec fn is_about_shared(common_dir: Parts, paths: Seq<Parts>) -> bool {
    paths.len() == 0 || exists|i: int|
        0 <= i < paths.len() && common_dir.is_prefix_of(#[trigger] paths[i])
}

/// Whether some repository shares this folder, among the first `n`.
pub open spec fn is_shared(repositories: Seq<RepositoryView>, common_dir: Parts, n: nat) -> bool {
    exists|k: int| 0 <= k < n && (#[trigger] repositories[k]).common_dir == common_dir
}

/// The first waiting folder of its name is found.
proof fn lemma_dirty_at(dirty: Seq<DirtyView>, common_dir: Parts, from: int)
    requires
        0 <= from <= dirty.len(),
    ensures
        match crate::git_monitor::dirty_at(dirty, common_dir, from) {
            Some(i) => from <= i < dirty.len() && dirty[i].common_dir == common_dir,
            None => forall|i: int|
                from <= i < dirty.len() ==> (#[trigger] dirty[i]).common_dir != common_dir,
        },
    decreases dirty.len() - from,
{
    if from < dirty.len() {
        lemma_dirty_at(dirty, common_dir, from + 1);
    }
}

/// A folder that waits anew waits from now on, and the others wait as they did.
proof fn lemma_dirtied(dirty: Seq<DirtyView>, common_dir: Parts, now: u64, one: DirtyView)
    ensures
        ({
            let next = crate::git_monitor::dirtied(dirty, common_dir, now);
            &&& next.contains(DirtyView { common_dir, since: now })
            &&& one.common_dir != common_dir ==> next.contains(one) == dirty.contains(one)
            &&& next.contains(one) && one.since != now ==> dirty.contains(one)
        }),
{
    let next = crate::git_monitor::dirtied(dirty, common_dir, now);
    lemma_dirty_at(dirty, common_dir, 0);
    match crate::git_monitor::dirty_at(dirty, common_dir, 0) {
        Some(i) => {
            assert(next[i] == (DirtyView { common_dir, since: now }));
            if next.contains(one) {
                let k = choose|k: int| 0 <= k < next.len() && next[k] == one;
                if k != i {
                    assert(dirty[k] == one);
                }
            }
            if dirty.contains(one) && one.common_dir != common_dir {
                let k = choose|k: int| 0 <= k < dirty.len() && dirty[k] == one;
                assert(next[k] == one);
            }
        },
        None => {
            assert(next[dirty.len() as int] == (DirtyView { common_dir, since: now }));
            if next.contains(one) {
                let k = choose|k: int| 0 <= k < next.len() && next[k] == one;
                if k < dirty.len() {
                    assert(dirty[k] == one);
                }
            }
            if dirty.contains(one) {
                let k = choose|k: int| 0 <= k < dirty.len() && dirty[k] == one;
                assert(next[k] == one);
            }
        },
    }
}

/// Among the first repositories, those that an event is about make the folder that they
/// share wait.
proof fn lemma_shared_touched(
    dirty: Seq<DirtyView>,
    repositories: Seq<RepositoryView>,
    paths: Seq<Parts>,
    now: u64,
    n: nat,
    one: DirtyView,
)
    requires
        n <= repositories.len(),
    ensures
        ({
            let next = crate::git_monitor::shared_touched(dirty, repositories, paths, now, n);
            let hit = is_shared(repositories, one.common_dir, n) && is_about_shared(
                one.common_dir,
                paths,
            );
            &&& hit && one.since == now ==> next.contains(one)
            &&& !hit ==> next.contains(one) == dirty.contains(one)
            &&& next.contains(one) && one.since != now ==> dirty.contains(one)
        }),
    decreases n,
{
    if n > 0 {
        let earlier = crate::git_monitor::shared_touched(
            dirty,
            repositories,
            paths,
            now,
            (n - 1) as nat,
        );
        let common_dir = repositories[n - 1].common_dir;
        lemma_shared_touched(dirty, repositories, paths, now, (n - 1) as nat, one);
        lemma_dirtied(earlier, common_dir, now, one);
        lemma_about_shared(common_dir, paths);
        assert(repositories[n - 1].common_dir == common_dir);
        if is_shared(repositories, one.common_dir, n) && one.common_dir != common_dir {
            let k = choose|k: int|
                0 <= k < n && (#[trigger] repositories[k]).common_dir == one.common_dir;
            assert(k < n - 1);
            assert(repositories[k].common_dir == one.common_dir);
        }
        if is_shared(repositories, one.common_dir, (n - 1) as nat) {
            let k = choose|k: int|
                0 <= k < n - 1 && (#[trigger] repositories[k]).common_dir == one.common_dir;
            assert(repositories[k].common_dir == one.common_dir);
        }
    }
}

/// An event is about a shared folder where it touches it.
proof fn lemma_about_shared(common_dir: Parts, paths: Seq<Parts>)
    ensures
        crate::git_monitor::touches_shared(common_dir, paths) == is_about_shared(common_dir, paths),
{
    if crate::git_monitor::touches_shared(common_dir, paths) && paths.len() > 0 {
        let k = choose|k: int|
            0 <= k < paths.len() && crate::path::is_under(#[trigger] paths[k], common_dir);
        assert(common_dir.is_prefix_of(paths[k]));
    }
    if is_about_shared(common_dir, paths) && paths.len() > 0 {
        let k = choose|k: int| 0 <= k < paths.len() && common_dir.is_prefix_of(#[trigger] paths[k]);
        assert(crate::path::is_under(paths[k], common_dir));
    }
}

/// A native event in the folder that the worktrees of a repository share makes that
/// folder wait for quiet from now on, whatever it waited from before. The folders that
/// it is not about, and those that no repository shares, wait as they did, and none is
/// made up.
pub proof fn events_touch_shared_folders(
    monitor: MonitorView,
    message: GitMessage,
    now: u64,
    one: DirtyView,
)
    requires
        message is Event,
        !message->rescan,
    ensures
        ({
            let next = monitor.told(message, now);
            let paths = crate::path::paths_of(message->Event_paths@);
            let hit = is_shared(
                monitor.repositories,
                one.common_dir,
                monitor.repositories.len(),
            ) && is_about_shared(one.common_dir, paths);
            &&& hit && one.since == now ==> next.dirty.contains(one)
            &&& !hit ==> next.dirty.contains(one) == monitor.dirty.contains(one)
            &&& next.dirty.contains(one) && one.since != now ==> monitor.dirty.contains(one)
        }),
{
    lemma_shared_touched(
        monitor.dirty,
        monitor.repositories,
        crate::path::paths_of(message->Event_paths@),
        now,
        monitor.repositories.len(),
        one,
    );
}

/// Whether a folder is one of those that a repository keeps its data in.
pub open spec fn keeps(one: RepositoryView, folder: Parts) -> bool {
    one.git_dir == folder || one.common_dir == folder
}

/// The first repository that keeps its data in a folder is found.
proof fn lemma_repository_at(
    repositories: Seq<RepositoryView>,
    folder: Parts,
    from: int,
    i: int,
)
    requires
        0 <= from <= i <= repositories.len(),
        forall|k: int| from <= k < i ==> !keeps(#[trigger] repositories[k], folder),
        i < repositories.len() ==> keeps(repositories[i], folder),
    ensures
        crate::git_monitor::repository_at(repositories, folder, from) == (if i
            < repositories.len() {
            Some(i)
        } else {
            None::<int>
        }),
    decreases i - from,
{
    if from < i {
        assert(!keeps(repositories[from], folder));
        lemma_repository_at(repositories, folder, from + 1, i);
    }
}

/// A folder of Git data whose watch failed goes on waiting until its time has come. Once
/// it is watched again it waits no longer, and that is told of the first repository that
/// keeps its data there, which is remembered as it looks by then where it could be
/// read. Where it is still not watched it waits longer, and nothing is told.
pub proof fn metadata_watches_recover(
    monitor: MonitorView,
    one: FailedView,
    attempt: AttemptView,
    now: u64,
    i: int,
)
    requires
        monitor.failed == seq![one],
        now + 10_000_000_000 <= u64::MAX,
        one.state.attempts < u32::MAX,
        0 <= i <= monitor.repositories.len(),
        forall|k: int| 0 <= k < i ==> !keeps(#[trigger] monitor.repositories[k], one.root),
        i < monitor.repositories.len() ==> keeps(monitor.repositories[i], one.root),
    ensures
        ({
            let none = monitor.metadata_retried(Seq::empty(), now);
            let next = monitor.metadata_retried(seq![attempt], now);
            let reports = monitor.metadata_run(seq![attempt], now, 1).reports;
            let owner = monitor.repositories[i];
            let owned = i < monitor.repositories.len();
            &&& one.state.next_attempt > now ==> none == monitor && monitor.metadata_run(
                Seq::empty(),
                now,
                1,
            ).reports.len() == 0
            &&& one.state.next_attempt <= now && attempt.watched ==> {
                &&& next.failed.len() == 0
                &&& next.watched.contains(one.root)
                &&& monitor.watched.contains(one.root) ==> next.watched == monitor.watched
                &&& !monitor.watched.contains(one.root) ==> next.watched == monitor.watched.push(
                    one.root,
                )
                &&& reports.len() == 1
                &&& says(
                    reports[0],
                    IntegrityLevel::Info,
                    "Git metadata watch recovered"@,
                    "native observation resumed; events during the gap were not reconstructed"@,
                    if owned {
                        owner.root
                    } else {
                        Parts::empty()
                    },
                )
                &&& owned && attempt.snapshot is Some ==> next.repositories
                    == monitor.repositories.update(
                    i,
                    RepositoryView { snapshot: attempt.snapshot->0, ..owner },
                )
                &&& !owned || attempt.snapshot is None ==> next.repositories
                    == monitor.repositories
            }
            &&& one.state.next_attempt <= now && !attempt.watched ==> {
                &&& next.failed == seq![
                    FailedView {
                        root: one.root,
                        state: RecoveryState {
                            attempts: (one.state.attempts + 1) as u32,
                            next_attempt: (now + 1_000_000 * crate::watch_laws::wait_of(
                                (one.state.attempts + 1) as u32,
                            )) as u64,
                        },
                    },
                ]
                &&& next.repositories == monitor.repositories
                &&& next.watched == monitor.watched
                &&& reports.len() == 0
            }
            &&& next.worktrees == monitor.worktrees
            &&& next.dirty == monitor.dirty
            &&& next.disconnected == monitor.disconnected
        }),
{
    reveal_with_fuel(MonitorView::metadata_run, 2);
    reveal_with_fuel(crate::watcher::due_roots, 2);
    lemma_repository_at(monitor.repositories, one.root, 0, i);
    crate::watch_laws::attempts_are_spread_out(one.state, now);
    let next = monitor.metadata_retried(seq![attempt], now);
    let none = monitor.metadata_retried(Seq::empty(), now);
    if one.state.next_attempt > now {
        assert(none.failed =~= monitor.failed);
    } else if attempt.watched {
        if !monitor.watched.contains(one.root) {
            assert(next.watched[monitor.watched.len() as int] == one.root);
        }
    } else {
        assert(one.state.retried(now) == (RecoveryState {
            attempts: (one.state.attempts + 1) as u32,
            next_attempt: (now + 1_000_000 * crate::watch_laws::wait_of(
                (one.state.attempts + 1) as u32,
            )) as u64,
        }));
        assert(next.failed =~= seq![
            FailedView { root: one.root, state: one.state.retried(now) },
        ]);
    }
}

/// Where the platform asks for a new scan, that is told as uncertain, and nothing else
/// happens.
pub proof fn lost_git_events_are_told(monitor: MonitorView, message: GitMessage, now: u64)
    requires
        message is Event,
        message->rescan,
    ensures
        monitor.told(message, now) == monitor,
        monitor.told_unwatched(message).len() == 0,
        monitor.told_news(message) is Some && says(
            monitor.told_news(message)->0,
            IntegrityLevel::Uncertain,
            "native Git events may have been lost"@,
            match message->info {
                Some(info) => info@,
                None => "the operating system requested a reconciliation scan"@,
            },
            front(monitor),
        ),
{
}

/// That there will be no more events is told as a loss, once.
pub proof fn the_end_of_git_events_is_told_once(monitor: MonitorView, now: u64)
    ensures
        ({
            let next = monitor.told(GitMessage::Disconnected, now);
            &&& next == (MonitorView { disconnected: true, ..monitor })
            &&& !monitor.disconnected ==> monitor.told_news(GitMessage::Disconnected) is Some && says(
                monitor.told_news(GitMessage::Disconnected)->0,
                IntegrityLevel::Lost,
                "event channel disconnected"@,
                "Git metadata changes are no longer observable"@,
                front(monitor),
            )
            &&& next.told_news(GitMessage::Disconnected) is None
        }),
{
}

/// Whether a fault hits a watched directory: it names no path, or one above or below the
/// directory.
pub open spec fn is_hit_by(directory: Parts, paths: Seq<Parts>) -> bool {
    paths.len() == 0 || exists|i: int|
        0 <= i < paths.len() && (directory.is_prefix_of(#[trigger] paths[i])
            || paths[i].is_prefix_of(directory))
}

/// A fault ends exactly the watches that it hits; each of them waits for its next
/// attempt from then on. The fault is reported with its description.
pub proof fn faults_end_the_watches_that_they_hit(
    monitor: MonitorView,
    fault: NotifyFault,
    now: u64,
    directory: Parts,
)
    ensures
        ({
            let message = GitMessage::Fault(fault);
            let paths = crate::path::paths_of(fault.paths@);
            let next = monitor.told(message, now);
            &&& next.watched.contains(directory) <==> monitor.watched.contains(directory)
                && !is_hit_by(directory, paths)
            &&& monitor.told_unwatched(message).contains(directory) <==> monitor.watched.contains(
                directory,
            ) && is_hit_by(directory, paths)
            &&& monitor.watched.contains(directory) && is_hit_by(directory, paths)
                ==> crate::watcher::has_failed(next.failed, directory)
            &&& monitor.told_news(message) is Some && monitor.told_news(message)->0.source
                == "git"@ && monitor.told_news(message)->0.detail == fault.description@
            &&& next.repositories == monitor.repositories
        }),
{
    let paths = crate::path::paths_of(fault.paths@);
    let hit = |one: Parts| crate::git_monitor::is_affected(one, paths);
    let safe = |one: Parts| !crate::git_monitor::is_affected(one, paths);
    lemma_hit(directory, paths);
    let kept = monitor.watched.filter(safe);
    let gone = monitor.watched.filter(hit);
    if kept.contains(directory) {
        let i = choose|i: int| 0 <= i < kept.len() && kept[i] == directory;
        crate::roots::lemma_filtered(monitor.watched, safe, i);
    }
    if gone.contains(directory) {
        let i = choose|i: int| 0 <= i < gone.len() && gone[i] == directory;
        crate::roots::lemma_filtered(monitor.watched, hit, i);
    }
    if monitor.watched.contains(directory) {
        let i = choose|i: int| 0 <= i < monitor.watched.len() && monitor.watched[i] == directory;
        if hit(directory) {
            crate::roots::lemma_kept(monitor.watched, hit, i);
            lemma_failed_too(monitor.failed, monitor.watched, paths, now, monitor.watched.len(), i);
        } else {
            crate::roots::lemma_kept(monitor.watched, safe, i);
        }
    }
}

/// A directory is hit where it is affected.
proof fn lemma_hit(directory: Parts, paths: Seq<Parts>)
    ensures
        crate::git_monitor::is_affected(directory, paths) == is_hit_by(directory, paths),
{
    if crate::git_monitor::is_affected(directory, paths) && paths.len() > 0 {
        let k = choose|k: int|
            0 <= k < paths.len() && (crate::path::is_under(#[trigger] paths[k], directory)
                || crate::path::is_under(directory, paths[k]));
        assert(directory.is_prefix_of(paths[k]) || paths[k].is_prefix_of(directory));
    }
    if is_hit_by(directory, paths) && paths.len() > 0 {
        let k = choose|k: int|
            0 <= k < paths.len() && (directory.is_prefix_of(#[trigger] paths[k])
                || paths[k].is_prefix_of(directory));
        assert(crate::path::is_under(paths[k], directory) || crate::path::is_under(
            directory,
            paths[k],
        ));
    }
}

/// Every directory that is hit waits for its next attempt.
proof fn lemma_failed_too(
    failed: Seq<FailedView>,
    watched: Seq<Parts>,
    paths: Seq<Parts>,
    now: u64,
    n: nat,
    i: int,
)
    requires
        0 <= i < n <= watched.len(),
        crate::git_monitor::is_affected(watched[i], paths),
    ensures
        crate::watcher::has_failed(
            crate::git_monitor::failed_too(failed, watched, paths, now, n),
            watched[i],
        ),
    decreases n,
{
    let earlier = crate::git_monitor::failed_too(failed, watched, paths, now, (n - 1) as nat);
    let all = crate::git_monitor::failed_too(failed, watched, paths, now, n);
    if i < n - 1 {
        lemma_failed_too(failed, watched, paths, now, (n - 1) as nat, i);
        let k = choose|k: int| 0 <= k < earlier.len() && (#[trigger] earlier[k]).root == watched[i];
        assert(all[k].root == watched[i]);
    } else if !crate::watcher::has_failed(earlier, watched[i]) {
        assert(all[earlier.len() as int].root == watched[i]);
    }
}

/// Whether a repository has been quiet for a hundred and twenty milliseconds since
/// something touched it.
pub open spec fn is_quiet(one: RepositoryView, now: u64) -> bool {
    one.dirty_since matches Some(since) && now >= since + 120_000_000
}

/// Exactly the repositories that were touched and are quiet are looked at. One that was
/// looked at is remembered as it looked, waits for nothing, and no other one changes.
pub proof fn quiet_repositories_are_looked_at(
    monitor: MonitorView,
    now: u64,
    i: int,
    j: int,
    current: RepoView,
)
    requires
        0 <= i < monitor.repositories.len(),
        0 <= j < monitor.repositories.len(),
    ensures
        monitor.ready_among(now, monitor.repositories.len()).contains(i) <==> is_quiet(
            monitor.repositories[i],
            now,
        ),
        monitor.settled(i, current).repositories[i].snapshot == current,
        monitor.settled(i, current).repositories[i].dirty_since is None,
        monitor.settled(i, current).repositories[i].root == monitor.repositories[i].root,
        monitor.settled(i, current).repositories[i].git_dir == monitor.repositories[i].git_dir,
        monitor.settled(i, current).repositories[i].common_dir
            == monitor.repositories[i].common_dir,
        i != j ==> monitor.settled(i, current).repositories[j] == monitor.repositories[j],
        monitor.settled(i, current) == (MonitorView {
            repositories: monitor.settled(i, current).repositories,
            ..monitor
        }),
{
    crate::git_monitor::repositories_are_looked_at_once_they_are_quiet(
        monitor,
        now,
        monitor.repositories.len(),
        i,
    );
}

/// The shared directories that have been quiet long enough are no longer waited for, and
/// the others are.
pub proof fn quiet_worktrees_are_listed(monitor: MonitorView, now: u64, one: DirtyView)
    ensures
        monitor.calmed(now).dirty.contains(one) <==> monitor.dirty.contains(one) && now < one.since
            + 120_000_000,
        monitor.calmed(now) == (MonitorView { dirty: monitor.calmed(now).dirty, ..monitor }),
{
    let keep = |one: DirtyView|
        crate::recovery::elapsed_since(one.since, now) < crate::git_monitor::EVENT_QUIET_PERIOD;
    let rest = monitor.dirty.filter(keep);
    if rest.contains(one) {
        let i = choose|i: int| 0 <= i < rest.len() && rest[i] == one;
        crate::roots::lemma_filtered(monitor.dirty, keep, i);
    }
    if monitor.dirty.contains(one) && keep(one) {
        let i = choose|i: int| 0 <= i < monitor.dirty.len() && monitor.dirty[i] == one;
        crate::roots::lemma_kept(monitor.dirty, keep, i);
    }
}

/// Exactly the worktrees that were found and were not known are new.
pub proof fn new_worktrees_are_those_not_known(
    monitor: MonitorView,
    found: Seq<Parts>,
    n: nat,
    path: Parts,
)
    requires
        n <= found.len(),
    ensures
        monitor.new_worktrees(found, n).contains(path) <==> found.take(n as int).contains(path)
            && !monitor.worktrees.contains(path),
    decreases n,
{
    if n > 0 {
        new_worktrees_are_those_not_known(monitor, found, (n - 1) as nat, path);
        let earlier = monitor.new_worktrees(found, (n - 1) as nat);
        let all = monitor.new_worktrees(found, n);
        crate::watcher::lemma_push_contains(found, n - 1, path);
        if all.contains(path) {
            let i = choose|i: int| 0 <= i < all.len() && all[i] == path;
            if i < earlier.len() {
                assert(earlier[i] == path);
            }
        }
        if earlier.contains(path) {
            let i = choose|i: int| 0 <= i < earlier.len() && earlier[i] == path;
            assert(all[i] == path);
        }
        if path == found[n - 1] && !monitor.worktrees.contains(path) && !earlier.contains(path) {
            assert(all[all.len() - 1] == path);
        }
    } else {
        assert(found.take(0).len() == 0);
    }
}

/// Whether a repository of this root is observed.
pub open spec fn is_observed(monitor: MonitorView, root: Parts) -> bool {
    exists|i: int|
        0 <= i < monitor.repositories.len() && (#[trigger] monitor.repositories[i]).root == root
}

/// The repository that Git tells of.
pub open spec fn told_by(probe: ProbeView) -> RepositoryView {
    RepositoryView {
        root: probe.root->0,
        git_dir: probe.git_dir->0,
        common_dir: if probe.common_dir is Some {
            probe.common_dir->0
        } else {
            probe.git_dir->0
        },
        snapshot: probe.snapshot,
        dirty_since: None,
    }
}

/// The repository of a related folder joins where it is not observed yet and its
/// directories can be watched; that is told. Else it is told why not, and no repository
/// is taken in.
pub proof fn related_repositories_join(
    monitor: MonitorView,
    probe: ProbeView,
    git_fault: Option<NotifyFault>,
    common_fault: Option<NotifyFault>,
)
    ensures
        ({
            let joining = monitor.joined(probe, git_fault, common_fault);
            let open = probe.root is Some && probe.git_dir is Some && !is_observed(
                monitor,
                probe.root->0,
            );
            &&& !open ==> joining.monitor == monitor && joining.news is None
            &&& open && git_fault is None && common_fault is None ==> {
                &&& joining.monitor.repositories == monitor.repositories.push(told_by(probe))
                &&& joining.monitor.watched.contains(probe.git_dir->0)
                &&& joining.monitor.watched.contains(told_by(probe).common_dir)
                &&& joining.news == Some(
                    GitNews::Activity(
                        GitActivityView {
                            root: probe.root->0,
                            summary: "linked worktree joined"@,
                            detail: "discovered from native Git worktree metadata"@,
                        },
                    ),
                )
            }
            &&& open && git_fault is Some && !monitor.watched.contains(probe.git_dir->0) ==> {
                &&& joining.monitor == monitor
                &&& joining.news is Some
                &&& joining.news->0 is Integrity
                &&& joining.news->0->Integrity_0.detail == git_fault->0.description@
            }
        }),
{
    let joining = monitor.joined(probe, git_fault, common_fault);
    let open = probe.root is Some && probe.git_dir is Some && !is_observed(
        monitor,
        probe.root->0,
    );
    if open && git_fault is None && common_fault is None {
        let git = probe.git_dir->0;
        let shared = told_by(probe).common_dir;
        lemma_with_path(monitor.watched, git, git);
        let one = crate::git_monitor::with_path(monitor.watched, git);
        lemma_with_path(one, shared, git);
        lemma_with_path(one, shared, shared);
    }
}

/// What a list holds with one more path.
proof fn lemma_with_path(paths: Seq<Parts>, path: Parts, other: Parts)
    ensures
        crate::git_monitor::with_path(paths, path).contains(other) == (paths.contains(other)
            || other == path),
{
    let all = crate::git_monitor::with_path(paths, path);
    if !paths.contains(path) {
        assert(all[paths.len() as int] == path);
        if paths.contains(other) {
            let i = choose|i: int| 0 <= i < paths.len() && paths[i] == other;
            assert(all[i] == other);
        }
        if all.contains(other) {
            let i = choose|i: int| 0 <= i < all.len() && all[i] == other;
            if i < paths.len() {
                assert(paths[i] == other);
            }
        }
    }
}

/// A folder that becomes a repository while it is observed is taken in as one, and that
/// is told.
pub proof fn new_repositories_are_taken_in(
    monitor: MonitorView,
    root: Parts,
    rest: Parts,
    probe: ProbeView,
)
    requires
        forall|i: int| 0 <= i < root.len() ==> #[trigger] root[i] != PartView::Normal(".git"@),
        !is_observed(monitor, root),
        probe.root is Some,
        probe.git_dir is Some,
        !is_observed(monitor, probe.root->0),
    ensures
        ({
            let path = root.push(PartView::Normal(".git"@)) + rest;
            let joining = monitor.initialized(path, probe, None, None);
            &&& monitor.candidate(path) == Some(root)
            &&& joining.monitor == (MonitorView {
                repositories: monitor.repositories.push(told_by(probe)),
                ..monitor
            })
            &&& joining.news == Some(
                GitNews::Activity(
                    GitActivityView {
                        root: probe.root->0,
                        summary: "repository initialized"@,
                        detail: "watching "@ + crate::path::path_text(probe.git_dir->0),
                    },
                ),
            )
        }),
{
    worktrees_stand_in_front_of_their_git_folder(root, rest, Parts::empty());
}

/// A path outside of Git's data, or in the data of a repository that is observed, makes
/// no new repository.
pub proof fn known_repositories_are_not_taken_in_again(
    monitor: MonitorView,
    root: Parts,
    rest: Parts,
    path: Parts,
    probe: ProbeView,
    git_fault: Option<NotifyFault>,
    common_fault: Option<NotifyFault>,
)
    requires
        forall|i: int| 0 <= i < root.len() ==> #[trigger] root[i] != PartView::Normal(".git"@),
        forall|i: int| 0 <= i < path.len() ==> #[trigger] path[i] != PartView::Normal(".git"@),
        is_observed(monitor, root),
    ensures
        monitor.initialized(path, probe, git_fault, common_fault).monitor == monitor,
        monitor.initialized(path, probe, git_fault, common_fault).news is None,
        monitor.initialized(
            root.push(PartView::Normal(".git"@)) + rest,
            probe,
            git_fault,
            common_fault,
        ).monitor == monitor,
        monitor.initialized(
            root.push(PartView::Normal(".git"@)) + rest,
            probe,
            git_fault,
            common_fault,
        ).news is None,
{
    worktrees_stand_in_front_of_their_git_folder(root, rest, path);
}

/// Whether a probe is the first of its root, and tells where its data lies.
pub open spec fn is_first_of(probes: Seq<ProbeView>, k: int, root: Parts) -> bool {
    &&& 0 <= k < probes.len()
    &&& probes[k].root == Some(root)
    &&& probes[k].git_dir is Some
    &&& forall|j: int| 0 <= j < k ==> (#[trigger] probes[j]).root != Some(root)
}

/// Every repository that Git tells of is observed, once, as the first telling has it.
pub proof fn told_repositories_are_observed(probes: Seq<ProbeView>, n: nat, k: int, root: Parts)
    requires
        k < n <= probes.len(),
        is_first_of(probes, k, root),
    ensures
        crate::git_monitor::discovered(probes, n).repositories.contains(told_by(probes[k])),
        crate::git_monitor::discovered(probes, n).watched.contains(probes[k].git_dir->0),
        crate::git_monitor::discovered(probes, n).watched.contains(told_by(probes[k]).common_dir),
    decreases n,
{
    let earlier = crate::git_monitor::discovered(probes, (n - 1) as nat);
    let all = crate::git_monitor::discovered(probes, n);
    let git = probes[k].git_dir->0;
    let shared = told_by(probes[k]).common_dir;
    if k < n - 1 {
        told_repositories_are_observed(probes, (n - 1) as nat, k, root);
        let i = choose|i: int|
            0 <= i < earlier.repositories.len() && earlier.repositories[i] == told_by(probes[k]);
        assert(all.repositories[i] == told_by(probes[k]));
        if all.watched != earlier.watched {
            let other = probes[n - 1];
            let one = crate::git_monitor::with_path(earlier.watched, other.git_dir->0);
            lemma_with_path(earlier.watched, other.git_dir->0, git);
            lemma_with_path(earlier.watched, other.git_dir->0, shared);
            lemma_with_path(one, crate::git_monitor::shared_dir(other), git);
            lemma_with_path(one, crate::git_monitor::shared_dir(other), shared);
        }
    } else {
        lemma_not_seen(probes, (n - 1) as nat, root);
        assert(all.repositories[earlier.repositories.len() as int] == told_by(probes[k]));
        let one = crate::git_monitor::with_path(earlier.watched, git);
        lemma_with_path(earlier.watched, git, git);
        lemma_with_path(one, shared, git);
        lemma_with_path(one, shared, shared);
    }
}

/// A root that no probe has told of was not seen.
proof fn lemma_not_seen(probes: Seq<ProbeView>, n: nat, root: Parts)
    requires
        n <= probes.len(),
        forall|j: int| 0 <= j < n ==> (#[trigger] probes[j]).root != Some(root),
    ensures
        !crate::git_monitor::discovered(probes, n).seen.contains(root),
    decreases n,
{
    if n > 0 {
        lemma_not_seen(probes, (n - 1) as nat, root);
        let earlier = crate::git_monitor::discovered(probes, (n - 1) as nat);
        let all = crate::git_monitor::discovered(probes, n);
        assert(probes[n - 1].root != Some(root));
        if all.seen.contains(root) {
            let i = choose|i: int| 0 <= i < all.seen.len() && all.seen[i] == root;
            if i < earlier.seen.len() {
                assert(earlier.seen[i] == root);
            }
        }
    }
}

/// What is reported of the observation of Git.
pub proof fn the_observation_of_git_is_reported(one: RepositoryView, root: Parts, dropped: u64)
    ensures
        says(
            crate::git_monitor::established_report(one),
            IntegrityLevel::Info,
            "metadata watch established"@,
            "watching "@ + crate::path::path_text(one.git_dir),
            one.root,
        ),
        says(
            crate::git_monitor::metadata_recovered_report(root),
            IntegrityLevel::Info,
            "Git metadata watch recovered"@,
            "native observation resumed; events during the gap were not reconstructed"@,
            root,
        ),
        dropped == 0 ==> crate::git_monitor::overflow_report(dropped) is None,
        dropped > 0 ==> crate::git_monitor::overflow_report(dropped) is Some && says(
            crate::git_monitor::overflow_report(dropped)->0,
            IntegrityLevel::Uncertain,
            "Git event queue overflowed"@,
            crate::text::decimal_text(dropped as nat) + " native metadata events were dropped"@,
            Parts::empty(),
        ),
{
}

/// Messages are taken in one after the other, in order, and no more than a thousand and
/// twenty-four at a time; what was dropped is told first.
pub proof fn messages_are_taken_in_in_order(
    monitor: MonitorView,
    dropped: u64,
    messages: Seq<GitMessage>,
    now: u64,
    n: nat,
)
    requires
        0 < n <= messages.len(),
    ensures
        ({
            let before = monitor.heard(dropped, messages, now, (n - 1) as nat);
            let after = monitor.heard(dropped, messages, now, n);
            &&& after.monitor == before.monitor.told(messages[n - 1], now)
            &&& before.monitor.told_news(messages[n - 1]) matches Some(report) ==> after.reports
                == before.reports.push(report)
            &&& before.monitor.told_news(messages[n - 1]) is None ==> after.reports
                == before.reports
        }),
        monitor.heard(0, messages, now, 0).reports.len() == 0,
        dropped > 0 ==> monitor.heard(dropped, messages, now, 0).reports.len() == 1,
        crate::git_monitor::taken_in(messages.len()) == (if messages.len() < 1024 {
            messages.len()
        } else {
            1024
        }),
{
}

/// Whether it is told of Git that a watch failed, with this description, and of which
/// root: of the path that the fault names first, or else of the repository.
pub open spec fn tells_of_fault(news: Option<GitNews>, fault: NotifyFault, root: Parts) -> bool {
    &&& news is Some
    &&& news->0 is Integrity
    &&& news->0->Integrity_0.source == "git"@
    &&& news->0->Integrity_0.detail == fault.description@
    &&& news->0->Integrity_0.root == (if fault.paths@.len() > 0 {
        fault.paths@[0]@
    } else {
        root
    })
}

/// A repository whose data cannot be watched is not taken in, and that is told. Only the
/// folders that are to be watched matter: where a folder is watched already, or where
/// the shared data is the repository's own, no fault of it does.
pub proof fn repositories_join_only_with_their_watches(
    monitor: MonitorView,
    path: Parts,
    probe: ProbeView,
    git_fault: Option<NotifyFault>,
    common_fault: Option<NotifyFault>,
)
    requires
        probe.root is Some,
        probe.git_dir is Some,
        !is_observed(monitor, probe.root->0),
    ensures
        ({
            let root = probe.root->0;
            let own = told_by(probe).common_dir == probe.git_dir->0;
            let known = monitor.watched.contains(told_by(probe).common_dir);
            let joining = monitor.joined(probe, git_fault, common_fault);
            let starting = monitor.initialized(path, probe, git_fault, common_fault);
            &&& monitor.watched.contains(probe.git_dir->0) ==> joining == monitor.joined(
                probe,
                None,
                common_fault,
            )
            &&& own || known ==> joining == monitor.joined(probe, git_fault, None)
            &&& !own && !known && git_fault is None && common_fault is Some ==> {
                &&& joining.monitor.repositories == monitor.repositories
                &&& tells_of_fault(joining.news, common_fault->0, root)
            }
            &&& !monitor.watched.contains(probe.git_dir->0) && git_fault is Some ==> {
                &&& joining.monitor == monitor
                &&& tells_of_fault(joining.news, git_fault->0, root)
            }
            &&& monitor.candidate(path) is Some && git_fault is Some ==> {
                &&& starting.monitor == monitor
                &&& tells_of_fault(starting.news, git_fault->0, root)
            }
            &&& monitor.candidate(path) is Some && git_fault is None && !own && common_fault is Some
                ==> {
                &&& starting.monitor == monitor
                &&& tells_of_fault(starting.news, common_fault->0, root)
            }
            &&& own ==> starting == monitor.initialized(path, probe, git_fault, None)
        }),
{
    let git = probe.git_dir->0;
    let shared = told_by(probe).common_dir;
    lemma_with_path(monitor.watched, git, shared);
    if let Some(fault) = git_fault {
        assert(fault.paths@.len() > 0 ==> crate::path::paths_of(fault.paths@)[0]
            == fault.paths@[0]@);
    }
    if let Some(fault) = common_fault {
        assert(fault.paths@.len() > 0 ==> crate::path::paths_of(fault.paths@)[0]
            == fault.paths@[0]@);
    }
}

/// The first repository that a path is about is found.
proof fn lemma_metadata_owner(
    repositories: Seq<RepositoryView>,
    path: Parts,
    from: int,
    i: int,
)
    requires
        0 <= from <= i <= repositories.len(),
        forall|k: int| from <= k < i ==> !is_about(#[trigger] repositories[k], seq![path]),
        i < repositories.len() ==> is_about(repositories[i], seq![path]),
    ensures
        crate::git_monitor::owner_of_metadata(repositories, path, from) == (if i
            < repositories.len() {
            Some(i)
        } else {
            None::<int>
        }),
    decreases i - from,
{
    assert(seq![path][0] == path);
    if from < repositories.len() {
        let one = repositories[from];
        assert(is_about(one, seq![path]) <==> crate::git_monitor::is_metadata(one, path)) by {
            if is_about(one, seq![path]) {
                let k = choose|k: int|
                    0 <= k < seq![path].len() && (one.git_dir.is_prefix_of(
                        #[trigger] seq![path][k],
                    ) || one.common_dir.is_prefix_of(seq![path][k]));
                assert(seq![path][k] == path);
            }
            if crate::git_monitor::is_metadata(one, path) {
                assert(one.git_dir.is_prefix_of(seq![path][0]) || one.common_dir.is_prefix_of(
                    seq![path][0],
                ));
            }
        }
    }
    if from < i {
        assert(!is_about(repositories[from], seq![path]));
        lemma_metadata_owner(repositories, path, from + 1, i);
    }
}

/// A fault of the observation of Git is told of the first repository whose data its path
/// lies in, or else of the path itself: the first that the fault names, or else the root
/// of the first repository, or else the current folder.
pub proof fn faults_of_git_are_told_of_their_repository(
    monitor: MonitorView,
    fault: NotifyFault,
    i: int,
)
    requires
        0 <= i <= monitor.repositories.len(),
        ({
            let path = struck(monitor, fault);
            &&& forall|k: int|
                0 <= k < i ==> !is_about(#[trigger] monitor.repositories[k], seq![path])
            &&& i < monitor.repositories.len() ==> is_about(monitor.repositories[i], seq![path])
        }),
    ensures
        ({
            let report = monitor.told_news(GitMessage::Fault(fault))->0;
            &&& report.root == (if i < monitor.repositories.len() {
                monitor.repositories[i].root
            } else {
                struck(monitor, fault)
            })
            &&& report.source == "git"@
            &&& report.detail == fault.description@
            &&& (report.level, report.summary) == crate::watcher::fault_class(
                fault.kind,
                crate::text::lowercase_text(fault.description@),
            )
        }),
{
    let path = struck(monitor, fault);
    assert(fault.paths@.len() > 0 ==> crate::path::paths_of(fault.paths@)[0] == fault.paths@[0]@);
    lemma_metadata_owner(monitor.repositories, path, 0, i);
}

/// The path that a fault of the observation of Git is of.
pub open spec fn struck(monitor: MonitorView, fault: NotifyFault) -> Parts {
    if fault.paths@.len() > 0 {
        fault.paths@[0]@
    } else if monitor.repositories.len() > 0 {
        monitor.repositories[0].root
    } else {
        seq![PartView::Current]
    }
}

/// The first repository that shares a folder is found.
proof fn lemma_sharing(repositories: Seq<RepositoryView>, common_dir: Parts, from: int, i: int)
    requires
        0 <= from <= i < repositories.len(),
        forall|k: int| from <= k < i ==> (#[trigger] repositories[k]).common_dir != common_dir,
        repositories[i].common_dir == common_dir,
    ensures
        crate::git_monitor::sharing(repositories, common_dir, from) == Some(i),
    decreases i - from,
{
    if from < i {
        assert(repositories[from].common_dir != common_dir);
        lemma_sharing(repositories, common_dir, from + 1, i);
    }
}

/// The worktrees of a shared folder that has been quiet long enough are listed at the
/// root of the first repository that shares it.
pub proof fn worktrees_are_listed_at_a_root_that_shares_them(
    monitor: MonitorView,
    now: u64,
    n: nat,
    k: int,
    i: int,
)
    requires
        0 <= k < n <= monitor.dirty.len(),
        now >= monitor.dirty[k].since + 120_000_000,
        0 <= i < monitor.repositories.len(),
        monitor.repositories[i].common_dir == monitor.dirty[k].common_dir,
        forall|j: int|
            0 <= j < i ==> (#[trigger] monitor.repositories[j]).common_dir
                != monitor.dirty[k].common_dir,
    ensures
        monitor.listing_roots(now, n).contains(monitor.repositories[i].root),
    decreases n,
{
    let all = monitor.listing_roots(now, n);
    let root = monitor.repositories[i].root;
    lemma_sharing(monitor.repositories, monitor.dirty[k].common_dir, 0, i);
    if k == n - 1 {
        assert(all.last() == root);
        assert(all[all.len() - 1] == root);
    } else {
        worktrees_are_listed_at_a_root_that_shares_them(monitor, now, (n - 1) as nat, k, i);
        let earlier = monitor.listing_roots(now, (n - 1) as nat);
        let j = choose|j: int| 0 <= j < earlier.len() && earlier[j] == root;
        assert(all[j] == root);
    }
}

/// Nothing is listed but at the root of a repository, and only where the folder that it
/// shares has been quiet long enough.
pub proof fn only_quiet_worktrees_are_listed(monitor: MonitorView, now: u64, n: nat, root: Parts)
    requires
        n <= monitor.dirty.len(),
        monitor.listing_roots(now, n).contains(root),
    ensures
        exists|k: int, i: int|
            #![trigger monitor.dirty[k], monitor.repositories[i]]
            0 <= k < n && now >= monitor.dirty[k].since + 120_000_000 && 0 <= i
                < monitor.repositories.len() && monitor.repositories[i].root == root
                && monitor.repositories[i].common_dir == monitor.dirty[k].common_dir,
    decreases n,
{
    let all = monitor.listing_roots(now, n);
    let at = choose|j: int| 0 <= j < all.len() && all[j] == root;
    if n > 0 {
        let earlier = monitor.listing_roots(now, (n - 1) as nat);
        if at < earlier.len() {
            assert(earlier[at] == root);
            only_quiet_worktrees_are_listed(monitor, now, (n - 1) as nat, root);
            let (k, i) = choose|k: int, i: int|
                #![trigger monitor.dirty[k], monitor.repositories[i]]
                0 <= k < n - 1 && now >= monitor.dirty[k].since + 120_000_000 && 0 <= i
                    < monitor.repositories.len() && monitor.repositories[i].root == root
                    && monitor.repositories[i].common_dir == monitor.dirty[k].common_dir;
            assert(0 <= k < n);
        } else {
            let one = monitor.dirty[n - 1];
            lemma_sharing_found(monitor.repositories, one.common_dir, 0);
            let i = crate::git_monitor::sharing(monitor.repositories, one.common_dir, 0)->0;
            assert(monitor.repositories[i].root == root);
        }
    }
}

/// What is found shares the folder.
proof fn lemma_sharing_found(repositories: Seq<RepositoryView>, common_dir: Parts, from: int)
    requires
        0 <= from,
    ensures
        crate::git_monitor::sharing(repositories, common_dir, from) matches Some(i) ==> from <= i
            < repositories.len() && repositories[i].common_dir == common_dir,
    decreases repositories.len() - from,
{
    if from < repositories.len() {
        lemma_sharing_found(repositories, common_dir, from + 1);
    }
}

/// Each worktree that was found is listed once, and no other.
pub proof fn each_worktree_is_listed_once(paths: Seq<Parts>, n: nat, path: Parts)
    requires
        n <= paths.len(),
    ensures
        crate::git_monitor::distinct(paths, n).no_duplicates(),
        crate::git_monitor::distinct(paths, n).contains(path) <==> paths.take(n as int).contains(
            path,
        ),
    decreases n,
{
    if n > 0 {
        let last = paths[n - 1];
        let earlier = crate::git_monitor::distinct(paths, (n - 1) as nat);
        each_worktree_is_listed_once(paths, (n - 1) as nat, path);
        each_worktree_is_listed_once(paths, (n - 1) as nat, last);
        lemma_with_path(earlier, last, path);
        crate::watcher::lemma_push_contains(paths, n - 1, path);
        let all = crate::git_monitor::distinct(paths, n);
        assert forall|i: int, j: int| 0 <= i < j < all.len() implies all[i] != all[j] by {
            if j < earlier.len() {
                assert(earlier[i] != earlier[j]);
            } else {
                assert(earlier.contains(earlier[i]));
            }
        }
    }
}

} // verus!
