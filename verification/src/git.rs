//! Git activity: what happened in a repository between two looks at it.

use crate::path::{FsPath, PartView, Parts};
use crate::text::{
    count_words, has_tail, lines, lossy, split_once, strip_head, trim, Text, Trimmed,
};
use vstd::prelude::*;
use vstd::string::*;

verus! {

/// Something that happened in a repository.
#[derive(Clone, Debug)]
pub struct GitActivity {
    pub root: FsPath,
    pub summary: String,
    pub detail: String,
}

/// What an activity in a repository was.
#[verifier::ext_equal]
pub struct GitActivityView {
    pub root: Parts,
    pub summary: Text,
    pub detail: Text,
}

impl View for GitActivity {
    type V = GitActivityView;

    open spec fn view(&self) -> GitActivityView {
        GitActivityView { root: self.root@, summary: self.summary@, detail: self.detail@ }
    }
}

/// The contents of a list of activities.
pub open spec fn activity_views(activities: Seq<GitActivity>) -> Seq<GitActivityView> {
    activities.map_values(|one: GitActivity| one@)
}

/// An activity of these contents.
pub open spec fn activity_of(root: Parts, summary: Text, detail: Text) -> GitActivityView {
    GitActivityView { root, summary, detail }
}

/// Builds an activity.
pub fn activity(root: &FsPath, summary: String, detail: &str) -> (out: GitActivity)
    ensures
        out@ == activity_of(root@, summary@, detail@),
{
    GitActivity { root: root.clone(), summary, detail: detail.to_owned() }
}

/// An operation that takes several steps.
#[derive(Clone, Copy, Debug, PartialEq, Eq, Structural)]
pub enum GitOperation {
    Merge,
    Rebase,
    CherryPick,
    Revert,
    Bisect,
}

impl GitOperation {
    /// The name of an operation.
    pub open spec fn label_text(self) -> Text {
        match self {
            GitOperation::Merge => "merge"@,
            GitOperation::Rebase => "rebase"@,
            GitOperation::CherryPick => "cherry-pick"@,
            GitOperation::Revert => "revert"@,
            GitOperation::Bisect => "bisect"@,
        }
    }

    /// Names the operation.
    pub fn label(self) -> (label: &'static str)
        ensures
            label@ == self.label_text(),
    {
        match self {
            GitOperation::Merge => "merge",
            GitOperation::Rebase => "rebase",
            GitOperation::CherryPick => "cherry-pick",
            GitOperation::Revert => "revert",
            GitOperation::Bisect => "bisect",
        }
    }
}

/// Which of the files that mark an operation stand in the Git directory.
#[derive(Clone, Copy, Debug, PartialEq, Eq, Structural)]
pub struct OperationMarks {
    pub merge_head: bool,
    pub rebase_merge: bool,
    pub rebase_apply: bool,
    pub cherry_pick_head: bool,
    pub revert_head: bool,
    pub bisect_start: bool,
}

/// The operation that is under way.
pub open spec fn operation_of(marks: OperationMarks) -> Option<GitOperation> {
    if marks.merge_head {
        Some(GitOperation::Merge)
    } else if marks.rebase_merge || marks.rebase_apply {
        Some(GitOperation::Rebase)
    } else if marks.cherry_pick_head {
        Some(GitOperation::CherryPick)
    } else if marks.revert_head {
        Some(GitOperation::Revert)
    } else if marks.bisect_start {
        Some(GitOperation::Bisect)
    } else {
        None
    }
}

/// Finds the operation that is under way.
pub fn read_operation(marks: OperationMarks) -> (operation: Option<GitOperation>)
    ensures
        operation == operation_of(marks),
{
    if marks.merge_head {
        Some(GitOperation::Merge)
    } else if marks.rebase_merge || marks.rebase_apply {
        Some(GitOperation::Rebase)
    } else if marks.cherry_pick_head {
        Some(GitOperation::CherryPick)
    } else if marks.revert_head {
        Some(GitOperation::Revert)
    } else if marks.bisect_start {
        Some(GitOperation::Bisect)
    } else {
        None
    }
}

/// A reference and the object that it points to.
#[derive(Clone, Debug, PartialEq, Eq)]
pub struct RefEntry {
    pub name: String,
    pub object: String,
}

/// What a reference is.
#[verifier::ext_equal]
pub struct RefView {
    pub name: Text,
    pub object: Text,
}

impl View for RefEntry {
    type V = RefView;

    open spec fn view(&self) -> RefView {
        RefView { name: self.name@, object: self.object@ }
    }
}

/// References by name, in the order in which they were first listed.
#[derive(Clone, Debug, PartialEq, Eq)]
pub struct RefTable {
    pub entries: Vec<RefEntry>,
}

impl View for RefTable {
    type V = Seq<RefView>;

    open spec fn view(&self) -> Seq<RefView> {
        self.entries@.map_values(|entry: RefEntry| entry@)
    }
}

/// Where the reference of a name stands, from the `from`-th on.
pub open spec fn ref_at(refs: Seq<RefView>, name: Text, from: int) -> Option<int>
    decreases refs.len() - from,
{
    if from < 0 || from >= refs.len() {
        None
    } else if refs[from].name == name {
        Some(from)
    } else {
        ref_at(refs, name, from + 1)
    }
}

/// The object that a reference points to.
pub open spec fn object_of(refs: Seq<RefView>, name: Text) -> Option<Text> {
    match ref_at(refs, name, 0) {
        Some(i) => Some(refs[i].object),
        None => None,
    }
}

/// The references with one more, or with another object for one of them.
pub open spec fn ref_inserted(refs: Seq<RefView>, name: Text, object: Text) -> Seq<RefView> {
    match ref_at(refs, name, 0) {
        Some(i) => refs.update(i, RefView { name, object }),
        None => refs.push(RefView { name, object }),
    }
}

/// Whether no name occurs twice.
pub open spec fn is_ref_table(refs: Seq<RefView>) -> bool {
    forall|i: int, j: int|
        0 <= i < j < refs.len() ==> (#[trigger] refs[i]).name != (#[trigger] refs[j]).name
}

/// Where a reference is found, it is in the list, and else no reference has the
/// name.
pub proof fn lemma_ref_at(refs: Seq<RefView>, name: Text, from: int)
    requires
        0 <= from,
    ensures
        match ref_at(refs, name, from) {
            Some(i) => from <= i < refs.len() && refs[i].name == name,
            None => forall|i: int| from <= i < refs.len() ==> (#[trigger] refs[i]).name != name,
        },
    decreases refs.len() - from,
{
    if from < refs.len() && refs[from].name != name {
        lemma_ref_at(refs, name, from + 1);
    }
}

impl RefTable {
    /// A table without references.
    pub fn new() -> (table: RefTable)
        ensures
            table@ == Seq::<RefView>::empty(),
            is_ref_table(table@),
    {
        let table = RefTable { entries: Vec::new() };
        assert(table@ =~= Seq::<RefView>::empty());
        table
    }

    /// How many references there are.
    pub fn len(&self) -> (n: usize)
        ensures
            n == self@.len(),
    {
        self.entries.len()
    }

    /// Takes all references out.
    pub fn clear(&mut self)
        ensures
            final(self)@ == Seq::<RefView>::empty(),
    {
        self.entries.clear();
        assert(self@ =~= Seq::<RefView>::empty());
    }

    /// Finds where the reference of a name stands.
    fn position(&self, name: &str) -> (at: Option<usize>)
        ensures
            match at {
                Some(i) => i < self@.len() && ref_at(self@, name@, 0) == Some(i as int),
                None => ref_at(self@, name@, 0) is None,
            },
    {
        let mut i: usize = 0;
        while i < self.entries.len()
            invariant
                i <= self.entries@.len(),
                ref_at(self@, name@, 0) == ref_at(self@, name@, i as int),
            decreases self.entries@.len() - i,
        {
            assert(self@[i as int] == self.entries@[i as int]@);
            if crate::text::same_text(self.entries[i].name.as_str(), name) {
                return Some(i);
            }
            i += 1;
        }
        None
    }

    /// Finds the object that a reference points to.
    pub fn get(&self, name: &str) -> (object: Option<&String>)
        ensures
            match object {
                Some(object) => object_of(self@, name@) == Some(object@),
                None => object_of(self@, name@) is None,
            },
    {
        match self.position(name) {
            Some(i) => {
                assert(self@[i as int] == self.entries@[i as int]@);
                Some(&self.entries[i].object)
            },
            None => None,
        }
    }

    /// Lets a reference point to an object.
    pub fn insert(&mut self, name: String, object: String)
        requires
            is_ref_table(old(self)@),
        ensures
            final(self)@ == ref_inserted(old(self)@, name@, object@),
            is_ref_table(final(self)@),
    {
        let ghost before = self@;
        proof {
            lemma_ref_at(before, name@, 0);
        }
        match self.position(name.as_str()) {
            Some(i) => {
                let entry = RefEntry { name, object };
                self.entries.set(i, entry);
                assert(self@ =~= before.update(i as int, entry@));
            },
            None => {
                let entry = RefEntry { name, object };
                self.entries.push(entry);
                assert(self@ =~= before.push(entry@));
            },
        }
    }
}

/// What a repository looks like.
#[derive(Clone, Debug)]
pub struct RepoSnapshot {
    pub head: Option<String>,
    pub branch: Option<String>,
    pub subject: Option<String>,
    pub parent_count: usize,
    pub branches: RefTable,
    pub tags: RefTable,
    pub remotes: RefTable,
    pub stash: Option<String>,
    pub operation: Option<GitOperation>,
}

/// What is known of a repository.
#[verifier::ext_equal]
pub struct RepoView {
    pub head: Option<Text>,
    pub branch: Option<Text>,
    pub subject: Option<Text>,
    pub parent_count: usize,
    pub branches: Seq<RefView>,
    pub tags: Seq<RefView>,
    pub remotes: Seq<RefView>,
    pub stash: Option<Text>,
    pub operation: Option<GitOperation>,
}

impl View for RepoSnapshot {
    type V = RepoView;

    open spec fn view(&self) -> RepoView {
        RepoView {
            head: crate::text::opt_text(self.head),
            branch: crate::text::opt_text(self.branch),
            subject: crate::text::opt_text(self.subject),
            parent_count: self.parent_count,
            branches: self.branches@,
            tags: self.tags@,
            remotes: self.remotes@,
            stash: crate::text::opt_text(self.stash),
            operation: self.operation,
        }
    }
}

/// What a command that ended well has written: its output without whitespace
/// around it, where anything is left.
pub open spec fn said(success: bool, output: Text) -> Option<Text> {
    let text = crate::text::trimmed(output, Trimmed::Blank);
    if success && text.len() > 0 {
        Some(text)
    } else {
        None
    }
}

/// Finds what is left of an output without the whitespace around it.
pub fn trimmed_output(success: bool, output: &str) -> (text: Option<String>)
    ensures
        crate::text::opt_text(text) == said(success, output@),
{
    if !success {
        return None;
    }
    let text = trim(output, Trimmed::Blank);
    if text.as_str().unicode_len() == 0 {
        None
    } else {
        Some(text)
    }
}

/// Reads the bytes that a command has written.
pub fn successful_text(success: bool, output: &[u8]) -> (text: Option<String>)
    ensures
        crate::text::opt_text(text) == said(success, crate::text::lossy_text(output@)),
{
    trimmed_output(success, lossy(output).as_str())
}

/// The references that the first `n` lines of a listing give. A line is a name, a
/// zero character and an object; other lines are passed over.
pub open spec fn listed_refs(lines: Seq<Text>, n: nat) -> Seq<RefView>
    decreases n,
{
    if n == 0 {
        Seq::empty()
    } else {
        let earlier = listed_refs(lines, (n - 1) as nat);
        match crate::text::split_once_at(lines[n - 1], '\0') {
            Some((name, object)) => ref_inserted(earlier, name, object),
            None => earlier,
        }
    }
}

/// The references of a listing, where there is one.
pub open spec fn refs_of(listing: Option<Text>) -> Seq<RefView> {
    match listing {
        Some(text) => {
            let lines = crate::text::lines_of(text);
            listed_refs(lines, lines.len())
        },
        None => Seq::empty(),
    }
}

/// Reads a listing of references.
pub fn read_refs(listing: &Option<String>) -> (table: RefTable)
    ensures
        table@ == refs_of(crate::text::opt_text(*listing)),
        is_ref_table(table@),
{
    let mut table = RefTable::new();
    if let Some(text) = listing {
        let all = lines(text.as_str());
        let ghost views = crate::text::texts(all@);
        let mut i: usize = 0;
        while i < all.len()
            invariant
                i <= all@.len(),
                views == crate::text::texts(all@),
                is_ref_table(table@),
                table@ == listed_refs(views, i as nat),
            decreases all@.len() - i,
        {
            assert(views[i as int] == all@[i as int]@);
            if let Some((name, object)) = split_once(all[i].as_str(), '\0') {
                table.insert(name, object);
            }
            i += 1;
        }
        assert(views.len() == all@.len());
    }
    table
}

/// Whether a remote reference is the default branch of its remote.
pub open spec fn is_remote_head(entry: RefView) -> bool {
    crate::text::ends_with(entry.name, "/HEAD"@)
}

/// The references without the default branches of remotes.
pub open spec fn without_heads(refs: Seq<RefView>) -> Seq<RefView> {
    refs.filter(|entry: RefView| !is_remote_head(entry))
}

/// Takes the default branches of remotes out.
fn drop_heads(table: RefTable) -> (kept: RefTable)
    requires
        is_ref_table(table@),
    ensures
        kept@ == without_heads(table@),
        is_ref_table(kept@),
{
    let ghost all = table@;
    let ghost keep = |entry: RefView| !is_remote_head(entry);
    let mut kept = RefTable::new();
    let mut i: usize = 0;
    proof {
        reveal_with_fuel(Seq::filter, 1);
        assert(all.take(0).filter(keep) =~= Seq::<RefView>::empty());
    }
    while i < table.entries.len()
        invariant
            i <= table.entries@.len(),
            all == table@,
            is_ref_table(all),
            keep == (|entry: RefView| !is_remote_head(entry)),
            kept@ == all.take(i as int).filter(keep),
            is_ref_table(kept@),
            forall|k: int|
                0 <= k < kept@.len() ==> exists|m: int|
                    0 <= m < i && #[trigger] all[m] == #[trigger] kept@[k],
        decreases table.entries@.len() - i,
    {
        let entry = &table.entries[i];
        assert(all[i as int] == entry@);
        let ghost before = kept@;
        if !has_tail(entry.name.as_str(), "/HEAD") {
            kept.entries.push(
                RefEntry { name: entry.name.clone(), object: entry.object.clone() },
            );
            assert(kept@ =~= before.push(all[i as int]));
            assert forall|k: int| 0 <= k < kept@.len() implies exists|m: int|
                0 <= m < i + 1 && #[trigger] all[m] == #[trigger] kept@[k] by {
                if k < before.len() {
                    let m = choose|m: int| 0 <= m < i && #[trigger] all[m] == before[k];
                    assert(all[m] == kept@[k]);
                } else {
                    assert(all[i as int] == kept@[k]);
                }
            }
        }
        proof {
            assert(all.take(i + 1).drop_last() =~= all.take(i as int));
            assert(all.take(i + 1).last() == all[i as int]);
            reveal_with_fuel(Seq::filter, 1);
        }
        i += 1;
    }
    assert(all.take(i as int) =~= all);
    kept
}

/// What Git and the Git directory say of a repository. Each text is what a
/// command has written, where it ended well and wrote anything.
#[derive(Debug)]
pub struct RepoReadings {
    /// `rev-parse --verify HEAD`.
    pub head: Option<String>,
    /// `symbolic-ref --short -q HEAD`.
    pub branch: Option<String>,
    /// The subject of the last commit, a zero character and its parents.
    pub commit: Option<String>,
    /// The listing of `refs/heads`.
    pub branches: Option<String>,
    /// The listing of `refs/tags`.
    pub tags: Option<String>,
    /// The listing of `refs/remotes`.
    pub remotes: Option<String>,
    /// `rev-parse --verify refs/stash`.
    pub stash: Option<String>,
    pub marks: OperationMarks,
}

/// The subject and the number of parents of a commit.
pub open spec fn commit_of(commit: Option<Text>) -> (Option<Text>, nat) {
    match commit {
        Some(text) => match crate::text::split_once_at(text, '\0') {
            Some((subject, parents)) => (Some(subject), crate::text::words_from(parents, 0)),
            None => (None, 0),
        },
        None => (None, 0),
    }
}

/// What some readings say of a repository.
pub open spec fn repo_of(readings: RepoReadings) -> RepoView {
    let commit = commit_of(crate::text::opt_text(readings.commit));
    RepoView {
        head: crate::text::opt_text(readings.head),
        branch: crate::text::opt_text(readings.branch),
        subject: commit.0,
        parent_count: commit.1 as usize,
        branches: refs_of(crate::text::opt_text(readings.branches)),
        tags: refs_of(crate::text::opt_text(readings.tags)),
        remotes: without_heads(refs_of(crate::text::opt_text(readings.remotes))),
        stash: crate::text::opt_text(readings.stash),
        operation: operation_of(readings.marks),
    }
}

/// Puts together what some readings say of a repository.
pub fn read_snapshot(readings: RepoReadings) -> (snapshot: RepoSnapshot)
    ensures
        snapshot@ == repo_of(readings),
{
    let mut subject: Option<String> = None;
    let mut parent_count: usize = 0;
    if let Some(text) = &readings.commit {
        if let Some((head, parents)) = split_once(text.as_str(), '\0') {
            parent_count = count_words(parents.as_str());
            subject = Some(head);
        }
    }
    RepoSnapshot {
        branches: read_refs(&readings.branches),
        tags: read_refs(&readings.tags),
        remotes: drop_heads(read_refs(&readings.remotes)),
        operation: read_operation(readings.marks),
        head: readings.head,
        branch: readings.branch,
        subject,
        parent_count,
        stash: readings.stash,
    }
}

/// The first seven bytes of an object id, or all of it where they do not make up
/// whole characters.
pub open spec fn short_text(value: Text) -> Text {
    let bytes = vstd::utf8::encode_utf8(value);
    if vstd::utf8::is_char_boundary(bytes, 7) {
        vstd::utf8::decode_utf8(bytes.subrange(0, 7))
    } else {
        value
    }
}

/// Shortens an object id.
pub fn short_oid(value: &str) -> (short: &str)
    ensures
        short@ == short_text(value@),
{
    broadcast use vstd::utf8::encode_utf8_decode_utf8;

    if value.is_char_boundary(7) {
        value.split_at(7).0
    } else {
        value
    }
}

/// An object id is plain text, and is cut off behind its seventh character.
pub proof fn short_ids_are_the_first_characters(value: Text)
    requires
        vstd::utf8::is_ascii_chars(value),
    ensures
        value.len() >= 7 ==> short_text(value) == value.take(7),
        value.len() < 7 ==> short_text(value) == value,
{
    let bytes = vstd::utf8::encode_utf8(value);
    vstd::utf8::is_ascii_chars_encode_utf8(value);
    vstd::utf8::encode_utf8_valid_utf8(value);
    if value.len() >= 7 {
        let head = value.take(7);
        let tail = value.skip(7);
        assert(value =~= head + tail);
        vstd::utf8::is_ascii_chars_encode_utf8(head);
        assert(bytes.subrange(0, 7) =~= vstd::utf8::encode_utf8(head));
        vstd::utf8::encode_utf8_decode_utf8(head);
        lemma_ascii_boundary(value, 7);
    } else {
        assert(bytes.len() < 7);
    }
}

/// In plain text every place is the start of a character, or the end.
proof fn lemma_ascii_boundary(value: Text, index: int)
    requires
        vstd::utf8::is_ascii_chars(value),
        0 <= index <= value.len(),
    ensures
        vstd::utf8::is_char_boundary(vstd::utf8::encode_utf8(value), index),
{
    let bytes = vstd::utf8::encode_utf8(value);
    vstd::utf8::is_ascii_chars_encode_utf8(value);
    vstd::utf8::encode_utf8_valid_utf8(value);
    if index == value.len() {
        vstd::utf8::is_char_boundary_start_end_of_seq(bytes);
    } else {
        vstd::utf8::is_char_boundary_iff_not_is_continuation_byte(bytes, index);
        assert(bytes[index] == value[index] as u8);
    }
}

/// The path in front of the first component that is called `.git`.
pub open spec fn worktree_of(path: Parts, from: int) -> Option<Parts>
    decreases path.len() - from,
{
    if from < 0 || from >= path.len() {
        None
    } else if path[from] == PartView::Normal(".git"@) {
        Some(path.take(from))
    } else {
        worktree_of(path, from + 1)
    }
}

/// Finds the folder whose `.git` a path lies in.
pub fn worktree_from_git_path(path: &FsPath) -> (worktree: Option<FsPath>)
    ensures
        crate::path::opt_path(worktree) == worktree_of(path@, 0),
{
    let mut above = FsPath::empty();
    let mut i: usize = 0;
    assert(path@.take(0) =~= Parts::empty());
    while i < path.parts.len()
        invariant
            i <= path.parts@.len(),
            above@ == path@.take(i as int),
            worktree_of(path@, 0) == worktree_of(path@, i as int),
        decreases path.parts@.len() - i,
    {
        assert(path@[i as int] == path.parts@[i as int]@);
        if path.parts[i].is_name(".git") {
            return Some(above);
        }
        let ghost before = above@;
        above.parts.push(path.parts[i].clone());
        assert(above@ =~= before.push(path@[i as int]));
        assert(above@ =~= path@.take(i + 1));
        i += 1;
    }
    None
}

/// The worktrees that the first `n` lines of a listing name.
pub open spec fn listed_worktrees(lines: Seq<Text>, n: nat) -> Seq<Text>
    decreases n,
{
    if n == 0 {
        Seq::empty()
    } else {
        let earlier = listed_worktrees(lines, (n - 1) as nat);
        if crate::text::begins_with(lines[n - 1], "worktree "@) {
            earlier.push(lines[n - 1].skip("worktree "@.len() as int))
        } else {
            earlier
        }
    }
}

/// Reads which worktrees a listing names.
pub fn parse_worktrees(listing: &str) -> (worktrees: Vec<String>)
    ensures
        crate::text::texts(worktrees@) == listed_worktrees(
            crate::text::lines_of(listing@),
            crate::text::lines_of(listing@).len(),
        ),
{
    let all = lines(listing);
    let ghost views = crate::text::texts(all@);
    let mut worktrees: Vec<String> = Vec::new();
    let mut i: usize = 0;
    assert(crate::text::texts(worktrees@) =~= Seq::<Text>::empty());
    while i < all.len()
        invariant
            i <= all@.len(),
            views == crate::text::texts(all@),
            crate::text::texts(worktrees@) == listed_worktrees(views, i as nat),
        decreases all@.len() - i,
    {
        assert(views[i as int] == all@[i as int]@);
        let ghost before = crate::text::texts(worktrees@);
        if let Some(path) = strip_head(all[i].as_str(), "worktree ") {
            worktrees.push(path);
            assert(crate::text::texts(worktrees@) =~= before.push(path@));
        }
        i += 1;
    }
    assert(views.len() == all@.len());
    worktrees
}

} // verus!
