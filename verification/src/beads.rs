//! Work on the issues that Beads keeps: what the rows of its history say.

use crate::path::{FsPath, Parts};
use crate::text::{chars_of, join2, join3, join_all, sort_texts, trim, Text, Trimmed};
use vstd::prelude::*;
use vstd::string::*;

verus! {

/// How many characters of a longer text are shown.
pub const PREVIEW_CHARS: usize = 180;

/// Something that happened to an issue.
#[derive(Clone, Debug)]
pub struct BeadsActivity {
    pub root: FsPath,
    pub issue_id: String,
    pub title: String,
    pub action: String,
    pub detail: String,
}

/// What an activity on an issue was.
#[verifier::ext_equal]
pub struct BeadsActivityView {
    pub root: Parts,
    pub issue_id: Text,
    pub title: Text,
    pub action: Text,
    pub detail: Text,
}

impl View for BeadsActivity {
    type V = BeadsActivityView;

    open spec fn view(&self) -> BeadsActivityView {
        BeadsActivityView {
            root: self.root@,
            issue_id: self.issue_id@,
            title: self.title@,
            action: self.action@,
            detail: self.detail@,
        }
    }
}

/// The contents of a list of activities.
pub open spec fn work_views(activities: Seq<BeadsActivity>) -> Seq<BeadsActivityView> {
    activities.map_values(|one: BeadsActivity| one@)
}

/// A value of a row.
#[derive(Debug)]
pub enum Cell {
    Text(String),
    Null,
    /// A value that is no text, as it is written.
    Other(String),
}

/// What a value of a row is.
pub enum CellView {
    Text(Text),
    Null,
    Other(Text),
}

impl View for Cell {
    type V = CellView;

    open spec fn view(&self) -> CellView {
        match *self {
            Cell::Text(text) => CellView::Text(text@),
            Cell::Null => CellView::Null,
            Cell::Other(text) => CellView::Other(text@),
        }
    }
}

/// A field of a row and its value.
#[derive(Debug)]
pub struct Field {
    pub name: String,
    pub cell: Cell,
}

/// What a field holds.
#[verifier::ext_equal]
pub struct FieldView {
    pub name: Text,
    pub cell: CellView,
}

impl View for Field {
    type V = FieldView;

    open spec fn view(&self) -> FieldView {
        FieldView { name: self.name@, cell: self.cell@ }
    }
}

/// A row that a query has given.
#[derive(Debug)]
pub struct Row {
    pub fields: Vec<Field>,
}

impl View for Row {
    type V = Seq<FieldView>;

    open spec fn view(&self) -> Seq<FieldView> {
        self.fields@.map_values(|field: Field| field@)
    }
}

/// The contents of a list of rows.
pub open spec fn row_views(rows: Seq<Row>) -> Seq<Seq<FieldView>> {
    rows.map_values(|row: Row| row@)
}

/// The text of the field of a name, from the `from`-th field on: none where there
/// is no such field or where it is null.
pub open spec fn field_text(row: Seq<FieldView>, name: Text, from: int) -> Option<Text>
    decreases row.len() - from,
{
    if from < 0 || from >= row.len() {
        None
    } else if row[from].name == name {
        match row[from].cell {
            CellView::Text(text) => Some(text),
            CellView::Null => None,
            CellView::Other(text) => Some(text),
        }
    } else {
        field_text(row, name, from + 1)
    }
}

/// Finds the text of a field.
pub fn string(row: &Row, field: &str) -> (text: Option<String>)
    ensures
        crate::text::opt_text(text) == field_text(row@, field@, 0),
{
    let mut i: usize = 0;
    while i < row.fields.len()
        invariant
            i <= row.fields@.len(),
            field_text(row@, field@, 0) == field_text(row@, field@, i as int),
        decreases row.fields@.len() - i,
    {
        let one = &row.fields[i];
        assert(row@[i as int] == one@);
        if crate::text::same_text(one.name.as_str(), field) {
            return match &one.cell {
                Cell::Text(text) => Some(text.clone()),
                Cell::Null => None,
                Cell::Other(text) => Some(text.clone()),
            };
        }
        i += 1;
    }
    None
}

/// The text, or another where there is none.
pub open spec fn text_or(text: Option<Text>, other: Text) -> Text {
    match text {
        Some(text) => text,
        None => other,
    }
}

/// Finds the text of a field, or takes another where there is none.
fn string_or(row: &Row, field: &str, other: &str) -> (text: String)
    ensures
        text@ == text_or(field_text(row@, field@, 0), other@),
{
    match string(row, field) {
        Some(text) => text,
        None => other.to_owned(),
    }
}

/// Whether a character is a control character.
pub open spec fn is_control(c: char) -> bool {
    c <= '\u{1f}' || '\u{7f}' <= c <= '\u{9f}'
}

/// A character as it may be shown: a blank for a control character.
pub open spec fn shown_char(c: char) -> char {
    if is_control(c) {
        ' '
    } else {
        c
    }
}

/// A text as it may be shown: without control characters, and with an ellipsis
/// in place of what is too long.
pub open spec fn truncated(value: Text, max: nat) -> Text {
    let clean = value.map_values(|c: char| shown_char(c));
    if clean.len() <= max {
        clean
    } else {
        clean.take(max as int) + "…"@
    }
}

/// Makes a text fit to be shown.
pub fn truncate(value: &str, max_chars: usize) -> (out: String)
    ensures
        out@ == truncated(value@, max_chars as nat),
{
    let all = chars_of(value);
    let ghost clean = value@.map_values(|c: char| shown_char(c));
    let mut out = String::new();
    let mut i: usize = 0;
    assert(clean.take(0) =~= Seq::<char>::empty());
    while i < all.len() && i < max_chars
        invariant
            i <= all@.len(),
            i <= max_chars,
            all@ == value@,
            clean == value@.map_values(|c: char| shown_char(c)),
            out@ == clean.take(i as int),
        decreases all@.len() - i,
    {
        let c = all[i];
        if c <= '\u{1f}' || ('\u{7f}' <= c && c <= '\u{9f}') {
            out.push(' ');
        } else {
            out.push(c);
        }
        assert(out@ =~= clean.take(i + 1));
        i += 1;
    }
    if i < all.len() {
        out.append("…");
    } else {
        assert(clean.take(i as int) =~= clean);
    }
    out
}

/// What is shown of a longer text is no longer than it may be, but for the
/// ellipsis, and has no control characters.
pub proof fn shown_text_is_short_and_clean(value: Text, max: nat)
    ensures
        truncated(value, max).len() <= max + 1,
        forall|i: int|
            0 <= i < truncated(value, max).len() ==> !is_control(
                #[trigger] truncated(value, max)[i],
            ),
        value.len() <= max ==> truncated(value, max).len() == value.len(),
{
    reveal_strlit("…");
}

/// The name of an actor without the whitespace and the quotes around it.
pub open spec fn actor_text(actor: Text) -> Text {
    crate::text::trimmed(crate::text::trimmed(actor, Trimmed::Blank), Trimmed::Quote)
}

/// Cleans the name of an actor.
pub fn clean_actor(actor: &str) -> (out: String)
    ensures
        out@ == actor_text(actor@),
{
    trim(trim(actor, Trimmed::Blank).as_str(), Trimmed::Quote)
}

/// The names of the fields of the object that a JSON text is, where it is one, as
/// the `serde_json` crate reads it.
pub uninterp spec fn json_fields(text: Seq<char>) -> Option<Seq<Seq<char>>>;

/// The contents of an optional list of texts.
pub open spec fn opt_texts(items: Option<Vec<String>>) -> Option<Seq<Text>> {
    match items {
        Some(items) => Some(crate::text::texts(items@)),
        None => None,
    }
}

/// `serde_json::from_str` and `serde_json::Map::keys`: the names of the fields,
/// where the text is a JSON object. The result is named; a map has no name twice.
#[verifier::external_body]
fn read_json_fields(text: &str) -> (names: Option<Vec<String>>)
    ensures
        opt_texts(names) == json_fields(text@),
        opt_texts(names) matches Some(all) ==> all.no_duplicates(),
{
    match serde_json::from_str::<serde_json::Value>(text) {
        Ok(serde_json::Value::Object(fields)) => Some(fields.keys().cloned().collect()),
        _ => None,
    }
}

/// Which fields changed, where their names are known: the names alone, and not
/// the values. Where they are not, the text itself.
pub open spec fn fields_text(value: Text, names: Option<Seq<Text>>) -> Text {
    match names {
        None => truncated(value, PREVIEW_CHARS as nat),
        Some(names) => if names.len() == 0 {
            "issue fields changed"@
        } else {
            "changed "@ + crate::text::joined(crate::text::sorted_texts(names), ", "@)
        },
    }
}

/// Tells which fields changed, given their names.
pub fn summarize_fields(value: &str, names: &Option<Vec<String>>) -> (out: String)
    ensures
        out@ == fields_text(value@, opt_texts(*names)),
{
    match names {
        None => truncate(value, PREVIEW_CHARS),
        Some(names) => {
            if names.len() == 0 {
                return "issue fields changed".to_owned();
            }
            let sorted = sort_texts(names);
            let list = join_all(&sorted, 0, ", ");
            assert(crate::text::texts(sorted@).skip(0) =~= crate::text::texts(sorted@));
            join2("changed ", list.as_str())
        },
    }
}

/// What is told of changed fields depends on the set of their names alone: not on
/// their order, and on no value.
pub proof fn only_the_names_of_fields_are_told(
    value: Text,
    other: Text,
    names: Seq<Text>,
    same: Seq<Text>,
)
    requires
        names.no_duplicates(),
        same.no_duplicates(),
        names.to_set() == same.to_set(),
    ensures
        fields_text(value, Some(names)) == fields_text(other, Some(same)),
{
    crate::text::sorting_sees_the_set_alone(names, same);
}

/// Tells which fields of an issue changed. No value leaks: two objects with the
/// same names are told in the same way.
pub fn changed_fields(value: &str) -> (out: String)
    ensures
        out@ == fields_text(value@, json_fields(value@)),
        json_fields(value@) matches Some(names) ==> {
            &&& names.no_duplicates()
            &&& forall|other: Text, same: Seq<Text>|
                same.no_duplicates() && same.to_set() == names.to_set() ==> out@
                    == #[trigger] fields_text(other, Some(same))
        },
{
    let names = read_json_fields(value);
    proof {
        if let Some(all) = json_fields(value@) {
            assert forall|other: Text, same: Seq<Text>|
                same.no_duplicates() && same.to_set() == all.to_set() implies fields_text(
                value@,
                Some(all),
            ) == #[trigger] fields_text(other, Some(same)) by {
                only_the_names_of_fields_are_told(value@, other, all, same);
            }
        }
    }
    summarize_fields(value, &names)
}

/// What an event was about. `fields` is which fields changed, and counts for an
/// update alone.
pub open spec fn event_subject(action: Text, new_value: Text, comment: Text, fields: Text) -> Text {
    if action == "closed"@ && new_value.len() > 0 {
        truncated(new_value, PREVIEW_CHARS as nat)
    } else if action == "updated"@ {
        fields
    } else if comment.len() > 0 {
        truncated(comment, PREVIEW_CHARS as nat)
    } else {
        Seq::empty()
    }
}

/// What is said of an event, given who did it and what it was about.
pub open spec fn attributed(actor: Text, subject: Text) -> Text {
    if actor.len() > 0 && subject.len() > 0 {
        actor + " · "@ + subject
    } else if actor.len() > 0 {
        "by "@ + actor
    } else if subject.len() > 0 {
        subject
    } else {
        "authoritative Beads transition"@
    }
}

/// Describes an event, given who did it and what it was about.
pub fn attribute(actor: &str, subject: &str) -> (out: String)
    ensures
        out@ == attributed(actor@, subject@),
{
    if actor.unicode_len() > 0 {
        if subject.unicode_len() > 0 {
            join3(actor, " · ", subject)
        } else {
            join2("by ", actor)
        }
    } else if subject.unicode_len() > 0 {
        subject.to_owned()
    } else {
        "authoritative Beads transition".to_owned()
    }
}

/// Describes an event.
pub fn event_detail(action: &str, actor: &str, new_value: &str, comment: &str) -> (out: String)
    ensures
        out@ == attributed(
            actor_text(actor@),
            event_subject(
                action@,
                new_value@,
                comment@,
                fields_text(new_value@, json_fields(new_value@)),
            ),
        ),
{
    let actor = clean_actor(actor);
    let subject = if crate::text::same_text(action, "closed") && new_value.unicode_len() > 0 {
        truncate(new_value, PREVIEW_CHARS)
    } else if crate::text::same_text(action, "updated") {
        changed_fields(new_value)
    } else if comment.unicode_len() > 0 {
        truncate(comment, PREVIEW_CHARS)
    } else {
        String::new()
    };
    attribute(actor.as_str(), subject.as_str())
}

/// Where an activity comes from.
#[derive(Clone, Copy, Debug, PartialEq, Eq, Structural)]
pub enum RowSource {
    Events,
    Comments,
    Dependencies,
    Labels,
    Issues,
}

/// What a row of the table of events says.
pub open spec fn event_row(root: Parts, issue_id: Text, row: Seq<FieldView>) -> BeadsActivityView {
    let action = text_or(field_text(row, "action"@, 0), "updated"@);
    let new_value = text_or(field_text(row, "new_value"@, 0), Seq::empty());
    BeadsActivityView {
        root,
        issue_id,
        title: text_or(field_text(row, "title"@, 0), Seq::empty()),
        action,
        detail: attributed(
            actor_text(text_or(field_text(row, "actor"@, 0), Seq::empty())),
            event_subject(
                action,
                new_value,
                text_or(field_text(row, "comment"@, 0), Seq::empty()),
                fields_text(new_value, json_fields(new_value)),
            ),
        ),
    }
}

/// Who wrote a comment, and what it says.
pub open spec fn comment_text(row: Seq<FieldView>) -> Text {
    let actor = actor_text(text_or(field_text(row, "actor"@, 0), Seq::empty()));
    let body = truncated(
        text_or(field_text(row, "body"@, 0), Seq::empty()),
        PREVIEW_CHARS as nat,
    );
    if actor.len() == 0 {
        body
    } else {
        actor + ": "@ + body
    }
}

/// What a row of the table of comments says.
pub open spec fn comment_row(
    root: Parts,
    issue_id: Text,
    row: Seq<FieldView>,
) -> BeadsActivityView {
    BeadsActivityView {
        root,
        issue_id,
        title: text_or(field_text(row, "title"@, 0), Seq::empty()),
        action: "commented"@,
        detail: comment_text(row),
    }
}

/// Whether a row was added.
pub open spec fn is_added(row: Seq<FieldView>) -> bool {
    field_text(row, "diff_type"@, 0) == Some("added"@)
}

/// What a row of the table of dependencies says.
pub open spec fn dependency_row(
    root: Parts,
    issue_id: Text,
    row: Seq<FieldView>,
) -> BeadsActivityView {
    BeadsActivityView {
        root,
        issue_id,
        title: text_or(field_text(row, "title"@, 0), Seq::empty()),
        action: if is_added(row) {
            "linked"@
        } else {
            "unlinked"@
        },
        detail: text_or(field_text(row, "dependency_type"@, 0), "depends on"@) + " "@ + text_or(
            field_text(row, "target"@, 0),
            Seq::empty(),
        ),
    }
}

/// What a row of the table of labels says.
pub open spec fn label_row(root: Parts, issue_id: Text, row: Seq<FieldView>) -> BeadsActivityView {
    BeadsActivityView {
        root,
        issue_id,
        title: text_or(field_text(row, "title"@, 0), Seq::empty()),
        action: if is_added(row) {
            "labeled"@
        } else {
            "unlabeled"@
        },
        detail: text_or(field_text(row, "label"@, 0), Seq::empty()),
    }
}

/// What a row of the table of issues says.
pub open spec fn issue_row(root: Parts, issue_id: Text, row: Seq<FieldView>) -> BeadsActivityView {
    let diff_type = text_or(field_text(row, "diff_type"@, 0), Seq::empty());
    BeadsActivityView {
        root,
        issue_id,
        title: text_or(field_text(row, "title"@, 0), Seq::empty()),
        action: if diff_type == "added"@ {
            "created"@
        } else if diff_type == "removed"@ {
            "deleted"@
        } else {
            "updated"@
        },
        detail: "issue fields changed"@,
    }
}

/// What a row says, where it names an issue.
pub open spec fn row_activity(
    source: RowSource,
    root: Parts,
    row: Seq<FieldView>,
) -> Option<BeadsActivityView> {
    match field_text(row, "issue_id"@, 0) {
        None => None,
        Some(issue_id) => Some(
            match source {
                RowSource::Events => event_row(root, issue_id, row),
                RowSource::Comments => comment_row(root, issue_id, row),
                RowSource::Dependencies => dependency_row(root, issue_id, row),
                RowSource::Labels => label_row(root, issue_id, row),
                RowSource::Issues => issue_row(root, issue_id, row),
            },
        ),
    }
}

/// What the first `n` rows say.
pub open spec fn rows_activities(
    source: RowSource,
    root: Parts,
    rows: Seq<Seq<FieldView>>,
    n: nat,
) -> Seq<BeadsActivityView>
    decreases n,
{
    if n == 0 {
        Seq::empty()
    } else {
        let earlier = rows_activities(source, root, rows, (n - 1) as nat);
        match row_activity(source, root, rows[n - 1]) {
            Some(activity) => earlier.push(activity),
            None => earlier,
        }
    }
}

/// Tests whether a row was added.
fn was_added(row: &Row) -> (b: bool)
    ensures
        b == is_added(row@),
{
    match string(row, "diff_type") {
        Some(text) => crate::text::same_text(text.as_str(), "added"),
        None => false,
    }
}

/// Tells who wrote a comment, and what it says.
fn comment_detail(row: &Row) -> (detail: String)
    ensures
        detail@ == comment_text(row@),
{
    let actor = clean_actor(string_or(row, "actor", "").as_str());
    let body = truncate(string_or(row, "body", "").as_str(), PREVIEW_CHARS);
    proof {
        reveal_strlit("");
        assert(""@ =~= Seq::<char>::empty());
    }
    if actor.as_str().unicode_len() == 0 {
        body
    } else {
        join3(actor.as_str(), ": ", body.as_str())
    }
}

/// Reads what a row says.
pub fn read_row(source: RowSource, root: &FsPath, row: &Row) -> (activity: Option<BeadsActivity>)
    ensures
        match activity {
            Some(activity) => row_activity(source, root@, row@) == Some(activity@),
            None => row_activity(source, root@, row@) is None,
        },
{
    proof {
        reveal_strlit("");
        assert(""@ =~= Seq::<char>::empty());
    }
    let issue_id = match string(row, "issue_id") {
        Some(issue_id) => issue_id,
        None => {
            return None;
        },
    };
    let title = string_or(row, "title", "");
    let (action, detail) = match source {
        RowSource::Events => {
            let action = string_or(row, "action", "updated");
            let actor = string_or(row, "actor", "");
            let new_value = string_or(row, "new_value", "");
            let comment = string_or(row, "comment", "");
            let detail = event_detail(
                action.as_str(),
                actor.as_str(),
                new_value.as_str(),
                comment.as_str(),
            );
            (action, detail)
        },
        RowSource::Comments => ("commented".to_owned(), comment_detail(row)),
        RowSource::Dependencies => {
            let action = if was_added(row) {
                "linked"
            } else {
                "unlinked"
            };
            let kind = string_or(row, "dependency_type", "depends on");
            let target = string_or(row, "target", "");
            (action.to_owned(), join3(kind.as_str(), " ", target.as_str()))
        },
        RowSource::Labels => {
            let action = if was_added(row) {
                "labeled"
            } else {
                "unlabeled"
            };
            (action.to_owned(), string_or(row, "label", ""))
        },
        RowSource::Issues => {
            let diff_type = string_or(row, "diff_type", "");
            let action = if crate::text::same_text(diff_type.as_str(), "added") {
                "created"
            } else if crate::text::same_text(diff_type.as_str(), "removed") {
                "deleted"
            } else {
                "updated"
            };
            (action.to_owned(), "issue fields changed".to_owned())
        },
    };
    let activity = BeadsActivity { root: root.clone(), issue_id, title, action, detail };
    assert(row_activity(source, root@, row@) == Some(activity@));
    Some(activity)
}

/// Reads what the rows of a table say.
pub fn read_rows(source: RowSource, root: &FsPath, rows: &Vec<Row>) -> (activities: Vec<
    BeadsActivity,
>)
    ensures
        work_views(activities@) == rows_activities(
            source,
            root@,
            row_views(rows@),
            rows@.len(),
        ),
{
    let ghost all = row_views(rows@);
    let mut activities: Vec<BeadsActivity> = Vec::new();
    let mut i: usize = 0;
    assert(work_views(activities@) =~= Seq::<BeadsActivityView>::empty());
    while i < rows.len()
        invariant
            i <= rows@.len(),
            all == row_views(rows@),
            work_views(activities@) == rows_activities(source, root@, all, i as nat),
        decreases rows@.len() - i,
    {
        let ghost before = work_views(activities@);
        assert(all[i as int] == rows@[i as int]@);
        if let Some(activity) = read_row(source, root, &rows[i]) {
            activities.push(activity);
            assert(work_views(activities@) =~= before.push(activity@));
        }
        i += 1;
    }
    activities
}

/// The rows in which two neighbouring commits differ.
#[derive(Debug)]
pub struct CommitRows {
    pub events: Vec<Row>,
    pub comments: Vec<Row>,
    pub dependencies: Vec<Row>,
    pub labels: Vec<Row>,
}

/// What all tables but that of the issues say.
pub open spec fn semantic_of(root: Parts, rows: CommitRows) -> Seq<BeadsActivityView> {
    rows_activities(RowSource::Events, root, row_views(rows.events@), rows.events@.len())
        + rows_activities(RowSource::Comments, root, row_views(rows.comments@), rows.comments@.len())
        + rows_activities(
        RowSource::Dependencies,
        root,
        row_views(rows.dependencies@),
        rows.dependencies@.len(),
    ) + rows_activities(RowSource::Labels, root, row_views(rows.labels@), rows.labels@.len())
}

/// What happened between two neighbouring commits: what the other tables say, or
/// what the table of issues says where they say nothing.
pub open spec fn between(
    root: Parts,
    rows: CommitRows,
    issues: Seq<Row>,
) -> Seq<BeadsActivityView> {
    let semantic = semantic_of(root, rows);
    if semantic.len() == 0 {
        rows_activities(RowSource::Issues, root, row_views(issues), issues.len())
    } else {
        semantic
    }
}

/// Reads what all tables but that of the issues say.
pub fn semantic_activities(root: &FsPath, rows: &CommitRows) -> (activities: Vec<BeadsActivity>)
    ensures
        work_views(activities@) == semantic_of(root@, *rows),
{
    let mut activities = read_rows(RowSource::Events, root, &rows.events);
    let ghost first = work_views(activities@);
    let mut comments = read_rows(RowSource::Comments, root, &rows.comments);
    let ghost second = work_views(comments@);
    let mut dependencies = read_rows(RowSource::Dependencies, root, &rows.dependencies);
    let ghost third = work_views(dependencies@);
    let mut labels = read_rows(RowSource::Labels, root, &rows.labels);
    let ghost fourth = work_views(labels@);
    activities.append(&mut comments);
    assert(work_views(activities@) =~= first + second);
    activities.append(&mut dependencies);
    assert(work_views(activities@) =~= first + second + third);
    activities.append(&mut labels);
    assert(work_views(activities@) =~= first + second + third + fourth);
    activities
}

/// Reads what happened between two neighbouring commits. The rows of the issues
/// count only where the other tables say nothing.
pub fn activities_between(root: &FsPath, rows: &CommitRows, issues: &Vec<Row>) -> (activities: Vec<
    BeadsActivity,
>)
    ensures
        work_views(activities@) == between(root@, *rows, issues@),
{
    let activities = semantic_activities(root, rows);
    assert(work_views(activities@).len() == activities@.len());
    if activities.len() == 0 {
        read_rows(RowSource::Issues, root, issues)
    } else {
        activities
    }
}

} // verus!
