//! The state of the Beads observation: which stores are connected, and up to
//! which commit their history has been told.

use crate::beads::{
    activities_between, string, BeadsActivity, BeadsActivityView, CommitRows, FieldView, Row,
};
use crate::model::{integrity, IntegrityEvent, IntegrityLevel, IntegrityView};
use crate::path::{copy_paths, has_path, FsPath, Part, PartView, Parts};
use crate::recovery::elapsed;
use crate::text::{first_word, join2, join3, lines, lossy, trim, Text, Trimmed};
use vstd::prelude::*;
use vstd::string::*;

verus! {

/// How long a store has to be quiet before its history is read.
pub const EVENT_QUIET_PERIOD: u64 = 150_000_000;

/// How many tables a store has to have.
pub const REQUIRED_TABLES: usize = 5;

/// The names of the tables that a store has to have.
pub open spec fn table_text(i: int) -> Text {
    if i == 0 {
        "events"@
    } else if i == 1 {
        "issues"@
    } else if i == 2 {
        "comments"@
    } else if i == 3 {
        "dependencies"@
    } else {
        "labels"@
    }
}

/// Names a table that a store has to have.
pub fn required_table(i: usize) -> (name: &'static str)
    ensures
        name@ == table_text(i as int),
{
    if i == 0 {
        "events"
    } else if i == 1 {
        "issues"
    } else if i == 2 {
        "comments"
    } else if i == 3 {
        "dependencies"
    } else {
        "labels"
    }
}

/// Writes the query that tells whether a store has a table.
pub fn schema_query(i: usize) -> (query: String)
    ensures
        query@ == "SELECT * FROM dolt_diff_"@ + table_text(i as int) + " LIMIT 0"@,
{
    join3("SELECT * FROM dolt_diff_", required_table(i), " LIMIT 0")
}

/// A query with the two commits that it is about.
pub open spec fn with_commits(head: Text, from: Text, to: Text, tail: Text) -> Text {
    head + "WHERE d.from_commit='"@ + from + "' AND d.to_commit='"@ + to + "'"@ + tail
}

/// Puts the two commits that it is about into a query.
fn commit_query(head: &str, from: &str, to: &str, tail: &str) -> (query: String)
    ensures
        query@ == with_commits(head@, from@, to@, tail@),
{
    let mut query = join3(head, "WHERE d.from_commit='", from);
    query.append("' AND d.to_commit='");
    query.append(to);
    query.append("'");
    query.append(tail);
    query
}

/// The query for the rows in which two commits differ.
pub open spec fn diff_query_text(
    source: crate::beads::RowSource,
    from: Text,
    to: Text,
) -> Text {
    match source {
        crate::beads::RowSource::Events => with_commits(
            "SELECT d.to_issue_id AS issue_id, COALESCE(i.title, '') AS title, d.to_event_type AS action, d.to_actor AS actor, d.to_new_value AS new_value, d.to_comment AS comment FROM dolt_diff_events d LEFT JOIN issues i ON i.id = d.to_issue_id "@,
            from,
            to,
            " AND d.diff_type='added' ORDER BY d.to_created_at, d.to_id"@,
        ),
        crate::beads::RowSource::Comments => with_commits(
            "SELECT d.to_issue_id AS issue_id, COALESCE(i.title, '') AS title, d.to_author AS actor, d.to_text AS body FROM dolt_diff_comments d LEFT JOIN issues i ON i.id = d.to_issue_id "@,
            from,
            to,
            " AND d.diff_type='added' ORDER BY d.to_created_at, d.to_id"@,
        ),
        crate::beads::RowSource::Dependencies => with_commits(
            "SELECT COALESCE(d.to_issue_id, d.from_issue_id) AS issue_id, COALESCE(i.title, '') AS title, d.diff_type, COALESCE(d.to_type, d.from_type) AS dependency_type, COALESCE(d.to_depends_on_issue_id, d.from_depends_on_issue_id, '') AS target FROM dolt_diff_dependencies d LEFT JOIN issues i ON i.id = COALESCE(d.to_issue_id, d.from_issue_id) "@,
            from,
            to,
            ""@,
        ),
        crate::beads::RowSource::Labels => with_commits(
            "SELECT COALESCE(d.to_issue_id, d.from_issue_id) AS issue_id, COALESCE(i.title, '') AS title, d.diff_type, COALESCE(d.to_label, d.from_label, '') AS label FROM dolt_diff_labels d LEFT JOIN issues i ON i.id = COALESCE(d.to_issue_id, d.from_issue_id) "@,
            from,
            to,
            ""@,
        ),
        crate::beads::RowSource::Issues => with_commits(
            "SELECT COALESCE(d.to_id, d.from_id) AS issue_id, COALESCE(d.to_title, d.from_title, '') AS title, d.diff_type FROM dolt_diff_issues d "@,
            from,
            to,
            ""@,
        ),
    }
}

/// Writes the query for the rows in which two commits differ.
pub fn diff_query(source: crate::beads::RowSource, from: &str, to: &str) -> (query: String)
    ensures
        query@ == diff_query_text(source, from@, to@),
{
    match source {
        crate::beads::RowSource::Events => commit_query(
            "SELECT d.to_issue_id AS issue_id, COALESCE(i.title, '') AS title, d.to_event_type AS action, d.to_actor AS actor, d.to_new_value AS new_value, d.to_comment AS comment FROM dolt_diff_events d LEFT JOIN issues i ON i.id = d.to_issue_id ",
            from,
            to,
            " AND d.diff_type='added' ORDER BY d.to_created_at, d.to_id",
        ),
        crate::beads::RowSource::Comments => commit_query(
            "SELECT d.to_issue_id AS issue_id, COALESCE(i.title, '') AS title, d.to_author AS actor, d.to_text AS body FROM dolt_diff_comments d LEFT JOIN issues i ON i.id = d.to_issue_id ",
            from,
            to,
            " AND d.diff_type='added' ORDER BY d.to_created_at, d.to_id",
        ),
        crate::beads::RowSource::Dependencies => commit_query(
            "SELECT COALESCE(d.to_issue_id, d.from_issue_id) AS issue_id, COALESCE(i.title, '') AS title, d.diff_type, COALESCE(d.to_type, d.from_type) AS dependency_type, COALESCE(d.to_depends_on_issue_id, d.from_depends_on_issue_id, '') AS target FROM dolt_diff_dependencies d LEFT JOIN issues i ON i.id = COALESCE(d.to_issue_id, d.from_issue_id) ",
            from,
            to,
            "",
        ),
        crate::beads::RowSource::Labels => commit_query(
            "SELECT COALESCE(d.to_issue_id, d.from_issue_id) AS issue_id, COALESCE(i.title, '') AS title, d.diff_type, COALESCE(d.to_label, d.from_label, '') AS label FROM dolt_diff_labels d LEFT JOIN issues i ON i.id = COALESCE(d.to_issue_id, d.from_issue_id) ",
            from,
            to,
            "",
        ),
        crate::beads::RowSource::Issues => commit_query(
            "SELECT COALESCE(d.to_id, d.from_id) AS issue_id, COALESCE(d.to_title, d.from_title, '') AS title, d.diff_type FROM dolt_diff_issues d ",
            from,
            to,
            "",
        ),
    }
}

/// What a failed query is told by.
pub open spec fn query_failure_text(stderr: Text) -> Text {
    "Dolt query failed: "@ + crate::text::trimmed(stderr, Trimmed::Blank)
}

/// Tells that a query has failed.
pub fn query_failure(stderr: &[u8]) -> (out: String)
    ensures
        out@ == query_failure_text(crate::text::lossy_text(stderr@)),
{
    let text = lossy(stderr);
    join2("Dolt query failed: ", trim(text.as_str(), Trimmed::Blank).as_str())
}

/// The commit that a history ends at: that of its first row.
pub open spec fn head_of(rows: Seq<Seq<FieldView>>) -> Option<Text> {
    if rows.len() > 0 {
        crate::beads::field_text(rows[0], "commit_hash"@, 0)
    } else {
        None
    }
}

/// Writes the query for the commit that a history ends at.
pub fn head_query() -> (query: &'static str)
    ensures
        query@ == "SELECT commit_hash FROM dolt_log ORDER BY date DESC LIMIT 1"@,
{
    "SELECT commit_hash FROM dolt_log ORDER BY date DESC LIMIT 1"
}

/// Finds the commit that a history ends at.
pub fn current_head(rows: &Vec<Row>) -> (head: Result<String, String>)
    ensures
        match head {
            Ok(head) => head_of(crate::beads::row_views(rows@)) == Some(head@),
            Err(reason) => head_of(crate::beads::row_views(rows@)) is None && reason@
                == "Beads Dolt history has no HEAD commit"@,
        },
{
    if rows.len() > 0 {
        assert(crate::beads::row_views(rows@)[0] == rows@[0]@);
        if let Some(head) = string(&rows[0], "commit_hash") {
            return Ok(head);
        }
    }
    Err("Beads Dolt history has no HEAD commit".to_owned())
}

/// The first words of the first `n` lines, the last one first.
pub open spec fn first_words(lines: Seq<Text>, n: nat) -> Seq<Text>
    decreases n,
{
    if n == 0 {
        Seq::empty()
    } else {
        match crate::text::first_word_of(lines[n - 1]) {
            Some(word) => seq![word] + first_words(lines, (n - 1) as nat),
            None => first_words(lines, (n - 1) as nat),
        }
    }
}

/// The commits of a log, which lists the newest first, in the order in which they
/// were made.
pub open spec fn log_commits(log: Text) -> Seq<Text> {
    first_words(crate::text::lines_of(log), crate::text::lines_of(log).len())
}

/// Reads the commits of a log in the order in which they were made.
pub fn parse_log(log: &str) -> (commits: Vec<String>)
    ensures
        crate::text::texts(commits@) == log_commits(log@),
{
    let all = lines(log);
    let ghost views = crate::text::texts(all@);
    let mut commits: Vec<String> = Vec::new();
    let mut i: usize = 0;
    assert(crate::text::texts(commits@) =~= Seq::<Text>::empty());
    while i < all.len()
        invariant
            i <= all@.len(),
            views == crate::text::texts(all@),
            crate::text::texts(commits@) == first_words(views, i as nat),
        decreases all@.len() - i,
    {
        let ghost before = crate::text::texts(commits@);
        assert(views[i as int] == all@[i as int]@);
        if let Some(word) = first_word(all[i].as_str()) {
            commits.insert(0, word);
            assert(crate::text::texts(commits@) =~= seq![word@] + before);
        }
        i += 1;
    }
    assert(views.len() == all@.len());
    commits
}

/// Reads the commits behind `cursor` from what the log command has written.
pub fn commits_after(cursor: &str, success: bool, stdout: &[u8], stderr: &[u8]) -> (commits: Result<
    Vec<String>,
    String,
>)
    ensures
        match commits {
            Ok(commits) => success && crate::text::texts(commits@) == log_commits(
                crate::text::lossy_text(stdout@),
            ),
            Err(reason) => !success && reason@ == "could not traverse Beads history from "@
                + cursor@ + ": "@ + crate::text::trimmed(
                crate::text::lossy_text(stderr@),
                Trimmed::Blank,
            ),
        },
{
    if !success {
        let text = lossy(stderr);
        let mut reason = join3("could not traverse Beads history from ", cursor, ": ");
        reason.append(trim(text.as_str(), Trimmed::Blank).as_str());
        return Err(reason);
    }
    Ok(parse_log(lossy(stdout).as_str()))
}

/// What the metadata of Beads says.
#[derive(Debug)]
pub struct BeadsMetadata {
    pub database: Option<String>,
    pub dolt_database: Option<String>,
    pub dolt_mode: Option<String>,
}

/// What came of reading the metadata of Beads.
#[derive(Debug)]
pub enum MetadataReading {
    Unreadable,
    Malformed,
    Metadata(BeadsMetadata),
}

/// The database that the metadata names: the Dolt database, or else the other.
pub open spec fn named_database(metadata: BeadsMetadata) -> Option<Text> {
    match (metadata.dolt_database, metadata.database) {
        (Some(name), _) => if name@.len() > 0 {
            Some(name@)
        } else {
            None
        },
        (None, Some(name)) => if name@.len() > 0 {
            Some(name@)
        } else {
            None
        },
        (None, None) => None,
    }
}

/// Whether a path is a single name.
pub open spec fn is_single_name(path: Parts) -> bool {
    path.len() == 1 && crate::path::is_name(path[0])
}

/// Where a store lies, given the path of its database.
pub open spec fn store_dir(root: Parts, database: Parts) -> Parts {
    root + seq![PartView::Normal(".beads"@), PartView::Normal("embeddeddolt"@)] + database
}

/// How the place of a store is written. Below a root that is written with slashes
/// the name of its database stands there as the metadata has it; below one that is
/// not, as a component of the path.
pub open spec fn store_text(root: Parts, name: Text, database: Parts) -> Text {
    if crate::path::separator_of(root) == "/"@ {
        crate::path::path_text(store_dir(root, Parts::empty())) + "/"@ + name
    } else {
        crate::path::path_text(store_dir(root, database))
    }
}

/// Where a store lies, and how that is written.
#[derive(Debug)]
pub struct StorePlace {
    pub data_dir: FsPath,
    pub shown: String,
}

/// What is known of the place of a store.
#[verifier::ext_equal]
pub struct PlaceView {
    pub data_dir: Parts,
    pub shown: Text,
}

impl View for StorePlace {
    type V = PlaceView;

    open spec fn view(&self) -> PlaceView {
        PlaceView { data_dir: self.data_dir@, shown: self.shown@ }
    }
}

/// Where the store of a root lies, where its metadata is good, given what the
/// name of the database is as a path; and else what is wrong with it.
pub open spec fn located(
    root: Parts,
    metadata_path: Parts,
    reading: MetadataReading,
    database: Parts,
) -> Result<PlaceView, Text> {
    match reading {
        MetadataReading::Unreadable => Err(
            "could not read "@ + crate::path::path_text(metadata_path),
        ),
        MetadataReading::Malformed => Err(
            "could not parse "@ + crate::path::path_text(metadata_path),
        ),
        MetadataReading::Metadata(metadata) => if metadata.dolt_mode is Some
            && metadata.dolt_mode->0@ != "embedded"@ {
            Err("unsupported Beads Dolt mode "@ + metadata.dolt_mode->0@)
        } else if named_database(metadata) is None {
            Err("Beads metadata does not name a Dolt database"@)
        } else if !is_single_name(database) {
            Err("Beads metadata contains an unsafe Dolt database name"@)
        } else {
            Ok(
                PlaceView {
                    data_dir: store_dir(root, database),
                    shown: store_text(root, named_database(metadata)->0, database),
                },
            )
        },
    }
}

/// The contents of the answer where a store lies.
pub open spec fn place_view(place: Result<StorePlace, String>) -> Result<PlaceView, Text> {
    match place {
        Ok(place) => Ok(place@),
        Err(reason) => Err(reason@),
    }
}

/// Finds the database that the metadata names.
pub fn database_name(metadata: &BeadsMetadata) -> (name: Option<&String>)
    ensures
        match name {
            Some(name) => named_database(*metadata) == Some(name@),
            None => named_database(*metadata) is None,
        },
{
    let name = match (&metadata.dolt_database, &metadata.database) {
        (Some(name), _) => name,
        (None, Some(name)) => name,
        (None, None) => {
            return None;
        },
    };
    if name.as_str().unicode_len() == 0 {
        None
    } else {
        Some(name)
    }
}

/// Finds where the store of a root lies, given what the name of the database is
/// as a path.
pub fn locate_database(
    root: &FsPath,
    metadata_path: &FsPath,
    reading: &MetadataReading,
    database: &FsPath,
) -> (place: Result<StorePlace, String>)
    ensures
        place_view(place) == located(root@, metadata_path@, *reading, database@),
{
    match reading {
        MetadataReading::Unreadable => Err(
            join2("could not read ", metadata_path.display().as_str()),
        ),
        MetadataReading::Malformed => Err(
            join2("could not parse ", metadata_path.display().as_str()),
        ),
        MetadataReading::Metadata(metadata) => {
            if let Some(mode) = &metadata.dolt_mode {
                if !crate::text::same_text(mode.as_str(), "embedded") {
                    return Err(join2("unsupported Beads Dolt mode ", mode.as_str()));
                }
            }
            let name = match database_name(metadata) {
                Some(name) => name,
                None => {
                    return Err("Beads metadata does not name a Dolt database".to_owned());
                },
            };
            let single = database.parts.len() == 1 && match &database.parts[0] {
                Part::Normal(_) => true,
                Part::Foreign { .. } => true,
                _ => false,
            };
            assert(database.parts@.len() == 1 ==> database@[0] == database.parts@[0]@);
            if !single {
                return Err("Beads metadata contains an unsafe Dolt database name".to_owned());
            }
            let mut data_dir = root.clone();
            data_dir.parts.push(Part::Normal(".beads".to_owned()));
            data_dir.parts.push(Part::Normal("embeddeddolt".to_owned()));
            assert(data_dir@ =~= root@ + seq![
                PartView::Normal(".beads"@),
                PartView::Normal("embeddeddolt"@),
            ]);
            assert(data_dir@ =~= store_dir(root@, Parts::empty()));
            let named = join3(data_dir.display().as_str(), "/", name.as_str());
            data_dir.extend(database);
            let shown = if crate::text::same_text(root.separator(), "/") {
                named
            } else {
                data_dir.display()
            };
            Ok(StorePlace { data_dir, shown })
        },
    }
}

/// The name of the database that the metadata was read to give.
pub open spec fn read_name(reading: MetadataReading) -> Option<Text> {
    match reading {
        MetadataReading::Metadata(metadata) => named_database(metadata),
        _ => None,
    }
}

/// Whether a text has no character that parts names on any platform.
pub open spec fn is_bare(text: Text) -> bool {
    forall|i: int| 0 <= i < text.len() ==> !crate::path::is_separator(#[trigger] text[i])
}

/// Finds where the store of a root lies. What a name of a database is that is not
/// portable, the platform decides: it is either unsafe, or the name that it
/// writes.
pub fn locate_store(root: &FsPath, metadata_path: &FsPath, reading: &MetadataReading) -> (place:
    Result<StorePlace, String>)
    ensures
        match read_name(*reading) {
            Some(name) => {
                &&& exists|database: Parts|
                    crate::path::may_be(name, database) && place_view(place)
                        == #[trigger] located(root@, metadata_path@, *reading, database)
                &&& crate::path::is_portable(name) ==> place_view(place) == located(
                    root@,
                    metadata_path@,
                    *reading,
                    crate::path::portable_parts(name),
                )
                &&& place is Ok ==> exists|own: Text|
                    #[trigger] crate::path::writes_name(name, own) && place->Ok_0@.data_dir == store_dir(
                        root@,
                        seq![PartView::Normal(own)],
                    )
                &&& place is Ok && is_bare(name) ==> place->Ok_0@.data_dir == store_dir(
                    root@,
                    seq![PartView::Normal(name)],
                )
            },
            None => place_view(place) == located(
                root@,
                metadata_path@,
                *reading,
                Parts::empty(),
            ),
        },
{
    let database = match reading {
        MetadataReading::Metadata(metadata) => match database_name(metadata) {
            Some(name) => FsPath::parse(name.as_str()),
            None => FsPath::empty(),
        },
        _ => FsPath::empty(),
    };
    let place = locate_database(root, metadata_path, reading, &database);
    proof {
        let parts = database@;
        assert(place_view(place) == located(root@, metadata_path@, *reading, parts));
        if let Some(name) = read_name(*reading) {
            if place is Ok {
                assert(parts[0] is Normal);
                let own = parts[0]->Normal_0;
                assert(parts =~= seq![PartView::Normal(own)]);
                if is_bare(name) && own.len() < name.len() {
                    assert(crate::path::is_separator(name[own.len() as int]));
                }
                assert(own.len() == name.len() ==> name.take(own.len() as int) =~= name);
            }
        }
    }
    place
}

/// A connected store.
#[derive(Debug)]
pub struct BeadsStore {
    pub root: FsPath,
    pub data_dir: FsPath,
    pub cursor: String,
    pub dirty_since: Option<u64>,
}

/// What is known of a connected store.
#[verifier::ext_equal]
pub struct StoreView {
    pub root: Parts,
    pub data_dir: Parts,
    pub cursor: Text,
    pub dirty_since: Option<u64>,
}

impl View for BeadsStore {
    type V = StoreView;

    open spec fn view(&self) -> StoreView {
        StoreView {
            root: self.root@,
            data_dir: self.data_dir@,
            cursor: self.cursor@,
            dirty_since: self.dirty_since,
        }
    }
}

/// The contents of a list of stores.
pub open spec fn store_views(stores: Seq<BeadsStore>) -> Seq<StoreView> {
    stores.map_values(|one: BeadsStore| one@)
}

/// A store that was opened, and how its place is written.
#[derive(Debug)]
pub struct OpenedStore {
    pub store: BeadsStore,
    pub shown: String,
}

/// What is known of a store that was opened.
#[verifier::ext_equal]
pub struct OpenedView {
    pub store: StoreView,
    pub shown: Text,
}

impl View for OpenedStore {
    type V = OpenedView;

    open spec fn view(&self) -> OpenedView {
        OpenedView { store: self.store@, shown: self.shown@ }
    }
}

/// The contents of the answer whether a store could be opened.
pub open spec fn store_result(result: Result<OpenedStore, String>) -> Result<OpenedView, Text> {
    match result {
        Ok(opened) => Ok(opened@),
        Err(reason) => Err(reason@),
    }
}

/// What opening a store comes to, given where it lies and what was found there:
/// whether anything is there, the first of the tables that it lacks, and the
/// commit that its history ends at.
pub open spec fn opened(
    root: Parts,
    place: Result<PlaceView, Text>,
    present: bool,
    missing_table: Option<usize>,
    head: Result<Text, Text>,
) -> Result<OpenedView, Text> {
    match place {
        Err(reason) => Err(reason),
        Ok(place) => if !present {
            Err("Beads Dolt store is missing at "@ + place.shown)
        } else {
            match missing_table {
                Some(i) => Err(
                    "unsupported Beads schema: missing dolt_diff_"@ + table_text(i as int),
                ),
                None => match head {
                    Err(reason) => Err(reason),
                    Ok(head) => Ok(
                        OpenedView {
                            store: StoreView {
                                root,
                                data_dir: place.data_dir,
                                cursor: head,
                                dirty_since: None,
                            },
                            shown: place.shown,
                        },
                    ),
                },
            }
        },
    }
}

/// The contents of a text or the reason why there is none.
pub open spec fn text_result(result: Result<String, String>) -> Result<Text, Text> {
    match result {
        Ok(text) => Ok(text@),
        Err(reason) => Err(reason@),
    }
}

/// Opens a store, given where it lies and what was found there. Its history is
/// told from where it ends now.
pub fn open_store(
    root: &FsPath,
    place: Result<StorePlace, String>,
    present: bool,
    missing_table: Option<usize>,
    head: Result<String, String>,
) -> (result: Result<OpenedStore, String>)
    ensures
        store_result(result) == opened(
            root@,
            place_view(place),
            present,
            missing_table,
            text_result(head),
        ),
{
    let place = match place {
        Ok(place) => place,
        Err(reason) => {
            return Err(reason);
        },
    };
    if !present {
        return Err(join2("Beads Dolt store is missing at ", place.shown.as_str()));
    }
    if let Some(i) = missing_table {
        return Err(join2("unsupported Beads schema: missing dolt_diff_", required_table(i)));
    }
    match head {
        Ok(cursor) => Ok(
            OpenedStore {
                store: BeadsStore {
                    root: root.clone(),
                    data_dir: place.data_dir,
                    cursor,
                    dirty_since: None,
                },
                shown: place.shown,
            },
        ),
        Err(reason) => Err(reason),
    }
}

/// Whether a path concerns the store of a root: it is the root, or lies in its
/// Beads directory.
pub open spec fn concerns(root: Parts, path: Parts) -> bool {
    path == root || crate::path::is_under(path, root.push(PartView::Normal(".beads"@)))
}

/// The path of the metadata of a root.
pub open spec fn metadata_path_of(root: Parts) -> Parts {
    root + seq![PartView::Normal(".beads"@), PartView::Normal("metadata.json"@)]
}

/// Makes the path of the metadata of a root.
pub fn metadata_path(root: &FsPath) -> (path: FsPath)
    ensures
        path@ == metadata_path_of(root@),
{
    let mut path = root.clone();
    path.parts.push(Part::Normal(".beads".to_owned()));
    path.parts.push(Part::Normal("metadata.json".to_owned()));
    assert(path@ =~= metadata_path_of(root@));
    path
}

impl BeadsStore {
    /// Tests whether a path concerns the store.
    pub fn observes_path(&self, path: &FsPath) -> (b: bool)
        ensures
            b == concerns(self@.root, path@),
    {
        let mut inner = self.root.clone();
        inner.parts.push(Part::Normal(".beads".to_owned()));
        assert(inner@ =~= self@.root.push(PartView::Normal(".beads"@)));
        path.same(&self.root) || path.is_under(&inner)
    }
}

/// The commits that lie next to one another in a history: the cursor and the first
/// commit behind it, and then each commit and the next.
pub open spec fn pairs_of(cursor: Text, commits: Seq<Text>) -> Seq<(Text, Text)> {
    Seq::new(
        commits.len(),
        |i: int|
            (
                if i == 0 {
                    cursor
                } else {
                    commits[i - 1]
                },
                commits[i],
            ),
    )
}

/// The contents of a list of pairs.
pub open spec fn pair_views(pairs: Seq<(String, String)>) -> Seq<(Text, Text)> {
    pairs.map_values(|pair: (String, String)| (pair.0@, pair.1@))
}

/// Pairs the commits that lie next to one another, from the cursor on.
pub fn commit_pairs(cursor: &str, commits: &Vec<String>) -> (pairs: Vec<(String, String)>)
    ensures
        pair_views(pairs@) == pairs_of(cursor@, crate::text::texts(commits@)),
        pairs@.len() == commits@.len(),
{
    let ghost all = crate::text::texts(commits@);
    let mut pairs: Vec<(String, String)> = Vec::new();
    let mut i: usize = 0;
    while i < commits.len()
        invariant
            i <= commits@.len(),
            pairs@.len() == i,
            all == crate::text::texts(commits@),
            forall|k: int|
                0 <= k < i ==> (#[trigger] pair_views(pairs@)[k]) == pairs_of(cursor@, all)[k],
        decreases commits@.len() - i,
    {
        let ghost before = pairs@;
        let from = if i == 0 {
            cursor.to_owned()
        } else {
            assert(all[i - 1] == commits@[i - 1]@);
            commits[i - 1].clone()
        };
        let to = commits[i].clone();
        assert(all[i as int] == to@);
        pairs.push((from, to));
        proof {
            assert(pair_views(pairs@)[i as int] == pairs_of(cursor@, all)[i as int]);
            assert forall|k: int| 0 <= k < i + 1 implies (#[trigger] pair_views(pairs@)[k])
                == pairs_of(cursor@, all)[k] by {
                if k < i {
                    assert(pair_views(pairs@)[k] == pair_views(before)[k]);
                }
            }
        }
        i += 1;
    }
    assert(pair_views(pairs@) =~= pairs_of(cursor@, all));
    pairs
}

/// What was read of the tables between two commits. The rows of the issues count
/// only where the other tables say nothing.
#[derive(Debug)]
pub struct CommitReading {
    pub rows: CommitRows,
    pub issues: Vec<Row>,
}

/// What came of reading the tables between two commits.
#[derive(Debug)]
pub struct CommitStory {
    pub from: String,
    pub to: String,
    pub reading: Result<CommitReading, String>,
}

/// What was read of the history of a store.
#[derive(Debug)]
pub struct History {
    /// Whether the store is still there.
    pub present: bool,
    /// The commit that the history ends at.
    pub head: Result<String, String>,
    /// The commits since the cursor, in order; they count only where the history
    /// has moved on.
    pub commits: Result<Vec<String>, String>,
    /// What was read between the commits that lie next to one another, in order,
    /// up to the first failure.
    pub stories: Vec<CommitStory>,
}

/// Whether there is a story for each pair of commits from the cursor on, in order,
/// up to the first failure.
pub open spec fn are_stories(
    cursor: Text,
    commits: Seq<Text>,
    stories: Seq<CommitStory>,
) -> bool {
    &&& stories.len() <= commits.len()
    &&& forall|i: int|
        #![trigger stories[i]]
        0 <= i < stories.len() ==> (stories[i].from@, stories[i].to@) == pairs_of(
            cursor,
            commits,
        )[i]
    &&& stories.len() < commits.len() ==> stories.len() > 0 && stories.last().reading is Err
}

impl History {
    /// Whether what has to be read was read: where the history has moved on from
    /// the cursor, the stories of its commits.
    pub open spec fn is_read_from(self, cursor: Text) -> bool {
        self.present && self.head is Ok && self.head->Ok_0@ != cursor && self.commits is Ok
            ==> are_stories(cursor, crate::text::texts(self.commits->Ok_0@), self.stories@)
    }
}

/// What the first `n` stories tell, or why that cannot be told.
pub open spec fn told(root: Parts, stories: Seq<CommitStory>, n: nat) -> Result<
    Seq<BeadsActivityView>,
    Text,
>
    decreases n,
{
    if n == 0 {
        Ok(Seq::empty())
    } else {
        match told(root, stories, (n - 1) as nat) {
            Err(reason) => Err(reason),
            Ok(earlier) => match stories[n - 1].reading {
                Err(reason) => Err(reason@),
                Ok(reading) => Ok(
                    earlier + crate::beads::between(root, reading.rows, reading.issues@),
                ),
            },
        }
    }
}

/// What happened since the cursor, or why that cannot be told.
pub open spec fn since_cursor(root: Parts, cursor: Text, history: History) -> Result<
    Seq<BeadsActivityView>,
    Text,
> {
    if !history.present {
        Err("Beads Dolt store was removed or replaced"@)
    } else {
        match history.head {
            Err(reason) => Err(reason@),
            Ok(head) => if head@ == cursor {
                Ok(Seq::empty())
            } else {
                match history.commits {
                    Err(reason) => Err(reason@),
                    Ok(commits) => if commits@.len() == 0 {
                        Err("Beads history no longer contains cursor "@ + cursor)
                    } else {
                        told(root, history.stories@, history.stories@.len())
                    },
                }
            },
        }
    }
}

/// The cursor once the history has been read: where it ends now, if it could be
/// told up to there.
pub open spec fn next_cursor(root: Parts, cursor: Text, history: History) -> Text {
    match since_cursor(root, cursor, history) {
        Ok(_) => history.head->Ok_0@,
        Err(_) => cursor,
    }
}

/// The contents of some activities or the reason why there are none.
pub open spec fn work_result(result: Result<Vec<BeadsActivity>, String>) -> Result<
    Seq<BeadsActivityView>,
    Text,
> {
    match result {
        Ok(activities) => Ok(crate::beads::work_views(activities@)),
        Err(reason) => Err(reason@),
    }
}

/// Puts together what the stories tell.
fn tell(root: &FsPath, stories: &Vec<CommitStory>) -> (result: Result<Vec<BeadsActivity>, String>)
    ensures
        work_result(result) == told(root@, stories@, stories@.len()),
{
    let mut activities: Vec<BeadsActivity> = Vec::new();
    let mut i: usize = 0;
    assert(crate::beads::work_views(activities@) =~= Seq::<BeadsActivityView>::empty());
    while i < stories.len()
        invariant
            i <= stories@.len(),
            told(root@, stories@, i as nat) == Ok::<Seq<BeadsActivityView>, Text>(
                crate::beads::work_views(activities@),
            ),
        decreases stories@.len() - i,
    {
        let ghost before = crate::beads::work_views(activities@);
        match &stories[i].reading {
            Err(reason) => {
                proof {
                    lemma_told_fails(root@, stories@, (i + 1) as nat, stories@.len());
                }
                return Err(reason.clone());
            },
            Ok(reading) => {
                let mut more = activities_between(root, &reading.rows, &reading.issues);
                let ghost added = crate::beads::work_views(more@);
                activities.append(&mut more);
                assert(crate::beads::work_views(activities@) =~= before + added);
            },
        }
        i += 1;
    }
    Ok(activities)
}

/// Where it cannot be told what happened up to a commit, it cannot be told what
/// happened up to a later one.
proof fn lemma_told_fails(root: Parts, stories: Seq<CommitStory>, few: nat, many: nat)
    requires
        few <= many,
        told(root, stories, few) is Err,
    ensures
        told(root, stories, many) == told(root, stories, few),
    decreases many,
{
    if few < many {
        lemma_told_fails(root, stories, few, (many - 1) as nat);
    }
}

impl BeadsStore {
    /// Takes in what was read of the history, and tells what happened since it
    /// was last read.
    pub fn advance(&mut self, history: History) -> (result: Result<Vec<BeadsActivity>, String>)
        requires
            history.is_read_from(old(self)@.cursor),
        ensures
            work_result(result) == since_cursor(old(self)@.root, old(self)@.cursor, history),
            final(self)@ == (StoreView {
                cursor: next_cursor(old(self)@.root, old(self)@.cursor, history),
                ..old(self)@
            }),
    {
        if !history.present {
            return Err("Beads Dolt store was removed or replaced".to_owned());
        }
        let head = match history.head {
            Ok(head) => head,
            Err(reason) => {
                return Err(reason);
            },
        };
        if head == self.cursor {
            let nothing: Vec<BeadsActivity> = Vec::new();
            assert(crate::beads::work_views(nothing@) =~= Seq::<BeadsActivityView>::empty());
            return Ok(nothing);
        }
        let commits = match history.commits {
            Ok(commits) => commits,
            Err(reason) => {
                return Err(reason);
            },
        };
        if commits.len() == 0 {
            return Err(
                join2("Beads history no longer contains cursor ", self.cursor.as_str()),
            );
        }
        match tell(&self.root, &history.stories) {
            Ok(activities) => {
                self.cursor = head;
                Ok(activities)
            },
            Err(reason) => Err(reason),
        }
    }
}

/// The cursor moves only as far as the history has been told: where it could not
/// be told, a later look tells it from the same commit on; and a look that finds
/// the history where the cursor is tells nothing and leaves it there.
pub proof fn the_cursor_moves_only_with_the_story(root: Parts, cursor: Text, history: History)
    ensures
        since_cursor(root, cursor, history) is Err ==> next_cursor(root, cursor, history)
            == cursor,
        since_cursor(root, cursor, history) is Ok ==> history.head is Ok && next_cursor(
            root,
            cursor,
            history,
        ) == history.head->Ok_0@,
        history.present && history.head is Ok && history.head->Ok_0@ == cursor ==> since_cursor(
            root,
            cursor,
            history,
        ) == Ok::<Seq<BeadsActivityView>, Text>(Seq::empty()) && next_cursor(
            root,
            cursor,
            history,
        ) == cursor,
{
}

/// What happened between the commits of the first `n` pairs, given what happened
/// between any two commits.
pub open spec fn joined_pairs(
    pairs: Seq<(Text, Text)>,
    happened: spec_fn(Text, Text) -> Seq<BeadsActivityView>,
    n: nat,
) -> Seq<BeadsActivityView>
    decreases n,
{
    if n == 0 {
        Seq::empty()
    } else {
        joined_pairs(pairs, happened, (n - 1) as nat) + happened(pairs[n - 1].0, pairs[n - 1].1)
    }
}

/// Where a history that has moved on can be told, no commit is passed over: what
/// is told is what happened between each two commits that lie next to one
/// another, from the cursor on, the oldest first.
pub proof fn no_commit_is_passed_over(
    root: Parts,
    cursor: Text,
    history: History,
    happened: spec_fn(Text, Text) -> Seq<BeadsActivityView>,
)
    requires
        history.is_read_from(cursor),
        forall|i: int|
            #![trigger history.stories@[i]]
            0 <= i < history.stories@.len() ==> (history.stories@[i].reading matches Ok(reading)
                ==> crate::beads::between(root, reading.rows, reading.issues@) == happened(
                history.stories@[i].from@,
                history.stories@[i].to@,
            )),
        history.head is Ok ==> history.head->Ok_0@ != cursor,
    ensures
        since_cursor(root, cursor, history) matches Ok(activities) ==> {
            let commits = crate::text::texts(history.commits->Ok_0@);
            &&& history.commits is Ok
            &&& history.stories@.len() == commits.len()
            &&& activities == joined_pairs(pairs_of(cursor, commits), happened, commits.len())
        },
{
    if since_cursor(root, cursor, history) is Ok {
        let commits = crate::text::texts(history.commits->Ok_0@);
        let stories = history.stories@;
        lemma_told_pairs(root, pairs_of(cursor, commits), stories, happened, stories.len());
    }
}

/// What the first stories tell is what happened between the first pairs.
proof fn lemma_told_pairs(
    root: Parts,
    pairs: Seq<(Text, Text)>,
    stories: Seq<CommitStory>,
    happened: spec_fn(Text, Text) -> Seq<BeadsActivityView>,
    n: nat,
)
    requires
        n <= stories.len() <= pairs.len(),
        told(root, stories, n) is Ok,
        forall|i: int|
            #![trigger stories[i]]
            0 <= i < stories.len() ==> (stories[i].from@, stories[i].to@) == pairs[i] && (
            stories[i].reading matches Ok(reading) ==> crate::beads::between(
                root,
                reading.rows,
                reading.issues@,
            ) == happened(stories[i].from@, stories[i].to@)),
    ensures
        told(root, stories, n)->Ok_0 == joined_pairs(pairs, happened, n),
        n > 0 ==> stories[n - 1].reading is Ok,
    decreases n,
{
    if n > 0 {
        lemma_told_pairs(root, pairs, stories, happened, (n - 1) as nat);
        assert((stories[n - 1].from@, stories[n - 1].to@) == pairs[n - 1]);
    }
}

/// A store lies directly below the Dolt directory of its root, whatever its
/// metadata says.
pub proof fn stores_lie_below_their_root(
    root: Parts,
    metadata_path: Parts,
    reading: MetadataReading,
    database: Parts,
)
    ensures
        located(root, metadata_path, reading, database) matches Ok(place) ==> {
            &&& place.data_dir.len() == root.len() + 3
            &&& crate::path::is_name(place.data_dir.last())
            &&& crate::path::is_under(
                place.data_dir,
                root + seq![PartView::Normal(".beads"@), PartView::Normal("embeddeddolt"@)],
            )
        },
{
    let base = root + seq![PartView::Normal(".beads"@), PartView::Normal("embeddeddolt"@)];
    if let Ok(place) = located(root, metadata_path, reading, database) {
        assert(place.data_dir == base + database);
        assert(place.data_dir.subrange(0, base.len() as int) =~= base);
        assert(place.data_dir.last() == database[0]);
    }
}

/// A store that was opened is the one that the metadata of its root names, and its
/// history is told from where it ends now.
pub proof fn opened_stores_are_those_named(
    root: Parts,
    metadata_path: Parts,
    reading: MetadataReading,
    database: Parts,
    present: bool,
    missing_table: Option<usize>,
    head: Result<Text, Text>,
)
    ensures
        opened(
            root,
            located(root, metadata_path, reading, database),
            present,
            missing_table,
            head,
        ) matches Ok(opened) ==> {
            &&& reading is Metadata
            &&& reading->Metadata_0.dolt_mode matches Some(mode) ==> mode@ == "embedded"@
            &&& named_database(reading->Metadata_0) is Some
            &&& is_single_name(database)
            &&& present && missing_table is None
            &&& opened.store.root == root
            &&& opened.store.data_dir == store_dir(root, database)
            &&& head == Ok::<Text, Text>(opened.store.cursor)
            &&& opened.store.dirty_since is None
        },
{
}

/// What was found of Beads below a root.
#[derive(Debug)]
pub enum Finding {
    /// No metadata.
    Absent,
    /// Metadata, and what came of opening the store that it names.
    Opened(Result<OpenedStore, String>),
}

/// The stores that are connected.
pub struct BeadsMonitor {
    pub roots: Vec<FsPath>,
    pub stores: Vec<BeadsStore>,
    pub established: Vec<IntegrityEvent>,
}

/// What the observation of Beads knows.
#[verifier::ext_equal]
pub struct BeadsView {
    pub roots: Seq<Parts>,
    pub stores: Seq<StoreView>,
    pub established: Seq<IntegrityView>,
}

impl View for BeadsMonitor {
    type V = BeadsView;

    open spec fn view(&self) -> BeadsView {
        BeadsView {
            roots: crate::path::paths_of(self.roots@),
            stores: store_views(self.stores@),
            established: crate::model::integrity_views(self.established@),
        }
    }
}

/// What the observation of Beads has to tell.
#[derive(Debug)]
pub enum BeadsMonitorEvent {
    Activity(BeadsActivity),
    Integrity(IntegrityEvent),
}

/// What is told.
pub enum BeadsNews {
    Activity(BeadsActivityView),
    Integrity(IntegrityView),
}

impl View for BeadsMonitorEvent {
    type V = BeadsNews;

    open spec fn view(&self) -> BeadsNews {
        match *self {
            BeadsMonitorEvent::Activity(activity) => BeadsNews::Activity(activity@),
            BeadsMonitorEvent::Integrity(integrity) => BeadsNews::Integrity(integrity@),
        }
    }
}

/// The contents of a list of news.
pub open spec fn beads_news(events: Seq<BeadsMonitorEvent>) -> Seq<BeadsNews> {
    events.map_values(|event: BeadsMonitorEvent| event@)
}

/// Whether the store of a root is connected.
pub open spec fn has_store(stores: Seq<StoreView>, root: Parts) -> bool {
    exists|i: int| 0 <= i < stores.len() && (#[trigger] stores[i]).root == root
}

/// The report that a store is connected.
pub open spec fn connected_report(root: Parts, shown: Text) -> IntegrityView {
    crate::model::integrity_view(
        IntegrityLevel::Info,
        "beads"@,
        "work history connected"@,
        "watching "@ + shown,
        root,
    )
}

/// The report that a store could not be connected.
pub open spec fn unavailable_report(root: Parts, reason: Text) -> IntegrityView {
    crate::model::integrity_view(
        IntegrityLevel::Degraded,
        "beads"@,
        "work history unavailable"@,
        reason,
        root,
    )
}

/// The report that the history could not be told.
pub open spec fn stuck_report(root: Parts, reason: Text) -> IntegrityView {
    crate::model::integrity_view(
        IntegrityLevel::Uncertain,
        "beads"@,
        "work history could not advance"@,
        reason,
        root,
    )
}

impl BeadsView {
    /// The state once Beads has been looked for below a root.
    pub open spec fn searched(self, root: Parts, finding: Finding) -> BeadsView {
        if has_store(self.stores, root) {
            self
        } else {
            match finding {
                Finding::Absent => self,
                Finding::Opened(result) => match result {
                    Ok(opened) => BeadsView {
                        stores: self.stores.push(
                            StoreView { root, dirty_since: None, ..opened@.store },
                        ),
                        established: self.established.push(
                            connected_report(root, opened@.shown),
                        ),
                        ..self
                    },
                    Err(reason) => BeadsView {
                        established: self.established.push(unavailable_report(root, reason@)),
                        ..self
                    },
                },
            }
        }
    }

    /// The state once Beads has been looked for below the first `n` roots.
    pub open spec fn searched_all(
        self,
        roots: Seq<Parts>,
        findings: Seq<Finding>,
        n: nat,
    ) -> BeadsView
        decreases n,
    {
        if n == 0 {
            self
        } else {
            self.searched_all(roots, findings, (n - 1) as nat).searched(
                roots[n - 1],
                findings[n - 1],
            )
        }
    }

    /// The state with one more root.
    pub open spec fn with_root(self, root: Parts) -> BeadsView {
        BeadsView {
            roots: if self.roots.contains(root) {
                self.roots
            } else {
                self.roots.push(root)
            },
            ..self
        }
    }

    /// The state once something changed at some paths.
    pub open spec fn noticed(self, paths: Seq<Parts>, now: u64) -> BeadsView {
        BeadsView {
            stores: self.stores.map_values(
                |store: StoreView|
                    StoreView {
                        dirty_since: if concerned(store.root, paths) {
                            Some(now)
                        } else {
                            store.dirty_since
                        },
                        ..store
                    },
            ),
            ..self
        }
    }

    /// The roots, of the first `n`, whose metadata has changed and whose store is
    /// not connected.
    pub open spec fn unconnected(self, paths: Seq<Parts>, n: nat) -> Seq<Parts>
        decreases n,
    {
        if n == 0 {
            Seq::empty()
        } else {
            let earlier = self.unconnected(paths, (n - 1) as nat);
            let root = self.roots[n - 1];
            if paths.contains(metadata_path_of(root)) && !has_store(self.stores, root) {
                earlier.push(root)
            } else {
                earlier
            }
        }
    }
}

/// Whether one of some paths concerns the store of a root.
pub open spec fn concerned(root: Parts, paths: Seq<Parts>) -> bool {
    exists|i: int| 0 <= i < paths.len() && concerns(root, #[trigger] paths[i])
}

/// Whether a store has been quiet for long enough for its history to be read.
pub open spec fn is_ready(store: StoreView, now: u64) -> bool {
    store.dirty_since is Some && crate::recovery::elapsed_since(store.dirty_since->0, now)
        >= EVENT_QUIET_PERIOD
}

/// The stores, of the first `n`, whose history is to be read.
pub open spec fn ready_among(stores: Seq<StoreView>, now: u64, n: nat) -> Seq<int>
    decreases n,
{
    if n == 0 {
        Seq::empty()
    } else if is_ready(stores[n - 1], now) {
        ready_among(stores, now, (n - 1) as nat).push(n - 1)
    } else {
        ready_among(stores, now, (n - 1) as nat)
    }
}

/// What is told of a store.
pub open spec fn store_news(store: StoreView, history: History) -> Seq<BeadsNews> {
    match since_cursor(store.root, store.cursor, history) {
        Ok(activities) => activities.map_values(
            |activity: BeadsActivityView| BeadsNews::Activity(activity),
        ),
        Err(reason) => seq![BeadsNews::Integrity(stuck_report(store.root, reason))],
    }
}

/// What reading the histories of stores comes to: the stores, and the news.
#[verifier::ext_equal]
pub struct Draining {
    pub stores: Seq<StoreView>,
    pub news: Seq<BeadsNews>,
}

/// What reading the histories of the first `n` stores comes to. There is a
/// history for each store that is ready, in order.
pub open spec fn drained(
    stores: Seq<StoreView>,
    histories: Seq<History>,
    now: u64,
    n: nat,
) -> Draining
    decreases n,
{
    if n == 0 {
        Draining { stores: Seq::empty(), news: Seq::empty() }
    } else {
        let earlier = drained(stores, histories, now, (n - 1) as nat);
        let store = stores[n - 1];
        if is_ready(store, now) {
            let history = histories[ready_among(stores, now, (n - 1) as nat).len() as int];
            Draining {
                stores: earlier.stores.push(
                    StoreView {
                        cursor: next_cursor(store.root, store.cursor, history),
                        dirty_since: None,
                        ..store
                    },
                ),
                news: earlier.news + store_news(store, history),
            }
        } else {
            Draining { stores: earlier.stores.push(store), ..earlier }
        }
    }
}

/// Whether there is a history for each store that is ready, in order, read from the
/// cursor of that store on.
pub open spec fn are_histories(
    stores: Seq<StoreView>,
    histories: Seq<History>,
    now: u64,
) -> bool {
    let ready = ready_among(stores, now, stores.len());
    &&& histories.len() == ready.len()
    &&& forall|k: int|
        0 <= k < histories.len() ==> (#[trigger] histories[k]).is_read_from(
            stores[ready[k]].cursor,
        )
}

/// More stores are ready among more stores, and those among fewer come first.
proof fn lemma_ready_grows(stores: Seq<StoreView>, now: u64, few: nat, many: nat)
    requires
        few <= many,
    ensures
        ready_among(stores, now, few).len() <= ready_among(stores, now, many).len(),
        forall|k: int|
            0 <= k < ready_among(stores, now, few).len() ==> ready_among(stores, now, many)[k]
                == #[trigger] ready_among(stores, now, few)[k],
    decreases many,
{
    if few < many {
        lemma_ready_grows(stores, now, few, (many - 1) as nat);
    }
}

impl BeadsMonitor {
    /// Looks for Beads below some roots; `findings` is what was found below each.
    pub fn discover(roots: &Vec<FsPath>, findings: Vec<Finding>) -> (monitor: BeadsMonitor)
        requires
            findings@.len() == roots@.len(),
        ensures
            monitor@ == (BeadsView {
                roots: crate::path::paths_of(roots@),
                stores: Seq::empty(),
                established: Seq::empty(),
            }).searched_all(crate::path::paths_of(roots@), findings@, roots@.len()),
    {
        let ghost all = crate::path::paths_of(roots@);
        let ghost found = findings@;
        let mut monitor = BeadsMonitor {
            roots: copy_paths(roots),
            stores: Vec::new(),
            established: Vec::new(),
        };
        let ghost start = BeadsView { roots: all, stores: Seq::empty(), established: Seq::empty() };
        assert(monitor@ =~= start);
        let mut rest = findings;
        let mut i: usize = 0;
        assert(found.skip(0) =~= found);
        while i < roots.len()
            invariant
                i <= roots@.len(),
                all == crate::path::paths_of(roots@),
                found.len() == roots@.len(),
                rest@ == found.skip(i as int),
                monitor@ == start.searched_all(all, found, i as nat),
            decreases roots@.len() - i,
        {
            let finding = rest.remove(0);
            assert(finding == found[i as int]);
            assert(rest@ =~= found.skip(i + 1));
            assert(all[i as int] == roots@[i as int]@);
            monitor.discover_root(&roots[i], finding);
            i += 1;
        }
        monitor
    }

    /// How many stores are connected.
    pub fn store_count(&self) -> (n: usize)
        ensures
            n == self@.stores.len(),
    {
        self.stores.len()
    }

    /// Copies the reports from the `from`-th on.
    fn reports_from(&self, from: usize) -> (events: Vec<IntegrityEvent>)
        requires
            from <= self@.established.len(),
        ensures
            crate::model::integrity_views(events@) == self@.established.skip(from as int),
    {
        let mut events: Vec<IntegrityEvent> = Vec::new();
        let mut i: usize = from;
        while i < self.established.len()
            invariant
                from <= i <= self.established@.len(),
                events@.len() == i - from,
                forall|j: int|
                    0 <= j < i - from ==> (#[trigger] events@[j])@
                        == self.established@[from + j]@,
            decreases self.established@.len() - i,
        {
            let one = &self.established[i];
            let copy = IntegrityEvent {
                level: one.level,
                source: one.source,
                summary: one.summary.clone(),
                detail: one.detail.clone(),
                root: one.root.clone(),
            };
            assert(copy@ == self.established@[i as int]@);
            events.push(copy);
            i += 1;
        }
        assert(crate::model::integrity_views(events@) =~= self@.established.skip(from as int));
        events
    }

    /// The reports on which stores are connected.
    pub fn established_events(&self) -> (events: Vec<IntegrityEvent>)
        ensures
            crate::model::integrity_views(events@) == self@.established,
    {
        let events = self.reports_from(0);
        assert(self@.established.skip(0) =~= self@.established);
        events
    }

    /// Tests whether the store of a root is connected.
    pub fn is_connected(&self, root: &FsPath) -> (b: bool)
        ensures
            b == has_store(self@.stores, root@),
    {
        let ghost all = self@.stores;
        let mut i: usize = 0;
        while i < self.stores.len()
            invariant
                i <= self.stores@.len(),
                all == self@.stores,
                forall|j: int| 0 <= j < i ==> (#[trigger] all[j]).root != root@,
            decreases self.stores@.len() - i,
        {
            assert(all[i as int] == self.stores@[i as int]@);
            if self.stores[i].root.same(root) {
                return true;
            }
            i += 1;
        }
        false
    }

    /// Takes in what was found of Beads below a root.
    pub fn discover_root(&mut self, root: &FsPath, finding: Finding)
        ensures
            final(self)@ == old(self)@.searched(root@, finding),
    {
        if self.is_connected(root) {
            return;
        }
        let ghost before = self@;
        match finding {
            Finding::Absent => {},
            Finding::Opened(result) => match result {
                Ok(opened) => {
                    let event = integrity(
                        IntegrityLevel::Info,
                        "beads",
                        "work history connected",
                        join2("watching ", opened.shown.as_str()).as_str(),
                        root,
                    );
                    self.established.push(event);
                    assert(self@.established =~= before.established.push(event@));
                    let own = BeadsStore {
                        root: root.clone(),
                        data_dir: opened.store.data_dir,
                        cursor: opened.store.cursor,
                        dirty_since: None,
                    };
                    self.stores.push(own);
                    assert(self@.stores =~= before.stores.push(own@));
                },
                Err(reason) => {
                    let event = integrity(
                        IntegrityLevel::Degraded,
                        "beads",
                        "work history unavailable",
                        reason.as_str(),
                        root,
                    );
                    self.established.push(event);
                    assert(self@.established =~= before.established.push(event@));
                },
            },
        }
    }

    /// Takes in one more root, and what was found of Beads below it. Returns what
    /// there is to report of that.
    pub fn add_root(&mut self, root: &FsPath, finding: Finding) -> (events: Vec<IntegrityEvent>)
        ensures
            final(self)@ == old(self)@.with_root(root@).searched(root@, finding),
            crate::model::integrity_views(events@) == final(self)@.established.skip(
                old(self)@.established.len() as int,
            ),
    {
        let ghost start = self@;
        if !has_path(&self.roots, root) {
            self.roots.push(root.clone());
            assert(self@.roots =~= start.roots.push(root@));
        }
        let before: usize = self.established.len();
        self.discover_root(root, finding);
        self.reports_from(before)
    }

    /// Takes in that something changed at some paths. Returns the roots whose
    /// metadata has changed and whose store is not connected.
    pub fn observe_workspace_event(&mut self, paths: &Vec<FsPath>, now: u64) -> (roots: Vec<FsPath>)
        ensures
            final(self)@ == old(self)@.noticed(crate::path::paths_of(paths@), now),
            crate::path::paths_of(roots@) == old(self)@.unconnected(
                crate::path::paths_of(paths@),
                old(self)@.roots.len(),
            ),
    {
        let ghost before = self@;
        let ghost all = crate::path::paths_of(paths@);
        let total: usize = self.stores.len();
        let mut i: usize = 0;
        while i < total
            invariant
                i <= total,
                total == self.stores@.len(),
                all == crate::path::paths_of(paths@),
                before.stores.len() == total,
                self@ == (BeadsView { stores: self@.stores, ..before }),
                forall|j: int|
                    0 <= j < i ==> #[trigger] self@.stores[j] == before.noticed(
                        all,
                        now,
                    ).stores[j],
                forall|j: int| i <= j < total ==> #[trigger] self@.stores[j] == before.stores[j],
            decreases total - i,
        {
            let ghost previous = self@.stores;
            assert(previous[i as int] == self.stores@[i as int]@);
            if self.stores[i].observes_any(paths) {
                self.stores[i].dirty_since = Some(now);
                assert(self@.stores =~= previous.update(
                    i as int,
                    StoreView { dirty_since: Some(now), ..previous[i as int] },
                ));
            }
            i += 1;
        }
        assert(self@.stores =~= before.noticed(all, now).stores);
        let mut roots: Vec<FsPath> = Vec::new();
        i = 0;
        assert(crate::path::paths_of(roots@) =~= Seq::<Parts>::empty());
        while i < self.roots.len()
            invariant
                i <= self.roots@.len(),
                all == crate::path::paths_of(paths@),
                self@ == before.noticed(all, now),
                crate::path::paths_of(roots@) == before.unconnected(all, i as nat),
            decreases self.roots@.len() - i,
        {
            let ghost listed = crate::path::paths_of(roots@);
            let root = &self.roots[i];
            assert(before.roots[i as int] == root@);
            proof {
                lemma_same_roots(before.stores, self@.stores, root@);
            }
            if has_path(paths, &metadata_path(root)) && !self.is_connected(root) {
                roots.push(root.clone());
                assert(crate::path::paths_of(roots@) =~= listed.push(root@));
            }
            i += 1;
        }
        roots
    }

    /// Lists the stores whose history is to be read.
    pub fn ready_stores(&self, now: u64) -> (ready: Vec<usize>)
        ensures
            ready@.map_values(|i: usize| i as int) == ready_among(
                self@.stores,
                now,
                self@.stores.len(),
            ),
            forall|k: int| 0 <= k < ready@.len() ==> #[trigger] ready@[k] < self@.stores.len(),
    {
        let ghost all = self@.stores;
        let mut ready: Vec<usize> = Vec::new();
        let mut i: usize = 0;
        assert(ready@.map_values(|i: usize| i as int) =~= Seq::<int>::empty());
        while i < self.stores.len()
            invariant
                i <= self.stores@.len(),
                all == self@.stores,
                ready@.map_values(|i: usize| i as int) == ready_among(all, now, i as nat),
                forall|k: int| 0 <= k < ready@.len() ==> #[trigger] ready@[k] < i,
            decreases self.stores@.len() - i,
        {
            let ghost before = ready@;
            assert(all[i as int] == self.stores@[i as int]@);
            if self.stores[i].is_quiet(now) {
                ready.push(i);
                assert(ready@.map_values(|i: usize| i as int) =~= before.map_values(
                    |i: usize| i as int,
                ).push(i as int));
            }
            i += 1;
        }
        ready
    }

    /// Takes in what was read of the histories of the stores that are ready, in
    /// order, and tells what happened.
    pub fn drain(&mut self, histories: Vec<History>, now: u64) -> (events: Vec<BeadsMonitorEvent>)
        requires
            are_histories(old(self)@.stores, histories@, now),
        ensures
            final(self)@ == (BeadsView {
                stores: drained(
                    old(self)@.stores,
                    histories@,
                    now,
                    old(self)@.stores.len(),
                ).stores,
                ..old(self)@
            }),
            beads_news(events@) == drained(
                old(self)@.stores,
                histories@,
                now,
                old(self)@.stores.len(),
            ).news,
    {
        let ghost before = self@;
        let ghost stores = self@.stores;
        let ghost read = histories@;
        let mut waiting: Vec<BeadsStore> = Vec::new();
        std::mem::swap(&mut waiting, &mut self.stores);
        let mut histories = histories;
        let mut events: Vec<BeadsMonitorEvent> = Vec::new();
        let ghost mut i: int = 0;
        let ghost mut asked: int = 0;
        proof {
            assert(store_views(waiting@) =~= stores);
            assert(stores.skip(0) =~= stores);
            assert(read.skip(0) =~= read);
            assert(self@.stores =~= Seq::<StoreView>::empty());
            assert(beads_news(events@) =~= Seq::<BeadsNews>::empty());
        }
        while waiting.len() > 0
            invariant
                0 <= i <= stores.len(),
                stores == before.stores,
                are_histories(stores, read, now),
                asked == ready_among(stores, now, i as nat).len(),
                0 <= asked <= read.len(),
                store_views(waiting@) == stores.skip(i),
                histories@ == read.skip(asked),
                self@ == (BeadsView {
                    stores: drained(stores, read, now, i as nat).stores,
                    ..before
                }),
                beads_news(events@) == drained(stores, read, now, i as nat).news,
            decreases waiting@.len(),
        {
            let ghost queue = store_views(waiting@);
            let ghost so_far = drained(stores, read, now, i as nat);
            let one = waiting.remove(0);
            assert(queue.len() > 0);
            assert(queue[0] == one@);
            assert(stores.skip(i)[0] == stores[i]);
            assert(store_views(waiting@) =~= queue.skip(1));
            assert(stores.skip(i).skip(1) =~= stores.skip(i + 1));
            let ghost view = one@;
            let mut store = one;
            if store.is_quiet(now) {
                proof {
                    lemma_ready_grows(stores, now, (i + 1) as nat, stores.len());
                }
                let history = histories.remove(0);
                assert(history == read[asked]);
                assert(histories@ =~= read.skip(asked + 1));
                assert(ready_among(stores, now, (i + 1) as nat)[asked] == i);
                store.dirty_since = None;
                match store.advance(history) {
                    Ok(activities) => {
                        let mut more = wrap_activities(activities);
                        let ghost added = beads_news(more@);
                        events.append(&mut more);
                        assert(beads_news(events@) =~= so_far.news + added);
                    },
                    Err(reason) => {
                        let event = integrity(
                            IntegrityLevel::Uncertain,
                            "beads",
                            "work history could not advance",
                            reason.as_str(),
                            &store.root,
                        );
                        let wrapped = BeadsMonitorEvent::Integrity(event);
                        events.push(wrapped);
                        assert(beads_news(events@) =~= so_far.news + seq![wrapped@]);
                    },
                }
                proof {
                    asked = asked + 1;
                }
            }
            let ghost result = store@;
            self.stores.push(store);
            assert(self@.stores =~= so_far.stores.push(result));
            proof {
                i = i + 1;
            }
        }
        assert(i == stores.len());
        events
    }
}

/// Changes that leave the roots of stores alone leave them connected.
proof fn lemma_same_roots(before: Seq<StoreView>, after: Seq<StoreView>, root: Parts)
    requires
        before.len() == after.len(),
        forall|i: int| 0 <= i < before.len() ==> (#[trigger] after[i]).root == before[i].root,
    ensures
        has_store(before, root) == has_store(after, root),
{
    if has_store(before, root) {
        let i = choose|i: int| 0 <= i < before.len() && (#[trigger] before[i]).root == root;
        assert(after[i].root == root);
    }
    if has_store(after, root) {
        let i = choose|i: int| 0 <= i < after.len() && (#[trigger] after[i]).root == root;
        assert(before[i].root == root);
    }
}

/// Makes news of activities.
fn wrap_activities(activities: Vec<BeadsActivity>) -> (events: Vec<BeadsMonitorEvent>)
    ensures
        beads_news(events@) == crate::beads::work_views(activities@).map_values(
            |activity: BeadsActivityView| BeadsNews::Activity(activity),
        ),
{
    let ghost all = crate::beads::work_views(activities@);
    let mut rest = activities;
    let mut events: Vec<BeadsMonitorEvent> = Vec::new();
    let ghost mut i: int = 0;
    assert(all.skip(0) =~= all);
    while rest.len() > 0
        invariant
            all == crate::beads::work_views(activities@),
            0 <= i <= all.len(),
            crate::beads::work_views(rest@) == all.skip(i),
            events@.len() == i,
            forall|j: int|
                0 <= j < i ==> (#[trigger] events@[j])@ == BeadsNews::Activity(all[j]),
        decreases rest@.len(),
    {
        let ghost queue = crate::beads::work_views(rest@);
        let one = rest.remove(0);
        assert(queue.len() > 0);
        assert(queue[0] == one@);
        assert(all.skip(i)[0] == all[i]);
        assert(crate::beads::work_views(rest@) =~= queue.skip(1));
        assert(all.skip(i).skip(1) =~= all.skip(i + 1));
        events.push(BeadsMonitorEvent::Activity(one));
        proof {
            i = i + 1;
        }
    }
    assert(i == all.len());
    assert(beads_news(events@) =~= all.map_values(
        |activity: BeadsActivityView| BeadsNews::Activity(activity),
    ));
    events
}

impl BeadsStore {
    /// Tests whether one of some paths concerns the store.
    pub fn observes_any(&self, paths: &Vec<FsPath>) -> (b: bool)
        ensures
            b == concerned(self@.root, crate::path::paths_of(paths@)),
    {
        let ghost all = crate::path::paths_of(paths@);
        let mut i: usize = 0;
        while i < paths.len()
            invariant
                i <= paths@.len(),
                all == crate::path::paths_of(paths@),
                forall|j: int| 0 <= j < i ==> !concerns(self@.root, #[trigger] all[j]),
            decreases paths@.len() - i,
        {
            assert(all[i as int] == paths@[i as int]@);
            if self.observes_path(&paths[i]) {
                return true;
            }
            i += 1;
        }
        false
    }

    /// Tests whether the store has been quiet for long enough for its history to
    /// be read.
    pub fn is_quiet(&self, now: u64) -> (b: bool)
        ensures
            b == is_ready(self@, now),
    {
        match self.dirty_since {
            Some(since) => elapsed(since, now) >= EVENT_QUIET_PERIOD,
            None => false,
        }
    }
}

/// A store is looked at once it has been touched and has then been quiet for long
/// enough, and only then.
pub proof fn stores_are_looked_at_once_they_are_quiet(
    stores: Seq<StoreView>,
    now: u64,
    n: nat,
    i: int,
)
    requires
        n <= stores.len(),
    ensures
        ready_among(stores, now, n).contains(i) <==> 0 <= i < n && (
        stores[i].dirty_since matches Some(since) && crate::recovery::elapsed_since(since, now)
            >= EVENT_QUIET_PERIOD),
    decreases n,
{
    if n > 0 {
        stores_are_looked_at_once_they_are_quiet(stores, now, (n - 1) as nat, i);
        let earlier = ready_among(stores, now, (n - 1) as nat);
        let longer = earlier.push(n - 1);
        assert(longer[earlier.len() as int] == n - 1);
        if earlier.contains(i) {
            let k = choose|k: int| 0 <= k < earlier.len() && earlier[k] == i;
            assert(longer[k] == i);
        }
        if longer.contains(i) && i != n - 1 {
            let k = choose|k: int| 0 <= k < longer.len() && longer[k] == i;
            assert(earlier[k] == i);
        }
    }
}

} // verus!
