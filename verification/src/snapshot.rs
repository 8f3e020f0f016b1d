//! Snapshots: what is remembered of a file, so that its next change can be shown
//! as a diff.

use crate::path::{FsPath, Parts};
use crate::text::{join2, join3, utf8_text, Text};
use vstd::prelude::*;
use vstd::string::*;

verus! {

/// The largest file whose text is remembered, in bytes.
pub const MAX_TEXT_BYTES: u64 = 1_048_576;

/// How many bytes of a file are searched for a zero, which marks it as binary.
pub const BINARY_PROBE_BYTES: usize = 8192;

/// What was read of a file.
#[derive(Debug)]
pub enum FileData {
    /// Nothing, since the file is too large.
    Skipped,
    /// All of it.
    Bytes(Vec<u8>),
    /// Nothing, for the reason given.
    Failed(String),
}

/// What was found at a path.
#[derive(Debug)]
pub enum Inspection {
    /// Nothing, or nothing that can be looked at.
    Missing,
    /// A directory.
    Directory,
    /// A file of this size.
    File { size: u64, data: FileData },
}

/// What reading a file gave.
#[verifier::ext_equal]
pub enum DataView {
    Skipped,
    Bytes(Seq<u8>),
    Failed(Text),
}

/// What stands at a path.
#[verifier::ext_equal]
pub enum InspectionView {
    Missing,
    Directory,
    File { size: u64, data: DataView },
}

impl View for FileData {
    type V = DataView;

    open spec fn view(&self) -> DataView {
        match *self {
            FileData::Skipped => DataView::Skipped,
            FileData::Bytes(bytes) => DataView::Bytes(bytes@),
            FileData::Failed(reason) => DataView::Failed(reason@),
        }
    }
}

impl View for Inspection {
    type V = InspectionView;

    open spec fn view(&self) -> InspectionView {
        match *self {
            Inspection::Missing => InspectionView::Missing,
            Inspection::Directory => InspectionView::Directory,
            Inspection::File { size, data } => InspectionView::File { size, data: data@ },
        }
    }
}

impl Inspection {
    /// Tests whether something stands at the path.
    pub fn is_present(&self) -> (b: bool)
        ensures
            b == !(self@ is Missing),
    {
        match self {
            Inspection::Missing => false,
            _ => true,
        }
    }

    /// Tests whether a directory stands at the path.
    pub fn is_dir(&self) -> (b: bool)
        ensures
            b == (self@ is Directory),
    {
        match self {
            Inspection::Directory => true,
            _ => false,
        }
    }
}

/// Whether a file of this size is read.
pub fn wants_content(size: u64) -> (b: bool)
    ensures
        b == (size <= MAX_TEXT_BYTES),
{
    size <= MAX_TEXT_BYTES
}

/// What is remembered of a path.
#[derive(Clone, Debug)]
pub struct Snapshot {
    pub content: Option<String>,
    pub size: u64,
    pub is_dir: bool,
    pub read_error: Option<String>,
}

/// What a snapshot says.
#[verifier::ext_equal]
pub struct SnapshotView {
    pub content: Option<Text>,
    pub size: u64,
    pub is_dir: bool,
    pub read_error: Option<Text>,
}

impl View for Snapshot {
    type V = SnapshotView;

    open spec fn view(&self) -> SnapshotView {
        SnapshotView {
            content: crate::text::opt_text(self.content),
            size: self.size,
            is_dir: self.is_dir,
            read_error: crate::text::opt_text(self.read_error),
        }
    }
}

/// The contents of a table of snapshots.
pub open spec fn snapshot_views(snapshots: Map<Parts, Snapshot>) -> Map<Parts, SnapshotView> {
    snapshots.map_values(|snapshot: Snapshot| snapshot@)
}

/// Copies an optional string.
pub fn copy_opt_text(s: &Option<String>) -> (copy: Option<String>)
    ensures
        crate::text::opt_text(copy) == crate::text::opt_text(*s),
{
    match s {
        Some(s) => Some(s.clone()),
        None => None,
    }
}

impl Snapshot {
    /// Copies the snapshot.
    pub fn copy(&self) -> (copy: Snapshot)
        ensures
            copy@ == self@,
    {
        Snapshot {
            content: copy_opt_text(&self.content),
            size: self.size,
            is_dir: self.is_dir,
            read_error: copy_opt_text(&self.read_error),
        }
    }

    /// How many bytes of text the snapshot holds.
    pub fn content_bytes(&self) -> (n: usize)
        ensures
            n == content_bytes(self@),
    {
        match &self.content {
            Some(content) => content.as_str().as_bytes().len(),
            None => 0,
        }
    }

    /// A snapshot that remembers no text.
    pub fn blank(size: u64, is_dir: bool) -> (snapshot: Snapshot)
        ensures
            snapshot@ == blank(size, is_dir),
    {
        Snapshot { content: None, size, is_dir, read_error: None }
    }
}

/// A snapshot that remembers no text.
pub open spec fn blank(size: u64, is_dir: bool) -> SnapshotView {
    SnapshotView { content: None, size, is_dir, read_error: None }
}

/// How many bytes of text a snapshot holds.
pub open spec fn content_bytes(snapshot: SnapshotView) -> nat {
    match snapshot.content {
        Some(content) => vstd::utf8::encode_utf8(content).len(),
        None => 0,
    }
}

/// Whether a file is binary: one of its first bytes is zero.
pub open spec fn is_binary(bytes: Seq<u8>) -> bool {
    exists|i: int| 0 <= i < bytes.len() && i < BINARY_PROBE_BYTES && bytes[i] == 0
}

/// The snapshot of what was found at a path.
pub open spec fn snapshot_of(path: Parts, found: InspectionView) -> SnapshotView {
    match found {
        InspectionView::Missing => SnapshotView {
            content: None,
            size: 0,
            is_dir: false,
            read_error: Some("could not read metadata for "@ + crate::path::path_text(path)),
        },
        InspectionView::Directory => blank(0, true),
        InspectionView::File { size, data } => if size > MAX_TEXT_BYTES {
            blank(size, false)
        } else {
            match data {
                DataView::Skipped => blank(size, false),
                DataView::Bytes(bytes) => SnapshotView {
                    content: if !is_binary(bytes) && vstd::utf8::valid_utf8(bytes) {
                        Some(vstd::utf8::decode_utf8(bytes))
                    } else {
                        None
                    },
                    size,
                    is_dir: false,
                    read_error: None,
                },
                DataView::Failed(reason) => SnapshotView {
                    content: None,
                    size,
                    is_dir: false,
                    read_error: Some(
                        "could not read "@ + crate::path::path_text(path) + ": "@ + reason,
                    ),
                },
            }
        },
    }
}

/// Searches the first bytes of a file for a zero.
pub fn looks_binary(bytes: &Vec<u8>) -> (b: bool)
    ensures
        b == is_binary(bytes@),
{
    let mut i: usize = 0;
    while i < bytes.len() && i < BINARY_PROBE_BYTES
        invariant
            i <= bytes@.len(),
            i <= BINARY_PROBE_BYTES,
            forall|j: int| 0 <= j < i ==> bytes@[j] != 0,
        decreases bytes@.len() - i,
    {
        if bytes[i] == 0 {
            return true;
        }
        i += 1;
    }
    false
}

/// Makes the snapshot of what was found at `path`.
pub fn read_snapshot(path: &FsPath, found: Inspection) -> (snapshot: Snapshot)
    ensures
        snapshot@ == snapshot_of(path@, found@),
{
    match found {
        Inspection::Missing => Snapshot {
            content: None,
            size: 0,
            is_dir: false,
            read_error: Some(join2("could not read metadata for ", path.display().as_str())),
        },
        Inspection::Directory => Snapshot::blank(0, true),
        Inspection::File { size, data } => {
            if size > MAX_TEXT_BYTES {
                return Snapshot::blank(size, false);
            }
            match data {
                FileData::Skipped => Snapshot::blank(size, false),
                FileData::Bytes(bytes) => {
                    let content = if looks_binary(&bytes) {
                        None
                    } else {
                        utf8_text(bytes)
                    };
                    Snapshot { content, size, is_dir: false, read_error: None }
                },
                FileData::Failed(reason) => {
                    let mut message = join3("could not read ", path.display().as_str(), ": ");
                    message.append(reason.as_str());
                    Snapshot { content: None, size, is_dir: false, read_error: Some(message) }
                },
            }
        },
    }
}

/// How many bytes of text a table of snapshots holds.
pub open spec fn total_bytes(snapshots: Map<Parts, SnapshotView>) -> nat
    decreases snapshots.dom().len(),
    when snapshots.dom().finite()
{
    if snapshots.dom().len() == 0 {
        0
    } else {
        let path = snapshots.dom().choose();
        content_bytes(snapshots[path]) + total_bytes(snapshots.remove(path))
    }
}

/// Taking a snapshot out of a table takes its bytes out.
pub proof fn lemma_total_removed(snapshots: Map<Parts, SnapshotView>, path: Parts)
    requires
        snapshots.dom().finite(),
        snapshots.contains_key(path),
    ensures
        total_bytes(snapshots) == content_bytes(snapshots[path]) + total_bytes(
            snapshots.remove(path),
        ),
    decreases snapshots.dom().len(),
{
    assert(snapshots.dom().contains(path));
    let other = snapshots.dom().choose();
    assert(snapshots.dom().contains(other));
    if other != path {
        lemma_total_removed(snapshots.remove(other), path);
        lemma_total_removed(snapshots.remove(path), other);
        assert(snapshots.remove(other).remove(path) =~= snapshots.remove(path).remove(other));
    }
}

/// Putting a snapshot into a table puts its bytes in, and takes those of the
/// snapshot that it replaces out.
pub proof fn lemma_total_inserted(
    snapshots: Map<Parts, SnapshotView>,
    path: Parts,
    snapshot: SnapshotView,
)
    requires
        snapshots.dom().finite(),
    ensures
        total_bytes(snapshots.insert(path, snapshot)) == content_bytes(snapshot) + total_bytes(
            snapshots.remove(path),
        ),
{
    lemma_total_removed(snapshots.insert(path, snapshot), path);
    assert(snapshots.insert(path, snapshot).remove(path) =~= snapshots.remove(path));
}

} // verus!
