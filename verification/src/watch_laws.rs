//! What is remembered of the watched folders, and how their observation goes on.

use crate::model::{IntegrityLevel, IntegrityView};
use crate::path::{PartView, Parts};
use crate::recovery::RecoveryState;
use crate::snapshot::{DataView, InspectionView, SnapshotView};
use crate::text::Text;
use crate::watcher::{FailedView, FaultKind, SeedView, WatchView};
use vstd::prelude::*;

verus! {

/// The limits: texts up to one mebibyte, a zero among the first eight kibibytes for
/// what is no text, sixty-four mebibytes of text and two hundred thousand paths to
/// remember; eighty milliseconds for a burst, four hundred for the other end of a move;
/// three hundred lines of a diff, with two around each change; how much is taken in
/// between two drawings of the screen; and how long a repository and a store have to be
/// quiet.
pub proof fn limits_are_as_promised()
    ensures
        crate::snapshot::MAX_TEXT_BYTES == 1_048_576,
        crate::snapshot::BINARY_PROBE_BYTES == 8192,
        crate::watcher::DEFAULT_SNAPSHOT_BYTES == 67_108_864,
        crate::watcher::DEFAULT_SNAPSHOT_ENTRIES == 200_000,
        crate::watcher::INITIAL_SEED_BUDGET == 2048,
        crate::app::DEDUP_WINDOW == 80_000_000,
        crate::app::RENAME_TIMEOUT == 400_000_000,
        crate::app::RECENT_RETENTION == 2_000_000_000,
        crate::diff::MAX_DIFF_LINES == 300,
        crate::diff::CONTEXT_LINES == 2,
        crate::session::MAX_FILESYSTEM_EVENTS_PER_TICK == 512,
        crate::session::MAX_INTERNAL_EVENTS_PER_TICK == 4096,
        crate::session::MAX_BASELINE_ENTRIES_PER_TICK == 1024,
        crate::recovery::RECOVERY_INITIAL_DELAY == 250_000_000,
        crate::recovery::RECOVERY_MAX_DELAY == 10_000_000_000,
        crate::beads::PREVIEW_CHARS == 180,
        crate::ui::WIDE == 100,
{
}

/// Whether bytes are text: valid, and without a zero among the first ones.
pub open spec fn is_text(bytes: Seq<u8>) -> bool {
    &&& vstd::utf8::valid_utf8(bytes)
    &&& forall|i: int| 0 <= i < bytes.len() && i < 8192 ==> #[trigger] bytes[i] != 0
}

/// The text of a file is kept where it is text and no larger than one mebibyte; of any
/// other file only the size is. What could not be read says so, and a folder is one.
pub proof fn texts_are_kept_and_the_rest_is_measured(
    path: Parts,
    size: u64,
    bytes: Seq<u8>,
    reason: Text,
)
    ensures
        ({
            let shot = crate::snapshot::snapshot_of(
                path,
                InspectionView::File { size, data: DataView::Bytes(bytes) },
            );
            &&& shot.size == size
            &&& !shot.is_dir
            &&& shot.read_error is None
            &&& shot.content == (if size <= 1_048_576 && is_text(bytes) {
                Some(vstd::utf8::decode_utf8(bytes))
            } else {
                None
            })
        }),
        ({
            let shot = crate::snapshot::snapshot_of(
                path,
                InspectionView::File { size, data: DataView::Failed(reason) },
            );
            &&& shot.size == size
            &&& !shot.is_dir
            &&& shot.content is None
            &&& shot.read_error == (if size <= 1_048_576 {
                Some("could not read "@ + crate::path::path_text(path) + ": "@ + reason)
            } else {
                None
            })
        }),
        crate::snapshot::snapshot_of(
            path,
            InspectionView::File { size, data: DataView::Skipped },
        ) == (SnapshotView { content: None, size, is_dir: false, read_error: None }),
        crate::snapshot::snapshot_of(path, InspectionView::Directory) == (SnapshotView {
            content: None,
            size: 0,
            is_dir: true,
            read_error: None,
        }),
        crate::snapshot::snapshot_of(path, InspectionView::Missing) == (SnapshotView {
            content: None,
            size: 0,
            is_dir: false,
            read_error: Some("could not read metadata for "@ + crate::path::path_text(path)),
        }),
{
    if crate::snapshot::is_binary(bytes) {
        let i = choose|i: int|
            0 <= i < bytes.len() && i < crate::snapshot::BINARY_PROBE_BYTES && bytes[i] == 0;
        assert(bytes[i] == 0);
    }
}

/// How many bytes a text takes.
pub open spec fn bytes_of(content: Option<Text>) -> nat {
    match content {
        Some(text) => vstd::utf8::encode_utf8(text).len(),
        None => 0,
    }
}

/// What is found at a path is remembered in place of what was remembered there, and
/// every other path stays as it was. A text that the budget has no room for is left out
/// and counted, but the size of its file is remembered; where as many paths are
/// remembered as may be, another one is not, and that is counted too.
pub proof fn snapshots_keep_to_their_budget(
    watch: WatchView,
    path: Parts,
    shot: SnapshotView,
    other: Parts,
)
    requires
        watch.snapshots.dom().finite(),
        watch.omissions < u64::MAX,
    ensures
        ({
            let next = watch.stored(path, shot);
            let rest = watch.snapshots.remove(path);
            let full = rest.len() >= watch.max_entries;
            let heavy = bytes_of(shot.content) + crate::snapshot::total_bytes(rest)
                > watch.max_bytes;
            &&& other != path ==> next.remembered(other) == watch.remembered(other)
            &&& full ==> next.remembered(path) is None
            &&& !full && !heavy ==> next.remembered(path) == Some(shot)
            &&& !full && heavy ==> next.remembered(path) is Some
                && next.remembered(path)->0.content is None
                && next.remembered(path)->0.size == shot.size
                && next.remembered(path)->0.is_dir == shot.is_dir
                && next.remembered(path)->0.read_error is Some
            &&& next.omissions == watch.omissions + (if full || heavy {
                1int
            } else {
                0
            })
            &&& next == (WatchView {
                snapshots: next.snapshots,
                omissions: next.omissions,
                ..watch
            })
            &&& !full && !heavy ==> watch.admitted(path, shot) == shot
            &&& full || heavy ==> watch.admitted(path, shot).content is None && watch.admitted(
                path,
                shot,
            ).size == shot.size && watch.admitted(path, shot).is_dir == shot.is_dir
            &&& full ==> watch.admitted(path, shot).read_error == Some(
                "snapshot omitted because the "@ + crate::text::decimal_text(
                    watch.max_entries as nat,
                ) + " entry memory limit is full"@,
            )
            &&& !full && heavy ==> watch.admitted(path, shot).read_error == Some(
                "snapshot content omitted because the "@ + crate::text::decimal_text(
                    watch.max_bytes as nat,
                ) + " byte memory budget is full"@,
            )
        }),
{
    let next = watch.stored(path, shot);
    if other != path {
        assert(next.snapshots.contains_key(other) == watch.snapshots.contains_key(other));
    }
}

/// The bytes of all remembered texts are counted, each once.
pub proof fn every_text_counts(
    snapshots: Map<Parts, SnapshotView>,
    path: Parts,
    shot: SnapshotView,
)
    requires
        snapshots.dom().finite(),
        !snapshots.contains_key(path),
    ensures
        crate::snapshot::total_bytes(Map::<Parts, SnapshotView>::empty()) == 0,
        crate::snapshot::total_bytes(snapshots.insert(path, shot)) == crate::snapshot::total_bytes(
            snapshots,
        ) + bytes_of(shot.content),
{
    crate::snapshot::lemma_total_inserted(snapshots, path, shot);
    assert(snapshots.remove(path) =~= snapshots);
    assert(Map::<Parts, SnapshotView>::empty().dom() =~= Set::<Parts>::empty());
}

/// Forgetting a tree forgets its root and all below it, and nothing else.
pub proof fn trees_are_forgotten_whole(watch: WatchView, path: Parts, other: Parts)
    ensures
        path.is_prefix_of(other) ==> watch.tree_forgotten(path).remembered(other) is None,
        !path.is_prefix_of(other) ==> watch.tree_forgotten(path).remembered(other)
            == watch.remembered(other),
        watch.tree_forgotten(path).roots == watch.roots,
        watch.tree_forgotten(path).walks == watch.walks,
{
    assert(path.is_prefix_of(other) == crate::path::is_under(other, path));
}

/// What is remembered below a folder that is moved is remembered below its new place,
/// and no longer below the old one. What lies in neither stays as it was, and so does
/// the folder itself.
pub proof fn trees_are_moved_whole(
    watch: WatchView,
    from: Parts,
    to: Parts,
    rest: Parts,
    other: Parts,
)
    requires
        from.len() > 0,
        rest.len() > 0,
    ensures
        watch.remembered(from + rest) is Some ==> watch.remapped(from, to).remembered(to + rest)
            == watch.remembered(from + rest),
        !to.is_prefix_of(from + rest) ==> watch.remapped(from, to).remembered(from + rest) is None,
        !to.is_prefix_of(other) && !from.is_prefix_of(other) ==> watch.remapped(
            from,
            to,
        ).remembered(other) == watch.remembered(other),
        watch.remapped(from, to).roots == watch.roots,
{
    let path = from + rest;
    let place = to + rest;
    assert(path.subrange(0, from.len() as int) =~= from);
    assert(place.subrange(0, to.len() as int) =~= to);
    assert(path.skip(from.len() as int) =~= rest);
    assert(place.skip(to.len() as int) =~= rest);
    assert(crate::watcher::is_below(path, from)) by {
        assert(path.len() > from.len());
    }
    assert(place.len() > to.len());
    assert(crate::watcher::old_place(place, from, to) == path);
    assert(to.is_prefix_of(path) == crate::path::is_under(path, to));
    assert(to.is_prefix_of(other) == crate::path::is_under(other, to));
    assert(from.is_prefix_of(other) == crate::path::is_under(other, from));
}

/// The observation starts with nothing remembered, and with every root that lies below
/// no other one to be listed.
pub proof fn the_observation_starts_empty(
    roots: Seq<Parts>,
    bytes: usize,
    entries: usize,
    root: Parts,
)
    ensures
        ({
            let start = crate::watcher::started(roots, bytes, entries);
            &&& start.roots == roots
            &&& start.snapshots.dom() =~= Set::<Parts>::empty()
            &&& start.failed.len() == 0
            &&& start.omissions == 0
            &&& start.max_bytes == bytes
            &&& start.max_entries == entries
            &&& start.walks.contains(root) <==> roots.contains(root) && forall|other: Parts|
                #[trigger] roots.contains(other) && other.is_prefix_of(root) ==> other == root
        }),
{
    let keep = |root: Parts| crate::roots::is_minimal(roots, root);
    let walks = crate::roots::minimal_roots(roots);
    if walks.contains(root) {
        let i = choose|i: int| 0 <= i < walks.len() && walks[i] == root;
        crate::roots::lemma_filtered(roots, keep, i);
        assert forall|other: Parts| #[trigger] roots.contains(other) && other.is_prefix_of(
            root,
        ) implies other == root by {
            let k = choose|k: int| 0 <= k < roots.len() && roots[k] == other;
            assert(crate::path::is_under(root, roots[k]));
        }
    }
    if roots.contains(root) && (forall|other: Parts| #[trigger]
        roots.contains(other) && other.is_prefix_of(root) ==> other == root) {
        let i = choose|i: int| 0 <= i < roots.len() && roots[i] == root;
        assert forall|k: int|
            0 <= k < roots.len() && crate::path::is_under(root, #[trigger] roots[k]) implies roots[k]
            == root by {
            assert(roots.contains(roots[k]));
            assert(roots[k].is_prefix_of(root));
        }
        crate::roots::lemma_kept(roots, keep, i);
    }
}

/// A path belongs to the deepest root above it, and is named from there; the root
/// itself is named by its last name. A path outside of all roots counts to the first
/// and is named by its last name.
pub proof fn paths_are_named_from_their_root(roots: Seq<Parts>, root: Parts, path: Parts)
    requires
        roots.len() > 0,
    ensures
        crate::event_laws::lies_in(roots, root, path) ==> crate::roots::owner(roots, path) == root,
        crate::event_laws::lies_in(roots, root, path) && path.len() > root.len()
            ==> crate::roots::relative(roots, path) == path.skip(root.len() as int),
        crate::event_laws::lies_in(roots, root, path) && path == root && path.len() > 0
            && path.last() is Normal ==> crate::roots::relative(roots, path) == seq![path.last()],
        (forall|other: Parts| #[trigger] roots.contains(other) ==> !other.is_prefix_of(path))
            ==> crate::roots::owner(roots, path) == roots[0] && !crate::roots::is_hidden_below(
            roots,
            path,
        ) && (path.len() > 0 && path.last() is Normal ==> crate::roots::relative(roots, path)
            == seq![path.last()]),
{
    if crate::event_laws::lies_in(roots, root, path) {
        crate::event_laws::lemma_owner(roots, root, path);
    }
    if forall|other: Parts| #[trigger] roots.contains(other) ==> !other.is_prefix_of(path) {
        lemma_outside(roots, path, roots.len());
        assert(roots.contains(roots[0]));
        assert(!crate::path::is_under(path, roots[0]));
    }
}

/// No root owns a path outside of all.
proof fn lemma_outside(roots: Seq<Parts>, path: Parts, n: nat)
    requires
        n <= roots.len(),
        forall|other: Parts| #[trigger] roots.contains(other) ==> !other.is_prefix_of(path),
    ensures
        crate::roots::owner_among(roots, path, n) is None,
    decreases n,
{
    if n > 0 {
        lemma_outside(roots, path, (n - 1) as nat);
        assert(roots.contains(roots[n - 1]));
        assert(!crate::path::is_under(path, roots[n - 1]));
    }
}

/// A path is suppressed exactly where one of its names is.
pub proof fn suppressed_names_are_six(path: Parts)
    ensures
        crate::roots::is_hidden(path) == exists|i: int|
            0 <= i < path.len() && crate::native_laws::is_suppressed(#[trigger] path[i]),
{
    if crate::roots::is_hidden(path) {
        let i = choose|i: int| 0 <= i < path.len() && crate::roots::is_hidden_name(#[trigger] path[i]);
        assert(crate::native_laws::is_suppressed(path[i]));
    }
    if exists|i: int| 0 <= i < path.len() && crate::native_laws::is_suppressed(#[trigger] path[i]) {
        let i = choose|i: int|
            0 <= i < path.len() && crate::native_laws::is_suppressed(#[trigger] path[i]);
        assert(crate::roots::is_hidden_name(path[i]));
    }
}

/// A root whose last name no other root has is labelled by that name. One that shares
/// its last name, but not its last two, is labelled by both, with a slash between them.
pub proof fn labels_are_the_shortest_that_tell_apart(
    roots: Seq<Parts>,
    i: int,
    name: Text,
    parent: Text,
)
    requires
        0 <= i < roots.len(),
        forall|k: int| 0 <= k < roots.len() ==> (#[trigger] roots[k]).len() >= 2,
        forall|k: int, m: int|
            0 <= k < roots.len() && roots[k].len() - 2 <= m < roots[k].len() && m > 0
                ==> #[trigger] roots[k][m] is Normal,
        roots[i].len() >= 3,
        roots[i].last() == PartView::Normal(name),
        roots[i][roots[i].len() - 2] == PartView::Normal(parent),
    ensures
        (forall|j: int|
            0 <= j < roots.len() && j != i ==> (#[trigger] roots[j]).last() != roots[i].last())
            ==> crate::roots::label_of(roots, roots[i]) == name,
        (exists|j: int|
            0 <= j < roots.len() && j != i && (#[trigger] roots[j]).last() == roots[i].last()) && (
        forall|j: int|
            0 <= j < roots.len() && j != i && (#[trigger] roots[j]).last() == roots[i].last()
                ==> roots[j].len() >= 3 && roots[j][roots[j].len() - 2] != roots[i][roots[i].len()
                - 2]) ==> crate::roots::label_of(roots, roots[i]) == parent + "/"@ + name,
{
    let own = roots[i];
    let one = crate::roots::last_names(own, 1);
    let two = crate::roots::last_names(own, 2);
    assert(one =~= seq![name]);
    assert(two =~= seq![parent, name]);
    reveal_with_fuel(crate::roots::label_from, 3);
    reveal_with_fuel(crate::text::joined, 3);
    assert forall|j: int| 0 <= j < roots.len() implies crate::roots::ends_in(
        #[trigger] roots[j],
        one,
    ) == (roots[j].last() == own.last()) by {
        let all = crate::roots::names_of(roots[j]);
        let n = roots[j].len();
        assert(roots[j][n - 1] is Normal);
        assert(all[n - 1] == roots[j].last()->Normal_0);
        if crate::roots::ends_in(roots[j], one) {
            assert(all.skip(n - 1)[0] == one[0]);
        }
        if roots[j].last() == own.last() {
            assert(all.skip(n - 1) =~= one);
        }
    }
    if forall|j: int|
        0 <= j < roots.len() && j != i ==> (#[trigger] roots[j]).last() != roots[i].last() {
        crate::roots::lemma_counted_once(roots, one, roots.len(), i);
        assert(crate::roots::tells_apart(roots, own, 1));
        assert(crate::text::joined(one, "/"@) == name);
    } else {
        let j = choose|j: int|
            0 <= j < roots.len() && j != i && (#[trigger] roots[j]).last() == roots[i].last();
        assert(crate::roots::ends_in(roots[i], one) && crate::roots::ends_in(roots[j], one));
        crate::roots::lemma_count_ending(roots, one, roots.len(), i);
        assert(!crate::roots::tells_apart(roots, own, 1));
        if forall|j: int|
            0 <= j < roots.len() && j != i && (#[trigger] roots[j]).last() == roots[i].last()
                ==> roots[j].len() >= 3 && roots[j][roots[j].len() - 2] != roots[i][roots[i].len()
                - 2] {
            assert forall|j: int| 0 <= j < roots.len() && j != i implies !crate::roots::ends_in(
                #[trigger] roots[j],
                two,
            ) by {
                let all = crate::roots::names_of(roots[j]);
                let n = roots[j].len();
                if crate::roots::ends_in(roots[j], two) {
                    assert(all.skip(n - 2)[0] == two[0]);
                    assert(all.skip(n - 2)[1] == two[1]);
                    assert(all[n - 1] == name);
                    assert(roots[j][n - 1] is Normal);
                    assert(roots[j].last() == own.last());
                    assert(roots[j][n - 2] is Normal);
                    assert(all[n - 2] == parent);
                }
            }
            assert(crate::roots::ends_in(own, two)) by {
                assert(crate::roots::names_of(own).skip(own.len() - 2) =~= two);
            }
            crate::roots::lemma_counted_once(roots, two, roots.len(), i);
            assert(crate::roots::tells_apart(roots, own, 2));
            assert(two.drop_last() =~= seq![parent]);
            assert(crate::text::joined(two, "/"@) =~= parent + "/"@ + name);
        }
    }
}

/// The time to wait before the next attempt, in milliseconds: it doubles with each
/// failure, up to eight seconds.
pub open spec fn wait_of(attempts: u32) -> int {
    if attempts == 0 {
        250
    } else if attempts == 1 {
        500
    } else if attempts == 2 {
        1000
    } else if attempts == 3 {
        2000
    } else if attempts == 4 {
        4000
    } else {
        8000
    }
}

/// A watch that failed is tried again after a quarter of a second, and then after twice
/// as long each time, up to eight seconds.
pub proof fn attempts_are_spread_out(state: RecoveryState, now: u64)
    requires
        now + 10_000_000_000 <= u64::MAX,
    ensures
        RecoveryState::failed_at(now).attempts == 0,
        RecoveryState::failed_at(now).next_attempt == now + 250_000_000,
        state.attempts < u32::MAX ==> state.retried(now).attempts == state.attempts + 1,
        state.attempts < u32::MAX ==> state.retried(now).next_attempt == now + 1_000_000 * wait_of(
            (state.attempts + 1) as u32,
        ),
{
    reveal_with_fuel(crate::recovery::doublings, 7);
}

/// Where the watch of a root has failed, all that was remembered below it is forgotten,
/// since it may have changed unseen; the root waits for its next attempt. A root that
/// waits already goes on as it did.
pub proof fn failed_roots_wait(watch: WatchView, root: Parts, path: Parts, now: u64)
    requires
        now + 10_000_000_000 <= u64::MAX,
    ensures
        root.is_prefix_of(path) ==> watch.failing(root, now).remembered(path) is None,
        !root.is_prefix_of(path) ==> watch.failing(root, now).remembered(path) == watch.remembered(
            path,
        ),
        (exists|i: int| 0 <= i < watch.failed.len() && (#[trigger] watch.failed[i]).root == root)
            ==> watch.failing(root, now).failed == watch.failed,
        (forall|i: int| 0 <= i < watch.failed.len() ==> (#[trigger] watch.failed[i]).root != root)
            ==> watch.failing(root, now).failed == watch.failed.push(
            FailedView {
                root,
                state: RecoveryState { attempts: 0, next_attempt: (now + 250_000_000) as u64 },
            },
        ),
        watch.failing(root, now).roots == watch.roots,
{
    trees_are_forgotten_whole(watch, root, path);
}

/// Whether a root is among those whose watch is to be tried again by now.
pub open spec fn is_due(failed: Seq<FailedView>, root: Parts, now: u64) -> bool {
    exists|i: int|
        0 <= i < failed.len() && (#[trigger] failed[i]).root == root
            && failed[i].state.next_attempt <= now
}

/// Exactly the roots whose time has come are tried again.
pub proof fn due_roots_are_tried(failed: Seq<FailedView>, root: Parts, now: u64, n: nat)
    requires
        n <= failed.len(),
    ensures
        crate::watcher::due_roots(failed, now, n).contains(root) <==> is_due(
            failed.take(n as int),
            root,
            now,
        ),
    decreases n,
{
    let all = crate::watcher::due_roots(failed, now, n);
    if n > 0 {
        due_roots_are_tried(failed, root, now, (n - 1) as nat);
        let earlier = crate::watcher::due_roots(failed, now, (n - 1) as nat);
        let front = failed.take(n - 1);
        let whole = failed.take(n as int);
        if all.contains(root) {
            let i = choose|i: int| 0 <= i < all.len() && all[i] == root;
            if i < earlier.len() {
                assert(earlier[i] == root);
                let k = choose|k: int|
                    0 <= k < front.len() && (#[trigger] front[k]).root == root
                        && front[k].state.next_attempt <= now;
                assert(whole[k].root == root);
            } else {
                assert(whole[n - 1].root == root);
            }
        }
        if is_due(whole, root, now) {
            let k = choose|k: int|
                0 <= k < whole.len() && (#[trigger] whole[k]).root == root
                    && whole[k].state.next_attempt <= now;
            if k < n - 1 {
                assert(front[k].root == root);
                let i = choose|i: int| 0 <= i < earlier.len() && earlier[i] == root;
                assert(all[i] == root);
            } else {
                assert(all[all.len() - 1] == root);
            }
        }
    }
}

/// A root that is watched again waits no longer: it is listed anew and reported. One
/// that is not waits longer, and one whose time has not come waits as it did.
pub proof fn recoveries_go_on(watch: WatchView, one: FailedView, watched: bool, now: u64)
    requires
        watch.failed == seq![one],
        now + 10_000_000_000 <= u64::MAX,
        one.state.attempts < u32::MAX,
    ensures
        one.state.next_attempt > now ==> watch.retried(Seq::empty(), now) == watch,
        one.state.next_attempt <= now && watched ==> watch.retried(seq![watched], now) == (
        WatchView { failed: Seq::empty(), walks: watch.walks.push(one.root), ..watch }),
        one.state.next_attempt <= now && !watched ==> watch.retried(seq![watched], now) == (
        WatchView {
            failed: seq![
                FailedView {
                    root: one.root,
                    state: RecoveryState {
                        attempts: (one.state.attempts + 1) as u32,
                        next_attempt: (now + 1_000_000 * wait_of(
                            (one.state.attempts + 1) as u32,
                        )) as u64,
                    },
                },
            ],
            ..watch
        }),
{
    reveal_with_fuel(crate::watcher::retries, 2);
    reveal_with_fuel(crate::watcher::due_roots, 2);
    attempts_are_spread_out(one.state, now);
    let none = watch.retried(Seq::empty(), now);
    if one.state.next_attempt > now {
        assert(none.failed =~= watch.failed);
        assert(none.walks =~= watch.walks);
    } else if watched {
        assert(watch.retried(seq![watched], now).walks =~= watch.walks.push(one.root));
        assert(watch.retried(seq![watched], now).failed =~= Seq::empty());
    } else {
        assert(watch.retried(seq![watched], now).walks =~= watch.walks);
        assert(one.state.retried(now) == (RecoveryState {
            attempts: (one.state.attempts + 1) as u32,
            next_attempt: (now + 1_000_000 * wait_of((one.state.attempts + 1) as u32)) as u64,
        }));
        assert(watch.retried(seq![watched], now).failed =~= seq![
            FailedView { root: one.root, state: one.state.retried(now) },
        ]);
    }
}

/// How many of the first `n` failed roots are to be tried again by now.
pub open spec fn count_due(failed: Seq<FailedView>, now: u64, n: nat) -> nat
    decreases n,
{
    if n == 0 {
        0
    } else {
        count_due(failed, now, (n - 1) as nat) + (if failed[n - 1].state.next_attempt <= now {
            1nat
        } else {
            0nat
        })
    }
}

/// Of several failed roots each goes by its own attempt: those that are watched again
/// are listed anew, and the others go on waiting, in order.
pub proof fn each_root_has_its_own_attempt(
    failed: Seq<FailedView>,
    watched: Seq<bool>,
    now: u64,
    n: nat,
    i: int,
)
    requires
        0 <= i < n <= failed.len(),
    ensures
        ({
            let run = crate::watcher::retries(failed, watched, now, n);
            let one = failed[i];
            let good = watched[count_due(failed, now, i as nat) as int];
            &&& one.state.next_attempt > now ==> run.failed.contains(one)
            &&& one.state.next_attempt <= now && good ==> run.recovered.contains(one.root)
            &&& one.state.next_attempt <= now && !good ==> run.failed.contains(
                FailedView { root: one.root, state: one.state.retried(now) },
            )
            &&& run.failed.len() + run.recovered.len() == n
        }),
    decreases n,
{
    lemma_count_due(failed, now, (n - 1) as nat);
    lemma_retried(failed, watched, now, (n - 1) as nat);
    let earlier = crate::watcher::retries(failed, watched, now, (n - 1) as nat);
    let run = crate::watcher::retries(failed, watched, now, n);
    if i < n - 1 {
        each_root_has_its_own_attempt(failed, watched, now, (n - 1) as nat, i);
        assert forall|one: FailedView| earlier.failed.contains(one) implies run.failed.contains(
            one,
        ) by {
            let k = choose|k: int| 0 <= k < earlier.failed.len() && earlier.failed[k] == one;
            assert(run.failed[k] == one);
        }
        assert forall|one: Parts| earlier.recovered.contains(one) implies run.recovered.contains(
            one,
        ) by {
            let k = choose|k: int| 0 <= k < earlier.recovered.len() && earlier.recovered[k] == one;
            assert(run.recovered[k] == one);
        }
    } else {
        if run.failed.len() > earlier.failed.len() {
            assert(run.failed[earlier.failed.len() as int] == run.failed.last());
        }
        if run.recovered.len() > earlier.recovered.len() {
            assert(run.recovered[earlier.recovered.len() as int] == failed[i].root);
        }
    }
}

/// Every root is either watched again or goes on waiting.
proof fn lemma_retried(failed: Seq<FailedView>, watched: Seq<bool>, now: u64, n: nat)
    ensures
        crate::watcher::retries(failed, watched, now, n).failed.len() + crate::watcher::retries(
            failed,
            watched,
            now,
            n,
        ).recovered.len() == n,
    decreases n,
{
    if n > 0 {
        lemma_retried(failed, watched, now, (n - 1) as nat);
    }
}

/// The roots that are tried again are counted.
proof fn lemma_count_due(failed: Seq<FailedView>, now: u64, n: nat)
    ensures
        crate::watcher::due_roots(failed, now, n).len() == count_due(failed, now, n),
    decreases n,
{
    if n > 0 {
        lemma_count_due(failed, now, (n - 1) as nat);
    }
}

/// A folder that joins becomes the last root. It is listed on its own account exactly
/// where it lies below no other root, and every root is labelled anew.
pub proof fn folders_join_at_the_end(watch: WatchView, root: Parts)
    ensures
        watch.joined(root).roots == watch.roots.push(root),
        (exists|other: Parts| #[trigger]
            watch.roots.contains(other) && other.is_prefix_of(root)) ==> watch.joined(root).walks
            == watch.walks,
        (forall|other: Parts| #[trigger]
            watch.roots.contains(other) ==> !other.is_prefix_of(root)) ==> watch.joined(root).walks
            == watch.walks.push(root),
        watch.joined(root).snapshots == watch.snapshots,
        watch.joined(root).labels == crate::roots::labels_of(watch.roots.push(root)),
{
    if exists|other: Parts| #[trigger] watch.roots.contains(other) && other.is_prefix_of(root) {
        let other = choose|other: Parts| #[trigger]
            watch.roots.contains(other) && other.is_prefix_of(root);
        let i = choose|i: int| 0 <= i < watch.roots.len() && watch.roots[i] == other;
        assert(crate::path::is_under(root, watch.roots[i]));
    }
    if forall|other: Parts| #[trigger]
        watch.roots.contains(other) ==> !other.is_prefix_of(root) {
        assert forall|i: int| 0 <= i < watch.roots.len() implies !crate::path::is_under(
            root,
            #[trigger] watch.roots[i],
        ) by {
            assert(watch.roots.contains(watch.roots[i]));
        }
    }
}

/// What a listing finds is remembered as if it had been seen, unless the path is gone
/// or is known already, which is newer. The end of a listing goes on to the folder
/// before it.
pub proof fn listings_fill_in_what_is_not_known(watch: WatchView, path: Parts, found: InspectionView)
    ensures
        watch.snapshots.contains_key(path) || found is Missing ==> watch.seeded(
            SeedView::Entry { path, found },
        ) == watch,
        !watch.snapshots.contains_key(path) && !(found is Missing) ==> watch.seeded(
            SeedView::Entry { path, found },
        ) == watch.stored(path, crate::snapshot::snapshot_of(path, found)),
        watch.seeded(SeedView::Failed) == watch,
        watch.walks.len() > 0 ==> watch.seeded(SeedView::Exhausted) == (WatchView {
            walks: watch.walks.drop_last(),
            ..watch
        }),
{
}

/// Faults that end a watch are told as its loss, those that speak of lost events as
/// uncertain, and all others as degraded.
pub proof fn faults_are_judged(kind: FaultKind, lowered: Text)
    ensures
        kind == FaultKind::MaxFilesWatch ==> crate::watcher::fault_class(kind, lowered) == (
            IntegrityLevel::Lost,
            "native watch limit reached"@,
        ),
        kind == FaultKind::PathNotFound || kind == FaultKind::WatchNotFound
            ==> crate::watcher::fault_class(kind, lowered) == (
            IntegrityLevel::Lost,
            "watch target unavailable"@,
        ),
        kind == FaultKind::Generic && (crate::event_laws::occurs_in(lowered, "overflow"@)
            || crate::event_laws::occurs_in(lowered, "dropped"@) || crate::event_laws::occurs_in(
            lowered,
            "rescan"@,
        )) ==> crate::watcher::fault_class(kind, lowered) == (
            IntegrityLevel::Uncertain,
            "native events may have been lost"@,
        ),
        kind == FaultKind::Generic && !crate::event_laws::occurs_in(lowered, "overflow"@)
            && !crate::event_laws::occurs_in(lowered, "dropped"@) && !crate::event_laws::occurs_in(
            lowered,
            "rescan"@,
        ) ==> crate::watcher::fault_class(kind, lowered) == (
            IntegrityLevel::Degraded,
            "native watcher reported an error"@,
        ),
        kind == FaultKind::Io || kind == FaultKind::InvalidConfig ==> crate::watcher::fault_class(
            kind,
            lowered,
        ) == (IntegrityLevel::Degraded, "native watcher reported an error"@),
{
    crate::event_laws::lemma_occurs(lowered, "overflow"@);
    crate::event_laws::lemma_occurs(lowered, "dropped"@);
    crate::event_laws::lemma_occurs(lowered, "rescan"@);
}

/// A report of a fault carries the description of the fault and names the first path
/// that it is of, or else the root that stands in for it.
pub proof fn faults_are_told(
    source: Text,
    kind: FaultKind,
    paths: Seq<Parts>,
    description: Text,
    lowered: Text,
    fallback: Parts,
)
    ensures
        ({
            let report = crate::watcher::fault_report(
                source,
                kind,
                paths,
                description,
                lowered,
                fallback,
            );
            &&& report.source == source
            &&& report.detail == description
            &&& (report.level, report.summary) == crate::watcher::fault_class(kind, lowered)
            &&& report.root == (if paths.len() > 0 {
                paths[0]
            } else {
                fallback
            })
        }),
{
}

/// Whether a report of the filesystem says this of a root.
pub open spec fn says(
    report: IntegrityView,
    level: IntegrityLevel,
    summary: Text,
    detail: Text,
    root: Parts,
) -> bool {
    &&& report.source == "filesystem"@
    &&& report.level == level
    &&& report.summary == summary
    &&& report.detail == detail
    &&& report.root == root
}

/// What is reported of the observation of the filesystem.
pub proof fn the_observation_is_reported(root: Parts, n: u64, reason: Text)
    ensures
        says(
            crate::watcher::established_report(root),
            IntegrityLevel::Info,
            "watch established"@,
            "native recursive filesystem events are active"@,
            root,
        ),
        says(
            crate::watcher::joined_report(root),
            IntegrityLevel::Info,
            "related folder joined"@,
            "native recursive filesystem events are active"@,
            root,
        ),
        says(
            crate::watcher::recovered_report(root),
            IntegrityLevel::Info,
            "watch recovered"@,
            "native observation resumed; events during the gap were not reconstructed"@,
            root,
        ),
        says(
            crate::session::unjoined_report(root, reason),
            IntegrityLevel::Lost,
            "related folder could not join"@,
            reason,
            root,
        ),
        says(
            crate::session::channel_report(root),
            IntegrityLevel::Lost,
            "event channel disconnected"@,
            "filesystem changes are no longer observable"@,
            root,
        ),
        n == 0 ==> crate::session::dropped_report(n) is None && crate::session::omitted_report(
            n,
        ) is None,
        n > 0 ==> crate::session::dropped_report(n) is Some && says(
            crate::session::dropped_report(n)->0,
            IntegrityLevel::Uncertain,
            "filesystem event queue overflowed"@,
            crate::text::decimal_text(n as nat)
                + " native events were dropped before classification"@,
            Parts::empty(),
        ),
        n > 0 ==> crate::session::omitted_report(n) is Some && says(
            crate::session::omitted_report(n)->0,
            IntegrityLevel::Degraded,
            "snapshot memory budget reached"@,
            crate::text::decimal_text(n as nat)
                + " text baselines were omitted; metadata remains visible"@,
            Parts::empty(),
        ),
{
}

} // verus!
