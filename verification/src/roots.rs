//! The watched folders: which one a path belongs to, which of them have to be
//! watched, how they are labelled, and what below them is not shown.

use crate::path::{FsPath, PartView, Parts};
use crate::path_map::PathMap;
use crate::text::{join_all, Text};
use vstd::prelude::*;
use vstd::string::*;

verus! {

/// Whether a name is that of a tree which is not shown: a tree of generated
/// files, or the data of Git or Beads.
pub open spec fn is_hidden_name(part: PartView) -> bool {
    ||| part == PartView::Normal(".git"@)
    ||| part == PartView::Normal(".beads"@)
    ||| part == PartView::Normal("node_modules"@)
    ||| part == PartView::Normal("target"@)
    ||| part == PartView::Normal("dist"@)
    ||| part == PartView::Normal("coverage"@)
}

/// Whether a path lies in a tree that is not shown, or is one.
pub open spec fn is_hidden(path: Parts) -> bool {
    exists|i: int| 0 <= i < path.len() && is_hidden_name(#[trigger] path[i])
}

/// Tests whether a path lies in a tree that is not shown, or is one.
pub fn ignored(path: &FsPath) -> (b: bool)
    ensures
        b == is_hidden(path@),
{
    let mut i: usize = 0;
    while i < path.parts.len()
        invariant
            i <= path.parts@.len(),
            forall|j: int| 0 <= j < i ==> !is_hidden_name(#[trigger] path@[j]),
        decreases path.parts@.len() - i,
    {
        let part = &path.parts[i];
        assert(path@[i as int] == part@);
        if part.is_name(".git") || part.is_name(".beads") || part.is_name("node_modules")
            || part.is_name("target") || part.is_name("dist") || part.is_name("coverage") {
            return true;
        }
        i += 1;
    }
    false
}

/// Which of the first `n` roots a path belongs to: the deepest that it lies
/// under.
pub open spec fn owner_among(roots: Seq<Parts>, path: Parts, n: nat) -> Option<int>
    decreases n,
{
    if n == 0 {
        None
    } else {
        let earlier = owner_among(roots, path, (n - 1) as nat);
        let root = roots[n - 1];
        if crate::path::is_under(path, root) && (earlier is None || root.len()
            >= roots[earlier->0].len()) {
            Some(n - 1)
        } else {
            earlier
        }
    }
}

/// The root that a path belongs to, and the first root where it belongs to none.
pub open spec fn owner(roots: Seq<Parts>, path: Parts) -> Parts {
    match owner_among(roots, path, roots.len()) {
        Some(i) => roots[i],
        None => roots[0],
    }
}

/// How a path is written in an event: from its root on, or as its last name
/// where nothing is left of it then.
pub open spec fn relative(roots: Seq<Parts>, path: Parts) -> Parts {
    let root = owner(roots, path);
    if crate::path::is_under(path, root) && path.len() > root.len() {
        crate::path::stripped(path, root)
    } else {
        match crate::path::last_name(path) {
            Some(name) => seq![name],
            None => Parts::empty(),
        }
    }
}

/// Whether a path lies in a tree below its root that is not shown. The names of
/// the root itself do not count.
pub open spec fn is_hidden_below(roots: Seq<Parts>, path: Parts) -> bool {
    let root = owner(roots, path);
    crate::path::is_under(path, root) && is_hidden(crate::path::stripped(path, root))
}

/// What `owner_among` gives.
proof fn lemma_owner_among(roots: Seq<Parts>, path: Parts, n: nat)
    requires
        n <= roots.len(),
    ensures
        match owner_among(roots, path, n) {
            Some(i) => {
                &&& 0 <= i < n
                &&& crate::path::is_under(path, roots[i])
                &&& forall|j: int|
                    0 <= j < n && crate::path::is_under(path, #[trigger] roots[j])
                        ==> roots[j].len() <= roots[i].len()
            },
            None => forall|j: int|
                0 <= j < n ==> !crate::path::is_under(path, #[trigger] roots[j]),
        },
    decreases n,
{
    if n > 0 {
        lemma_owner_among(roots, path, (n - 1) as nat);
    }
}

/// A path that lies under some root belongs to a root that it lies under, and to
/// none that is less deep than another it lies under.
pub proof fn paths_belong_to_the_deepest_root(roots: Seq<Parts>, path: Parts, root: Parts)
    requires
        roots.contains(root),
        crate::path::is_under(path, root),
    ensures
        roots.contains(owner(roots, path)),
        crate::path::is_under(path, owner(roots, path)),
        root.len() <= owner(roots, path).len(),
{
    lemma_owner_among(roots, path, roots.len());
    let k = choose|k: int| 0 <= k < roots.len() && roots[k] == root;
    assert(crate::path::is_under(path, roots[k]));
}

/// From the root that it belongs to, the relative form of a path below that root
/// leads back to the path.
pub proof fn relative_paths_lead_back(roots: Seq<Parts>, path: Parts)
    requires
        crate::path::is_under(path, owner(roots, path)),
        path.len() > owner(roots, path).len(),
        owner(roots, path).len() > 0,
        forall|i: int| 0 < i < path.len() ==> crate::path::is_name(#[trigger] path[i]),
    ensures
        crate::path::path_join(owner(roots, path), relative(roots, path)) == path,
{
    let root = owner(roots, path);
    let rest = crate::path::stripped(path, root);
    assert(rest[0] == path[root.len() as int]);
    assert(crate::path::is_name(path[root.len() as int]));
    assert(root + rest =~= path);
}

/// Finds the root that `path` belongs to.
pub fn root_of(roots: &Vec<FsPath>, path: &FsPath) -> (root: FsPath)
    requires
        roots@.len() > 0,
    ensures
        root@ == owner(crate::path::paths_of(roots@), path@),
{
    let mut best: Option<usize> = None;
    let mut i: usize = 0;
    let ghost all = crate::path::paths_of(roots@);
    while i < roots.len()
        invariant
            i <= roots@.len(),
            all == crate::path::paths_of(roots@),
            match best {
                Some(b) => b < i && owner_among(all, path@, i as nat) == Some(b as int),
                None => owner_among(all, path@, i as nat) is None,
            },
        decreases roots@.len() - i,
    {
        assert(all[i as int] == roots@[i as int]@);
        if path.is_under(&roots[i]) {
            let deeper = match best {
                Some(b) => {
                    assert(all[b as int] == roots@[b as int]@);
                    roots[i].parts.len() >= roots[b].parts.len()
                },
                None => true,
            };
            if deeper {
                best = Some(i);
            }
        }
        i += 1;
    }
    match best {
        Some(b) => roots[b].clone(),
        None => roots[0].clone(),
    }
}

/// Whether a root is watched on its own account: no other root has it below it.
pub open spec fn is_minimal(roots: Seq<Parts>, root: Parts) -> bool {
    forall|i: int|
        0 <= i < roots.len() && crate::path::is_under(root, #[trigger] roots[i]) ==> roots[i]
            == root
}

/// The roots that are watched, in order.
pub open spec fn minimal_roots(roots: Seq<Parts>) -> Seq<Parts> {
    roots.filter(|root: Parts| is_minimal(roots, root))
}

/// Tests whether `root` is watched on its own account.
fn stands_alone(roots: &Vec<FsPath>, root: &FsPath) -> (b: bool)
    ensures
        b == is_minimal(crate::path::paths_of(roots@), root@),
{
    let ghost all = crate::path::paths_of(roots@);
    let mut i: usize = 0;
    while i < roots.len()
        invariant
            i <= roots@.len(),
            all == crate::path::paths_of(roots@),
            forall|j: int|
                0 <= j < i && crate::path::is_under(root@, #[trigger] all[j]) ==> all[j] == root@,
        decreases roots@.len() - i,
    {
        assert(all[i as int] == roots@[i as int]@);
        if root.is_under(&roots[i]) && !roots[i].same(root) {
            return false;
        }
        i += 1;
    }
    true
}

/// Finds the roots that have to be watched so that all are.
pub fn minimal_observation_roots(roots: &Vec<FsPath>) -> (minimal: Vec<FsPath>)
    ensures
        crate::path::paths_of(minimal@) == minimal_roots(crate::path::paths_of(roots@)),
{
    let ghost all = crate::path::paths_of(roots@);
    let ghost keep = |root: Parts| is_minimal(all, root);
    let mut minimal: Vec<FsPath> = Vec::new();
    let mut i: usize = 0;
    proof {
        reveal_with_fuel(Seq::filter, 1);
        assert(all.take(0).filter(keep) =~= Seq::<Parts>::empty());
        assert(crate::path::paths_of(minimal@) =~= Seq::<Parts>::empty());
    }
    while i < roots.len()
        invariant
            i <= roots@.len(),
            all == crate::path::paths_of(roots@),
            keep == (|root: Parts| is_minimal(all, root)),
            crate::path::paths_of(minimal@) == all.take(i as int).filter(keep),
        decreases roots@.len() - i,
    {
        let ghost before = minimal@;
        if stands_alone(roots, &roots[i]) {
            minimal.push(roots[i].clone());
            assert(crate::path::paths_of(minimal@) =~= crate::path::paths_of(before).push(
                all[i as int],
            ));
        }
        proof {
            assert(all.take(i + 1).drop_last() =~= all.take(i as int));
            assert(all.take(i + 1).last() == all[i as int]);
            reveal_with_fuel(Seq::filter, 1);
        }
        i += 1;
    }
    assert(all.take(i as int) =~= all);
    minimal
}

/// A root that is watched lies under no other that is, and whatever root there
/// is lies under one that is watched.
pub proof fn minimal_roots_cover_all_and_do_not_nest(
    roots: Seq<Parts>,
    root: Parts,
    i: int,
    j: int,
)
    requires
        roots.contains(root),
        0 <= i < minimal_roots(roots).len(),
        0 <= j < minimal_roots(roots).len(),
    ensures
        exists|k: int|
            0 <= k < minimal_roots(roots).len() && crate::path::is_under(
                root,
                #[trigger] minimal_roots(roots)[k],
            ),
        crate::path::is_under(minimal_roots(roots)[i], minimal_roots(roots)[j])
            ==> minimal_roots(roots)[i] == minimal_roots(roots)[j],
{
    lemma_covered(roots, root);
    lemma_minimal(roots, i);
    lemma_minimal(roots, j);
    let k = choose|k: int| 0 <= k < roots.len() && roots[k] == minimal_roots(roots)[j];
    assert(is_minimal(roots, minimal_roots(roots)[i]));
    assert(roots[k] == minimal_roots(roots)[j]);
}

/// Each watched root is a root, and minimal.
proof fn lemma_minimal(roots: Seq<Parts>, i: int)
    requires
        0 <= i < minimal_roots(roots).len(),
    ensures
        roots.contains(minimal_roots(roots)[i]),
        is_minimal(roots, minimal_roots(roots)[i]),
{
    lemma_filtered(roots, |root: Parts| is_minimal(roots, root), i);
}

/// What a filter keeps was there, and meets the condition.
pub proof fn lemma_filtered<A>(items: Seq<A>, keep: spec_fn(A) -> bool, i: int)
    requires
        0 <= i < items.filter(keep).len(),
    ensures
        items.contains(items.filter(keep)[i]),
        keep(items.filter(keep)[i]),
    decreases items.len(),
{
    reveal_with_fuel(Seq::filter, 1);
    if items.len() > 0 {
        let front = items.drop_last();
        if i < front.filter(keep).len() {
            lemma_filtered(front, keep, i);
            let k = choose|k: int| 0 <= k < front.len() && front[k] == front.filter(keep)[i];
            assert(items[k] == items.filter(keep)[i]);
        } else {
            assert(items[items.len() - 1] == items.filter(keep)[i]);
        }
    }
}

/// What meets the condition is kept.
pub proof fn lemma_kept<A>(items: Seq<A>, keep: spec_fn(A) -> bool, k: int)
    requires
        0 <= k < items.len(),
        keep(items[k]),
    ensures
        items.filter(keep).contains(items[k]),
    decreases items.len(),
{
    reveal_with_fuel(Seq::filter, 1);
    let front = items.drop_last();
    if k < items.len() - 1 {
        lemma_kept(front, keep, k);
        let i = choose|i: int|
            0 <= i < front.filter(keep).len() && front.filter(keep)[i] == front[k];
        assert(items.filter(keep)[i] == items[k]);
    } else {
        assert(items.filter(keep)[front.filter(keep).len() as int] == items[k]);
    }
}

/// Every root lies under a watched one.
proof fn lemma_covered(roots: Seq<Parts>, root: Parts)
    requires
        roots.contains(root),
    ensures
        exists|k: int|
            0 <= k < minimal_roots(roots).len() && crate::path::is_under(
                root,
                #[trigger] minimal_roots(roots)[k],
            ),
    decreases root.len(),
{
    let keep = |one: Parts| is_minimal(roots, one);
    let at = choose|k: int| 0 <= k < roots.len() && roots[k] == root;
    if is_minimal(roots, root) {
        lemma_kept(roots, keep, at);
        let k = choose|k: int| 0 <= k < roots.filter(keep).len() && roots.filter(keep)[k] == root;
        assert(root.subrange(0, root.len() as int) =~= root);
        assert(crate::path::is_under(root, minimal_roots(roots)[k]));
    } else {
        let i = choose|i: int|
            0 <= i < roots.len() && crate::path::is_under(root, #[trigger] roots[i]) && roots[i]
                != root;
        let above = roots[i];
        if above.len() == root.len() {
            assert(root.subrange(0, above.len() as int) =~= root);
        }
        assert(roots.contains(above));
        lemma_covered(roots, above);
        let k = choose|k: int|
            0 <= k < minimal_roots(roots).len() && crate::path::is_under(
                above,
                #[trigger] minimal_roots(roots)[k],
            );
        lemma_under_trans(root, above, minimal_roots(roots)[k]);
    }
}

/// What lies under a path that lies under another lies under that one too.
pub proof fn lemma_under_trans(path: Parts, middle: Parts, base: Parts)
    requires
        crate::path::is_under(path, middle),
        crate::path::is_under(middle, base),
    ensures
        crate::path::is_under(path, base),
{
    assert(path.subrange(0, base.len() as int) =~= middle.subrange(0, base.len() as int));
}

/// The names that a path is made of.
pub open spec fn names_of(path: Parts) -> Seq<Text> {
    path.map_values(
        |part: PartView| crate::path::part_text(part, crate::path::separator_of(path)),
    )
}

/// Whether a path ends in these names.
pub open spec fn ends_in(path: Parts, suffix: Seq<Text>) -> bool {
    suffix.len() <= path.len() && names_of(path).skip(path.len() - suffix.len()) == suffix
}

/// How many of the first `n` roots end in these names.
pub open spec fn count_ending(roots: Seq<Parts>, suffix: Seq<Text>, n: nat) -> nat
    decreases n,
{
    if n == 0 {
        0
    } else {
        count_ending(roots, suffix, (n - 1) as nat) + (if ends_in(roots[n - 1], suffix) {
            1nat
        } else {
            0
        })
    }
}

/// The last `depth` names of a path.
pub open spec fn last_names(path: Parts, depth: int) -> Seq<Text> {
    names_of(path).skip(path.len() - depth)
}

/// Whether one root alone ends in the last `depth` names of `root`.
pub open spec fn tells_apart(roots: Seq<Parts>, root: Parts, depth: int) -> bool {
    count_ending(roots, last_names(root, depth), roots.len()) == 1
}

/// The label of a root, where no fewer than `depth` names will do.
pub open spec fn label_from(roots: Seq<Parts>, root: Parts, depth: int) -> Text
    decreases root.len() + 1 - depth,
{
    if depth < 0 || depth > root.len() {
        crate::path::path_text(root)
    } else if tells_apart(roots, root, depth) {
        crate::text::joined(last_names(root, depth), "/"@)
    } else {
        label_from(roots, root, depth + 1)
    }
}

/// The label of a root: the fewest names at its end that tell it apart from the
/// other roots, or the whole path where no number of them does.
pub open spec fn label_of(roots: Seq<Parts>, root: Parts) -> Text {
    label_from(roots, root, 1)
}

/// What `count_ending` counts.
pub proof fn lemma_count_ending(roots: Seq<Parts>, suffix: Seq<Text>, n: nat, i: int)
    requires
        n <= roots.len(),
        0 <= i < n,
        ends_in(roots[i], suffix),
    ensures
        count_ending(roots, suffix, n) >= 1,
        count_ending(roots, suffix, n) == 1 ==> forall|j: int|
            0 <= j < n && j != i ==> !ends_in(#[trigger] roots[j], suffix),
    decreases n,
{
    if i < n - 1 {
        lemma_count_ending(roots, suffix, (n - 1) as nat, i);
    } else {
        assert forall|j: int|
            count_ending(roots, suffix, n) == 1 && 0 <= j < n && j != i implies !ends_in(
            #[trigger] roots[j],
            suffix,
        ) by {
            if ends_in(roots[j], suffix) {
                lemma_count_ending(roots, suffix, (n - 1) as nat, j);
            }
        }
    }
}

/// Where the last `depth` names of a root tell it apart, no other root ends in
/// them; and where they are the fewest that do, its label is made of them.
pub proof fn labels_tell_roots_apart(roots: Seq<Parts>, i: int, j: int, depth: int)
    requires
        0 <= i < roots.len(),
        0 <= j < roots.len(),
        i != j,
        1 <= depth <= roots[i].len(),
        tells_apart(roots, roots[i], depth),
        forall|fewer: int| 1 <= fewer < depth ==> !tells_apart(roots, roots[i], fewer),
    ensures
        label_of(roots, roots[i]) == crate::text::joined(last_names(roots[i], depth), "/"@),
        !ends_in(roots[j], last_names(roots[i], depth)),
{
    let suffix = last_names(roots[i], depth);
    assert(suffix.len() == depth);
    lemma_count_ending(roots, suffix, roots.len(), i);
    lemma_label_from(roots, roots[i], 1, depth);
}

/// Where the search for a label stops.
proof fn lemma_label_from(roots: Seq<Parts>, root: Parts, from: int, depth: int)
    requires
        0 <= from <= depth <= root.len(),
        tells_apart(roots, root, depth),
        forall|fewer: int| from <= fewer < depth ==> !tells_apart(roots, root, fewer),
    ensures
        label_from(roots, root, from) == crate::text::joined(last_names(root, depth), "/"@),
    decreases depth - from,
{
    if from < depth {
        lemma_label_from(roots, root, from + 1, depth);
    }
}

/// Whether a text is a name that no slash parts.
pub open spec fn is_plain(name: Text) -> bool {
    name.len() > 0 && !name.contains('/')
}

/// Whether a path begins at a root directory, which stands at the place `at` behind
/// prefixes alone, and goes on with plain names. Where there are prefixes, a
/// backslash is no name.
pub open spec fn is_absolute(path: Parts, at: int) -> bool {
    &&& 0 <= at < path.len()
    &&& path[at] is Root
    &&& forall|i: int|
        0 <= i < path.len() && i != at ==> is_plain(names_of(path)[i]) && (at > 0
            ==> names_of(path)[i] != "\\"@) && (if i < at {
            #[trigger] path[i] is Prefix
        } else {
            path[i] is Normal
        })
}

/// A separator is a slash or no slash is in it.
proof fn lemma_separator_is_plain(path: Parts)
    ensures
        is_plain(crate::path::separator_of(path)) || crate::path::separator_of(path) == "/"@,
{
    reveal_strlit("\\");
}

/// Where one root alone ends in some names, they are counted once.
pub proof fn lemma_counted_once(roots: Seq<Parts>, suffix: Seq<Text>, n: nat, i: int)
    requires
        n <= roots.len(),
        0 <= i < roots.len(),
        ends_in(roots[i], suffix),
        forall|j: int| 0 <= j < roots.len() && j != i ==> !ends_in(#[trigger] roots[j], suffix),
    ensures
        count_ending(roots, suffix, n) == (if i < n {
            1nat
        } else {
            0
        }),
    decreases n,
{
    if n > 0 {
        lemma_counted_once(roots, suffix, (n - 1) as nat, i);
    }
}

/// All names of an absolute root tell it apart.
proof fn lemma_all_names_tell_apart(roots: Seq<Parts>, at: int, i: int)
    requires
        0 <= i < roots.len(),
        roots.no_duplicates(),
        forall|k: int| 0 <= k < roots.len() ==> is_absolute(#[trigger] roots[k], at),
    ensures
        tells_apart(roots, roots[i], roots[i].len() as int),
{
    reveal_strlit("/");
    let own = roots[i];
    let suffix = names_of(own);
    assert(last_names(own, own.len() as int) =~= suffix);
    assert(names_of(own).skip(0) =~= suffix);
    assert forall|j: int| 0 <= j < roots.len() && j != i implies !ends_in(
        #[trigger] roots[j],
        suffix,
    ) by {
        let other = roots[j];
        if ends_in(other, suffix) {
            let from = other.len() - own.len();
            let tail = names_of(other).skip(from);
            assert(is_absolute(own, at) && is_absolute(other, at));
            assert(tail[at] == suffix[at]);
            assert(suffix[at] == crate::path::separator_of(own));
            assert(names_of(other)[from + at] == suffix[at]);
            assert("/"@[0] == '/');
            assert("/"@.contains('/'));
            if from > 0 {
                assert(other[from + at] is Normal);
                assert(is_plain(names_of(other)[from + at]));
            }
            assert(from == 0);
            assert forall|k: int| 0 <= k < own.len() implies own[k] == other[k] by {
                assert(tail[k] == suffix[k]);
                assert(names_of(other)[k] == names_of(own)[k]);
            }
            assert(own =~= other);
        }
    }
    lemma_counted_once(roots, suffix, roots.len(), i);
}

/// Where all names of a root tell it apart, its label is made of some at its end
/// that do.
proof fn lemma_label_found(roots: Seq<Parts>, root: Parts, from: int) -> (depth: int)
    requires
        1 <= from <= root.len(),
        tells_apart(roots, root, root.len() as int),
    ensures
        from <= depth <= root.len(),
        tells_apart(roots, root, depth),
        label_from(roots, root, from) == crate::text::joined(last_names(root, depth), "/"@),
    decreases root.len() - from,
{
    if tells_apart(roots, root, from) {
        from
    } else {
        lemma_label_found(roots, root, from + 1)
    }
}

/// The labels of absolute roots differ, as long as no root is listed twice.
pub proof fn labels_of_absolute_roots_differ(roots: Seq<Parts>, at: int, i: int, j: int)
    requires
        0 <= i < roots.len(),
        0 <= j < roots.len(),
        i != j,
        roots.no_duplicates(),
        forall|k: int| 0 <= k < roots.len() ==> is_absolute(#[trigger] roots[k], at),
    ensures
        label_of(roots, roots[i]) != label_of(roots, roots[j]),
{
    lemma_all_names_tell_apart(roots, at, i);
    lemma_all_names_tell_apart(roots, at, j);
    assert(is_absolute(roots[i], at) && is_absolute(roots[j], at));
    let d = lemma_label_found(roots, roots[i], 1);
    let e = lemma_label_found(roots, roots[j], 1);
    if label_of(roots, roots[i]) == label_of(roots, roots[j]) {
        let a = last_names(roots[i], d);
        let b = last_names(roots[j], e);
        assert forall|k: int| 0 <= k < a.len() implies is_plain(#[trigger] a[k]) || a[k] == "/"@ by {
            let place = roots[i].len() - d + k;
            assert(a[k] == names_of(roots[i])[place]);
            assert(roots[i][place] is Root || is_plain(a[k]));
            lemma_separator_is_plain(roots[i]);
        }
        assert forall|k: int| 0 <= k < b.len() implies is_plain(#[trigger] b[k]) || b[k] == "/"@ by {
            let place = roots[j].len() - e + k;
            assert(b[k] == names_of(roots[j])[place]);
            assert(roots[j][place] is Root || is_plain(b[k]));
            lemma_separator_is_plain(roots[j]);
        }
        lemma_joined_once(a, b);
        assert(a.len() == d);
        lemma_count_ending(roots, a, roots.len(), i);
        assert(ends_in(roots[j], a));
    }
}

/// Names with slashes between them are those of one list alone.
proof fn lemma_joined_once(a: Seq<Text>, b: Seq<Text>)
    requires
        forall|k: int| 0 <= k < a.len() ==> is_plain(#[trigger] a[k]) || a[k] == "/"@,
        forall|k: int| 0 <= k < b.len() ==> is_plain(#[trigger] b[k]) || b[k] == "/"@,
        crate::text::joined(a, "/"@) == crate::text::joined(b, "/"@),
    ensures
        a == b,
    decreases a.len(),
{
    reveal_strlit("/");
    lemma_joined_long(a);
    lemma_joined_long(b);
    let text = crate::text::joined(a, "/"@);
    if a.len() == 0 || b.len() == 0 {
        assert(a =~= b);
    } else {
        let x = a.last();
        let y = b.last();
        let n = text.len() as int;
        assert(x.len() > 0 && y.len() > 0);
        assert(text.skip(n - x.len()) =~= x);
        assert(text.skip(n - y.len()) =~= y);
        lemma_last_name(a, b);
        lemma_last_name(b, a);
        assert(x == y);
        if a.len() == 1 && b.len() > 1 {
            lemma_joined_long(b.drop_last());
        }
        if b.len() == 1 && a.len() > 1 {
            lemma_joined_long(a.drop_last());
        }
        if a.len() > 1 {
            let front = crate::text::joined(a.drop_last(), "/"@);
            let other = crate::text::joined(b.drop_last(), "/"@);
            assert(text.take(n - x.len() - 1) =~= front);
            assert(text.take(n - y.len() - 1) =~= other);
            lemma_joined_once(a.drop_last(), b.drop_last());
        }
        assert(a =~= a.drop_last().push(x));
        assert(b =~= b.drop_last().push(y));
    }
}

/// A list with a name in it is not written as nothing.
proof fn lemma_joined_long(a: Seq<Text>)
    requires
        forall|k: int| 0 <= k < a.len() ==> is_plain(#[trigger] a[k]) || a[k] == "/"@,
    ensures
        a.len() > 0 ==> crate::text::joined(a, "/"@).len() > 0,
        a.len() == 0 ==> crate::text::joined(a, "/"@).len() == 0,
{
    reveal_strlit("/");
    if a.len() > 0 {
        assert(a.last().len() > 0);
    }
}

/// Of two lists that are written alike, one does not end in a shorter name.
proof fn lemma_last_name(a: Seq<Text>, b: Seq<Text>)
    requires
        a.len() > 0,
        b.len() > 0,
        forall|k: int| 0 <= k < a.len() ==> is_plain(#[trigger] a[k]) || a[k] == "/"@,
        forall|k: int| 0 <= k < b.len() ==> is_plain(#[trigger] b[k]) || b[k] == "/"@,
        crate::text::joined(a, "/"@) == crate::text::joined(b, "/"@),
    ensures
        a.last().len() >= b.last().len(),
{
    reveal_strlit("/");
    let text = crate::text::joined(a, "/"@);
    let n = text.len() as int;
    let x = a.last();
    let y = b.last();
    if x.len() < y.len() {
        assert(is_plain(y));
        assert(text.skip(n - y.len()) =~= y);
        assert(a.len() > 1);
        let gap = n - x.len() - 1;
        assert(text[gap] == '/');
        assert(y[gap - (n - y.len())] == '/');
    }
}

/// Writes the names of a path.
fn names(path: &FsPath) -> (out: Vec<String>)
    ensures
        crate::text::texts(out@) == names_of(path@),
        out@.len() == path@.len(),
{
    let separator = path.separator();
    let mut out: Vec<String> = Vec::new();
    let mut i: usize = 0;
    while i < path.parts.len()
        invariant
            i <= path.parts@.len(),
            out@.len() == i,
            forall|j: int|
                0 <= j < i ==> (#[trigger] out@[j])@ == crate::path::part_text(
                    path.parts@[j]@,
                    separator@,
                ),
        decreases path.parts@.len() - i,
    {
        out.push(path.parts[i].shown(separator));
        i += 1;
    }
    assert(crate::text::texts(out@) =~= names_of(path@));
    out
}

/// Tests whether `path` ends in the names `all[from..]`.
fn has_names(path: &FsPath, all: &Vec<String>, from: usize) -> (b: bool)
    requires
        from <= all@.len(),
    ensures
        b == ends_in(path@, crate::text::texts(all@).skip(from as int)),
{
    let ghost suffix = crate::text::texts(all@).skip(from as int);
    let available: usize = all.len();
    let count: usize = available - from;
    let own = names(path);
    let total: usize = own.len();
    if count > total {
        return false;
    }
    let ghost tail = names_of(path@).skip(path@.len() - suffix.len());
    let start: usize = total - count;
    let mut i: usize = 0;
    while i < count
        invariant
            i <= count,
            available == all@.len(),
            count == available - from,
            start == total - count,
            count <= total,
            total == own@.len(),
            from <= all@.len(),
            tail == crate::text::texts(own@).skip(start as int),
            tail == names_of(path@).skip(path@.len() - suffix.len()),
            suffix == crate::text::texts(all@).skip(from as int),
            forall|j: int| 0 <= j < i ==> #[trigger] tail[j] == suffix[j],
        decreases count - i,
    {
        assert(tail[i as int] == own@[start + i]@);
        assert(suffix[i as int] == all@[from + i]@);
        if own[start + i] != all[from + i] {
            return false;
        }
        i += 1;
    }
    assert(tail =~= suffix);
    true
}

/// Tests whether one root alone ends in the names `all[from..]`.
fn ending_once(roots: &Vec<FsPath>, all: &Vec<String>, from: usize) -> (once: bool)
    requires
        from <= all@.len(),
    ensures
        once == (count_ending(
            crate::path::paths_of(roots@),
            crate::text::texts(all@).skip(from as int),
            roots@.len(),
        ) == 1),
{
    let ghost suffix = crate::text::texts(all@).skip(from as int);
    let ghost paths = crate::path::paths_of(roots@);
    let mut count: usize = 0;
    let mut i: usize = 0;
    while i < roots.len()
        invariant
            i <= roots@.len(),
            from <= all@.len(),
            suffix == crate::text::texts(all@).skip(from as int),
            paths == crate::path::paths_of(roots@),
            count <= i,
            count == count_ending(paths, suffix, i as nat),
        decreases roots@.len() - i,
    {
        assert(paths[i as int] == roots@[i as int]@);
        if has_names(&roots[i], all, from) {
            count += 1;
        }
        i += 1;
    }
    count == 1
}

/// Finds the label of `root`.
fn label(roots: &Vec<FsPath>, root: &FsPath) -> (out: String)
    ensures
        out@ == label_of(crate::path::paths_of(roots@), root@),
{
    let all = names(root);
    let total: usize = all.len();
    let mut depth: usize = 1;
    let ghost paths = crate::path::paths_of(roots@);
    while depth <= total
        invariant
            1 <= depth <= total + 1,
            total == all@.len(),
            total == root@.len(),
            paths == crate::path::paths_of(roots@),
            crate::text::texts(all@) == names_of(root@),
            label_of(paths, root@) == label_from(paths, root@, depth as int),
        decreases total + 1 - depth,
    {
        if ending_once(roots, &all, total - depth) {
            return join_all(&all, total - depth, "/");
        }
        if depth == total {
            assert(label_from(paths, root@, depth + 1) == crate::path::path_text(root@));
            return root.display();
        }
        depth += 1;
    }
    root.display()
}

/// The labels of all roots.
pub open spec fn labels_of(roots: Seq<Parts>) -> Map<Parts, Text> {
    Map::new(|root: Parts| roots.contains(root), |root: Parts| label_of(roots, root))
}

/// The contents of a table of labels.
pub open spec fn label_views(labels: Map<Parts, String>) -> Map<Parts, Text> {
    labels.map_values(|label: String| label@)
}

/// Labels each root.
pub fn build_root_labels(roots: &Vec<FsPath>) -> (labels: PathMap<String>)
    ensures
        labels.wf(),
        label_views(labels@) == labels_of(crate::path::paths_of(roots@)),
{
    let ghost paths = crate::path::paths_of(roots@);
    let mut labels: PathMap<String> = PathMap::new();
    let mut i: usize = 0;
    let total: usize = roots.len();
    while i < total
        invariant
            i <= total,
            total == roots@.len(),
            paths == crate::path::paths_of(roots@),
            labels.wf(),
            labels@.dom().finite(),
            labels@.len() <= i,
            forall|root: Parts|
                #![trigger labels@.dom().contains(root)]
                labels@.contains_key(root) <==> paths.take(i as int).contains(root),
            forall|root: Parts|
                #![trigger labels@[root]]
                labels@.contains_key(root) ==> labels@[root]@ == label_of(paths, root),
        decreases total - i,
    {
        let ghost before = labels@;
        let text = label(roots, &roots[i]);
        labels.insert(roots[i].clone(), text);
        proof {
            let now = paths.take(i + 1);
            assert(now.last() == paths[i as int]);
            assert forall|root: Parts|
                #![trigger labels@.dom().contains(root)]
                labels@.contains_key(root) <==> now.contains(root) by {
                if paths.take(i as int).contains(root) {
                    let k = choose|k: int| 0 <= k < i && paths.take(i as int)[k] == root;
                    assert(now[k] == root);
                }
                if now.contains(root) && root != paths[i as int] {
                    let k = choose|k: int| 0 <= k < now.len() && now[k] == root;
                    assert(paths.take(i as int)[k] == root);
                }
                if root == paths[i as int] {
                    assert(now[i as int] == root);
                }
            }
        }
        i += 1;
    }
    assert(paths.take(i as int) =~= paths);
    assert(label_views(labels@) =~= labels_of(paths));
    labels
}

} // verus!
