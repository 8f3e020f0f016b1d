//! What happened in a repository between two looks at it.

use crate::git::{
    activity, short_oid, GitActivity, GitActivityView, GitOperation, RefTable, RefView, RepoSnapshot,
    RepoView,
};
use crate::path::{FsPath, Parts};
use crate::text::{join2, join3, Text};
use vstd::prelude::*;
use vstd::string::*;

verus! {

/// How the commit that `HEAD` was at is related to the one that it is at now.
#[derive(Clone, Copy, Debug, PartialEq, Eq, Structural)]
pub enum Ancestry {
    /// The earlier one is an ancestor of the later one.
    Forward,
    /// The later one is an ancestor of the earlier one.
    Backward,
    /// Neither.
    Apart,
}

/// What kind of move `HEAD` has made on its branch.
pub open spec fn head_move(previous: Option<Text>, ancestry: Ancestry) -> Text {
    match (previous, ancestry) {
        (None, _) => "commit"@,
        (Some(_), Ancestry::Forward) => "commit"@,
        (Some(_), Ancestry::Backward) => "reset"@,
        (Some(_), Ancestry::Apart) => "rewrite"@,
    }
}

/// Tells how two commits are related, given whether the earlier look's commit is an
/// ancestor of the later one's, and the other way round.
pub fn ancestry_of(forward: bool, backward: bool) -> (ancestry: Ancestry)
    ensures
        ancestry == (if forward {
            Ancestry::Forward
        } else if backward {
            Ancestry::Backward
        } else {
            Ancestry::Apart
        }),
{
    if forward {
        Ancestry::Forward
    } else if backward {
        Ancestry::Backward
    } else {
        Ancestry::Apart
    }
}

/// Tells what kind of move `HEAD` has made on its branch.
pub fn classify_head_move(previous: &Option<String>, ancestry: Ancestry) -> (label: &'static str)
    ensures
        label@ == head_move(crate::text::opt_text(*previous), ancestry),
{
    match previous {
        None => "commit",
        Some(_) => match ancestry {
            Ancestry::Forward => "commit",
            Ancestry::Backward => "reset",
            Ancestry::Apart => "rewrite",
        },
    }
}

/// Whether it matters how the two commits are related.
pub open spec fn asks_ancestry(previous: RepoView, current: RepoView) -> bool {
    &&& previous.head is Some
    &&& current.head is Some
    &&& previous.head != current.head
    &&& previous.branch == current.branch
    &&& current.parent_count <= 1
}

/// Compares two optional texts.
pub fn same_opt(a: &Option<String>, b: &Option<String>) -> (same: bool)
    ensures
        same == (crate::text::opt_text(*a) == crate::text::opt_text(*b)),
{
    match (a, b) {
        (Some(a), Some(b)) => *a == *b,
        (None, None) => true,
        _ => false,
    }
}

/// Tests whether it matters how the two commits are related.
pub fn needs_ancestry(previous: &RepoSnapshot, current: &RepoSnapshot) -> (b: bool)
    ensures
        b == asks_ancestry(previous@, current@),
{
    previous.head.is_some() && current.head.is_some() && !same_opt(&previous.head, &current.head)
        && same_opt(&previous.branch, &current.branch) && current.parent_count <= 1
}

/// What happened to the operation that takes several steps.
pub open spec fn operation_changes(
    root: Parts,
    previous: Option<GitOperation>,
    current: Option<GitOperation>,
) -> Seq<GitActivityView> {
    match (previous, current) {
        (None, Some(operation)) => seq![
            crate::git::activity_of(
                root,
                operation.label_text() + " started"@,
                "Git operation state appeared"@,
            ),
        ],
        (Some(operation), None) => seq![
            crate::git::activity_of(
                root,
                operation.label_text() + " ended"@,
                "Git operation state disappeared"@,
            ),
        ],
        (Some(before), Some(after)) => if before != after {
            seq![
                crate::git::activity_of(
                    root,
                    before.label_text() + " ended"@,
                    "Git operation state changed"@,
                ),
                crate::git::activity_of(
                    root,
                    after.label_text() + " started"@,
                    "Git operation state changed"@,
                ),
            ]
        } else {
            Seq::empty()
        },
        (None, None) => Seq::empty(),
    }
}

/// What the current branch is called.
pub open spec fn branch_text(branch: Option<Text>) -> Text {
    match branch {
        Some(name) => name,
        None => "detached HEAD"@,
    }
}

/// Whether another branch was checked out.
pub open spec fn checkout_changes(
    root: Parts,
    previous: Option<Text>,
    current: Option<Text>,
) -> Seq<GitActivityView> {
    if previous == current {
        Seq::empty()
    } else {
        seq![
            crate::git::activity_of(
                root,
                "checkout "@ + branch_text(current),
                branch_text(previous) + " → "@ + branch_text(current),
            ),
        ]
    }
}

/// What happened to `HEAD`.
pub open spec fn head_changes(
    root: Parts,
    previous: RepoView,
    current: RepoView,
    ancestry: Ancestry,
) -> Seq<GitActivityView> {
    let subject = match current.subject {
        Some(subject) => subject,
        None => "HEAD removed"@,
    };
    if previous.head == current.head {
        Seq::empty()
    } else {
        match current.head {
            None => seq![
                crate::git::activity_of(root, "HEAD deleted"@, "repository has no commits"@),
            ],
            Some(head) => if current.parent_count > 1 {
                seq![
                    crate::git::activity_of(
                        root,
                        "merge "@ + crate::git::short_text(head),
                        subject,
                    ),
                ]
            } else if previous.branch == current.branch {
                seq![
                    crate::git::activity_of(
                        root,
                        head_move(previous.head, ancestry) + " "@ + crate::git::short_text(head),
                        subject,
                    ),
                ]
            } else if previous.head is None {
                seq![
                    crate::git::activity_of(
                        root,
                        "commit "@ + crate::git::short_text(head),
                        subject,
                    ),
                ]
            } else {
                Seq::empty()
            },
        }
    }
}

/// Which branches were created, of the first `n`. The one that is checked out is
/// reported as such.
pub open spec fn branches_created(
    root: Parts,
    previous: RepoView,
    current: RepoView,
    n: nat,
) -> Seq<GitActivityView>
    decreases n,
{
    if n == 0 {
        Seq::empty()
    } else {
        let earlier = branches_created(root, previous, current, (n - 1) as nat);
        let name = current.branches[n - 1].name;
        if crate::git::object_of(previous.branches, name) is None && Some(name) != current.branch {
            earlier.push(
                crate::git::activity_of(root, "branch created: "@ + name, "local branch"@),
            )
        } else {
            earlier
        }
    }
}

/// Which branches were deleted, of the first `n`.
pub open spec fn branches_deleted(
    root: Parts,
    previous: RepoView,
    current: RepoView,
    n: nat,
) -> Seq<GitActivityView>
    decreases n,
{
    if n == 0 {
        Seq::empty()
    } else {
        let earlier = branches_deleted(root, previous, current, (n - 1) as nat);
        let name = previous.branches[n - 1].name;
        if crate::git::object_of(current.branches, name) is None {
            earlier.push(
                crate::git::activity_of(root, "branch deleted: "@ + name, "local branch"@),
            )
        } else {
            earlier
        }
    }
}

/// Which branches were moved, of the first `n`, but for the one that is checked
/// out.
pub open spec fn branches_updated(
    root: Parts,
    previous: RepoView,
    current: RepoView,
    n: nat,
) -> Seq<GitActivityView>
    decreases n,
{
    if n == 0 {
        Seq::empty()
    } else {
        let earlier = branches_updated(root, previous, current, (n - 1) as nat);
        let entry = current.branches[n - 1];
        let before = crate::git::object_of(previous.branches, entry.name);
        if before is Some && before != Some(entry.object) && Some(entry.name) != current.branch {
            earlier.push(
                crate::git::activity_of(
                    root,
                    "branch updated: "@ + entry.name,
                    "now at "@ + crate::git::short_text(entry.object),
                ),
            )
        } else {
            earlier
        }
    }
}

/// Which references were created or moved, of the first `n`.
pub open spec fn refs_set(
    root: Parts,
    label: Text,
    previous: Seq<RefView>,
    current: Seq<RefView>,
    n: nat,
) -> Seq<GitActivityView>
    decreases n,
{
    if n == 0 {
        Seq::empty()
    } else {
        let earlier = refs_set(root, label, previous, current, (n - 1) as nat);
        let entry = current[n - 1];
        match crate::git::object_of(previous, entry.name) {
            None => earlier.push(
                crate::git::activity_of(
                    root,
                    label + " created: "@ + entry.name,
                    "points to "@ + crate::git::short_text(entry.object),
                ),
            ),
            Some(object) => if object != entry.object {
                earlier.push(
                    crate::git::activity_of(
                        root,
                        label + " updated: "@ + entry.name,
                        "now at "@ + crate::git::short_text(entry.object),
                    ),
                )
            } else {
                earlier
            },
        }
    }
}

/// Which references were deleted, of the first `n`.
pub open spec fn refs_gone(
    root: Parts,
    label: Text,
    previous: Seq<RefView>,
    current: Seq<RefView>,
    n: nat,
) -> Seq<GitActivityView>
    decreases n,
{
    if n == 0 {
        Seq::empty()
    } else {
        let earlier = refs_gone(root, label, previous, current, (n - 1) as nat);
        let name = previous[n - 1].name;
        if crate::git::object_of(current, name) is None {
            earlier.push(
                crate::git::activity_of(
                    root,
                    label + " deleted: "@ + name,
                    "reference removed"@,
                ),
            )
        } else {
            earlier
        }
    }
}

/// What happened to some references.
pub open spec fn ref_changes(
    root: Parts,
    label: Text,
    previous: Seq<RefView>,
    current: Seq<RefView>,
) -> Seq<GitActivityView> {
    refs_set(root, label, previous, current, current.len()) + refs_gone(
        root,
        label,
        previous,
        current,
        previous.len(),
    )
}

/// What happened to the stash.
pub open spec fn stash_changes(
    root: Parts,
    previous: Option<Text>,
    current: Option<Text>,
) -> Seq<GitActivityView> {
    match (previous, current) {
        (None, Some(object)) => seq![
            crate::git::activity_of(
                root,
                "stash created"@,
                "refs/stash at "@ + crate::git::short_text(object),
            ),
        ],
        (Some(_), None) => seq![
            crate::git::activity_of(root, "stash deleted"@, "refs/stash removed"@),
        ],
        (Some(before), Some(after)) => if before != after {
            seq![
                crate::git::activity_of(
                    root,
                    "stash updated"@,
                    "refs/stash now at "@ + crate::git::short_text(after),
                ),
            ]
        } else {
            Seq::empty()
        },
        (None, None) => Seq::empty(),
    }
}

/// What happened to the branches.
pub open spec fn branch_changes(
    root: Parts,
    previous: RepoView,
    current: RepoView,
) -> Seq<GitActivityView> {
    branches_created(root, previous, current, current.branches.len()) + branches_deleted(
        root,
        previous,
        current,
        previous.branches.len(),
    ) + branches_updated(root, previous, current, current.branches.len())
}

/// What happened in a repository.
pub open spec fn repo_changes(
    root: Parts,
    previous: RepoView,
    current: RepoView,
    ancestry: Ancestry,
) -> Seq<GitActivityView> {
    operation_changes(root, previous.operation, current.operation) + checkout_changes(
        root,
        previous.branch,
        current.branch,
    ) + head_changes(root, previous, current, ancestry) + branch_changes(root, previous, current)
        + ref_changes(root, "tag"@, previous.tags, current.tags) + ref_changes(
        root,
        "remote ref"@,
        previous.remotes,
        current.remotes,
    ) + stash_changes(root, previous.stash, current.stash)
}

/// Adds an activity.
fn report(activities: &mut Vec<GitActivity>, one: GitActivity)
    ensures
        crate::git::activity_views(final(activities)@) == crate::git::activity_views(
            old(activities)@,
        ).push(one@),
{
    activities.push(one);
    assert(crate::git::activity_views(activities@) =~= crate::git::activity_views(
        old(activities)@,
    ).push(one@));
}

/// Reports what happened to the operation that takes several steps.
fn classify_operation(
    root: &FsPath,
    previous: Option<GitOperation>,
    current: Option<GitOperation>,
    activities: &mut Vec<GitActivity>,
)
    ensures
        crate::git::activity_views(final(activities)@) == crate::git::activity_views(
            old(activities)@,
        ) + operation_changes(root@, previous, current),
{
    let ghost before = crate::git::activity_views(activities@);
    match (previous, current) {
        (None, Some(operation)) => {
            report(
                activities,
                activity(
                    root,
                    join2(operation.label(), " started"),
                    "Git operation state appeared",
                ),
            );
        },
        (Some(operation), None) => {
            report(
                activities,
                activity(
                    root,
                    join2(operation.label(), " ended"),
                    "Git operation state disappeared",
                ),
            );
        },
        (Some(earlier), Some(later)) => {
            if earlier != later {
                report(
                    activities,
                    activity(
                        root,
                        join2(earlier.label(), " ended"),
                        "Git operation state changed",
                    ),
                );
                report(
                    activities,
                    activity(
                        root,
                        join2(later.label(), " started"),
                        "Git operation state changed",
                    ),
                );
            }
        },
        (None, None) => {},
    }
    assert(crate::git::activity_views(activities@) =~= before + operation_changes(
        root@,
        previous,
        current,
    ));
}

/// Names the current branch.
fn branch_name(branch: &Option<String>) -> (name: &str)
    ensures
        name@ == branch_text(crate::text::opt_text(*branch)),
{
    match branch {
        Some(name) => name.as_str(),
        None => "detached HEAD",
    }
}

/// Reports a checkout.
fn classify_checkout(
    root: &FsPath,
    previous: &RepoSnapshot,
    current: &RepoSnapshot,
    activities: &mut Vec<GitActivity>,
)
    ensures
        crate::git::activity_views(final(activities)@) == crate::git::activity_views(
            old(activities)@,
        ) + checkout_changes(root@, previous@.branch, current@.branch),
{
    let ghost before = crate::git::activity_views(activities@);
    if !same_opt(&previous.branch, &current.branch) {
        let from = branch_name(&previous.branch);
        let to = branch_name(&current.branch);
        report(
            activities,
            activity(root, join2("checkout ", to), join3(from, " → ", to).as_str()),
        );
    }
    assert(crate::git::activity_views(activities@) =~= before + checkout_changes(
        root@,
        previous@.branch,
        current@.branch,
    ));
}

/// Reports what happened to `HEAD`.
fn classify_head(
    root: &FsPath,
    previous: &RepoSnapshot,
    current: &RepoSnapshot,
    ancestry: Ancestry,
    activities: &mut Vec<GitActivity>,
)
    ensures
        crate::git::activity_views(final(activities)@) == crate::git::activity_views(
            old(activities)@,
        ) + head_changes(root@, previous@, current@, ancestry),
{
    let ghost before = crate::git::activity_views(activities@);
    if !same_opt(&previous.head, &current.head) {
        let subject = match &current.subject {
            Some(subject) => subject.as_str(),
            None => "HEAD removed",
        };
        match &current.head {
            None => {
                report(
                    activities,
                    activity(root, "HEAD deleted".to_owned(), "repository has no commits"),
                );
            },
            Some(head) => {
                let short = short_oid(head.as_str());
                if current.parent_count > 1 {
                    report(activities, activity(root, join2("merge ", short), subject));
                } else if same_opt(&previous.branch, &current.branch) {
                    let label = classify_head_move(&previous.head, ancestry);
                    report(activities, activity(root, join3(label, " ", short), subject));
                } else if previous.head.is_none() {
                    report(activities, activity(root, join2("commit ", short), subject));
                }
            },
        }
    }
    assert(crate::git::activity_views(activities@) =~= before + head_changes(
        root@,
        previous@,
        current@,
        ancestry,
    ));
}

/// Tests whether a branch is checked out.
fn is_current(branch: &Option<String>, name: &String) -> (b: bool)
    ensures
        b == (crate::text::opt_text(*branch) == Some(name@)),
{
    match branch {
        Some(own) => *own == *name,
        None => false,
    }
}

/// Reports what happened to the branches.
fn classify_branches(
    root: &FsPath,
    previous: &RepoSnapshot,
    current: &RepoSnapshot,
    activities: &mut Vec<GitActivity>,
)
    ensures
        crate::git::activity_views(final(activities)@) == crate::git::activity_views(
            old(activities)@,
        ) + branch_changes(root@, previous@, current@),
{
    let ghost start = crate::git::activity_views(activities@);
    let ghost p = previous@;
    let ghost c = current@;
    let mut i: usize = 0;
    assert(start =~= start + branches_created(root@, p, c, 0));
    while i < current.branches.entries.len()
        invariant
            i <= current.branches.entries@.len(),
            p == previous@,
            c == current@,
            crate::git::activity_views(activities@) == start + branches_created(
                root@,
                p,
                c,
                i as nat,
            ),
        decreases current.branches.entries@.len() - i,
    {
        let entry = &current.branches.entries[i];
        assert(c.branches[i as int] == entry@);
        if previous.branches.get(entry.name.as_str()).is_none() && !is_current(
            &current.branch,
            &entry.name,
        ) {
            report(
                activities,
                activity(root, join2("branch created: ", entry.name.as_str()), "local branch"),
            );
        }
        assert(crate::git::activity_views(activities@) =~= start + branches_created(
            root@,
            p,
            c,
            (i + 1) as nat,
        ));
        i += 1;
    }
    let ghost second = crate::git::activity_views(activities@);
    assert(second =~= second + branches_deleted(root@, p, c, 0));
    i = 0;
    while i < previous.branches.entries.len()
        invariant
            i <= previous.branches.entries@.len(),
            p == previous@,
            c == current@,
            crate::git::activity_views(activities@) == second + branches_deleted(
                root@,
                p,
                c,
                i as nat,
            ),
        decreases previous.branches.entries@.len() - i,
    {
        let entry = &previous.branches.entries[i];
        assert(p.branches[i as int] == entry@);
        if current.branches.get(entry.name.as_str()).is_none() {
            report(
                activities,
                activity(root, join2("branch deleted: ", entry.name.as_str()), "local branch"),
            );
        }
        assert(crate::git::activity_views(activities@) =~= second + branches_deleted(
            root@,
            p,
            c,
            (i + 1) as nat,
        ));
        i += 1;
    }
    let ghost third = crate::git::activity_views(activities@);
    assert(third =~= third + branches_updated(root@, p, c, 0));
    i = 0;
    while i < current.branches.entries.len()
        invariant
            i <= current.branches.entries@.len(),
            p == previous@,
            c == current@,
            crate::git::activity_views(activities@) == third + branches_updated(
                root@,
                p,
                c,
                i as nat,
            ),
        decreases current.branches.entries@.len() - i,
    {
        let entry = &current.branches.entries[i];
        assert(c.branches[i as int] == entry@);
        let moved = match previous.branches.get(entry.name.as_str()) {
            Some(object) => *object != entry.object,
            None => false,
        };
        if moved && !is_current(&current.branch, &entry.name) {
            report(
                activities,
                activity(
                    root,
                    join2("branch updated: ", entry.name.as_str()),
                    join2("now at ", short_oid(entry.object.as_str())).as_str(),
                ),
            );
        }
        assert(crate::git::activity_views(activities@) =~= third + branches_updated(
            root@,
            p,
            c,
            (i + 1) as nat,
        ));
        i += 1;
    }
    assert(crate::git::activity_views(activities@) =~= start + branch_changes(root@, p, c));
}

/// Reports what happened to some references.
pub fn classify_ref_changes(
    root: &FsPath,
    label: &str,
    previous: &RefTable,
    current: &RefTable,
    activities: &mut Vec<GitActivity>,
)
    ensures
        crate::git::activity_views(final(activities)@) == crate::git::activity_views(
            old(activities)@,
        ) + ref_changes(root@, label@, previous@, current@),
{
    let ghost start = crate::git::activity_views(activities@);
    let mut i: usize = 0;
    assert(start =~= start + refs_set(root@, label@, previous@, current@, 0));
    while i < current.entries.len()
        invariant
            i <= current.entries@.len(),
            crate::git::activity_views(activities@) == start + refs_set(
                root@,
                label@,
                previous@,
                current@,
                i as nat,
            ),
        decreases current.entries@.len() - i,
    {
        let entry = &current.entries[i];
        assert(current@[i as int] == entry@);
        match previous.get(entry.name.as_str()) {
            None => {
                report(
                    activities,
                    activity(
                        root,
                        join3(label, " created: ", entry.name.as_str()),
                        join2("points to ", short_oid(entry.object.as_str())).as_str(),
                    ),
                );
            },
            Some(object) => {
                if *object != entry.object {
                    report(
                        activities,
                        activity(
                            root,
                            join3(label, " updated: ", entry.name.as_str()),
                            join2("now at ", short_oid(entry.object.as_str())).as_str(),
                        ),
                    );
                }
            },
        }
        assert(crate::git::activity_views(activities@) =~= start + refs_set(
            root@,
            label@,
            previous@,
            current@,
            (i + 1) as nat,
        ));
        i += 1;
    }
    let ghost second = crate::git::activity_views(activities@);
    assert(second =~= second + refs_gone(root@, label@, previous@, current@, 0));
    i = 0;
    while i < previous.entries.len()
        invariant
            i <= previous.entries@.len(),
            crate::git::activity_views(activities@) == second + refs_gone(
                root@,
                label@,
                previous@,
                current@,
                i as nat,
            ),
        decreases previous.entries@.len() - i,
    {
        let entry = &previous.entries[i];
        assert(previous@[i as int] == entry@);
        if current.get(entry.name.as_str()).is_none() {
            report(
                activities,
                activity(
                    root,
                    join3(label, " deleted: ", entry.name.as_str()),
                    "reference removed",
                ),
            );
        }
        assert(crate::git::activity_views(activities@) =~= second + refs_gone(
            root@,
            label@,
            previous@,
            current@,
            (i + 1) as nat,
        ));
        i += 1;
    }
    assert(crate::git::activity_views(activities@) =~= start + ref_changes(
        root@,
        label@,
        previous@,
        current@,
    ));
}

/// Reports what happened to the stash.
fn classify_stash(
    root: &FsPath,
    previous: &Option<String>,
    current: &Option<String>,
    activities: &mut Vec<GitActivity>,
)
    ensures
        crate::git::activity_views(final(activities)@) == crate::git::activity_views(
            old(activities)@,
        ) + stash_changes(
            root@,
            crate::text::opt_text(*previous),
            crate::text::opt_text(*current),
        ),
{
    let ghost before = crate::git::activity_views(activities@);
    match (previous, current) {
        (None, Some(object)) => {
            report(
                activities,
                activity(
                    root,
                    "stash created".to_owned(),
                    join2("refs/stash at ", short_oid(object.as_str())).as_str(),
                ),
            );
        },
        (Some(_), None) => {
            report(
                activities,
                activity(root, "stash deleted".to_owned(), "refs/stash removed"),
            );
        },
        (Some(earlier), Some(later)) => {
            if *earlier != *later {
                report(
                    activities,
                    activity(
                        root,
                        "stash updated".to_owned(),
                        join2("refs/stash now at ", short_oid(later.as_str())).as_str(),
                    ),
                );
            }
        },
        (None, None) => {},
    }
    assert(crate::git::activity_views(activities@) =~= before + stash_changes(
        root@,
        crate::text::opt_text(*previous),
        crate::text::opt_text(*current),
    ));
}

/// Reports what happened in a repository between two looks at it. `ancestry` says
/// how the commits that `HEAD` was and is at are related; it counts only where
/// that matters.
pub fn classify_changes(
    root: &FsPath,
    previous: &RepoSnapshot,
    current: &RepoSnapshot,
    ancestry: Ancestry,
    activities: &mut Vec<GitActivity>,
)
    ensures
        crate::git::activity_views(final(activities)@) == crate::git::activity_views(
            old(activities)@,
        ) + repo_changes(root@, previous@, current@, ancestry),
{
    let ghost before = crate::git::activity_views(activities@);
    classify_operation(root, previous.operation, current.operation, activities);
    classify_checkout(root, previous, current, activities);
    classify_head(root, previous, current, ancestry, activities);
    classify_branches(root, previous, current, activities);
    classify_ref_changes(root, "tag", &previous.tags, &current.tags, activities);
    classify_ref_changes(root, "remote ref", &previous.remotes, &current.remotes, activities);
    classify_stash(root, &previous.stash, &current.stash, activities);
    assert(crate::git::activity_views(activities@) =~= before + repo_changes(
        root@,
        previous@,
        current@,
        ancestry,
    ));
}

/// The relation of the two commits counts only where it is asked for.
pub proof fn ancestry_counts_only_where_it_is_asked_for(
    root: Parts,
    previous: RepoView,
    current: RepoView,
    one: Ancestry,
    other: Ancestry,
)
    requires
        !asks_ancestry(previous, current),
    ensures
        repo_changes(root, previous, current, one) == repo_changes(
            root,
            previous,
            current,
            other,
        ),
{
}

/// A reference that the table holds is found there.
proof fn lemma_own_object(refs: Seq<RefView>, i: int)
    requires
        crate::git::is_ref_table(refs),
        0 <= i < refs.len(),
    ensures
        crate::git::object_of(refs, refs[i].name) == Some(refs[i].object),
{
    crate::git::lemma_ref_at(refs, refs[i].name, 0);
}

/// A repository that looks as it did gives no activity.
pub proof fn nothing_happened_where_nothing_changed(
    root: Parts,
    repo: RepoView,
    ancestry: Ancestry,
)
    requires
        crate::git::is_ref_table(repo.branches),
        crate::git::is_ref_table(repo.tags),
        crate::git::is_ref_table(repo.remotes),
    ensures
        repo_changes(root, repo, repo, ancestry) == Seq::<GitActivityView>::empty(),
{
    lemma_same_branches(root, repo, repo.branches.len());
    lemma_same_refs(root, "tag"@, repo.tags, repo.tags.len());
    lemma_same_refs(root, "remote ref"@, repo.remotes, repo.remotes.len());
    assert(repo_changes(root, repo, repo, ancestry) =~= Seq::<GitActivityView>::empty());
}

/// Branches that did not change give no activity.
proof fn lemma_same_branches(root: Parts, repo: RepoView, n: nat)
    requires
        crate::git::is_ref_table(repo.branches),
        n <= repo.branches.len(),
    ensures
        branches_created(root, repo, repo, n).len() == 0,
        branches_deleted(root, repo, repo, n).len() == 0,
        branches_updated(root, repo, repo, n).len() == 0,
    decreases n,
{
    if n > 0 {
        lemma_same_branches(root, repo, (n - 1) as nat);
        lemma_own_object(repo.branches, n - 1);
    }
}

/// References that did not change give no activity.
proof fn lemma_same_refs(root: Parts, label: Text, refs: Seq<RefView>, n: nat)
    requires
        crate::git::is_ref_table(refs),
        n <= refs.len(),
    ensures
        refs_set(root, label, refs, refs, n).len() == 0,
        refs_gone(root, label, refs, refs, n).len() == 0,
    decreases n,
{
    if n > 0 {
        lemma_same_refs(root, label, refs, (n - 1) as nat);
        lemma_own_object(refs, n - 1);
    }
}

/// Whether a text begins with another.
pub open spec fn opens_with(text: Text, head: Text) -> bool {
    text.len() >= head.len() && text.take(head.len() as int) == head
}

/// Whether an activity of this root, with this summary and this detail, is told.
pub open spec fn is_told(
    activities: Seq<GitActivityView>,
    root: Parts,
    summary: Text,
    detail: Text,
) -> bool {
    exists|i: int|
        0 <= i < activities.len() && (#[trigger] activities[i]).root == root
            && activities[i].summary == summary && activities[i].detail == detail
}

/// Whether a list of references has one of this name.
pub open spec fn has_ref(refs: Seq<RefView>, name: Text) -> bool {
    exists|i: int| 0 <= i < refs.len() && (#[trigger] refs[i]).name == name
}

/// Whether a list of references has one of this name at this object.
pub open spec fn has_ref_at(refs: Seq<RefView>, name: Text, object: Text) -> bool {
    exists|i: int|
        0 <= i < refs.len() && (#[trigger] refs[i]).name == name && refs[i].object == object
}

/// Which sort of activity a summary speaks of, by the characters that tell them
/// apart.
spec fn sort_of(text: Text) -> int {
    if text.len() < 7 {
        0
    } else if text[0] == 'b' && text[1] == 'r' {
        if text.len() < 8 {
            0
        } else if text[7] == 'c' {
            1
        } else if text[7] == 'd' {
            2
        } else {
            3
        }
    } else if text[0] == 't' {
        if text[4] == 'c' {
            4
        } else if text[4] == 'd' {
            5
        } else {
            6
        }
    } else if text[0] == 'r' && text[2] == 'm' {
        if text.len() < 12 {
            0
        } else if text[11] == 'c' {
            7
        } else if text[11] == 'd' {
            8
        } else {
            9
        }
    } else if text[0] == 's' {
        if text[6] == 'c' {
            10
        } else if text[6] == 'd' {
            11
        } else {
            12
        }
    } else if text[0] == 'c' && text[1] == 'h' && text[3] == 'c' {
        13
    } else if text[0] == 'c' && text[1] == 'o' {
        14
    } else if text[0] == 'H' {
        15
    } else if text[0] == 'r' && text[2] == 's' {
        16
    } else if text[0] == 'r' && text[2] == 'w' {
        17
    } else if text[0] == 'm' {
        18
    } else {
        19
    }
}

/// The sorts that the summaries belong to.
proof fn lemma_sorts(name: Text)
    ensures
        sort_of("branch created: "@ + name) == 1,
        sort_of("branch deleted: "@ + name) == 2,
        sort_of("branch updated: "@ + name) == 3,
        sort_of("tag"@ + " created: "@ + name) == 4,
        sort_of("tag"@ + " deleted: "@ + name) == 5,
        sort_of("tag"@ + " updated: "@ + name) == 6,
        sort_of("remote ref"@ + " created: "@ + name) == 7,
        sort_of("remote ref"@ + " deleted: "@ + name) == 8,
        sort_of("remote ref"@ + " updated: "@ + name) == 9,
        sort_of("stash created"@) == 10,
        sort_of("stash deleted"@) == 11,
        sort_of("stash updated"@) == 12,
        sort_of("checkout "@ + name) == 13,
        sort_of("commit "@ + name) == 14,
        sort_of("commit"@ + " "@ + name) == 14,
        sort_of("HEAD deleted"@) == 15,
        sort_of("reset"@ + " "@ + name) == 0 || sort_of("reset"@ + " "@ + name) == 16,
        sort_of("rewrite"@ + " "@ + name) == 17,
        sort_of("merge "@ + name) == 0 || sort_of("merge "@ + name) == 18,
{
    reveal_strlit("branch created: ");
    reveal_strlit("branch deleted: ");
    reveal_strlit("branch updated: ");
    reveal_strlit("tag");
    reveal_strlit("remote ref");
    reveal_strlit(" created: ");
    reveal_strlit(" deleted: ");
    reveal_strlit(" updated: ");
    reveal_strlit("stash created");
    reveal_strlit("stash deleted");
    reveal_strlit("stash updated");
    reveal_strlit("checkout ");
    reveal_strlit("commit ");
    reveal_strlit("commit");
    reveal_strlit("reset");
    reveal_strlit("rewrite");
    reveal_strlit("HEAD deleted");
    reveal_strlit("merge ");
    reveal_strlit(" ");
}

/// The sorts of the summaries on operations.
proof fn lemma_operation_sorts(operation: GitOperation)
    ensures
        sort_of(operation.label_text() + " started"@) == 18 || sort_of(
            operation.label_text() + " started"@,
        ) == 19,
        sort_of(operation.label_text() + " ended"@) == 18 || sort_of(
            operation.label_text() + " ended"@,
        ) == 19,
{
    reveal_strlit("merge");
    reveal_strlit("rebase");
    reveal_strlit("cherry-pick");
    reveal_strlit("revert");
    reveal_strlit("bisect");
    reveal_strlit(" started");
    reveal_strlit(" ended");
}

/// Whether every activity is of one of some sorts.
spec fn all_of_sorts(activities: Seq<GitActivityView>, low: int, high: int) -> bool {
    forall|i: int|
        0 <= i < activities.len() ==> low <= sort_of((#[trigger] activities[i]).summary) <= high
}

/// Created branches.
proof fn lemma_created(root: Parts, previous: RepoView, current: RepoView, n: nat)
    requires
        n <= current.branches.len(),
    ensures
        all_of_sorts(branches_created(root, previous, current, n), 1, 1),
        forall|name: Text| #[trigger]
            is_told(
                branches_created(root, previous, current, n),
                root,
                "branch created: "@ + name,
                "local branch"@,
            ) <==> has_ref(current.branches.take(n as int), name) && !has_ref(
                previous.branches,
                name,
            ) && current.branch != Some(name),
    decreases n,
{
    let all = branches_created(root, previous, current, n);
    if n > 0 {
        lemma_created(root, previous, current, (n - 1) as nat);
        let earlier = branches_created(root, previous, current, (n - 1) as nat);
        let here = current.branches[n - 1].name;
        lemma_sorts(here);
        crate::git::lemma_ref_at(previous.branches, here, 0);
        assert(has_ref(previous.branches, here) == (crate::git::object_of(
            previous.branches,
            here,
        ) is Some));
        assert forall|name: Text| #[trigger]
            is_told(all, root, "branch created: "@ + name, "local branch"@) == (is_told(
                earlier,
                root,
                "branch created: "@ + name,
                "local branch"@,
            ) || (name == here && all.len() > earlier.len())) by {
            lemma_pushed(earlier, all, root, "branch created: "@ + name, "local branch"@);
            lemma_same_rest("branch created: "@, here, name);
        }
        assert forall|name: Text| #[trigger]
            has_ref(current.branches.take(n as int), name) == (has_ref(
                current.branches.take(n - 1),
                name,
            ) || name == here) by {
            lemma_one_more_ref(current.branches, n as int, name);
        }
    } else {
        assert(forall|name: Text| !#[trigger] has_ref(current.branches.take(0), name));
    }
}

/// What is told in a list with at most one more activity.
proof fn lemma_pushed(
    earlier: Seq<GitActivityView>,
    all: Seq<GitActivityView>,
    root: Parts,
    summary: Text,
    detail: Text,
)
    requires
        all == earlier || (all.len() == earlier.len() + 1 && all == earlier.push(all.last())),
    ensures
        is_told(all, root, summary, detail) == (is_told(earlier, root, summary, detail) || (
        all.len() > earlier.len() && all.last().root == root && all.last().summary == summary
            && all.last().detail == detail)),
{
    if is_told(earlier, root, summary, detail) {
        let i = choose|i: int|
            0 <= i < earlier.len() && (#[trigger] earlier[i]).root == root && earlier[i].summary
                == summary && earlier[i].detail == detail;
        assert(all[i] == earlier[i]);
    }
    if is_told(all, root, summary, detail) {
        let i = choose|i: int|
            0 <= i < all.len() && (#[trigger] all[i]).root == root && all[i].summary == summary
                && all[i].detail == detail;
        if i < earlier.len() {
            assert(all[i] == earlier[i]);
        }
    }
    if all.len() > earlier.len() {
        assert(all[all.len() - 1] == all.last());
    }
}

/// Texts with the same beginning are the same where the rests are.
proof fn lemma_same_rest(head: Text, a: Text, b: Text)
    ensures
        head + a == head + b ==> a == b,
{
    if head + a == head + b {
        assert((head + a).skip(head.len() as int) =~= a);
        assert((head + b).skip(head.len() as int) =~= b);
    }
}

/// The names among one more reference.
proof fn lemma_one_more_ref(refs: Seq<RefView>, n: int, name: Text)
    requires
        0 < n <= refs.len(),
    ensures
        has_ref(refs.take(n), name) == (has_ref(refs.take(n - 1), name) || refs[n - 1].name
            == name),
{
    if has_ref(refs.take(n), name) {
        let i = choose|i: int| 0 <= i < n && (#[trigger] refs.take(n)[i]).name == name;
        if i < n - 1 {
            assert(refs.take(n - 1)[i].name == name);
        }
    }
    if has_ref(refs.take(n - 1), name) {
        let i = choose|i: int| 0 <= i < n - 1 && (#[trigger] refs.take(n - 1)[i]).name == name;
        assert(refs.take(n)[i].name == name);
    }
    if refs[n - 1].name == name {
        assert(refs.take(n)[n - 1].name == name);
    }
}

/// Deleted branches.
proof fn lemma_deleted(root: Parts, previous: RepoView, current: RepoView, n: nat)
    requires
        n <= previous.branches.len(),
    ensures
        all_of_sorts(branches_deleted(root, previous, current, n), 2, 2),
        forall|name: Text| #[trigger]
            is_told(
                branches_deleted(root, previous, current, n),
                root,
                "branch deleted: "@ + name,
                "local branch"@,
            ) <==> has_ref(previous.branches.take(n as int), name) && !has_ref(
                current.branches,
                name,
            ),
    decreases n,
{
    let all = branches_deleted(root, previous, current, n);
    if n > 0 {
        lemma_deleted(root, previous, current, (n - 1) as nat);
        let earlier = branches_deleted(root, previous, current, (n - 1) as nat);
        let here = previous.branches[n - 1].name;
        lemma_sorts(here);
        crate::git::lemma_ref_at(current.branches, here, 0);
        assert(has_ref(current.branches, here) == (crate::git::object_of(
            current.branches,
            here,
        ) is Some));
        assert forall|name: Text| #[trigger]
            is_told(all, root, "branch deleted: "@ + name, "local branch"@) == (is_told(
                earlier,
                root,
                "branch deleted: "@ + name,
                "local branch"@,
            ) || (name == here && all.len() > earlier.len())) by {
            lemma_pushed(earlier, all, root, "branch deleted: "@ + name, "local branch"@);
            lemma_same_rest("branch deleted: "@, here, name);
        }
        assert forall|name: Text| #[trigger]
            has_ref(previous.branches.take(n as int), name) == (has_ref(
                previous.branches.take(n - 1),
                name,
            ) || name == here) by {
            lemma_one_more_ref(previous.branches, n as int, name);
        }
    } else {
        assert(forall|name: Text| !#[trigger] has_ref(previous.branches.take(0), name));
    }
}

/// Whether a reference was moved: it stands at another object than before.
pub open spec fn was_moved(previous: Seq<RefView>, current: Seq<RefView>, name: Text, object: Text)
    -> bool {
    has_ref_at(current, name, object) && has_ref(previous, name) && !has_ref_at(
        previous,
        name,
        object,
    )
}

/// Where a list names each reference once, a reference stands at its object alone.
proof fn lemma_object_of(refs: Seq<RefView>, name: Text)
    requires
        crate::git::is_ref_table(refs),
    ensures
        has_ref(refs, name) == (crate::git::object_of(refs, name) is Some),
        forall|object: Text| #[trigger]
            has_ref_at(refs, name, object) == (crate::git::object_of(refs, name) == Some(object)),
{
    crate::git::lemma_ref_at(refs, name, 0);
    assert forall|object: Text| #[trigger]
        has_ref_at(refs, name, object) == (crate::git::object_of(refs, name) == Some(object)) by {
        if has_ref_at(refs, name, object) {
            let i = choose|i: int|
                0 <= i < refs.len() && (#[trigger] refs[i]).name == name && refs[i].object
                    == object;
            let k = crate::git::ref_at(refs, name, 0)->0;
            if i < k {
                assert(refs[i].name != refs[k].name);
            } else if k < i {
                assert(refs[k].name != refs[i].name);
            }
        }
    }
}

/// The references among one more.
proof fn lemma_one_more_at(refs: Seq<RefView>, n: int, name: Text, object: Text)
    requires
        0 < n <= refs.len(),
    ensures
        has_ref_at(refs.take(n), name, object) == (has_ref_at(refs.take(n - 1), name, object) || (
        refs[n - 1].name == name && refs[n - 1].object == object)),
{
    if has_ref_at(refs.take(n), name, object) {
        let i = choose|i: int|
            0 <= i < n && (#[trigger] refs.take(n)[i]).name == name && refs.take(n)[i].object
                == object;
        if i < n - 1 {
            assert(refs.take(n - 1)[i].name == name);
        }
    }
    if has_ref_at(refs.take(n - 1), name, object) {
        let i = choose|i: int|
            0 <= i < n - 1 && (#[trigger] refs.take(n - 1)[i]).name == name && refs.take(
                n - 1,
            )[i].object == object;
        assert(refs.take(n)[i].name == name);
    }
    if refs[n - 1].name == name && refs[n - 1].object == object {
        assert(refs.take(n)[n - 1].name == name);
    }
}

/// Moved branches.
proof fn lemma_updated(root: Parts, previous: RepoView, current: RepoView, n: nat)
    requires
        n <= current.branches.len(),
        crate::git::is_ref_table(previous.branches),
    ensures
        all_of_sorts(branches_updated(root, previous, current, n), 3, 3),
        forall|name: Text, object: Text|
            #![trigger has_ref_at(current.branches.take(n as int), name, object)]
            has_ref_at(current.branches.take(n as int), name, object) && has_ref(
                previous.branches,
                name,
            ) && !has_ref_at(previous.branches, name, object) && current.branch != Some(name)
                ==> is_told(
                branches_updated(root, previous, current, n),
                root,
                "branch updated: "@ + name,
                "now at "@ + crate::git::short_text(object),
            ),
        forall|i: int|
            0 <= i < branches_updated(root, previous, current, n).len() ==> is_move_of(
                previous.branches,
                current.branches,
                current.branch,
                root,
                "branch updated: "@,
                #[trigger] branches_updated(root, previous, current, n)[i],
            ),
    decreases n,
{
    let all = branches_updated(root, previous, current, n);
    if n > 0 {
        lemma_updated(root, previous, current, (n - 1) as nat);
        let earlier = branches_updated(root, previous, current, (n - 1) as nat);
        let entry = current.branches[n - 1];
        lemma_sorts(entry.name);
        lemma_object_of(previous.branches, entry.name);
        let at = "now at "@ + crate::git::short_text(entry.object);
        assert forall|name: Text, object: Text|
            #![trigger has_ref_at(current.branches.take(n as int), name, object)]
            has_ref_at(current.branches.take(n as int), name, object) && has_ref(
                previous.branches,
                name,
            ) && !has_ref_at(previous.branches, name, object) && current.branch != Some(
                name,
            ) implies is_told(
            all,
            root,
            "branch updated: "@ + name,
            "now at "@ + crate::git::short_text(object),
        ) by {
            lemma_one_more_at(current.branches, n as int, name, object);
            lemma_pushed(
                earlier,
                all,
                root,
                "branch updated: "@ + name,
                "now at "@ + crate::git::short_text(object),
            );
        }
        assert(has_ref_at(current.branches, entry.name, entry.object));
        assert forall|i: int| 0 <= i < all.len() implies is_move_of(
            previous.branches,
            current.branches,
            current.branch,
            root,
            "branch updated: "@,
            #[trigger] all[i],
        ) by {
            if i < earlier.len() {
                assert(all[i] == earlier[i]);
            } else {
                assert(is_move_to(
                    previous.branches,
                    current.branches,
                    current.branch,
                    root,
                    "branch updated: "@,
                    all[i],
                    entry.name,
                    entry.object,
                ));
            }
        }
    } else {
        assert(forall|name: Text, object: Text|
            !#[trigger] has_ref_at(current.branches.take(0), name, object));
    }
}

/// Whether an activity tells of the move of a reference to an object.
pub open spec fn is_move_to(
    previous: Seq<RefView>,
    current: Seq<RefView>,
    but: Option<Text>,
    root: Parts,
    head: Text,
    activity: GitActivityView,
    name: Text,
    object: Text,
) -> bool {
    &&& was_moved(previous, current, name, object)
    &&& but != Some(name)
    &&& activity.root == root
    &&& activity.summary == head + name
    &&& activity.detail == "now at "@ + crate::git::short_text(object)
}

/// Whether an activity tells of the move of a reference.
pub open spec fn is_move_of(
    previous: Seq<RefView>,
    current: Seq<RefView>,
    but: Option<Text>,
    root: Parts,
    head: Text,
    activity: GitActivityView,
) -> bool {
    exists|name: Text, object: Text| #[trigger]
        is_move_to(previous, current, but, root, head, activity, name, object)
}

/// References that were set.
proof fn lemma_set(
    root: Parts,
    label: Text,
    previous: Seq<RefView>,
    current: Seq<RefView>,
    n: nat,
    low: int,
)
    requires
        n <= current.len(),
        crate::git::is_ref_table(previous),
        label == "tag"@ && low == 4 || label == "remote ref"@ && low == 7,
    ensures
        all_of_sorts(refs_set(root, label, previous, current, n), low, low + 2),
        forall|i: int|
            0 <= i < refs_set(root, label, previous, current, n).len() ==> sort_of(
                (#[trigger] refs_set(root, label, previous, current, n)[i]).summary,
            ) != low + 1,
        forall|name: Text, object: Text|
            #![trigger has_ref_at(current.take(n as int), name, object)]
            has_ref_at(current.take(n as int), name, object) && !has_ref(previous, name) ==> is_told(
                refs_set(root, label, previous, current, n),
                root,
                label + " created: "@ + name,
                "points to "@ + crate::git::short_text(object),
            ),
        forall|name: Text, object: Text|
            #![trigger has_ref_at(current.take(n as int), name, object)]
            has_ref_at(current.take(n as int), name, object) && has_ref(previous, name)
                && !has_ref_at(previous, name, object) ==> is_told(
                refs_set(root, label, previous, current, n),
                root,
                label + " updated: "@ + name,
                "now at "@ + crate::git::short_text(object),
            ),
        forall|i: int|
            0 <= i < refs_set(root, label, previous, current, n).len() ==> is_setting_of(
                previous,
                current,
                root,
                label,
                #[trigger] refs_set(root, label, previous, current, n)[i],
            ),
    decreases n,
{
    let all = refs_set(root, label, previous, current, n);
    if n > 0 {
        lemma_set(root, label, previous, current, (n - 1) as nat, low);
        let earlier = refs_set(root, label, previous, current, (n - 1) as nat);
        let entry = current[n - 1];
        lemma_sorts(entry.name);
        lemma_object_of(previous, entry.name);
        assert forall|name: Text, object: Text|
            #![trigger has_ref_at(current.take(n as int), name, object)]
            has_ref_at(current.take(n as int), name, object) && !has_ref(
                previous,
                name,
            ) implies is_told(
            all,
            root,
            label + " created: "@ + name,
            "points to "@ + crate::git::short_text(object),
        ) by {
            lemma_one_more_at(current, n as int, name, object);
            lemma_pushed(
                earlier,
                all,
                root,
                label + " created: "@ + name,
                "points to "@ + crate::git::short_text(object),
            );
        }
        assert forall|name: Text, object: Text|
            #![trigger has_ref_at(current.take(n as int), name, object)]
            has_ref_at(current.take(n as int), name, object) && has_ref(previous, name)
                && !has_ref_at(previous, name, object) implies is_told(
            all,
            root,
            label + " updated: "@ + name,
            "now at "@ + crate::git::short_text(object),
        ) by {
            lemma_one_more_at(current, n as int, name, object);
            lemma_pushed(
                earlier,
                all,
                root,
                label + " updated: "@ + name,
                "now at "@ + crate::git::short_text(object),
            );
        }
        assert(has_ref_at(current, entry.name, entry.object));
        assert forall|i: int| 0 <= i < all.len() implies is_setting_of(
            previous,
            current,
            root,
            label,
            #[trigger] all[i],
        ) by {
            if i < earlier.len() {
                assert(all[i] == earlier[i]);
            } else {
                assert(is_setting_to(
                    previous,
                    current,
                    root,
                    label,
                    all[i],
                    entry.name,
                    entry.object,
                ));
            }
        }
    } else {
        assert(forall|name: Text, object: Text|
            !#[trigger] has_ref_at(current.take(0), name, object));
    }
}

/// Whether an activity tells that a reference was created at an object, or moved to
/// it.
pub open spec fn is_setting_to(
    previous: Seq<RefView>,
    current: Seq<RefView>,
    root: Parts,
    label: Text,
    activity: GitActivityView,
    name: Text,
    object: Text,
) -> bool {
    &&& has_ref_at(current, name, object)
    &&& activity.root == root
    &&& !has_ref(previous, name) ==> activity.summary == label + " created: "@ + name
        && activity.detail == "points to "@ + crate::git::short_text(object)
    &&& has_ref(previous, name) ==> !has_ref_at(previous, name, object) && activity.summary
        == label + " updated: "@ + name && activity.detail == "now at "@ + crate::git::short_text(
        object,
    )
}

/// Whether an activity tells that a reference was created or moved.
pub open spec fn is_setting_of(
    previous: Seq<RefView>,
    current: Seq<RefView>,
    root: Parts,
    label: Text,
    activity: GitActivityView,
) -> bool {
    exists|name: Text, object: Text| #[trigger]
        is_setting_to(previous, current, root, label, activity, name, object)
}

/// References that are gone.
proof fn lemma_gone(
    root: Parts,
    label: Text,
    previous: Seq<RefView>,
    current: Seq<RefView>,
    n: nat,
    low: int,
)
    requires
        n <= previous.len(),
        label == "tag"@ && low == 4 || label == "remote ref"@ && low == 7,
    ensures
        all_of_sorts(refs_gone(root, label, previous, current, n), low + 1, low + 1),
        forall|name: Text| #[trigger]
            is_told(
                refs_gone(root, label, previous, current, n),
                root,
                label + " deleted: "@ + name,
                "reference removed"@,
            ) <==> has_ref(previous.take(n as int), name) && !has_ref(current, name),
    decreases n,
{
    let all = refs_gone(root, label, previous, current, n);
    if n > 0 {
        lemma_gone(root, label, previous, current, (n - 1) as nat, low);
        let earlier = refs_gone(root, label, previous, current, (n - 1) as nat);
        let here = previous[n - 1].name;
        lemma_sorts(here);
        crate::git::lemma_ref_at(current, here, 0);
        assert(has_ref(current, here) == (crate::git::object_of(current, here) is Some));
        assert forall|name: Text| #[trigger]
            is_told(all, root, label + " deleted: "@ + name, "reference removed"@) == (is_told(
                earlier,
                root,
                label + " deleted: "@ + name,
                "reference removed"@,
            ) || (name == here && all.len() > earlier.len())) by {
            lemma_pushed(earlier, all, root, label + " deleted: "@ + name, "reference removed"@);
            lemma_same_rest(label + " deleted: "@, here, name);
        }
        assert forall|name: Text| #[trigger]
            has_ref(previous.take(n as int), name) == (has_ref(previous.take(n - 1), name) || name
                == here) by {
            lemma_one_more_ref(previous, n as int, name);
        }
    } else {
        assert(forall|name: Text| !#[trigger] has_ref(previous.take(0), name));
    }
}

/// The lists that an account of a repository is made of.
spec fn chapters(
    root: Parts,
    previous: RepoView,
    current: RepoView,
    ancestry: Ancestry,
) -> Seq<Seq<GitActivityView>> {
    seq![
        operation_changes(root, previous.operation, current.operation),
        checkout_changes(root, previous.branch, current.branch),
        head_changes(root, previous, current, ancestry),
        branches_created(root, previous, current, current.branches.len()),
        branches_deleted(root, previous, current, previous.branches.len()),
        branches_updated(root, previous, current, current.branches.len()),
        refs_set(root, "tag"@, previous.tags, current.tags, current.tags.len()),
        refs_gone(root, "tag"@, previous.tags, current.tags, previous.tags.len()),
        refs_set(
            root,
            "remote ref"@,
            previous.remotes,
            current.remotes,
            current.remotes.len(),
        ),
        refs_gone(
            root,
            "remote ref"@,
            previous.remotes,
            current.remotes,
            previous.remotes.len(),
        ),
        stash_changes(root, previous.stash, current.stash),
    ]
}

/// What all chapters up to the `n`-th tell.
spec fn chapters_told(chapters: Seq<Seq<GitActivityView>>, n: nat) -> Seq<GitActivityView>
    decreases n,
{
    if n == 0 {
        Seq::empty()
    } else {
        chapters_told(chapters, (n - 1) as nat) + chapters[n - 1]
    }
}

/// An account is its chapters in order.
proof fn lemma_chapters(root: Parts, previous: RepoView, current: RepoView, ancestry: Ancestry)
    ensures
        repo_changes(root, previous, current, ancestry) == chapters_told(
            chapters(root, previous, current, ancestry),
            11,
        ),
{
    let c = chapters(root, previous, current, ancestry);
    reveal_with_fuel(chapters_told, 12);
    assert(repo_changes(root, previous, current, ancestry) =~= chapters_told(c, 11));
}

/// What is told in one of the chapters is told.
proof fn lemma_told_in_chapter(
    chapters: Seq<Seq<GitActivityView>>,
    n: nat,
    k: int,
    root: Parts,
    summary: Text,
    detail: Text,
)
    requires
        0 <= k < n <= chapters.len(),
        is_told(chapters[k], root, summary, detail),
    ensures
        is_told(chapters_told(chapters, n), root, summary, detail),
    decreases n,
{
    let all = chapters_told(chapters, n);
    let front = chapters_told(chapters, (n - 1) as nat);
    if k == n - 1 {
        let i = choose|i: int|
            0 <= i < chapters[k].len() && (#[trigger] chapters[k][i]).root == root
                && chapters[k][i].summary == summary && chapters[k][i].detail == detail;
        assert(all[front.len() + i] == chapters[k][i]);
    } else {
        lemma_told_in_chapter(chapters, (n - 1) as nat, k, root, summary, detail);
        let i = choose|i: int|
            0 <= i < front.len() && (#[trigger] front[i]).root == root && front[i].summary
                == summary && front[i].detail == detail;
        assert(all[i] == front[i]);
    }
}

/// What is told is told in one of the chapters.
proof fn lemma_chapter_of(chapters: Seq<Seq<GitActivityView>>, n: nat, i: int) -> (place: (int, int))
    requires
        n <= chapters.len(),
        0 <= i < chapters_told(chapters, n).len(),
    ensures
        0 <= place.0 < n,
        0 <= place.1 < chapters[place.0].len(),
        chapters_told(chapters, n)[i] == chapters[place.0][place.1],
    decreases n,
{
    let front = chapters_told(chapters, (n - 1) as nat);
    if i < front.len() {
        lemma_chapter_of(chapters, (n - 1) as nat, i)
    } else {
        ((n - 1) as int, i - front.len())
    }
}

/// The sorts of each chapter.
proof fn lemma_chapter_sorts(
    root: Parts,
    previous: RepoView,
    current: RepoView,
    ancestry: Ancestry,
)
    requires
        are_ref_tables(previous),
    ensures
        ({
            let c = chapters(root, previous, current, ancestry);
            &&& all_of_sorts(c[0], 18, 19)
            &&& all_of_sorts(c[1], 13, 13)
            &&& all_of_sorts(c[2], 0, 18)
            &&& forall|i: int|
                0 <= i < c[2].len() ==> {
                    let sort = sort_of((#[trigger] c[2][i]).summary);
                    sort == 0 || 14 <= sort <= 18
                }
            &&& all_of_sorts(c[3], 1, 1)
            &&& all_of_sorts(c[4], 2, 2)
            &&& all_of_sorts(c[5], 3, 3)
            &&& all_of_sorts(c[6], 4, 6)
            &&& forall|i: int|
                0 <= i < c[6].len() ==> sort_of((#[trigger] c[6][i]).summary) != 5
            &&& all_of_sorts(c[7], 5, 5)
            &&& all_of_sorts(c[8], 7, 9)
            &&& forall|i: int|
                0 <= i < c[8].len() ==> sort_of((#[trigger] c[8][i]).summary) != 8
            &&& all_of_sorts(c[9], 8, 8)
            &&& all_of_sorts(c[10], 10, 12)
        }),
{
    lemma_created(root, previous, current, current.branches.len());
    lemma_deleted(root, previous, current, previous.branches.len());
    lemma_updated(root, previous, current, current.branches.len());
    lemma_set(root, "tag"@, previous.tags, current.tags, current.tags.len(), 4);
    lemma_gone(root, "tag"@, previous.tags, current.tags, previous.tags.len(), 4);
    lemma_set(
        root,
        "remote ref"@,
        previous.remotes,
        current.remotes,
        current.remotes.len(),
        7,
    );
    lemma_gone(
        root,
        "remote ref"@,
        previous.remotes,
        current.remotes,
        previous.remotes.len(),
        7,
    );
    if let Some(operation) = previous.operation {
        lemma_operation_sorts(operation);
    }
    if let Some(operation) = current.operation {
        lemma_operation_sorts(operation);
    }
    lemma_sorts(branch_text(current.branch));
    if let Some(head) = current.head {
        lemma_sorts(crate::git::short_text(head));
    }
}

/// Whether each list of references names none twice.
pub open spec fn are_ref_tables(repo: RepoView) -> bool {
    &&& crate::git::is_ref_table(repo.branches)
    &&& crate::git::is_ref_table(repo.tags)
    &&& crate::git::is_ref_table(repo.remotes)
}

/// A checkout is told exactly where the current branch differs, once, and names the
/// branch that was left and the one that was entered. Without a branch, `HEAD` is
/// called detached.
pub proof fn checkouts_are_told_once(
    root: Parts,
    previous: RepoView,
    current: RepoView,
    ancestry: Ancestry,
)
    requires
        are_ref_tables(previous),
    ensures
        ({
            let all = repo_changes(root, previous, current, ancestry);
            let from = match previous.branch {
                Some(name) => name,
                None => "detached HEAD"@,
            };
            let to = match current.branch {
                Some(name) => name,
                None => "detached HEAD"@,
            };
            &&& previous.branch != current.branch ==> exists|i: int|
                0 <= i < all.len() && #[trigger] all[i] == (GitActivityView {
                    root,
                    summary: "checkout "@ + to,
                    detail: from + " → "@ + to,
                }) && forall|j: int|
                    0 <= j < all.len() && j != i ==> !opens_with(
                        (#[trigger] all[j]).summary,
                        "checkout "@,
                    )
            &&& previous.branch == current.branch ==> forall|j: int|
                0 <= j < all.len() ==> !opens_with((#[trigger] all[j]).summary, "checkout "@)
        }),
{
    let c = chapters(root, previous, current, ancestry);
    let all = repo_changes(root, previous, current, ancestry);
    lemma_chapters(root, previous, current, ancestry);
    assert forall|j: int|
        0 <= j < all.len() && opens_with(
            (#[trigger] all[j]).summary,
            "checkout "@,
        ) implies c[0].len() <= j < c[0].len() + c[1].len() by {
        lemma_checkout_place(root, previous, current, ancestry, j);
    }
    if previous.branch != current.branch {
        let i = c[0].len() as int;
        lemma_chapter_offset(c, 11);
        assert(all[i] == c[1][0]);
        assert(c[1].len() == 1);
    } else {
        assert(c[1].len() == 0);
    }
}

/// Checkouts stand in the second chapter.
proof fn lemma_checkout_place(
    root: Parts,
    previous: RepoView,
    current: RepoView,
    ancestry: Ancestry,
    j: int,
)
    requires
        are_ref_tables(previous),
        0 <= j < repo_changes(root, previous, current, ancestry).len(),
        opens_with(repo_changes(root, previous, current, ancestry)[j].summary, "checkout "@),
    ensures
        ({
            let c = chapters(root, previous, current, ancestry);
            c[0].len() <= j < c[0].len() + c[1].len()
        }),
{
    let c = chapters(root, previous, current, ancestry);
    let text = repo_changes(root, previous, current, ancestry)[j].summary;
    lemma_chapters(root, previous, current, ancestry);
    reveal_strlit("checkout ");
    assert(text.take(9)[0] == text[0]);
    assert(text.take(9)[1] == text[1]);
    assert(text.take(9)[3] == text[3]);
    assert(sort_of(text) == 13);
    assert forall|k: int, i: int|
        0 <= k < 11 && k != 1 && 0 <= i < c[k].len() implies sort_of(
        (#[trigger] c[k][i]).summary,
    ) != 13 by {
        lemma_chapter_sorts(root, previous, current, ancestry);
        assert(k == 0 || k == 2 || k == 3 || k == 4 || k == 5 || k == 6 || k == 7 || k == 8 || k
            == 9 || k == 10);
    }
    lemma_chapter_at(c, 11, j, 13);
}

/// Where the first two chapters stand.
proof fn lemma_chapter_offset(chapters: Seq<Seq<GitActivityView>>, n: nat)
    requires
        2 <= n <= chapters.len(),
    ensures
        chapters_told(chapters, n).len() >= chapters[0].len() + chapters[1].len(),
        chapters_told(chapters, n).take((chapters[0].len() + chapters[1].len()) as int)
            == chapters[0] + chapters[1],
        chapters[1].len() > 0 ==> chapters_told(chapters, n)[chapters[0].len() as int]
            == chapters[1][0],
    decreases n,
{
    reveal_with_fuel(chapters_told, 3);
    let whole = chapters_told(chapters, n);
    let both = chapters[0] + chapters[1];
    if n == 2 {
        assert(whole =~= both);
        assert(whole.take(both.len() as int) =~= both);
    } else {
        lemma_chapter_offset(chapters, (n - 1) as nat);
        let front = chapters_told(chapters, (n - 1) as nat);
        assert(whole.take(both.len() as int) =~= front.take(both.len() as int));
        if chapters[1].len() > 0 {
            assert(whole[chapters[0].len() as int] == front[chapters[0].len() as int]);
        }
    }
}

/// A checkout stands in the second chapter.
proof fn lemma_chapter_at(chapters: Seq<Seq<GitActivityView>>, n: nat, j: int, sort: int)
    requires
        2 <= n <= chapters.len(),
        0 <= j < chapters_told(chapters, n).len(),
        sort_of(chapters_told(chapters, n)[j].summary) == sort,
        forall|k: int, i: int|
            0 <= k < n && k != 1 && 0 <= i < chapters[k].len() ==> sort_of(
                (#[trigger] chapters[k][i]).summary,
            ) != sort,
    ensures
        chapters[0].len() <= j < chapters[0].len() + chapters[1].len(),
    decreases n,
{
    reveal_with_fuel(chapters_told, 3);
    let front = chapters_told(chapters, (n - 1) as nat);
    if n == 2 {
        if j < chapters[0].len() {
            assert(chapters_told(chapters, 2)[j] == chapters[0][j]);
        }
    } else if j < front.len() {
        assert(chapters_told(chapters, n)[j] == front[j]);
        lemma_chapter_at(chapters, (n - 1) as nat, j, sort);
    } else {
        assert(chapters_told(chapters, n)[j] == chapters[n - 1][j - front.len()]);
    }
}

/// A local branch is told as created exactly where only the later look has it and it
/// is not the current one, and as deleted exactly where only the earlier look has it.
pub proof fn branches_are_told_as_they_come_and_go(
    root: Parts,
    previous: RepoView,
    current: RepoView,
    ancestry: Ancestry,
    name: Text,
)
    requires
        are_ref_tables(previous),
    ensures
        is_told(
            repo_changes(root, previous, current, ancestry),
            root,
            "branch created: "@ + name,
            "local branch"@,
        ) <==> has_ref(current.branches, name) && !has_ref(previous.branches, name)
            && current.branch != Some(name),
        is_told(
            repo_changes(root, previous, current, ancestry),
            root,
            "branch deleted: "@ + name,
            "local branch"@,
        ) <==> has_ref(previous.branches, name) && !has_ref(current.branches, name),
{
    lemma_created(root, previous, current, current.branches.len());
    lemma_deleted(root, previous, current, previous.branches.len());
    assert(current.branches.take(current.branches.len() as int) =~= current.branches);
    assert(previous.branches.take(previous.branches.len() as int) =~= previous.branches);
    lemma_sorts(name);
    lemma_told_where(
        root,
        previous,
        current,
        ancestry,
        3,
        "branch created: "@ + name,
        "local branch"@,
    );
    lemma_told_where(
        root,
        previous,
        current,
        ancestry,
        4,
        "branch deleted: "@ + name,
        "local branch"@,
    );
}

/// Whether a chapter is the one for a sort.
spec fn tells_sort(k: int, sort: int) -> bool {
    ||| k == 1 && sort == 13
    ||| k == 3 && sort == 1
    ||| k == 4 && sort == 2
    ||| k == 5 && sort == 3
    ||| k == 6 && (sort == 4 || sort == 6)
    ||| k == 7 && sort == 5
    ||| k == 8 && (sort == 7 || sort == 9)
    ||| k == 9 && sort == 8
    ||| k == 10 && 10 <= sort <= 12
}

/// What is of the sort of a chapter is told exactly where that chapter tells it.
proof fn lemma_told_where(
    root: Parts,
    previous: RepoView,
    current: RepoView,
    ancestry: Ancestry,
    k: int,
    summary: Text,
    detail: Text,
)
    requires
        are_ref_tables(previous),
        tells_sort(k, sort_of(summary)),
    ensures
        is_told(repo_changes(root, previous, current, ancestry), root, summary, detail) == is_told(
            chapters(root, previous, current, ancestry)[k],
            root,
            summary,
            detail,
        ),
{
    let c = chapters(root, previous, current, ancestry);
    let all = repo_changes(root, previous, current, ancestry);
    lemma_chapters(root, previous, current, ancestry);
    lemma_chapter_sorts(root, previous, current, ancestry);
    if is_told(c[k], root, summary, detail) {
        lemma_told_in_chapter(c, 11, k, root, summary, detail);
    }
    if is_told(all, root, summary, detail) {
        let i = choose|i: int|
            0 <= i < all.len() && (#[trigger] all[i]).root == root && all[i].summary == summary
                && all[i].detail == detail;
        let place = lemma_chapter_of(c, 11, i);
        let one = c[place.0][place.1];
        assert(one.summary == summary);
        assert(place.0 == k) by {
            let m = place.0;
            assert(m == 0 || m == 1 || m == 2 || m == 3 || m == 4 || m == 5 || m == 6 || m == 7
                || m == 8 || m == 9 || m == 10);
        }
    }
}

/// A local branch that stands at another commit is told as updated, unless it is the
/// current one, which commits move; and nothing else is told as that.
pub proof fn moved_branches_are_told(
    root: Parts,
    previous: RepoView,
    current: RepoView,
    ancestry: Ancestry,
    name: Text,
    object: Text,
)
    requires
        are_ref_tables(previous),
    ensures
        was_moved(previous.branches, current.branches, name, object) && current.branch != Some(name)
            ==> is_told(
            repo_changes(root, previous, current, ancestry),
            root,
            "branch updated: "@ + name,
            "now at "@ + crate::git::short_text(object),
        ),
        forall|i: int|
            0 <= i < repo_changes(root, previous, current, ancestry).len() && opens_with(
                (#[trigger] repo_changes(root, previous, current, ancestry)[i]).summary,
                "branch updated: "@,
            ) ==> is_move_of(
                previous.branches,
                current.branches,
                current.branch,
                root,
                "branch updated: "@,
                repo_changes(root, previous, current, ancestry)[i],
            ),
{
    let c = chapters(root, previous, current, ancestry);
    let all = repo_changes(root, previous, current, ancestry);
    lemma_updated(root, previous, current, current.branches.len());
    assert(current.branches.take(current.branches.len() as int) =~= current.branches);
    lemma_sorts(name);
    lemma_told_where(
        root,
        previous,
        current,
        ancestry,
        5,
        "branch updated: "@ + name,
        "now at "@ + crate::git::short_text(object),
    );
    lemma_chapters(root, previous, current, ancestry);
    lemma_chapter_sorts(root, previous, current, ancestry);
    reveal_strlit("branch updated: ");
    assert forall|i: int|
        0 <= i < all.len() && opens_with(
            (#[trigger] all[i]).summary,
            "branch updated: "@,
        ) implies is_move_of(
        previous.branches,
        current.branches,
        current.branch,
        root,
        "branch updated: "@,
        all[i],
    ) by {
        let text = all[i].summary;
        assert(text.take(16)[0] == text[0]);
        assert(text.take(16)[1] == text[1]);
        assert(text.take(16)[7] == text[7]);
        assert(sort_of(text) == 3);
        let place = lemma_chapter_of(c, 11, i);
        assert(place.0 == 5) by {
            let m = place.0;
            assert(m == 0 || m == 1 || m == 2 || m == 3 || m == 4 || m == 5 || m == 6 || m == 7
                || m == 8 || m == 9 || m == 10);
            assert(sort_of(c[m][place.1].summary) == 3);
        }
    }
}

/// Tags and remote-tracking references are told as they come, move and go.
pub proof fn references_are_told_as_they_come_move_and_go(
    root: Parts,
    previous: RepoView,
    current: RepoView,
    ancestry: Ancestry,
    name: Text,
    object: Text,
)
    requires
        are_ref_tables(previous),
    ensures
        ({
            let all = repo_changes(root, previous, current, ancestry);
            let points = "points to "@ + crate::git::short_text(object);
            let now = "now at "@ + crate::git::short_text(object);
            &&& has_ref_at(current.tags, name, object) && !has_ref(previous.tags, name) ==> is_told(
                all,
                root,
                "tag"@ + " created: "@ + name,
                points,
            )
            &&& was_moved(previous.tags, current.tags, name, object) ==> is_told(
                all,
                root,
                "tag"@ + " updated: "@ + name,
                now,
            )
            &&& is_told(all, root, "tag"@ + " deleted: "@ + name, "reference removed"@) <==> has_ref(
                previous.tags,
                name,
            ) && !has_ref(current.tags, name)
            &&& has_ref_at(current.remotes, name, object) && !has_ref(previous.remotes, name)
                ==> is_told(all, root, "remote ref"@ + " created: "@ + name, points)
            &&& was_moved(previous.remotes, current.remotes, name, object) ==> is_told(
                all,
                root,
                "remote ref"@ + " updated: "@ + name,
                now,
            )
            &&& is_told(all, root, "remote ref"@ + " deleted: "@ + name, "reference removed"@)
                <==> has_ref(previous.remotes, name) && !has_ref(current.remotes, name)
        }),
{
    lemma_set(root, "tag"@, previous.tags, current.tags, current.tags.len(), 4);
    lemma_gone(root, "tag"@, previous.tags, current.tags, previous.tags.len(), 4);
    lemma_set(
        root,
        "remote ref"@,
        previous.remotes,
        current.remotes,
        current.remotes.len(),
        7,
    );
    lemma_gone(
        root,
        "remote ref"@,
        previous.remotes,
        current.remotes,
        previous.remotes.len(),
        7,
    );
    assert(current.tags.take(current.tags.len() as int) =~= current.tags);
    assert(previous.tags.take(previous.tags.len() as int) =~= previous.tags);
    assert(current.remotes.take(current.remotes.len() as int) =~= current.remotes);
    assert(previous.remotes.take(previous.remotes.len() as int) =~= previous.remotes);
    lemma_sorts(name);
    let points = "points to "@ + crate::git::short_text(object);
    let now = "now at "@ + crate::git::short_text(object);
    let gone = "reference removed"@;
    lemma_told_where(root, previous, current, ancestry, 6, "tag"@ + " created: "@ + name, points);
    lemma_told_where(root, previous, current, ancestry, 6, "tag"@ + " updated: "@ + name, now);
    lemma_told_where(root, previous, current, ancestry, 7, "tag"@ + " deleted: "@ + name, gone);
    lemma_told_where(
        root,
        previous,
        current,
        ancestry,
        8,
        "remote ref"@ + " created: "@ + name,
        points,
    );
    lemma_told_where(
        root,
        previous,
        current,
        ancestry,
        8,
        "remote ref"@ + " updated: "@ + name,
        now,
    );
    lemma_told_where(
        root,
        previous,
        current,
        ancestry,
        9,
        "remote ref"@ + " deleted: "@ + name,
        gone,
    );
}

/// What is told of tags and remote-tracking references happened to them.
pub proof fn no_reference_is_made_up(
    root: Parts,
    previous: RepoView,
    current: RepoView,
    ancestry: Ancestry,
    i: int,
)
    requires
        are_ref_tables(previous),
        0 <= i < repo_changes(root, previous, current, ancestry).len(),
    ensures
        ({
            let one = repo_changes(root, previous, current, ancestry)[i];
            &&& opens_with(one.summary, "tag created: "@) || opens_with(
                one.summary,
                "tag updated: "@,
            ) ==> is_setting_of(previous.tags, current.tags, root, "tag"@, one)
            &&& opens_with(one.summary, "remote ref created: "@) || opens_with(
                one.summary,
                "remote ref updated: "@,
            ) ==> is_setting_of(previous.remotes, current.remotes, root, "remote ref"@, one)
        }),
{
    let c = chapters(root, previous, current, ancestry);
    let one = repo_changes(root, previous, current, ancestry)[i];
    let text = one.summary;
    lemma_chapters(root, previous, current, ancestry);
    lemma_chapter_sorts(root, previous, current, ancestry);
    lemma_set(root, "tag"@, previous.tags, current.tags, current.tags.len(), 4);
    lemma_set(
        root,
        "remote ref"@,
        previous.remotes,
        current.remotes,
        current.remotes.len(),
        7,
    );
    reveal_strlit("tag created: ");
    reveal_strlit("tag updated: ");
    reveal_strlit("remote ref created: ");
    reveal_strlit("remote ref updated: ");
    let place = lemma_chapter_of(c, 11, i);
    let m = place.0;
    assert(m == 0 || m == 1 || m == 2 || m == 3 || m == 4 || m == 5 || m == 6 || m == 7 || m == 8
        || m == 9 || m == 10);
    assert(sort_of(c[m][place.1].summary) == sort_of(text));
    if opens_with(text, "tag created: "@) || opens_with(text, "tag updated: "@) {
        assert(text.take(13)[0] == text[0]);
        assert(text.take(13)[4] == text[4]);
        assert(sort_of(text) == 4 || sort_of(text) == 6);
        assert(m == 6);
    }
    if opens_with(text, "remote ref created: "@) || opens_with(text, "remote ref updated: "@) {
        assert(text.take(20)[0] == text[0]);
        assert(text.take(20)[2] == text[2]);
        assert(text.take(20)[11] == text[11]);
        assert(sort_of(text) == 7 || sort_of(text) == 9);
        assert(m == 8);
    }
}

/// The stash is told as created, moved or deleted exactly where it was.
pub proof fn the_stash_is_told(
    root: Parts,
    previous: RepoView,
    current: RepoView,
    ancestry: Ancestry,
    object: Text,
)
    requires
        are_ref_tables(previous),
    ensures
        ({
            let all = repo_changes(root, previous, current, ancestry);
            &&& previous.stash is None && current.stash == Some(object) ==> is_told(
                all,
                root,
                "stash created"@,
                "refs/stash at "@ + crate::git::short_text(object),
            )
            &&& previous.stash is Some && current.stash == Some(object) && previous.stash
                != current.stash ==> is_told(
                all,
                root,
                "stash updated"@,
                "refs/stash now at "@ + crate::git::short_text(object),
            )
            &&& is_told(all, root, "stash deleted"@, "refs/stash removed"@) <==> previous.stash is Some
                && current.stash is None
            &&& previous.stash == current.stash ==> forall|i: int|
                0 <= i < all.len() ==> !opens_with((#[trigger] all[i]).summary, "stash "@)
        }),
{
    let c = chapters(root, previous, current, ancestry);
    let all = repo_changes(root, previous, current, ancestry);
    lemma_sorts(object);
    let at = "refs/stash at "@ + crate::git::short_text(object);
    let now = "refs/stash now at "@ + crate::git::short_text(object);
    lemma_told_where(root, previous, current, ancestry, 10, "stash created"@, at);
    lemma_told_where(root, previous, current, ancestry, 10, "stash updated"@, now);
    lemma_told_where(root, previous, current, ancestry, 10, "stash deleted"@, "refs/stash removed"@);
    if c[10].len() > 0 {
        assert(c[10][0].root == root);
    }
    assert(previous.stash is None && current.stash == Some(object) ==> c[10][0].summary
        == "stash created"@);
    lemma_chapters(root, previous, current, ancestry);
    lemma_chapter_sorts(root, previous, current, ancestry);
    reveal_strlit("stash ");
    if previous.stash == current.stash {
        assert forall|i: int| 0 <= i < all.len() implies !opens_with(
            (#[trigger] all[i]).summary,
            "stash "@,
        ) by {
            let text = all[i].summary;
            if opens_with(text, "stash "@) {
                assert(text.take(6)[0] == text[0]);
                let place = lemma_chapter_of(c, 11, i);
                let m = place.0;
                assert(m == 0 || m == 1 || m == 2 || m == 3 || m == 4 || m == 5 || m == 6 || m
                    == 7 || m == 8 || m == 9 || m == 10);
                assert(sort_of(c[m][place.1].summary) == sort_of(text));
                lemma_head_letters(root, previous, current, ancestry);
                assert(m == 2 || m == 10);
            }
        }
    }
}

/// No account of `HEAD` begins as one of the stash does.
proof fn lemma_head_letters(root: Parts, previous: RepoView, current: RepoView, ancestry: Ancestry)
    ensures
        forall|i: int|
            0 <= i < head_changes(root, previous, current, ancestry).len() ==> (
            #[trigger] head_changes(root, previous, current, ancestry)[i]).summary[0] != 's'
                && head_changes(root, previous, current, ancestry)[i].summary.len() > 0,
{
    reveal_strlit("HEAD deleted");
    reveal_strlit("merge ");
    reveal_strlit("commit");
    reveal_strlit("reset");
    reveal_strlit("rewrite");
    reveal_strlit("commit ");
    reveal_strlit(" ");
}

/// Where `HEAD` is at another commit, that is told: as a merge where the commit has
/// several parents; else, on the same branch, as a commit where `HEAD` went forward or
/// was at none before, as a reset where it went back, and as a rewrite where neither
/// commit leads to the other. The first commit is told on any branch, and a `HEAD`
/// that is at none any more is told as deleted.
pub proof fn moves_of_head_are_told(
    root: Parts,
    previous: RepoView,
    current: RepoView,
    ancestry: Ancestry,
    head: Text,
    subject: Text,
)
    requires
        previous.head != current.head,
        subject == (match current.subject {
            Some(subject) => subject,
            None => "HEAD removed"@,
        }),
    ensures
        ({
            let all = repo_changes(root, previous, current, ancestry);
            let short = crate::git::short_text(head);
            &&& current.head is None ==> is_told(
                all,
                root,
                "HEAD deleted"@,
                "repository has no commits"@,
            )
            &&& current.head == Some(head) && current.parent_count > 1 ==> is_told(
                all,
                root,
                "merge "@ + short,
                subject,
            )
            &&& current.head == Some(head) && current.parent_count <= 1 && previous.head is None
                ==> is_told(all, root, "commit "@ + short, subject)
            &&& current.head == Some(head) && current.parent_count <= 1 && previous.head is Some
                && previous.branch == current.branch ==> is_told(
                all,
                root,
                (match ancestry {
                    Ancestry::Forward => "commit "@,
                    Ancestry::Backward => "reset "@,
                    Ancestry::Apart => "rewrite "@,
                }) + short,
                subject,
            )
        }),
{
    let c = chapters(root, previous, current, ancestry);
    let short = crate::git::short_text(head);
    lemma_chapters(root, previous, current, ancestry);
    reveal_strlit("commit");
    reveal_strlit("commit ");
    reveal_strlit("reset");
    reveal_strlit("reset ");
    reveal_strlit("rewrite");
    reveal_strlit("rewrite ");
    reveal_strlit(" ");
    assert("commit"@ + " "@ =~= "commit "@);
    assert("reset"@ + " "@ =~= "reset "@);
    assert("rewrite"@ + " "@ =~= "rewrite "@);
    assert("commit"@ + " "@ + short =~= "commit "@ + short);
    assert("reset"@ + " "@ + short =~= "reset "@ + short);
    assert("rewrite"@ + " "@ + short =~= "rewrite "@ + short);
    if c[2].len() > 0 {
        let one = c[2][0];
        assert(is_told(c[2], root, one.summary, one.detail));
        lemma_told_in_chapter(c, 11, 2, root, one.summary, one.detail);
    }
}

/// Where `HEAD` is at the same commit, no commit, reset, rewrite or deletion of it is
/// told; nor is one where only another branch was checked out.
pub proof fn no_move_of_head_is_made_up(
    root: Parts,
    previous: RepoView,
    current: RepoView,
    ancestry: Ancestry,
    i: int,
)
    requires
        are_ref_tables(previous),
        previous.head == current.head || (previous.head is Some && current.head is Some
            && current.parent_count <= 1 && previous.branch != current.branch),
        0 <= i < repo_changes(root, previous, current, ancestry).len(),
    ensures
        ({
            let text = repo_changes(root, previous, current, ancestry)[i].summary;
            &&& !opens_with(text, "commit "@)
            &&& !opens_with(text, "reset "@)
            &&& !opens_with(text, "rewrite "@)
            &&& text != "HEAD deleted"@
        }),
{
    let c = chapters(root, previous, current, ancestry);
    let text = repo_changes(root, previous, current, ancestry)[i].summary;
    lemma_chapters(root, previous, current, ancestry);
    lemma_chapter_sorts(root, previous, current, ancestry);
    lemma_sorts(text);
    reveal_strlit("commit ");
    reveal_strlit("rewrite ");
    if opens_with(text, "commit "@) {
        assert(text.take(7)[0] == text[0]);
        assert(text.take(7)[1] == text[1]);
        assert(sort_of(text) == 14);
    }
    reveal_strlit("reset ");
    if opens_with(text, "reset "@) {
        assert(text.take(6)[0] == text[0]);
        assert(text.take(6)[1] == text[1]);
        assert(text.take(6)[2] == text[2]);
        assert(sort_of(text) == 0 || sort_of(text) == 16);
    }
    if opens_with(text, "rewrite "@) {
        assert(text.take(8)[0] == text[0]);
        assert(text.take(8)[1] == text[1]);
        assert(text.take(8)[2] == text[2]);
        assert(sort_of(text) == 17);
    }
    let place = lemma_chapter_of(c, 11, i);
    let m = place.0;
    assert(m == 0 || m == 1 || m == 2 || m == 3 || m == 4 || m == 5 || m == 6 || m == 7 || m == 8
        || m == 9 || m == 10);
    assert(sort_of(c[m][place.1].summary) == sort_of(text));
    assert(c[2].len() == 0);
}

/// What an operation that takes several steps is called.
pub open spec fn operation_name(operation: GitOperation) -> Text {
    match operation {
        GitOperation::Merge => "merge"@,
        GitOperation::Rebase => "rebase"@,
        GitOperation::CherryPick => "cherry-pick"@,
        GitOperation::Revert => "revert"@,
        GitOperation::Bisect => "bisect"@,
    }
}

/// An operation that takes several steps is told as started where only the later look
/// finds it, and as ended where only the earlier one did. An end is never called a
/// success or a failure.
pub proof fn operations_start_and_end(
    root: Parts,
    previous: RepoView,
    current: RepoView,
    ancestry: Ancestry,
)
    ensures
        ({
            let all = repo_changes(root, previous, current, ancestry);
            let how = if previous.operation is None {
                "Git operation state appeared"@
            } else if current.operation is None {
                "Git operation state disappeared"@
            } else {
                "Git operation state changed"@
            };
            &&& current.operation is Some && previous.operation != current.operation ==> is_told(
                all,
                root,
                operation_name(current.operation->0) + " started"@,
                how,
            )
            &&& previous.operation is Some && previous.operation != current.operation ==> is_told(
                all,
                root,
                operation_name(previous.operation->0) + " ended"@,
                how,
            )
        }),
{
    let c = chapters(root, previous, current, ancestry);
    lemma_chapters(root, previous, current, ancestry);
    if c[0].len() > 0 {
        let one = c[0][0];
        assert(is_told(c[0], root, one.summary, one.detail));
        lemma_told_in_chapter(c, 11, 0, root, one.summary, one.detail);
    }
    if c[0].len() > 1 {
        let one = c[0][1];
        assert(is_told(c[0], root, one.summary, one.detail));
        lemma_told_in_chapter(c, 11, 0, root, one.summary, one.detail);
    }
}

/// How two heads stand to each other is asked for only where it counts: another answer
/// would tell of another move.
pub proof fn ancestry_is_asked_for_only_where_it_counts(
    root: Parts,
    previous: RepoView,
    current: RepoView,
)
    requires
        asks_ancestry(previous, current),
    ensures
        repo_changes(root, previous, current, Ancestry::Forward) != repo_changes(
            root,
            previous,
            current,
            Ancestry::Backward,
        ),
{
    let on = repo_changes(root, previous, current, Ancestry::Forward);
    let back = repo_changes(root, previous, current, Ancestry::Backward);
    let ahead = head_changes(root, previous, current, Ancestry::Forward);
    let behind = head_changes(root, previous, current, Ancestry::Backward);
    let front = operation_changes(root, previous.operation, current.operation) + checkout_changes(
        root,
        previous.branch,
        current.branch,
    );
    let k = front.len() as int;
    assert(on[k] == ahead[0]);
    assert(back[k] == behind[0]);
    reveal_strlit("commit");
    reveal_strlit("reset");
    assert(ahead[0].summary[0] == 'c');
    assert(behind[0].summary[0] == 'r');
}

} // verus!
