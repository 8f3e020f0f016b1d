//! A table from paths to values.

use crate::path::{FsPath, Part, PartView, Parts};
use vstd::prelude::*;
use vstd::string::*;

verus! {

/// How many buckets a table has.
pub const BUCKETS: usize = 1024;

/// A number made of some bytes, from the number made of what precedes them.
pub open spec fn mixed(seed: nat, bytes: Seq<u8>) -> nat
    decreases bytes.len(),
{
    if bytes.len() == 0 {
        seed
    } else {
        ((mixed(seed, bytes.drop_last()) * 31 + bytes.last()) % 0x1_0000_0000) as nat
    }
}

/// The bytes that a component adds to the number of a path.
pub open spec fn part_bytes(part: PartView) -> Seq<u8> {
    match part {
        PartView::Normal(name) => vstd::utf8::encode_utf8(name),
        PartView::Prefix(name) => vstd::utf8::encode_utf8(name),
        PartView::Foreign { bytes, shown } => bytes,
        _ => Seq::empty(),
    }
}

/// The number of a path.
pub open spec fn path_number(path: Parts) -> nat
    decreases path.len(),
{
    if path.len() == 0 {
        7
    } else {
        mixed(path_number(path.drop_last()), part_bytes(path.last()))
    }
}

/// The bucket of a path.
pub open spec fn slot_of(path: Parts) -> int {
    (path_number(path) % (BUCKETS as nat)) as int
}

/// Mixes `bytes` into `seed`.
fn mix(seed: u64, bytes: &[u8]) -> (number: u64)
    requires
        seed < 0x1_0000_0000,
    ensures
        number == mixed(seed as nat, bytes@),
        number < 0x1_0000_0000,
{
    let mut number: u64 = seed;
    let mut i: usize = 0;
    assert(bytes@.take(0) =~= Seq::<u8>::empty());
    while i < bytes.len()
        invariant
            i <= bytes@.len(),
            number < 0x1_0000_0000,
            number == mixed(seed as nat, bytes@.take(i as int)),
        decreases bytes@.len() - i,
    {
        assert(bytes@.take(i + 1).drop_last() =~= bytes@.take(i as int));
        number = (number * 31 + bytes[i] as u64) % 0x1_0000_0000;
        i += 1;
    }
    assert(bytes@.take(bytes@.len() as int) =~= bytes@);
    number
}

/// Finds the bucket of `path`.
fn slot(path: &FsPath) -> (slot: usize)
    ensures
        slot == slot_of(path@),
        slot < BUCKETS,
{
    let mut number: u64 = 7;
    let mut i: usize = 0;
    assert(path@.take(0) =~= Parts::empty());
    while i < path.parts.len()
        invariant
            i <= path.parts@.len(),
            number < 0x1_0000_0000,
            number == path_number(path@.take(i as int)),
        decreases path.parts@.len() - i,
    {
        assert(path@.take(i + 1).drop_last() =~= path@.take(i as int));
        assert(path@.take(i + 1).last() == path.parts@[i as int]@);
        match &path.parts[i] {
            Part::Normal(name) => {
                number = mix(number, name.as_str().as_bytes());
            },
            Part::Prefix(name) => {
                number = mix(number, name.as_str().as_bytes());
            },
            Part::Foreign { bytes, shown: _ } => {
                number = mix(number, bytes.as_slice());
            },
            _ => {},
        }
        i += 1;
    }
    assert(path@.take(path@.len() as int) =~= path@);
    (number % BUCKETS as u64) as usize
}

/// A table from paths to values.
pub struct PathMap<V> {
    buckets: Vec<Vec<(FsPath, V)>>,
    size: usize,
}

impl<V> View for PathMap<V> {
    type V = Map<Parts, V>;

    closed spec fn view(&self) -> Map<Parts, V> {
        Map::new(
            |path: Parts| self.position(path) is Some,
            |path: Parts| self.buckets@[slot_of(path)]@[self.position(path)->0].1,
        )
    }
}

impl<V> PathMap<V> {
    /// Whether the `i`-th entry of the bucket of `path` is that of `path`.
    spec fn at(&self, path: Parts, i: int) -> bool {
        0 <= i < self.buckets@[slot_of(path)]@.len() && self.buckets@[slot_of(path)]@[i].0@ == path
    }

    /// Where in its bucket the entry of `path` stands, if there is one.
    spec fn position(&self, path: Parts) -> Option<int> {
        if exists|i: int| self.at(path, i) {
            Some(choose|i: int| self.at(path, i))
        } else {
            None
        }
    }

    /// The table is well formed: each entry stands in the bucket of its path,
    /// no path has two entries, and the size is right.
    pub closed spec fn wf(&self) -> bool {
        &&& self.buckets@.len() == BUCKETS
        &&& forall|b: int, i: int|
            0 <= b < BUCKETS && 0 <= i < self.buckets@[b]@.len() ==> slot_of(
                #[trigger] self.buckets@[b]@[i].0@,
            ) == b
        &&& forall|b: int, i: int, j: int|
            0 <= b < BUCKETS && 0 <= i < j < self.buckets@[b]@.len()
                ==> #[trigger] self.buckets@[b]@[i].0@ != #[trigger] self.buckets@[b]@[j].0@
        &&& self@.dom().finite()
        &&& self.size == self@.len()
    }

    /// What the position of a path is, where its entry stands at `i`.
    proof fn lemma_at(&self, path: Parts, i: int)
        requires
            self.wf(),
            self.at(path, i),
        ensures
            self.position(path) == Some(i),
            self@.contains_key(path),
            self@[path] == self.buckets@[slot_of(path)]@[i].1,
    {
        lemma_slot(path);
        let j = choose|j: int| self.at(path, j);
        if j < i {
            assert(self.buckets@[slot_of(path)]@[j].0@ != self.buckets@[slot_of(path)]@[i].0@);
        } else if i < j {
            assert(self.buckets@[slot_of(path)]@[i].0@ != self.buckets@[slot_of(path)]@[j].0@);
        }
    }

    /// An empty table.
    pub fn new() -> (map: PathMap<V>)
        ensures
            map.wf(),
            map@ == Map::<Parts, V>::empty(),
    {
        let mut buckets: Vec<Vec<(FsPath, V)>> = Vec::new();
        let mut i: usize = 0;
        while i < BUCKETS
            invariant
                i <= BUCKETS,
                buckets@.len() == i,
                forall|b: int| 0 <= b < i ==> (#[trigger] buckets@[b])@.len() == 0,
            decreases BUCKETS - i,
        {
            buckets.push(Vec::new());
            i += 1;
        }
        let map = PathMap { buckets, size: 0 };
        proof {
            assert forall|path: Parts| !map@.contains_key(path) by {
                lemma_slot(path);
                assert(map.buckets@[slot_of(path)]@.len() == 0);
                assert(forall|i: int| !map.at(path, i));
            }
            assert(map@ =~= Map::<Parts, V>::empty());
        }
        map
    }

    /// How many paths have an entry.
    pub fn len(&self) -> (n: usize)
        requires
            self.wf(),
        ensures
            n == self@.len(),
    {
        self.size
    }

    /// Where in bucket `b` the entry of `path` stands.
    fn find(&self, b: usize, path: &FsPath) -> (at: Option<usize>)
        requires
            self.wf(),
            b == slot_of(path@),
            b < BUCKETS,
        ensures
            match at {
                Some(i) => self.at(path@, i as int),
                None => !self@.contains_key(path@),
            },
    {
        let bucket = &self.buckets[b];
        let mut i: usize = 0;
        while i < bucket.len()
            invariant
                i <= bucket@.len(),
                bucket@ == self.buckets@[b as int]@,
                b == slot_of(path@),
                forall|j: int| 0 <= j < i ==> (#[trigger] bucket@[j]).0@ != path@,
            decreases bucket@.len() - i,
        {
            if bucket[i].0.same(path) {
                return Some(i);
            }
            i += 1;
        }
        assert(forall|j: int| !self.at(path@, j));
        None
    }

    /// The value of `path`.
    pub fn get(&self, path: &FsPath) -> (value: Option<&V>)
        requires
            self.wf(),
        ensures
            match value {
                Some(v) => self@.contains_key(path@) && *v == self@[path@],
                None => !self@.contains_key(path@),
            },
    {
        let b = slot(path);
        match self.find(b, path) {
            Some(i) => {
                proof {
                    self.lemma_at(path@, i as int);
                }
                Some(&self.buckets[b][i].1)
            },
            None => None,
        }
    }

    /// Takes the entry of `path` out.
    pub fn remove(&mut self, path: &FsPath) -> (value: Option<V>)
        requires
            old(self).wf(),
        ensures
            final(self).wf(),
            final(self)@ == old(self)@.remove(path@),
            match value {
                Some(v) => old(self)@.contains_key(path@) && v == old(self)@[path@],
                None => !old(self)@.contains_key(path@),
            },
    {
        let b = slot(path);
        match self.find(b, path) {
            Some(i) => {
                proof {
                    self.lemma_at(path@, i as int);
                }
                let ghost before = *self;
                let (_, value) = self.buckets[b].remove(i);
                self.size = self.size - 1;
                proof {
                    before.lemma_removed(*self, path@, i as int);
                }
                Some(value)
            },
            None => {
                assert(self@ =~= self@.remove(path@));
                None
            },
        }
    }

    /// What taking the `i`-th entry out of the bucket of `path` does.
    proof fn lemma_removed(self, after: PathMap<V>, path: Parts, i: int)
        requires
            self.wf(),
            self.at(path, i),
            after.buckets@ == self.buckets@.update(slot_of(path), after.buckets@[slot_of(path)]),
            after.buckets@[slot_of(path)]@ == self.buckets@[slot_of(path)]@.remove(i),
            after.size == self.size - 1,
        ensures
            after.wf(),
            after@ == self@.remove(path),
    {
        lemma_slot(path);
        let b = slot_of(path);
        let old_bucket = self.buckets@[b]@;
        let new_bucket = after.buckets@[b]@;
        self.lemma_at(path, i);
        assert forall|other: Parts|
            #![trigger after@.dom().contains(other)]
            after@.contains_key(other) == self@.remove(path).contains_key(
            other,
        ) && (after@.contains_key(other) ==> after@[other] == self@[other]) by {
            lemma_slot(other);
            if slot_of(other) == b {
                if after.position(other) is Some {
                    let j = choose|j: int| after.at(other, j);
                    let k = if j < i { j } else { j + 1 };
                    assert(new_bucket[j] == old_bucket[k]);
                    assert(self.at(other, k));
                    self.lemma_at(other, k);
                }
                if self.position(other) is Some && other != path {
                    let k = choose|k: int| self.at(other, k);
                    let j = if k < i { k } else { k - 1 };
                    assert(new_bucket[j] == old_bucket[k]);
                    assert(after.at(other, j));
                }
            } else {
                assert(after.buckets@[slot_of(other)] == self.buckets@[slot_of(other)]);
                assert(forall|k: int| after.at(other, k) == self.at(other, k));
                if self.position(other) is Some {
                    let k = choose|k: int| self.at(other, k);
                    self.lemma_at(other, k);
                    let j = choose|j: int| after.at(other, j);
                    self.lemma_at(other, j);
                }
            }
        }
        assert(after@ =~= self@.remove(path));
        assert forall|c: int, k: int| 0 <= c < BUCKETS && 0 <= k < after.buckets@[c]@.len()
            implies slot_of(#[trigger] after.buckets@[c]@[k].0@) == c by {
            if c == b {
                let m = if k < i { k } else { k + 1 };
                assert(new_bucket[k] == old_bucket[m]);
            }
        }
        assert forall|c: int, k: int, m: int| 0 <= c < BUCKETS && 0 <= k < m
            < after.buckets@[c]@.len() implies #[trigger] after.buckets@[c]@[k].0@
            != #[trigger] after.buckets@[c]@[m].0@ by {
            if c == b {
                let k2 = if k < i { k } else { k + 1 };
                let m2 = if m < i { m } else { m + 1 };
                assert(new_bucket[k] == old_bucket[k2]);
                assert(new_bucket[m] == old_bucket[m2]);
            }
        }
    }

    /// Gives `path` a value, in place of the one that it had.
    pub fn insert(&mut self, path: FsPath, value: V) -> (replaced: Option<V>)
        requires
            old(self).wf(),
            old(self)@.len() < usize::MAX || old(self)@.contains_key(path@),
        ensures
            final(self).wf(),
            final(self)@ == old(self)@.insert(path@, value),
            match replaced {
                Some(v) => old(self)@.contains_key(path@) && v == old(self)@[path@],
                None => !old(self)@.contains_key(path@),
            },
    {
        let b = slot(&path);
        let replaced = self.remove(&path);
        let ghost before = *self;
        let ghost key = path@;
        self.buckets[b].push((path, value));
        self.size = self.size + 1;
        proof {
            lemma_slot(key);
            assert(self.buckets@[b as int]@.drop_last() =~= before.buckets@[b as int]@);
            before.lemma_added(*self, key, value);
            assert(old(self)@.remove(key).insert(key, value) =~= old(self)@.insert(key, value));
        }
        replaced
    }

    /// What a new entry at the end of the bucket of `path` does.
    proof fn lemma_added(self, after: PathMap<V>, path: Parts, value: V)
        requires
            self.wf(),
            !self@.contains_key(path),
            after.buckets@ == self.buckets@.update(slot_of(path), after.buckets@[slot_of(path)]),
            after.buckets@[slot_of(path)]@.len() == self.buckets@[slot_of(path)]@.len() + 1,
            after.buckets@[slot_of(path)]@.drop_last() == self.buckets@[slot_of(path)]@,
            after.buckets@[slot_of(path)]@.last().0@ == path,
            after.buckets@[slot_of(path)]@.last().1 == value,
            after.size == self.size + 1,
        ensures
            after.wf(),
            after@ == self@.insert(path, value),
    {
        lemma_slot(path);
        let b = slot_of(path);
        let old_bucket = self.buckets@[b]@;
        let new_bucket = after.buckets@[b]@;
        let n = old_bucket.len() as int;
        assert(forall|k: int| 0 <= k < n ==> new_bucket[k] == new_bucket.drop_last()[k]);
        assert forall|k: int| 0 <= k < n implies (#[trigger] old_bucket[k]).0@ != path by {
            if old_bucket[k].0@ == path {
                assert(self.at(path, k));
                self.lemma_at(path, k);
            }
        }
        assert forall|c: int, k: int| 0 <= c < BUCKETS && 0 <= k < after.buckets@[c]@.len()
            implies slot_of(#[trigger] after.buckets@[c]@[k].0@) == c by {
            if c == b && k < n {
                assert(new_bucket[k] == old_bucket[k]);
            }
        }
        assert forall|c: int, k: int, m: int| 0 <= c < BUCKETS && 0 <= k < m
            < after.buckets@[c]@.len() implies #[trigger] after.buckets@[c]@[k].0@
            != #[trigger] after.buckets@[c]@[m].0@ by {
            if c == b {
                assert(new_bucket[k] == old_bucket[k]);
                if m < n {
                    assert(new_bucket[m] == old_bucket[m]);
                }
            }
        }
        assert forall|other: Parts|
            #![trigger after@.dom().contains(other)]
            after@.contains_key(other) == self@.insert(
            path,
            value,
        ).contains_key(other) && (after@.contains_key(other) ==> after@[other] == self@.insert(
            path,
            value,
        )[other]) by {
            lemma_slot(other);
            if other == path {
                assert(after.at(path, n));
                let j = choose|j: int| after.at(path, j);
                if j < n {
                    assert(new_bucket[j] == old_bucket[j]);
                }
            } else {
                assert forall|k: int| after.at(other, k) == self.at(other, k) by {
                    if slot_of(other) == b {
                        if 0 <= k < n {
                            assert(new_bucket[k] == old_bucket[k]);
                        }
                    } else {
                        assert(after.buckets@[slot_of(other)] == self.buckets@[slot_of(other)]);
                    }
                }
                if self.position(other) is Some {
                    let k = choose|k: int| self.at(other, k);
                    self.lemma_at(other, k);
                    let j = choose|j: int| after.at(other, j);
                    self.lemma_at(other, j);
                    assert(j == k);
                    if slot_of(other) == b {
                        assert(new_bucket[j] == old_bucket[j]);
                    } else {
                        assert(after.buckets@[slot_of(other)] == self.buckets@[slot_of(other)]);
                    }
                }
            }
        }
        assert(after@ =~= self@.insert(path, value));
    }

    /// The paths that have an entry, each once.
    pub fn paths(&self) -> (paths: Vec<FsPath>)
        requires
            self.wf(),
        ensures
            crate::path::paths_of(paths@).no_duplicates(),
            forall|path: Parts| #[trigger]
                crate::path::paths_of(paths@).contains(path) <==> self@.contains_key(path),
    {
        let mut paths: Vec<FsPath> = Vec::new();
        let mut b: usize = 0;
        while b < self.buckets.len()
            invariant
                self.wf(),
                b <= self.buckets@.len(),
                crate::path::paths_of(paths@).no_duplicates(),
                forall|k: int| 0 <= k < paths@.len() ==> {
                    &&& slot_of(#[trigger] paths@[k]@) < b
                    &&& self@.contains_key(paths@[k]@)
                },
                forall|path: Parts| #[trigger]
                    self@.contains_key(path) && slot_of(path) < b ==> crate::path::paths_of(
                        paths@,
                    ).contains(path),
            decreases self.buckets@.len() - b,
        {
            let mut i: usize = 0;
            let ghost start = paths@;
            while i < self.buckets[b as usize].len()
                invariant
                    self.wf(),
                    b < self.buckets@.len(),
                    i <= self.buckets@[b as int]@.len(),
                    paths@.len() == start.len() + i,
                    paths@.take(start.len() as int) == start,
                    forall|k: int|
                        0 <= k < i ==> (#[trigger] paths@[start.len() + k])@
                            == self.buckets@[b as int]@[k].0@,
                decreases self.buckets@[b as int]@.len() - i,
            {
                let ghost now = paths@;
                paths.push(self.buckets[b][i].0.clone());
                i += 1;
                assert(paths@.take(start.len() as int) =~= now.take(start.len() as int));
            }
            proof {
                let all = crate::path::paths_of(paths@);
                let n = start.len() as int;
                assert forall|k: int| 0 <= k < paths@.len() implies {
                    &&& slot_of(#[trigger] paths@[k]@) < b + 1
                    &&& self@.contains_key(paths@[k]@)
                } by {
                    if k < n {
                        assert(paths@[k] == paths@.take(n)[k]);
                        assert(paths@[k] == start[k]);
                    } else {
                        let m = k - n;
                        assert(paths@[n + m]@ == self.buckets@[b as int]@[m].0@);
                        assert(self.at(paths@[k]@, m));
                        self.lemma_at(paths@[k]@, m);
                    }
                }
                assert forall|k: int, m: int| 0 <= k < m < all.len() implies all[k] != all[m] by {
                    if m < n {
                        assert(paths@[k] == paths@.take(n)[k]);
                        assert(paths@[m] == paths@.take(n)[m]);
                        assert(all[k] == crate::path::paths_of(start)[k]);
                        assert(all[m] == crate::path::paths_of(start)[m]);
                    } else if k < n {
                        assert(paths@[k] == paths@.take(n)[k]);
                        assert(paths@[k] == start[k]);
                        assert(paths@[n + (m - n)]@ == self.buckets@[b as int]@[m - n].0@);
                    } else {
                        assert(paths@[n + (m - n)]@ == self.buckets@[b as int]@[m - n].0@);
                        assert(paths@[n + (k - n)]@ == self.buckets@[b as int]@[k - n].0@);
                    }
                }
                assert forall|path: Parts| #[trigger] self@.contains_key(path) && slot_of(path) < b
                    + 1 implies all.contains(path) by {
                    lemma_slot(path);
                    if slot_of(path) < b {
                        let k = choose|k: int|
                            0 <= k < crate::path::paths_of(start).len()
                                && crate::path::paths_of(start)[k] == path;
                        assert(paths@[k] == paths@.take(n)[k]);
                        assert(all[k] == path);
                    } else {
                        let m = choose|m: int| self.at(path, m);
                        assert(paths@[n + m]@ == self.buckets@[b as int]@[m].0@);
                        assert(all[n + m] == path);
                    }
                }
            }
            b += 1;
        }
        proof {
            let all = crate::path::paths_of(paths@);
            assert forall|path: Parts| #[trigger] all.contains(path) <==> self@.contains_key(
                path,
            ) by {
                lemma_slot(path);
                if all.contains(path) {
                    let k = choose|k: int| 0 <= k < all.len() && all[k] == path;
                    assert(self@.contains_key(paths@[k]@));
                }
            }
        }
        paths
    }
}

/// Every path has a bucket.
proof fn lemma_slot(path: Parts)
    ensures
        0 <= slot_of(path) < BUCKETS,
{
}

} // verus!
