//! Tables: maps held as vectors that are sorted by key.

use vstd::prelude::*;

use crate::addr::{IpAddr, SocketAddr};

verus! {

/// A key of a [`Table`]. Keys are ordered by their ranks, and two keys of equal
/// rank are equal.
pub trait Key: Copy {
    spec fn spec_rank(self) -> (u128, u128);

    proof fn rank_is_injective(a: Self, b: Self)
        requires
            a.spec_rank() == b.spec_rank(),
        ensures
            a == b,
    ;

    fn rank(&self) -> (r: (u128, u128))
        ensures
            r == self.spec_rank(),
    ;
}

/// Whether rank `a` comes before rank `b`.
pub open spec fn before(a: (u128, u128), b: (u128, u128)) -> bool {
    a.0 < b.0 || (a.0 == b.0 && a.1 < b.1)
}

impl Key for u16 {
    open spec fn spec_rank(self) -> (u128, u128) {
        (self as u128, 0)
    }

    proof fn rank_is_injective(a: Self, b: Self) {
    }

    fn rank(&self) -> (r: (u128, u128)) {
        (*self as u128, 0)
    }
}

impl Key for u32 {
    open spec fn spec_rank(self) -> (u128, u128) {
        (self as u128, 0)
    }

    proof fn rank_is_injective(a: Self, b: Self) {
    }

    fn rank(&self) -> (r: (u128, u128)) {
        (*self as u128, 0)
    }
}

impl Key for IpAddr {
    open spec fn spec_rank(self) -> (u128, u128) {
        match self {
            IpAddr::V4(a) => (a as u128, 0),
            IpAddr::V6(a) => (a, 1),
        }
    }

    proof fn rank_is_injective(a: Self, b: Self) {
    }

    fn rank(&self) -> (r: (u128, u128)) {
        match self {
            IpAddr::V4(a) => (*a as u128, 0),
            IpAddr::V6(a) => (*a, 1),
        }
    }
}

impl Key for SocketAddr {
    open spec fn spec_rank(self) -> (u128, u128) {
        (self.ip.spec_rank().0, (self.ip.spec_rank().1 * 0x1_0000 + self.port) as u128)
    }

    proof fn rank_is_injective(a: Self, b: Self) {
    }

    fn rank(&self) -> (r: (u128, u128)) {
        let (number, family): (u128, u128) = self.ip.rank();
        (number, family * 0x1_0000 + self.port as u128)
    }
}

/// The map that a list of entries stands for; later entries override earlier
/// ones.
pub open spec fn map_of<K, V>(entries: Seq<(K, V)>) -> Map<K, V>
    decreases entries.len(),
{
    if entries.len() == 0 {
        Map::empty()
    } else {
        map_of(entries.drop_last()).insert(entries.last().0, entries.last().1)
    }
}

/// Whether no key occurs twice.
pub open spec fn distinct_keys<K, V>(entries: Seq<(K, V)>) -> bool {
    forall|i: int, j: int|
        #![trigger entries[i], entries[j]]
        0 <= i < j < entries.len() ==> entries[i].0 != entries[j].0
}

/// What a list of entries with distinct keys holds as a map.
proof fn lemma_map_of<K, V>(entries: Seq<(K, V)>)
    requires
        distinct_keys(entries),
    ensures
        forall|k: K| #[trigger]
            map_of(entries).dom().contains(k) <==> exists|i: int|
                0 <= i < entries.len() && (#[trigger] entries[i]).0 == k,
        forall|i: int|
            0 <= i < entries.len() ==> map_of(entries)[(#[trigger] entries[i]).0] == entries[i].1,
        map_of(entries).dom().finite(),
        map_of(entries).len() == entries.len(),
    decreases entries.len(),
{
    if entries.len() > 0 {
        let front = entries.drop_last();
        let last = entries.last();
        assert(forall|i: int| 0 <= i < front.len() ==> front[i] == entries[i]);
        lemma_map_of(front);
        assert(entries[entries.len() - 1] == last);
        assert forall|k: K| #[trigger] map_of(entries).dom().contains(k) implies exists|i: int|
            0 <= i < entries.len() && (#[trigger] entries[i]).0 == k by {
            if k != last.0 {
                assert(map_of(front).dom().contains(k));
                let i = choose|i: int| 0 <= i < front.len() && (#[trigger] front[i]).0 == k;
                assert(entries[i].0 == k);
            }
        }
        assert forall|i: int| 0 <= i < entries.len() implies map_of(entries).dom().contains(
            (#[trigger] entries[i]).0,
        ) && map_of(entries)[entries[i].0] == entries[i].1 by {
            if i < front.len() {
                assert(front[i] == entries[i]);
                assert(map_of(front).dom().contains(front[i].0));
            }
        }
        if map_of(front).dom().contains(last.0) {
            let i = choose|i: int| 0 <= i < front.len() && (#[trigger] front[i]).0 == last.0;
            assert(entries[i].0 == last.0);
            assert(false);
        }
    }
}

/// A map from keys to values.
#[derive(Debug)]
pub struct Table<K: Key, V> {
    entries: Vec<(K, V)>,
}

impl<K: Key, V> View for Table<K, V> {
    type V = Map<K, V>;

    closed spec fn view(&self) -> Map<K, V> {
        map_of(self.entries@)
    }
}

impl<K: Key, V> Table<K, V> {
    /// The entries are strictly sorted by rank, so that no key occurs twice.
    pub closed spec fn wf(&self) -> bool {
        forall|i: int, j: int|
            #![trigger self.entries@[i], self.entries@[j]]
            0 <= i < j < self.entries@.len() ==> before(
                self.entries@[i].0.spec_rank(),
                self.entries@[j].0.spec_rank(),
            )
    }

    proof fn lemma_view(&self)
        requires
            self.wf(),
        ensures
            distinct_keys(self.entries@),
            forall|k: K| #[trigger]
                self@.dom().contains(k) <==> exists|i: int|
                    0 <= i < self.entries@.len() && (#[trigger] self.entries@[i]).0 == k,
            forall|i: int|
                0 <= i < self.entries@.len() ==> self@[(#[trigger] self.entries@[i]).0]
                    == self.entries@[i].1,
            self@.dom().finite(),
            self@.len() == self.entries@.len(),
    {
        lemma_map_of(self.entries@);
    }

    /// A table has finitely many keys.
    pub proof fn lemma_finite(&self)
        requires
            self.wf(),
        ensures
            self@.dom().finite(),
    {
        self.lemma_view();
    }

    /// An empty table.
    pub fn new() -> (table: Table<K, V>)
        ensures
            table.wf(),
            table@ == Map::<K, V>::empty(),
    {
        Table { entries: Vec::new() }
    }

    /// How many keys have a value.
    pub fn len(&self) -> (n: usize)
        requires
            self.wf(),
        ensures
            n == self@.len(),
            self@.dom().finite(),
    {
        proof {
            self.lemma_view();
        }
        self.entries.len()
    }

    /// Where the key stands, or where it would have to be inserted.
    fn find(&self, key: &K) -> (r: (usize, bool))
        requires
            self.wf(),
        ensures
            r.0 <= self.entries@.len(),
            r.1 ==> r.0 < self.entries@.len() && self.entries@[r.0 as int].0 == *key,
            forall|i: int|
                0 <= i < r.0 ==> before((#[trigger] self.entries@[i]).0.spec_rank(), key.spec_rank()),
            !r.1 ==> forall|i: int|
                r.0 <= i < self.entries@.len() ==> before(
                    key.spec_rank(),
                    (#[trigger] self.entries@[i]).0.spec_rank(),
                ),
            r.1 <==> self@.dom().contains(*key),
    {
        let (hi, lo): (u128, u128) = key.rank();
        let mut from: usize = 0;
        let mut to: usize = self.entries.len();
        while from < to
            invariant
                self.wf(),
                (hi, lo) == key.spec_rank(),
                from <= to <= self.entries@.len(),
                forall|i: int|
                    0 <= i < from ==> before(
                        (#[trigger] self.entries@[i]).0.spec_rank(),
                        key.spec_rank(),
                    ),
                forall|i: int|
                    to <= i < self.entries@.len() ==> !before(
                        (#[trigger] self.entries@[i]).0.spec_rank(),
                        key.spec_rank(),
                    ),
            decreases to - from,
        {
            let mid: usize = from + (to - from) / 2;
            let (mid_hi, mid_lo): (u128, u128) = self.entries[mid].0.rank();
            if mid_hi < hi || (mid_hi == hi && mid_lo < lo) {
                from = mid + 1;
            } else {
                to = mid;
            }
        }
        proof {
            self.lemma_view();
        }
        if from < self.entries.len() {
            let (at_hi, at_lo): (u128, u128) = self.entries[from].0.rank();
            if at_hi == hi && at_lo == lo {
                proof {
                    K::rank_is_injective(self.entries@[from as int].0, *key);
                }
                return (from, true);
            }
        }
        (from, false)
    }

    /// The value of a key.
    pub fn get(&self, key: &K) -> (value: Option<&V>)
        requires
            self.wf(),
        ensures
            value == (if self@.dom().contains(*key) {
                Some(&self@[*key])
            } else {
                None
            }),
    {
        let (at, found): (usize, bool) = self.find(key);
        if found {
            proof {
                self.lemma_view();
            }
            Some(&self.entries[at].1)
        } else {
            None
        }
    }

    /// Whether a key has a value.
    pub fn contains(&self, key: &K) -> (found: bool)
        requires
            self.wf(),
        ensures
            found == self@.dom().contains(*key),
    {
        self.find(key).1
    }

    /// Overwriting a value keeps the order, and gives the key the value.
    proof fn lemma_overwritten(was: Self, is: Self, at: int, value: V)
        requires
            was.wf(),
            0 <= at < was.entries@.len(),
            is.entries@ == was.entries@.update(at, (was.entries@[at].0, value)),
        ensures
            is.wf(),
            is@ == was@.insert(was.entries@[at].0, value),
    {
        let (a, b) = (was.entries@, is.entries@);
        let after = was@.insert(a[at].0, value);
        assert(is.wf());
        was.lemma_view();
        is.lemma_view();
        assert forall|k: K| is@.dom().contains(k) == after.dom().contains(k) by {
            lemma_same_keys(a, b, k);
        }
        assert forall|k: K| is@.dom().contains(k) implies is@[k] == after[k] by {
            let i = choose|i: int| 0 <= i < b.len() && (#[trigger] b[i]).0 == k;
            assert(b[i].0 == k);
            assert(a[i].0 == k);
        }
        assert(is@ =~= after);
    }

    /// The value of a key, to be changed in place.
    pub fn get_mut(&mut self, key: &K) -> (value: Option<&mut V>)
        requires
            old(self).wf(),
        ensures
            match value {
                Some(v) => {
                    &&& old(self)@.dom().contains(*key)
                    &&& *v == old(self)@[*key]
                    &&& final(self).wf()
                    &&& final(self)@ == old(self)@.insert(*key, *final(v))
                },
                None => !old(self)@.dom().contains(*key) && *final(self) == *old(self),
            },
    {
        let (at, found): (usize, bool) = self.find(key);
        if !found {
            return None;
        }
        proof {
            self.lemma_view();
            assert forall|is: Self|
                is.entries@ == self.entries@.update(
                    at as int,
                    (*key, is.entries@[at as int].1),
                ) implies #[trigger] is.wf() && is@ == self@.insert(
                *key,
                is.entries@[at as int].1,
            ) by {
                Table::lemma_overwritten(*self, is, at as int, is.entries@[at as int].1);
            }
        }
        Some(&mut self.entries[at].1)
    }

    /// Gives a key a value, in place of the one it may have had.
    pub fn insert(&mut self, key: K, value: V)
        requires
            old(self).wf(),
        ensures
            final(self).wf(),
            final(self)@ == old(self)@.insert(key, value),
    {
        let (at, found): (usize, bool) = self.find(&key);
        proof {
            self.lemma_view();
        }
        if found {
            self.entries.set(at, (key, value));
            proof {
                Table::lemma_overwritten(*old(self), *self, at as int, value);
            }
        } else {
            self.entries.insert(at, (key, value));
            proof {
                let was = old(self).entries@;
                let is = self.entries@;
                assert(is == was.insert(at as int, (key, value)));
                assert forall|i: int, j: int|
                    #![trigger is[i], is[j]]
                    0 <= i < j < is.len() implies before(is[i].0.spec_rank(), is[j].0.spec_rank()) by {
                    if i < at && j < at {
                        assert(is[i] == was[i] && is[j] == was[j]);
                    } else if i < at && j > at {
                        assert(is[i] == was[i] && is[j] == was[j - 1]);
                    } else if i > at && j > at {
                        assert(is[i] == was[i - 1] && is[j] == was[j - 1]);
                    } else if j == at {
                        assert(is[i] == was[i]);
                    } else {
                        assert(is[j] == was[j - 1]);
                    }
                }
                self.lemma_view();
                assert forall|k: K| self@.dom().contains(k) == old(self)@.insert(
                    key,
                    value,
                ).dom().contains(k) by {
                    if exists|i: int| 0 <= i < is.len() && (#[trigger] is[i]).0 == k {
                        let i = choose|i: int| 0 <= i < is.len() && (#[trigger] is[i]).0 == k;
                        if i < at {
                            assert(was[i].0 == k);
                        } else if i > at {
                            assert(was[i - 1].0 == k);
                        }
                    }
                    if exists|i: int| 0 <= i < was.len() && (#[trigger] was[i]).0 == k {
                        let i = choose|i: int| 0 <= i < was.len() && (#[trigger] was[i]).0 == k;
                        if i < at {
                            assert(is[i].0 == k);
                        } else {
                            assert(is[i + 1].0 == k);
                        }
                    }
                    assert(is[at as int].0 == key);
                }
                assert forall|k: K| self@.dom().contains(k) implies self@[k] == old(self)@.insert(
                    key,
                    value,
                )[k] by {
                    let i = choose|i: int| 0 <= i < is.len() && (#[trigger] is[i]).0 == k;
                    if i < at {
                        assert(is[i] == was[i]);
                    } else if i > at {
                        assert(is[i] == was[i - 1]);
                    }
                }
                assert(self@ =~= old(self)@.insert(key, value));
            }
        }
    }

    /// The keys, each once.
    pub fn keys(&self) -> (keys: Vec<K>)
        requires
            self.wf(),
        ensures
            keys@.no_duplicates(),
            keys@.to_set() == self@.dom(),
    {
        let mut keys: Vec<K> = Vec::new();
        let mut i: usize = 0;
        while i < self.entries.len()
            invariant
                i <= self.entries@.len(),
                keys@.len() == i,
                forall|j: int| 0 <= j < i ==> #[trigger] keys@[j] == self.entries@[j].0,
            decreases self.entries@.len() - i,
        {
            keys.push(self.entries[i].0);
            i += 1;
        }
        proof {
            self.lemma_view();
            assert forall|a: int, b: int| 0 <= a < keys@.len() && 0 <= b < keys@.len() && a
                != b implies keys@[a] != keys@[b] by {
                if a < b {
                    assert(self.entries@[a].0 != self.entries@[b].0);
                } else {
                    assert(self.entries@[b].0 != self.entries@[a].0);
                }
            }
            assert forall|k: K| keys@.to_set().contains(k) == self@.dom().contains(k) by {
                if keys@.contains(k) {
                    let j = choose|j: int| 0 <= j < keys@.len() && keys@[j] == k;
                    assert(self.entries@[j].0 == k);
                }
                if self@.dom().contains(k) {
                    let j = choose|j: int|
                        0 <= j < self.entries@.len() && (#[trigger] self.entries@[j]).0 == k;
                    assert(keys@[j] == k);
                }
            }
            assert(keys@.to_set() =~= self@.dom());
        }
        keys
    }

    /// Removes a key; whether it had a value.
    pub fn remove(&mut self, key: &K) -> (found: bool)
        requires
            old(self).wf(),
        ensures
            final(self).wf(),
            final(self)@ == old(self)@.remove(*key),
            found == old(self)@.dom().contains(*key),
    {
        let (at, found): (usize, bool) = self.find(key);
        proof {
            self.lemma_view();
        }
        if found {
            self.entries.remove(at);
            proof {
                let was = old(self).entries@;
                let is = self.entries@;
                assert(is == was.remove(at as int));
                assert forall|i: int, j: int|
                    #![trigger is[i], is[j]]
                    0 <= i < j < is.len() implies before(is[i].0.spec_rank(), is[j].0.spec_rank()) by {
                    let a = if i < at { i } else { i + 1 };
                    let b = if j < at { j } else { j + 1 };
                    assert(is[i] == was[a] && is[j] == was[b]);
                }
                self.lemma_view();
                assert forall|k: K| self@.dom().contains(k) == old(self)@.remove(
                    *key,
                ).dom().contains(k) by {
                    if exists|i: int| 0 <= i < is.len() && (#[trigger] is[i]).0 == k {
                        let i = choose|i: int| 0 <= i < is.len() && (#[trigger] is[i]).0 == k;
                        let a = if i < at { i } else { i + 1 };
                        assert(is[i] == was[a]);
                        assert(was[a].0 == k && was[at as int].0 == *key);
                    }
                    if old(self)@.dom().contains(k) && k != *key {
                        let i = choose|i: int| 0 <= i < was.len() && (#[trigger] was[i]).0 == k;
                        let a = if i < at { i } else { i - 1 };
                        assert(is[a] == was[i]);
                    }
                }
                assert forall|k: K| self@.dom().contains(k) implies self@[k] == old(self)@[k] by {
                    let i = choose|i: int| 0 <= i < is.len() && (#[trigger] is[i]).0 == k;
                    let a = if i < at { i } else { i + 1 };
                    assert(is[i] == was[a]);
                }
                assert(self@ =~= old(self)@.remove(*key));
            }
        } else {
            assert(self@ =~= old(self)@.remove(*key));
        }
        found
    }
}

/// A value that knows when it was last in use, in nanoseconds of a clock that
/// never goes back.
pub trait Stamped: Sized {
    spec fn spec_stamp(self) -> u64;

    fn stamp(&self) -> (at: u64)
        ensures
            at == self.spec_stamp(),
    ;
}

/// Whether what was last in use at `stamp` has been idle for more than
/// `idle_secs` seconds at `now`.
pub open spec fn is_idle(stamp: u64, now: u64, idle_secs: u64) -> bool {
    stamp + idle_secs * 1_000_000_000 < now
}

/// What is left of a map once its idle entries are dropped.
pub open spec fn without_idle<K, V: Stamped>(m: Map<K, V>, now: u64, idle_secs: u64) -> Map<K, V> {
    Map::new(
        |k: K| m.dom().contains(k) && !is_idle(m[k].spec_stamp(), now, idle_secs),
        |k: K| m[k],
    )
}

impl<K: Key, V: Stamped> Table<K, V> {
    /// Drops the entries that have been idle for more than `idle_secs` seconds;
    /// gives their keys.
    pub fn drop_idle(&mut self, now: u64, idle_secs: u64) -> (dropped: Vec<K>)
        requires
            old(self).wf(),
        ensures
            final(self).wf(),
            final(self)@ == without_idle(old(self)@, now, idle_secs),
            dropped@.no_duplicates(),
            dropped@.to_set() == old(self)@.dom().difference(final(self)@.dom()),
    {
        let keys = self.keys();
        let mut dropped: Vec<K> = Vec::new();
        let ghost was = self@;
        let mut i: usize = 0;
        while i < keys.len()
            invariant
                self.wf(),
                i <= keys@.len(),
                was == old(self)@,
                keys@.no_duplicates(),
                keys@.to_set() == was.dom(),
                forall|j: int| i <= j < keys@.len() ==> self@.dom().contains(#[trigger] keys@[j]),
                forall|k: K| #[trigger]
                    self@.dom().contains(k) ==> was.dom().contains(k) && self@[k] == was[k],
                forall|j: int|
                    0 <= j < i ==> (self@.dom().contains(#[trigger] keys@[j]) <==> !is_idle(
                        was[keys@[j]].spec_stamp(),
                        now,
                        idle_secs,
                    )),
                dropped@.no_duplicates(),
                forall|k: K| #[trigger]
                    dropped@.contains(k) <==> was.dom().contains(k) && !self@.dom().contains(k),
            decreases keys@.len() - i,
        {
            let key: K = keys[i];
            assert(keys@.to_set().contains(key));
            let stamp: u64 = match self.get(&key) {
                Some(value) => value.stamp(),
                None => 0,
            };
            if (stamp as u128) + (idle_secs as u128) * 1_000_000_000 < now as u128 {
                let ghost before_removal = self@;
                let ghost dropped_before = dropped@;
                self.remove(&key);
                dropped.push(key);
                proof {
                    assert(!dropped_before.contains(key));
                    assert forall|k: K| #[trigger] dropped@.contains(k) <==> was.dom().contains(k)
                        && !self@.dom().contains(k) by {
                        if dropped@.contains(k) && k != key {
                            let j = choose|j: int| 0 <= j < dropped@.len() && dropped@[j] == k;
                            assert(dropped_before[j] == k);
                        }
                        if dropped_before.contains(k) {
                            let j = choose|j: int|
                                0 <= j < dropped_before.len() && dropped_before[j] == k;
                            assert(dropped@[j] == k);
                        }
                        assert(dropped@[dropped@.len() - 1] == key);
                    }
                }
            }
            i += 1;
        }
        proof {
            assert forall|k: K| self@.dom().contains(k) == without_idle(
                was,
                now,
                idle_secs,
            ).dom().contains(k) by {
                if was.dom().contains(k) {
                    assert(keys@.to_set().contains(k));
                    let j = choose|j: int| 0 <= j < keys@.len() && keys@[j] == k;
                    assert(keys@[j] == k);
                }
            }
            assert(self@ =~= without_idle(was, now, idle_secs));
            assert(dropped@.to_set() =~= was.dom().difference(self@.dom()));
        }
        dropped
    }
}

proof fn lemma_same_keys<K, V>(a: Seq<(K, V)>, b: Seq<(K, V)>, k: K)
    requires
        a.len() == b.len(),
        forall|i: int| 0 <= i < a.len() ==> (#[trigger] a[i]).0 == b[i].0,
    ensures
        (exists|i: int| 0 <= i < a.len() && (#[trigger] a[i]).0 == k) == (exists|i: int|
            0 <= i < b.len() && (#[trigger] b[i]).0 == k),
{
    if exists|i: int| 0 <= i < a.len() && (#[trigger] a[i]).0 == k {
        let i = choose|i: int| 0 <= i < a.len() && (#[trigger] a[i]).0 == k;
        assert(b[i].0 == k);
    }
    if exists|i: int| 0 <= i < b.len() && (#[trigger] b[i]).0 == k {
        let i = choose|i: int| 0 <= i < b.len() && (#[trigger] b[i]).0 == k;
        assert(a[i].0 == k);
    }
}

/// An entry is dropped exactly where it was last in use more than the time
/// before now; the others keep their values.
pub proof fn idle_entries_are_dropped<K, V: Stamped>(m: Map<K, V>, now: u64, idle_secs: u64, k: K)
    ensures
        without_idle(m, now, idle_secs).dom().contains(k) <==> m.dom().contains(k) && now
            - m[k].spec_stamp() <= idle_secs * 1_000_000_000,
        without_idle(m, now, idle_secs).dom().contains(k) ==> without_idle(m, now, idle_secs)[k]
            == m[k],
{
}

} // verus!
