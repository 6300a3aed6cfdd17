use vstd::prelude::*;

use crate::model::BoundDir;
use crate::model::BoundKey;
use crate::model::str_eq;

verus! {

/// One row of a [`BoundTable`]: the value `value` stored under the key
/// (`subscriber`, `sensor_id`, `metric`, `dir`).
#[derive(Debug)]
pub struct BoundEntry<V> {
    pub subscriber: i64,
    pub sensor_id: String,
    pub metric: String,
    pub dir: BoundDir,
    pub value: V,
}

impl<V> BoundEntry<V> {
    /// The spec-level key this entry is stored under.
    pub open spec fn key(&self) -> BoundKey {
        BoundKey {
            subscriber: self.subscriber as int,
            sensor_id: self.sensor_id@,
            metric: self.metric@,
            dir: self.dir,
        }
    }
}

impl<V: Copy> BoundEntry<V> {
    /// An entry equal to this one (a clone whose contract says so).
    pub fn duplicate(&self) -> (e: Self)
        ensures
            e == *self,
    {
        BoundEntry {
            subscriber: self.subscriber,
            sensor_id: self.sensor_id.clone(),
            metric: self.metric.clone(),
            dir: self.dir,
            value: self.value,
        }
    }
}

/// The rows owned by one subscriber, as a predicate on entries.
pub open spec fn owned_by<V>(subscriber: i64) -> spec_fn(BoundEntry<V>) -> bool {
    |e: BoundEntry<V>| e.subscriber == subscriber
}

/// The key under which a caller's plain arguments are stored.
pub open spec fn mk_key(subscriber: i64, sensor_id: Seq<char>, metric: Seq<char>, dir: BoundDir) -> BoundKey {
    BoundKey { subscriber: subscriber as int, sensor_id, metric, dir }
}

/// Does some entry of `s` carry key `k`?
pub open spec fn has_key<V>(s: Seq<BoundEntry<V>>, k: BoundKey) -> bool {
    exists|i: int| 0 <= i < s.len() && s[i].key() == k
}

/// The index of an entry carrying `k`; meaningful only when `has_key` holds
/// (and unique under `entries_unique`).
pub open spec fn index_of<V>(s: Seq<BoundEntry<V>>, k: BoundKey) -> int {
    choose|i: int| 0 <= i < s.len() && s[i].key() == k
}

/// No two entries of `s` carry the same key.
pub open spec fn entries_unique<V>(s: Seq<BoundEntry<V>>) -> bool {
    forall|i: int, j: int| 0 <= i < j < s.len() ==> (#[trigger] s[i]).key() != (#[trigger] s[j]).key()
}

/// The mathematical content of an entry sequence: the finite map from keys to
/// stored values.
pub open spec fn to_map<V>(s: Seq<BoundEntry<V>>) -> Map<BoundKey, V>
    decreases s.len(),
{
    if s.len() == 0 {
        Map::empty()
    } else {
        to_map(s.drop_last()).insert(s.last().key(), s.last().value)
    }
}

/// A key is in the map exactly when some entry carries it.
pub proof fn lemma_to_map_contains<V>(s: Seq<BoundEntry<V>>, k: BoundKey)
    ensures
        to_map(s).contains_key(k) <==> has_key(s, k),
    decreases s.len(),
{
    if s.len() == 0 {
    } else {
        lemma_to_map_contains(s.drop_last(), k);
        if s.last().key() == k {
            assert(s[s.len() - 1].key() == k);
        } else {
            if has_key(s, k) {
                let i = choose|i: int| 0 <= i < s.len() && s[i].key() == k;
                assert(s.drop_last()[i] == s[i]);
            }
            if has_key(s.drop_last(), k) {
                let i = choose|i: int| 0 <= i < s.drop_last().len() && s.drop_last()[i].key() == k;
                assert(s[i] == s.drop_last()[i]);
            }
        }
    }
}

/// Under unique keys, the map agrees with every entry.
pub proof fn lemma_to_map_at<V>(s: Seq<BoundEntry<V>>, i: int)
    requires
        entries_unique(s),
        0 <= i < s.len(),
    ensures
        to_map(s).contains_key(s[i].key()),
        to_map(s)[s[i].key()] == s[i].value,
    decreases s.len(),
{
    if i == s.len() - 1 {
    } else {
        assert(entries_unique(s.drop_last())) by {
            assert(forall|p: int, q: int|
                0 <= p < q < s.drop_last().len() ==> s.drop_last()[p] == s[p] && s.drop_last()[q] == s[q]);
        }
        assert(s.drop_last()[i] == s[i]);
        lemma_to_map_at(s.drop_last(), i);
        assert(s.last().key() != s[i].key());
    }
}

/// Updating the entry that carries `k` is, at map level, an insert at `k`.
pub proof fn lemma_to_map_update<V>(s: Seq<BoundEntry<V>>, i: int, e: BoundEntry<V>)
    requires
        entries_unique(s),
        0 <= i < s.len(),
        e.key() == s[i].key(),
    ensures
        to_map(s.update(i, e)) == to_map(s).insert(e.key(), e.value),
    decreases s.len(),
{
    let k = e.key();
    if i == s.len() - 1 {
        assert(s.update(i, e).drop_last() =~= s.drop_last());
        assert(s.update(i, e).last() == e);
        assert(to_map(s.drop_last()).insert(k, e.value) =~= to_map(s.drop_last()).insert(k, s[i].value).insert(k, e.value));
    } else {
        assert(entries_unique(s.drop_last())) by {
            assert(forall|p: int, q: int|
                0 <= p < q < s.drop_last().len() ==> s.drop_last()[p] == s[p] && s.drop_last()[q] == s[q]);
        }
        assert(s.drop_last()[i] == s[i]);
        lemma_to_map_update(s.drop_last(), i, e);
        assert(s.update(i, e).drop_last() =~= s.drop_last().update(i, e));
        assert(s.update(i, e).last() == s.last());
        let lk = s.last().key();
        assert(lk != k);
        assert(to_map(s.drop_last()).insert(k, e.value).insert(lk, s.last().value)
            =~= to_map(s.drop_last()).insert(lk, s.last().value).insert(k, e.value));
    }
}

/// Appending an entry is, at map level, an insert at its key.
pub proof fn lemma_to_map_push<V>(s: Seq<BoundEntry<V>>, e: BoundEntry<V>)
    ensures
        to_map(s.push(e)) == to_map(s).insert(e.key(), e.value),
{
    assert(s.push(e).drop_last() =~= s);
    assert(s.push(e).last() == e);
}

/// Removing the entry that carries `k` is, at map level, a remove of `k`.
pub proof fn lemma_to_map_remove<V>(s: Seq<BoundEntry<V>>, i: int)
    requires
        entries_unique(s),
        0 <= i < s.len(),
    ensures
        to_map(s.remove(i)) == to_map(s).remove(s[i].key()),
    decreases s.len(),
{
    let k = s[i].key();
    if i == s.len() - 1 {
        assert(s.remove(i) =~= s.drop_last());
        lemma_to_map_contains(s.drop_last(), k);
        assert(!has_key(s.drop_last(), k)) by {
            if has_key(s.drop_last(), k) {
                let j = choose|j: int| 0 <= j < s.drop_last().len() && s.drop_last()[j].key() == k;
                assert(s[j] == s.drop_last()[j]);
            }
        }
        assert(to_map(s.drop_last()) =~= to_map(s.drop_last()).insert(k, s[i].value).remove(k));
    } else {
        assert(entries_unique(s.drop_last())) by {
            assert(forall|p: int, q: int|
                0 <= p < q < s.drop_last().len() ==> s.drop_last()[p] == s[p] && s.drop_last()[q] == s[q]);
        }
        assert(s.drop_last()[i] == s[i]);
        lemma_to_map_remove(s.drop_last(), i);
        assert(s.remove(i).drop_last() =~= s.drop_last().remove(i));
        assert(s.remove(i).last() == s.last());
        let lk = s.last().key();
        assert(lk != k);
        assert(to_map(s.drop_last()).remove(k).insert(lk, s.last().value)
            =~= to_map(s.drop_last()).insert(lk, s.last().value).remove(k));
    }
}

/// A keyed table from (subscriber, sensor, metric, direction) to a stored
/// value, with last-write-wins upserts. Its view is the entry sequence; its
/// mathematical content is `to_map` of that view.
#[derive(Debug)]
pub struct BoundTable<V> {
    entries: Vec<BoundEntry<V>>,
}

impl<V> View for BoundTable<V> {
    type V = Seq<BoundEntry<V>>;

    closed spec fn view(&self) -> Seq<BoundEntry<V>> {
        self.entries@
    }
}

impl<V: Copy> BoundTable<V> {
    /// Every table keeps its keys unique: one row per bound.
    pub open spec fn wf(&self) -> bool {
        entries_unique(self@)
    }

    /// The map this table stores.
    pub open spec fn map(&self) -> Map<BoundKey, V> {
        to_map(self@)
    }

    /// An empty table.
    pub fn new() -> (t: Self)
        ensures
            t@ == Seq::<BoundEntry<V>>::empty(),
            t.wf(),
            t.map() == Map::<BoundKey, V>::empty(),
    {
        BoundTable { entries: Vec::new() }
    }

    /// The entry rows, for one evaluation pass over the whole table.
    pub fn entries(&self) -> (r: &Vec<BoundEntry<V>>)
        ensures
            r@ == self@,
    {
        &self.entries
    }

    /// The index of the row carrying the given key, if any.
    fn find(&self, subscriber: i64, sensor_id: &str, metric: &str, dir: BoundDir) -> (r: Option<usize>)
        requires
            self.wf(),
        ensures
            match r {
                Some(i) => i < self@.len() && self@[i as int].key() == mk_key(subscriber, sensor_id@, metric@, dir)
                    && i as int == index_of(self@, mk_key(subscriber, sensor_id@, metric@, dir)),
                None => !has_key(self@, mk_key(subscriber, sensor_id@, metric@, dir)),
            },
    {
        let ghost k = mk_key(subscriber, sensor_id@, metric@, dir);
        let n: usize = self.entries.len();
        let mut i: usize = 0;
        while i < n
            invariant
                n == self@.len(),
                0 <= i <= n,
                self.wf(),
                k == mk_key(subscriber, sensor_id@, metric@, dir),
                forall|j: int| 0 <= j < i ==> (#[trigger] self@[j]).key() != k,
            decreases n - i,
        {
            let e = &self.entries[i];
            if e.subscriber == subscriber && str_eq(e.sensor_id.as_str(), sensor_id)
                && str_eq(e.metric.as_str(), metric) && e.dir == dir {
                assert(self@[i as int].key() == k);
                return Some(i);
            }
            i = i + 1;
        }
        None
    }

    /// Upserts the value stored under the given key (last write wins).
    pub fn set(&mut self, subscriber: i64, sensor_id: &str, metric: &str, dir: BoundDir, value: V)
        requires
            old(self).wf(),
        ensures
            final(self).wf(),
            final(self).map() == old(self).map().insert(mk_key(subscriber, sensor_id@, metric@, dir), value),
            has_key(old(self)@, mk_key(subscriber, sensor_id@, metric@, dir)) ==> final(self)@
                == old(self)@.update(
                    index_of(old(self)@, mk_key(subscriber, sensor_id@, metric@, dir)),
                    final(self)@[index_of(old(self)@, mk_key(subscriber, sensor_id@, metric@, dir))],
                ),
            !has_key(old(self)@, mk_key(subscriber, sensor_id@, metric@, dir)) ==> final(self)@
                == old(self)@.push(final(self)@.last()),
            final(self)@.len() == old(self)@.len() + (if has_key(old(self)@, mk_key(subscriber, sensor_id@, metric@, dir)) { 0int } else { 1int }),
    {
        let ghost k = mk_key(subscriber, sensor_id@, metric@, dir);
        let e = BoundEntry {
            subscriber,
            sensor_id: sensor_id.to_owned(),
            metric: metric.to_owned(),
            dir,
            value,
        };
        assert(e.key() == k);
        match self.find(subscriber, sensor_id, metric, dir) {
            Some(i) => {
                let ghost s0 = self@;
                self.entries[i] = e;
                assert(self@ == s0.update(i as int, e));
                proof {
                    lemma_to_map_update(s0, i as int, e);
                    assert(entries_unique(self@)) by {
                        assert(forall|p: int| 0 <= p < s0.len() && p != i ==> self@[p] == s0[p]);
                        assert(forall|p: int| 0 <= p < s0.len() ==> (#[trigger] self@[p]).key() == s0[p].key());
                    }
                }
            },
            None => {
                let ghost s0 = self@;
                self.entries.push(e);
                assert(self@ == s0.push(e));
                proof {
                    lemma_to_map_push(s0, e);
                    assert(entries_unique(self@)) by {
                        assert(forall|p: int| 0 <= p < s0.len() ==> self@[p] == s0[p]);
                        assert(forall|p: int| 0 <= p < self@.len() ==> (#[trigger] self@[p]).key()
                            == (if p < s0.len() { s0[p].key() } else { e.key() }));
                    }
                }
            },
        }
    }

    /// The value stored under the given key, if any.
    pub fn get(&self, subscriber: i64, sensor_id: &str, metric: &str, dir: BoundDir) -> (r: Option<V>)
        requires
            self.wf(),
        ensures
            match r {
                Some(v) => self.map().contains_key(mk_key(subscriber, sensor_id@, metric@, dir))
                    && self.map()[mk_key(subscriber, sensor_id@, metric@, dir)] == v,
                None => !self.map().contains_key(mk_key(subscriber, sensor_id@, metric@, dir)),
            },
    {
        let ghost k = mk_key(subscriber, sensor_id@, metric@, dir);
        proof {
            lemma_to_map_contains(self@, k);
        }
        match self.find(subscriber, sensor_id, metric, dir) {
            Some(i) => {
                proof {
                    lemma_to_map_at(self@, i as int);
                }
                Some(self.entries[i].value)
            },
            None => None,
        }
    }

    /// Removes the bound stored under the given key, if any.
    pub fn clear(&mut self, subscriber: i64, sensor_id: &str, metric: &str, dir: BoundDir)
        requires
            old(self).wf(),
        ensures
            final(self).wf(),
            final(self).map() == old(self).map().remove(mk_key(subscriber, sensor_id@, metric@, dir)),
    {
        let ghost k = mk_key(subscriber, sensor_id@, metric@, dir);
        proof {
            lemma_to_map_contains(old(self)@, k);
        }
        match self.find(subscriber, sensor_id, metric, dir) {
            Some(i) => {
                let ghost s0 = self@;
                self.entries.remove(i);
                proof {
                    lemma_to_map_remove(s0, i as int);
                    assert(entries_unique(self@)) by {
                        assert(forall|p: int| 0 <= p < self@.len() ==> (#[trigger] self@[p])
                            == (if p < i as int { s0[p] } else { s0[p + 1] }));
                    }
                }
            },
            None => {
                proof {
                    assert(self.map() =~= self.map().remove(k));
                }
            },
        }
    }

    /// All of one subscriber's rows, in table order.
    pub fn get_all(&self, subscriber: i64) -> (r: Vec<BoundEntry<V>>)
        ensures
            r@ == self@.filter(owned_by(subscriber)),
    {
        let ghost f = owned_by::<V>(subscriber);
        let n: usize = self.entries.len();
        let mut r: Vec<BoundEntry<V>> = Vec::new();
        let mut i: usize = 0;
        while i < n
            invariant
                n == self@.len(),
                0 <= i <= n,
                f == owned_by::<V>(subscriber),
                r@ == self@.take(i as int).filter(f),
            decreases n - i,
        {
            proof {
                reveal_with_fuel(Seq::filter, 2);
                assert(self@.take(i + 1).drop_last() =~= self@.take(i as int));
                assert(self@.take(i + 1).last() == self@[i as int]);
                if f(self@[i as int]) {
                    assert(self@.take(i + 1).filter(f) == self@.take(i as int).filter(f).push(self@[i as int]));
                } else {
                    assert(self@.take(i + 1).filter(f) == self@.take(i as int).filter(f));
                }
            }
            let e = &self.entries[i];
            if e.subscriber == subscriber {
                r.push(e.duplicate());
                assert(f(self@[i as int]));
            } else {
                assert(!f(self@[i as int]));
            }
            assert(r@ == self@.take(i + 1).filter(f));
            i = i + 1;
        }
        assert(self@.take(n as int) =~= self@);
        r
    }

    /// How many bounds the table holds.
    pub fn len(&self) -> (n: usize)
        ensures
            n == self@.len(),
    {
        self.entries.len()
    }
}

/// Setting a bound is idempotent: repeated identical upserts leave exactly
/// the state of one upsert, at map level — the stored value is the last one
/// set, however many times it was set.
pub proof fn lemma_set_idempotent<V>(m: Map<BoundKey, V>, k: BoundKey, v: V)
    ensures
        m.insert(k, v).insert(k, v) == m.insert(k, v),
{
    assert(m.insert(k, v).insert(k, v) =~= m.insert(k, v));
}

} // verus!
