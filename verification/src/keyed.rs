//! Collections of records that are found by a key: each key is held at most
//! once, and the collection reads as a map from keys to records.

use vstd::prelude::*;
use crate::text::str_eq;

verus! {

/// Records that carry a text key.
pub trait Keyed {
    /// The key of the record.
    spec fn key(&self) -> Seq<char>;

    /// The key of the record, to compare with.
    fn key_text(&self) -> (r: &String)
        ensures
            r@ == self.key();
}

/// A list of records with distinct text keys.
pub struct KeyedList<T> {
    items: Vec<T>,
}

impl<T: Keyed> KeyedList<T> {
    /// No two records share a key.
    pub open spec fn wf(&self) -> bool {
        forall|i: int, j: int|
            0 <= i < j < self.seq().len() ==> (#[trigger] self.seq()[i]).key() != (#[trigger] self.seq()[j]).key()
    }

    /// The records, in the order they were first added.
    pub closed spec fn seq(&self) -> Seq<T> {
        self.items@
    }

    /// Whether a record with key `k` is held.
    pub open spec fn contains(&self, k: Seq<char>) -> bool {
        exists|i: int| 0 <= i < self.seq().len() && (#[trigger] self.seq()[i]).key() == k
    }

    /// The record with key `k`.
    pub open spec fn get_spec(&self, k: Seq<char>) -> T {
        self.seq()[choose|i: int| 0 <= i < self.seq().len() && (#[trigger] self.seq()[i]).key() == k]
    }

    /// The records as a map from their keys.
    pub open spec fn view(&self) -> Map<Seq<char>, T> {
        Map::new(|k: Seq<char>| self.contains(k), |k: Seq<char>| self.get_spec(k))
    }

    /// The record at a position is the one its key maps to.
    pub proof fn lemma_get_at(&self, i: int)
        requires
            self.wf(),
            0 <= i < self.seq().len(),
        ensures
            self.get_spec(self.seq()[i].key()) == self.seq()[i],
            self.contains(self.seq()[i].key()),
    {
        let k = self.seq()[i].key();
        assert(self.contains(k));
        let c = choose|c: int| 0 <= c < self.seq().len() && (#[trigger] self.seq()[c]).key() == k;
        if c < i {
            assert(self.seq()[c].key() != self.seq()[i].key());
        } else if c > i {
            assert(self.seq()[i].key() != self.seq()[c].key());
        }
    }

    /// No records.
    pub fn new() -> (r: Self)
        ensures
            r.wf(),
            r.view() == Map::<Seq<char>, T>::empty(),
            r.seq().len() == 0,
    {
        let r = KeyedList { items: Vec::new() };
        assert(r.view() =~= Map::<Seq<char>, T>::empty());
        r
    }

    /// The number of records.
    pub fn len(&self) -> (r: usize)
        requires
            self.wf(),
        ensures
            r == self.seq().len(),
            r == self.view().dom().len(),
    {
        proof {
            self.lemma_len_pub();
        }
        self.items.len()
    }

    /// The map has as many keys as the list has records.
    pub proof fn lemma_len_pub(&self)
        requires
            self.wf(),
        ensures
            self.view().dom().len() == self.seq().len(),
            self.view().dom().finite(),
    {
        let keys = self.seq().map_values(|t: T| t.key());
        assert forall|i: int, j: int| 0 <= i < keys.len() && 0 <= j < keys.len() && i != j implies keys[i] != keys[j] by {
            if i < j {
                assert(self.seq()[i].key() != self.seq()[j].key());
            } else {
                assert(self.seq()[j].key() != self.seq()[i].key());
            }
        }
        assert(keys.no_duplicates());
        assert(self.view().dom() =~= keys.to_set()) by {
            assert forall|k: Seq<char>| self.view().dom().contains(k) implies keys.to_set().contains(k) by {
                let i = choose|i: int| 0 <= i < self.seq().len() && (#[trigger] self.seq()[i]).key() == k;
                assert(keys[i] == k);
            }
            assert forall|k: Seq<char>| keys.to_set().contains(k) implies self.view().dom().contains(k) by {
                let i = choose|i: int| 0 <= i < keys.len() && keys[i] == k;
                assert(self.seq()[i].key() == k);
            }
        }
        keys.unique_seq_to_set();
    }

    /// The records, in the order they were first added.
    pub fn items(&self) -> (r: &Vec<T>)
        ensures
            r@ == self.seq(),
    {
        &self.items
    }

    /// Gives up the records, in order.
    pub fn into_items(self) -> (r: Vec<T>)
        ensures
            r@ == self.seq(),
    {
        self.items
    }

    /// The position of the record with key `k`, if any.
    pub fn position(&self, k: &str) -> (r: Option<usize>)
        requires
            self.wf(),
        ensures
            r is None <==> !self.contains(k@),
            r matches Some(i) ==> i < self.seq().len() && self.seq()[i as int].key() == k@ && self.get_spec(k@)
                == self.seq()[i as int],
    {
        let mut i: usize = 0;
        while i < self.items.len()
            invariant
                self.wf(),
                i <= self.seq().len(),
                self.seq() == self.items@,
                forall|j: int| 0 <= j < i ==> (#[trigger] self.seq()[j]).key() != k@,
            decreases self.seq().len() - i,
        {
            let kt = self.items[i].key_text();
            if str_eq(kt.as_str(), k) {
                proof {
                    self.lemma_get_at(i as int);
                }
                return Some(i);
            }
            i = i + 1;
        }
        None
    }

    /// The record with key `k`, if any.
    pub fn get(&self, k: &str) -> (r: Option<&T>)
        requires
            self.wf(),
        ensures
            r is Some <==> self.view().dom().contains(k@),
            r matches Some(t) ==> *t == self.view()[k@],
    {
        match self.position(k) {
            Some(i) => Some(&self.items[i]),
            None => None,
        }
    }

    /// The record at a position.
    pub fn at(&self, i: usize) -> (r: &T)
        requires
            i < self.seq().len(),
        ensures
            *r == self.seq()[i as int],
    {
        &self.items[i]
    }

    /// Adds a record, replacing the one with the same key if there is one
    /// (in its place).
    pub fn insert(&mut self, item: T)
        requires
            old(self).wf(),
        ensures
            final(self).wf(),
            final(self).view() == old(self).view().insert(item.key(), item),
            old(self).contains(item.key()) ==> final(self).seq().len() == old(self).seq().len(),
            !old(self).contains(item.key()) ==> final(self).seq() == old(self).seq().push(item),
    {
        let ghost k = item.key();
        let ghost it = item;
        let kt = item.key_text().clone();
        match self.position(kt.as_str()) {
            Some(i) => {
                self.items.set(i, item);
                proof {
                    assert(self.seq() == old(self).seq().update(i as int, it));
                    assert forall|a: int, b: int| 0 <= a < b < self.seq().len() implies (#[trigger] self.seq()[a]).key()
                        != (#[trigger] self.seq()[b]).key() by {
                        if a != i as int && b != i as int {
                            assert(old(self).seq()[a].key() != old(self).seq()[b].key());
                        } else if a == i as int {
                            assert(old(self).seq()[a].key() != old(self).seq()[b].key());
                        } else {
                            assert(old(self).seq()[a].key() != old(self).seq()[b].key());
                        }
                    }
                    self.lemma_get_at(i as int);
                    assert forall|q: Seq<char>| q != k implies (self.contains(q) <==> old(self).contains(q)) && (self.contains(
                        q,
                    ) ==> self.get_spec(q) == old(self).get_spec(q)) by {
                        if self.contains(q) {
                            let j = choose|j: int| 0 <= j < self.seq().len() && (#[trigger] self.seq()[j]).key() == q;
                            assert(j != i as int);
                            assert(old(self).seq()[j].key() == q);
                            self.lemma_get_at(j);
                            old(self).lemma_get_at(j);
                        }
                        if old(self).contains(q) {
                            let j = choose|j: int| 0 <= j < old(self).seq().len() && (#[trigger] old(self).seq()[j]).key() == q;
                            assert(j != i as int);
                            assert(self.seq()[j].key() == q);
                        }
                    }
                    assert(self.view() =~= old(self).view().insert(k, it));
                }
            },
            None => {
                self.items.push(item);
                proof {
                    assert(self.seq() == old(self).seq().push(it));
                    let n = self.seq().len() - 1;
                    assert forall|a: int, b: int| 0 <= a < b < self.seq().len() implies (#[trigger] self.seq()[a]).key()
                        != (#[trigger] self.seq()[b]).key() by {
                        if b == n {
                            if self.seq()[a].key() == k {
                                assert(old(self).seq()[a].key() == k);
                                assert(old(self).contains(k));
                            }
                        } else {
                            assert(old(self).seq()[a].key() != old(self).seq()[b].key());
                        }
                    }
                    self.lemma_get_at(n);
                    assert forall|q: Seq<char>| q != k implies (self.contains(q) <==> old(self).contains(q)) && (self.contains(
                        q,
                    ) ==> self.get_spec(q) == old(self).get_spec(q)) by {
                        if self.contains(q) {
                            let j = choose|j: int| 0 <= j < self.seq().len() && (#[trigger] self.seq()[j]).key() == q;
                            assert(j != n);
                            assert(old(self).seq()[j].key() == q);
                            self.lemma_get_at(j);
                            old(self).lemma_get_at(j);
                        }
                        if old(self).contains(q) {
                            let j = choose|j: int| 0 <= j < old(self).seq().len() && (#[trigger] old(self).seq()[j]).key() == q;
                            assert(self.seq()[j].key() == q);
                        }
                    }
                    assert(self.view() =~= old(self).view().insert(k, it));
                }
            },
        }
    }

    /// Takes out the record with key `k`, if any; the others keep their order.
    pub fn remove(&mut self, k: &str) -> (r: Option<T>)
        requires
            old(self).wf(),
        ensures
            final(self).wf(),
            final(self).view() == old(self).view().remove(k@),
            r is Some <==> old(self).view().dom().contains(k@),
            r matches Some(t) ==> t == old(self).view()[k@],
            old(self).contains(k@) ==> final(self).seq().len() == old(self).seq().len() - 1,
            !old(self).contains(k@) ==> final(self).seq() == old(self).seq(),
    {
        match self.position(k) {
            None => None,
            Some(i) => {
                let t = self.items.remove(i);
                proof {
                    let o = old(self).seq();
                    assert(self.seq() == o.remove(i as int));
                    assert forall|a: int, b: int| 0 <= a < b < self.seq().len() implies (#[trigger] self.seq()[a]).key()
                        != (#[trigger] self.seq()[b]).key() by {
                        let a2 = if a < i { a } else { a + 1 };
                        let b2 = if b < i { b } else { b + 1 };
                        assert(self.seq()[a] == o[a2]);
                        assert(self.seq()[b] == o[b2]);
                        assert(o[a2].key() != o[b2].key());
                    }
                    assert forall|q: Seq<char>| q != k@ implies (self.contains(q) <==> old(self).contains(q)) && (self.contains(
                        q,
                    ) ==> self.get_spec(q) == old(self).get_spec(q)) by {
                        if self.contains(q) {
                            let j = choose|j: int| 0 <= j < self.seq().len() && (#[trigger] self.seq()[j]).key() == q;
                            let j2 = if j < i { j } else { j + 1 };
                            assert(o[j2] == self.seq()[j]);
                            self.lemma_get_at(j);
                            old(self).lemma_get_at(j2);
                        }
                        if old(self).contains(q) {
                            let j = choose|j: int| 0 <= j < o.len() && (#[trigger] o[j]).key() == q;
                            assert(j != i as int);
                            let j3 = if j < i { j } else { j - 1 };
                            assert(self.seq()[j3] == o[j]);
                        }
                    }
                    assert forall|q: Seq<char>| self.contains(q) implies q != k@ by {
                        let j = choose|j: int| 0 <= j < self.seq().len() && (#[trigger] self.seq()[j]).key() == q;
                        let j2 = if j < i { j } else { j + 1 };
                        assert(o[j2] == self.seq()[j]);
                        assert(o[j2].key() != o[i as int].key());
                    }
                    assert(self.view() =~= old(self).view().remove(k@));
                }
                Some(t)
            },
        }
    }

    /// Changes the record at a position, keeping its key.
    pub fn replace_at(&mut self, i: usize, item: T)
        requires
            old(self).wf(),
            i < old(self).seq().len(),
            item.key() == old(self).seq()[i as int].key(),
        ensures
            final(self).wf(),
            final(self).seq() == old(self).seq().update(i as int, item),
            final(self).view() == old(self).view().insert(item.key(), item),
    {
        let ghost it = item;
        self.items.set(i, item);
        proof {
            let o = old(self).seq();
            let k = it.key();
            assert(self.seq() == o.update(i as int, it));
            assert forall|a: int, b: int| 0 <= a < b < self.seq().len() implies (#[trigger] self.seq()[a]).key()
                != (#[trigger] self.seq()[b]).key() by {
                assert(o[a].key() != o[b].key());
            }
            self.lemma_get_at(i as int);
            assert forall|q: Seq<char>| q != k implies (self.contains(q) <==> old(self).contains(q)) && (self.contains(q)
                ==> self.get_spec(q) == old(self).get_spec(q)) by {
                if self.contains(q) {
                    let j = choose|j: int| 0 <= j < self.seq().len() && (#[trigger] self.seq()[j]).key() == q;
                    assert(j != i as int);
                    assert(o[j].key() == q);
                    self.lemma_get_at(j);
                    old(self).lemma_get_at(j);
                }
                if old(self).contains(q) {
                    let j = choose|j: int| 0 <= j < o.len() && (#[trigger] o[j]).key() == q;
                    assert(self.seq()[j].key() == q);
                }
            }
            assert(self.view() =~= old(self).view().insert(k, it));
        }
    }
}

/// A lookup gives back what was inserted under its key, finds nothing under
/// a key just removed, and sees every other key unchanged by either.
pub proof fn law_read_after_write<T>(m: Map<Seq<char>, T>, key: Seq<char>, item: T, other: Seq<char>)
    ensures
        m.insert(key, item).dom().contains(key) && m.insert(key, item)[key] == item,
        !m.remove(key).dom().contains(key),
        other != key ==> (m.insert(key, item).dom().contains(other) == m.dom().contains(other) && m.remove(key).dom().contains(
            other,
        ) == m.dom().contains(other)),
        other != key && m.dom().contains(other) ==> m.insert(key, item)[other] == m[other] && m.remove(key)[other] == m[other],
{
}

/// Records that carry the time of their last activity, in milliseconds.
pub trait Active: Keyed {
    /// The time of the last activity.
    spec fn activity(&self) -> u64;

    /// The time of the last activity, to compare with.
    fn activity_ms(&self) -> (r: u64)
        ensures
            r == self.activity();
}

/// Whether a record has been idle for longer than `timeout_ms` at `now_ms`
/// (a record active after `now_ms` is not idle).
pub open spec fn idle<T: Active>(t: T, now_ms: u64, timeout_ms: u64) -> bool {
    now_ms - t.activity() > timeout_ms
}

/// The records of `m` that are not idle.
pub open spec fn active_part<T: Active>(m: Map<Seq<char>, T>, now_ms: u64, timeout_ms: u64) -> Map<Seq<char>, T> {
    Map::new(|k: Seq<char>| m.dom().contains(k) && !idle(m[k], now_ms, timeout_ms), |k: Seq<char>| m[k])
}

/// Records that carry a numeric key.
pub trait NumKeyed {
    /// The key of the record.
    spec fn key(&self) -> u128;

    /// The key of the record, to compare with.
    fn key_num(&self) -> (r: u128)
        ensures
            r == self.key();
}

/// A list of records with distinct numeric keys.
pub struct NumKeyedList<T> {
    items: Vec<T>,
}

impl<T: NumKeyed> NumKeyedList<T> {
    /// No two records share a key.
    pub open spec fn wf(&self) -> bool {
        forall|i: int, j: int|
            0 <= i < j < self.seq().len() ==> (#[trigger] self.seq()[i]).key() != (#[trigger] self.seq()[j]).key()
    }

    /// The records, in the order they were first added.
    pub closed spec fn seq(&self) -> Seq<T> {
        self.items@
    }

    /// Whether a record with key `k` is held.
    pub open spec fn contains(&self, k: u128) -> bool {
        exists|i: int| 0 <= i < self.seq().len() && (#[trigger] self.seq()[i]).key() == k
    }

    /// The record with key `k`.
    pub open spec fn get_spec(&self, k: u128) -> T {
        self.seq()[choose|i: int| 0 <= i < self.seq().len() && (#[trigger] self.seq()[i]).key() == k]
    }

    /// The records as a map from their keys.
    pub open spec fn view(&self) -> Map<u128, T> {
        Map::new(|k: u128| self.contains(k), |k: u128| self.get_spec(k))
    }

    /// The record a key maps to carries that key.
    pub proof fn lemma_view_key(&self, k: u128)
        requires
            self.view().dom().contains(k),
        ensures
            self.view()[k].key() == k,
    {
    }

    /// The record at a position is the one its key maps to.
    pub proof fn lemma_get_at(&self, i: int)
        requires
            self.wf(),
            0 <= i < self.seq().len(),
        ensures
            self.get_spec(self.seq()[i].key()) == self.seq()[i],
            self.contains(self.seq()[i].key()),
    {
        let k = self.seq()[i].key();
        assert(self.contains(k));
        let c = choose|c: int| 0 <= c < self.seq().len() && (#[trigger] self.seq()[c]).key() == k;
        if c < i {
            assert(self.seq()[c].key() != self.seq()[i].key());
        } else if c > i {
            assert(self.seq()[i].key() != self.seq()[c].key());
        }
    }

    /// No records.
    pub fn new() -> (r: Self)
        ensures
            r.wf(),
            r.view() == Map::<u128, T>::empty(),
            r.seq().len() == 0,
    {
        let r = NumKeyedList { items: Vec::new() };
        assert(r.view() =~= Map::<u128, T>::empty());
        r
    }

    /// The number of records.
    pub fn len(&self) -> (r: usize)
        requires
            self.wf(),
        ensures
            r == self.seq().len(),
            r == self.view().dom().len(),
    {
        proof {
            self.lemma_len_pub();
        }
        self.items.len()
    }

    /// The map has as many keys as the list has records.
    pub proof fn lemma_len_pub(&self)
        requires
            self.wf(),
        ensures
            self.view().dom().len() == self.seq().len(),
            self.view().dom().finite(),
    {
        let keys = self.seq().map_values(|t: T| t.key());
        assert forall|i: int, j: int| 0 <= i < keys.len() && 0 <= j < keys.len() && i != j implies keys[i] != keys[j] by {
            if i < j {
                assert(self.seq()[i].key() != self.seq()[j].key());
            } else {
                assert(self.seq()[j].key() != self.seq()[i].key());
            }
        }
        assert(keys.no_duplicates());
        assert(self.view().dom() =~= keys.to_set()) by {
            assert forall|k: u128| self.view().dom().contains(k) implies keys.to_set().contains(k) by {
                let i = choose|i: int| 0 <= i < self.seq().len() && (#[trigger] self.seq()[i]).key() == k;
                assert(keys[i] == k);
            }
            assert forall|k: u128| keys.to_set().contains(k) implies self.view().dom().contains(k) by {
                let i = choose|i: int| 0 <= i < keys.len() && keys[i] == k;
                assert(self.seq()[i].key() == k);
            }
        }
        keys.unique_seq_to_set();
    }

    /// The records, in the order they were first added.
    pub fn items(&self) -> (r: &Vec<T>)
        ensures
            r@ == self.seq(),
    {
        &self.items
    }

    /// The position of the record with key `k`, if any.
    pub fn position(&self, k: u128) -> (r: Option<usize>)
        requires
            self.wf(),
        ensures
            r is None <==> !self.contains(k),
            r matches Some(i) ==> i < self.seq().len() && self.seq()[i as int].key() == k && self.get_spec(k)
                == self.seq()[i as int],
    {
        let mut i: usize = 0;
        while i < self.items.len()
            invariant
                self.wf(),
                i <= self.seq().len(),
                self.seq() == self.items@,
                forall|j: int| 0 <= j < i ==> (#[trigger] self.seq()[j]).key() != k,
            decreases self.seq().len() - i,
        {
            let kt = self.items[i].key_num();
            if kt == k {
                proof {
                    self.lemma_get_at(i as int);
                }
                return Some(i);
            }
            i = i + 1;
        }
        None
    }

    /// The record with key `k`, if any.
    pub fn get(&self, k: u128) -> (r: Option<&T>)
        requires
            self.wf(),
        ensures
            r is Some <==> self.view().dom().contains(k),
            r matches Some(t) ==> *t == self.view()[k],
    {
        match self.position(k) {
            Some(i) => Some(&self.items[i]),
            None => None,
        }
    }

    /// The record at a position.
    pub fn at(&self, i: usize) -> (r: &T)
        requires
            i < self.seq().len(),
        ensures
            *r == self.seq()[i as int],
    {
        &self.items[i]
    }

    /// Adds a record, replacing the one with the same key if there is one
    /// (in its place).
    pub fn insert(&mut self, item: T)
        requires
            old(self).wf(),
        ensures
            final(self).wf(),
            final(self).view() == old(self).view().insert(item.key(), item),
            old(self).contains(item.key()) ==> final(self).seq().len() == old(self).seq().len(),
            !old(self).contains(item.key()) ==> final(self).seq() == old(self).seq().push(item),
    {
        let ghost k = item.key();
        let ghost it = item;
        let kt = item.key_num();
        match self.position(kt) {
            Some(i) => {
                self.items.set(i, item);
                proof {
                    assert(self.seq() == old(self).seq().update(i as int, it));
                    assert forall|a: int, b: int| 0 <= a < b < self.seq().len() implies (#[trigger] self.seq()[a]).key()
                        != (#[trigger] self.seq()[b]).key() by {
                        if a != i as int && b != i as int {
                            assert(old(self).seq()[a].key() != old(self).seq()[b].key());
                        } else if a == i as int {
                            assert(old(self).seq()[a].key() != old(self).seq()[b].key());
                        } else {
                            assert(old(self).seq()[a].key() != old(self).seq()[b].key());
                        }
                    }
                    self.lemma_get_at(i as int);
                    assert forall|q: u128| q != k implies (self.contains(q) <==> old(self).contains(q)) && (self.contains(
                        q,
                    ) ==> self.get_spec(q) == old(self).get_spec(q)) by {
                        if self.contains(q) {
                            let j = choose|j: int| 0 <= j < self.seq().len() && (#[trigger] self.seq()[j]).key() == q;
                            assert(j != i as int);
                            assert(old(self).seq()[j].key() == q);
                            self.lemma_get_at(j);
                            old(self).lemma_get_at(j);
                        }
                        if old(self).contains(q) {
                            let j = choose|j: int| 0 <= j < old(self).seq().len() && (#[trigger] old(self).seq()[j]).key() == q;
                            assert(j != i as int);
                            assert(self.seq()[j].key() == q);
                        }
                    }
                    assert(self.view() =~= old(self).view().insert(k, it));
                }
            },
            None => {
                self.items.push(item);
                proof {
                    assert(self.seq() == old(self).seq().push(it));
                    let n = self.seq().len() - 1;
                    assert forall|a: int, b: int| 0 <= a < b < self.seq().len() implies (#[trigger] self.seq()[a]).key()
                        != (#[trigger] self.seq()[b]).key() by {
                        if b == n {
                            if self.seq()[a].key() == k {
                                assert(old(self).seq()[a].key() == k);
                                assert(old(self).contains(k));
                            }
                        } else {
                            assert(old(self).seq()[a].key() != old(self).seq()[b].key());
                        }
                    }
                    self.lemma_get_at(n);
                    assert forall|q: u128| q != k implies (self.contains(q) <==> old(self).contains(q)) && (self.contains(
                        q,
                    ) ==> self.get_spec(q) == old(self).get_spec(q)) by {
                        if self.contains(q) {
                            let j = choose|j: int| 0 <= j < self.seq().len() && (#[trigger] self.seq()[j]).key() == q;
                            assert(j != n);
                            assert(old(self).seq()[j].key() == q);
                            self.lemma_get_at(j);
                            old(self).lemma_get_at(j);
                        }
                        if old(self).contains(q) {
                            let j = choose|j: int| 0 <= j < old(self).seq().len() && (#[trigger] old(self).seq()[j]).key() == q;
                            assert(self.seq()[j].key() == q);
                        }
                    }
                    assert(self.view() =~= old(self).view().insert(k, it));
                }
            },
        }
    }

    /// Takes out the record with key `k`, if any; the others keep their order.
    pub fn remove(&mut self, k: u128) -> (r: Option<T>)
        requires
            old(self).wf(),
        ensures
            final(self).wf(),
            final(self).view() == old(self).view().remove(k),
            r is Some <==> old(self).view().dom().contains(k),
            r matches Some(t) ==> t == old(self).view()[k],
            old(self).contains(k) ==> final(self).seq().len() == old(self).seq().len() - 1,
            !old(self).contains(k) ==> final(self).seq() == old(self).seq(),
    {
        match self.position(k) {
            None => None,
            Some(i) => {
                let t = self.items.remove(i);
                proof {
                    let o = old(self).seq();
                    assert(self.seq() == o.remove(i as int));
                    assert forall|a: int, b: int| 0 <= a < b < self.seq().len() implies (#[trigger] self.seq()[a]).key()
                        != (#[trigger] self.seq()[b]).key() by {
                        let a2 = if a < i { a } else { a + 1 };
                        let b2 = if b < i { b } else { b + 1 };
                        assert(self.seq()[a] == o[a2]);
                        assert(self.seq()[b] == o[b2]);
                        assert(o[a2].key() != o[b2].key());
                    }
                    assert forall|q: u128| q != k implies (self.contains(q) <==> old(self).contains(q)) && (self.contains(
                        q,
                    ) ==> self.get_spec(q) == old(self).get_spec(q)) by {
                        if self.contains(q) {
                            let j = choose|j: int| 0 <= j < self.seq().len() && (#[trigger] self.seq()[j]).key() == q;
                            let j2 = if j < i { j } else { j + 1 };
                            assert(o[j2] == self.seq()[j]);
                            self.lemma_get_at(j);
                            old(self).lemma_get_at(j2);
                        }
                        if old(self).contains(q) {
                            let j = choose|j: int| 0 <= j < o.len() && (#[trigger] o[j]).key() == q;
                            assert(j != i as int);
                            let j3 = if j < i { j } else { j - 1 };
                            assert(self.seq()[j3] == o[j]);
                        }
                    }
                    assert forall|q: u128| self.contains(q) implies q != k by {
                        let j = choose|j: int| 0 <= j < self.seq().len() && (#[trigger] self.seq()[j]).key() == q;
                        let j2 = if j < i { j } else { j + 1 };
                        assert(o[j2] == self.seq()[j]);
                        assert(o[j2].key() != o[i as int].key());
                    }
                    assert(self.view() =~= old(self).view().remove(k));
                }
                Some(t)
            },
        }
    }

    /// Changes the record at a position, keeping its key.
    pub fn replace_at(&mut self, i: usize, item: T)
        requires
            old(self).wf(),
            i < old(self).seq().len(),
            item.key() == old(self).seq()[i as int].key(),
        ensures
            final(self).wf(),
            final(self).seq() == old(self).seq().update(i as int, item),
            final(self).view() == old(self).view().insert(item.key(), item),
    {
        let ghost it = item;
        self.items.set(i, item);
        proof {
            let o = old(self).seq();
            let k = it.key();
            assert(self.seq() == o.update(i as int, it));
            assert forall|a: int, b: int| 0 <= a < b < self.seq().len() implies (#[trigger] self.seq()[a]).key()
                != (#[trigger] self.seq()[b]).key() by {
                assert(o[a].key() != o[b].key());
            }
            self.lemma_get_at(i as int);
            assert forall|q: u128| q != k implies (self.contains(q) <==> old(self).contains(q)) && (self.contains(q)
                ==> self.get_spec(q) == old(self).get_spec(q)) by {
                if self.contains(q) {
                    let j = choose|j: int| 0 <= j < self.seq().len() && (#[trigger] self.seq()[j]).key() == q;
                    assert(j != i as int);
                    assert(o[j].key() == q);
                    self.lemma_get_at(j);
                    old(self).lemma_get_at(j);
                }
                if old(self).contains(q) {
                    let j = choose|j: int| 0 <= j < o.len() && (#[trigger] o[j]).key() == q;
                    assert(self.seq()[j].key() == q);
                }
            }
            assert(self.view() =~= old(self).view().insert(k, it));
        }
    }
}

} // verus!
