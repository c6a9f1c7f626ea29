use vstd::prelude::*;

use crate::types::{ActiveOccurrence, Occurrence, Staff, Vehicle};

verus! {

/// A record that carries its own id.
pub trait Keyed {
    spec fn key(&self) -> Seq<char>;

    fn id(&self) -> (r: &String)
        ensures
            r@ == self.key(),
    ;
}

impl Keyed for Occurrence {
    open spec fn key(&self) -> Seq<char> {
        self.internal_id@
    }

    fn id(&self) -> (r: &String) {
        &self.internal_id
    }
}

impl Keyed for Staff {
    open spec fn key(&self) -> Seq<char> {
        self.internal_id@
    }

    fn id(&self) -> (r: &String) {
        &self.internal_id
    }
}

impl Keyed for Vehicle {
    open spec fn key(&self) -> Seq<char> {
        self.internal_id@
    }

    fn id(&self) -> (r: &String) {
        &self.internal_id
    }
}

impl Keyed for ActiveOccurrence {
    open spec fn key(&self) -> Seq<char> {
        self.internal_id@
    }

    fn id(&self) -> (r: &String) {
        &self.internal_id
    }
}

/// No two records of the sequence share an id.
pub open spec fn unique_keys<T: Keyed>(s: Seq<T>) -> bool {
    forall|i: int, j: int|
        0 <= i < s.len() && 0 <= j < s.len() && i != j ==> #[trigger] s[i].key() != #[trigger] s[j].key()
}

/// Some record of the sequence has id `k`.
pub open spec fn has_key<T: Keyed>(s: Seq<T>, k: Seq<char>) -> bool {
    exists|i: int| 0 <= i < s.len() && #[trigger] s[i].key() == k
}

/// The position of the record with id `k`.
pub open spec fn index_of<T: Keyed>(s: Seq<T>, k: Seq<char>) -> int {
    choose|i: int| 0 <= i < s.len() && #[trigger] s[i].key() == k
}

/// The records of a sequence as a map from id to record.
pub open spec fn key_map<T: Keyed>(s: Seq<T>) -> Map<Seq<char>, T> {
    Map::new(|k: Seq<char>| has_key(s, k), |k: Seq<char>| s[index_of(s, k)])
}

pub proof fn lemma_key_map_index<T: Keyed>(s: Seq<T>, i: int)
    requires
        unique_keys(s),
        0 <= i < s.len(),
    ensures
        key_map(s).contains_key(s[i].key()),
        key_map(s)[s[i].key()] == s[i],
{
    assert(has_key(s, s[i].key()));
    let j = index_of(s, s[i].key());
    assert(s[j].key() == s[i].key());
}

pub proof fn lemma_key_map_update<T: Keyed>(s: Seq<T>, i: int, x: T)
    requires
        unique_keys(s),
        0 <= i < s.len(),
        x.key() == s[i].key(),
    ensures
        unique_keys(s.update(i, x)),
        key_map(s.update(i, x)) == key_map(s).insert(x.key(), x),
{
    let t = s.update(i, x);
    assert forall|a: int, b: int|
        0 <= a < t.len() && 0 <= b < t.len() && a != b implies #[trigger] t[a].key() != #[trigger] t[b].key() by {
        assert(t[a].key() == s[a].key());
        assert(t[b].key() == s[b].key());
    }
    assert forall|k: Seq<char>| #[trigger] key_map(t).contains_key(k) == key_map(s).insert(x.key(), x).contains_key(k) by {
        if has_key(s, k) {
            let j = index_of(s, k);
            assert(t[j].key() == k);
        }
        if has_key(t, k) {
            let j = index_of(t, k);
            assert(s[j].key() == k);
        }
    }
    assert forall|k: Seq<char>| #[trigger] key_map(t).contains_key(k) implies key_map(t)[k] == key_map(s).insert(x.key(), x)[k] by {
        let j = index_of(t, k);
        lemma_key_map_index(t, j);
        if j != i {
            assert(s[j] == t[j]);
            lemma_key_map_index(s, j);
        }
    }
    assert(key_map(t) =~= key_map(s).insert(x.key(), x));
}

pub proof fn lemma_key_map_push<T: Keyed>(s: Seq<T>, x: T)
    requires
        unique_keys(s),
        !has_key(s, x.key()),
    ensures
        unique_keys(s.push(x)),
        key_map(s.push(x)) == key_map(s).insert(x.key(), x),
{
    let t = s.push(x);
    assert forall|a: int, b: int|
        0 <= a < t.len() && 0 <= b < t.len() && a != b implies #[trigger] t[a].key() != #[trigger] t[b].key() by {
        if a < s.len() && b < s.len() {
            assert(t[a] == s[a] && t[b] == s[b]);
        } else if a < s.len() {
            assert(t[a] == s[a]);
        } else if b < s.len() {
            assert(t[b] == s[b]);
        }
    }
    assert forall|k: Seq<char>| #[trigger] key_map(t).contains_key(k) == key_map(s).insert(x.key(), x).contains_key(k) by {
        if has_key(s, k) {
            let j = index_of(s, k);
            assert(t[j].key() == k);
        }
        if has_key(t, k) {
            let j = index_of(t, k);
            if j < s.len() {
                assert(s[j].key() == k);
            }
        }
        if k == x.key() {
            assert(t[s.len() as int].key() == k);
        }
    }
    assert forall|k: Seq<char>| #[trigger] key_map(t).contains_key(k) implies key_map(t)[k] == key_map(s).insert(x.key(), x)[k] by {
        let j = index_of(t, k);
        lemma_key_map_index(t, j);
        if j < s.len() {
            assert(s[j] == t[j]);
            lemma_key_map_index(s, j);
        }
    }
    assert(key_map(t) =~= key_map(s).insert(x.key(), x));
}

pub proof fn lemma_key_map_remove<T: Keyed>(s: Seq<T>, i: int)
    requires
        unique_keys(s),
        0 <= i < s.len(),
    ensures
        unique_keys(s.remove(i)),
        key_map(s.remove(i)) == key_map(s).remove(s[i].key()),
{
    let t = s.remove(i);
    let k0 = s[i].key();
    assert forall|a: int, b: int|
        0 <= a < t.len() && 0 <= b < t.len() && a != b implies #[trigger] t[a].key() != #[trigger] t[b].key() by {
        let sa = if a < i { a } else { a + 1 };
        let sb = if b < i { b } else { b + 1 };
        assert(t[a] == s[sa] && t[b] == s[sb]);
    }
    assert forall|k: Seq<char>| #[trigger] key_map(t).contains_key(k) == key_map(s).remove(k0).contains_key(k) by {
        if has_key(s, k) && k != k0 {
            let j = index_of(s, k);
            if j < i {
                assert(t[j].key() == k);
            } else {
                assert(j != i);
                assert(t[j - 1].key() == k);
            }
        }
        if has_key(t, k) {
            let j = index_of(t, k);
            let sj = if j < i { j } else { j + 1 };
            assert(s[sj].key() == k);
        }
    }
    assert forall|k: Seq<char>| #[trigger] key_map(t).contains_key(k) implies key_map(t)[k] == key_map(s).remove(k0)[k] by {
        let j = index_of(t, k);
        lemma_key_map_index(t, j);
        let sj = if j < i { j } else { j + 1 };
        assert(s[sj] == t[j]);
        lemma_key_map_index(s, sj);
    }
    assert(key_map(t) =~= key_map(s).remove(k0));
}

/// Two sequences with the same ids at the same positions give maps with the same ids, each
/// mapped to the record at its position.
pub proof fn lemma_key_map_pointwise<T: Keyed>(s: Seq<T>, t: Seq<T>)
    requires
        unique_keys(s),
        s.len() == t.len(),
        forall|j: int| 0 <= j < s.len() ==> #[trigger] t[j].key() == s[j].key(),
    ensures
        unique_keys(t),
        key_map(t).dom() == key_map(s).dom(),
        forall|k: Seq<char>| #[trigger] key_map(s).contains_key(k) ==> {
            let j = index_of(s, k);
            &&& 0 <= j < s.len()
            &&& s[j].key() == k
            &&& key_map(s)[k] == s[j]
            &&& key_map(t)[k] == t[j]
        },
{
    assert forall|a: int, b: int|
        0 <= a < t.len() && 0 <= b < t.len() && a != b implies #[trigger] t[a].key() != #[trigger] t[b].key() by {
        assert(t[a].key() == s[a].key());
        assert(t[b].key() == s[b].key());
    }
    assert forall|k: Seq<char>| #[trigger] key_map(t).contains_key(k) == key_map(s).contains_key(k) by {
        if has_key(s, k) {
            let j = index_of(s, k);
            assert(t[j].key() == k);
        }
        if has_key(t, k) {
            let j = index_of(t, k);
            assert(s[j].key() == k);
        }
    }
    assert(key_map(t).dom() =~= key_map(s).dom());
    assert forall|k: Seq<char>| #[trigger] key_map(s).contains_key(k) implies {
        let j = index_of(s, k);
        &&& 0 <= j < s.len()
        &&& s[j].key() == k
        &&& key_map(s)[k] == s[j]
        &&& key_map(t)[k] == t[j]
    } by {
        let j = index_of(s, k);
        lemma_key_map_index(s, j);
        assert(t[j].key() == k);
        lemma_key_map_index(t, j);
    }
}

/// Records kept in insertion order, at most one per id.
pub struct Table<T> {
    pub entries: Vec<T>,
}

impl<T: Keyed> Table<T> {
    pub open spec fn wf(&self) -> bool {
        unique_keys(self.entries@)
    }

    /// The table as a map from id to record.
    pub open spec fn view(&self) -> Map<Seq<char>, T> {
        key_map(self.entries@)
    }

    pub fn new() -> (r: Self)
        ensures
            r.wf(),
            r.view() == Map::<Seq<char>, T>::empty(),
    {
        let r = Table { entries: Vec::new() };
        assert(r.view() =~= Map::<Seq<char>, T>::empty());
        r
    }

    /// The position of the record with id `id`, if there is one.
    pub fn find(&self, id: &String) -> (r: Option<usize>)
        requires
            self.wf(),
        ensures
            match r {
                Some(i) => i < self.entries@.len() && self.entries@[i as int].key() == id@,
                None => !self.view().contains_key(id@),
            },
            r.is_some() == self.view().contains_key(id@),
    {
        let mut i: usize = 0;
        while i < self.entries.len()
            invariant
                i <= self.entries@.len(),
                forall|j: int| 0 <= j < i ==> #[trigger] self.entries@[j].key() != id@,
            decreases self.entries@.len() - i,
        {
            if self.entries[i].id().eq(id) {
                assert(has_key(self.entries@, id@));
                return Some(i);
            }
            i = i + 1;
        }
        None
    }

    /// The record with id `id`, if there is one.
    pub fn get(&self, id: &String) -> (r: Option<&T>)
        requires
            self.wf(),
        ensures
            match r {
                Some(x) => self.view().contains_key(id@) && *x == self.view()[id@],
                None => !self.view().contains_key(id@),
            },
    {
        match self.find(id) {
            Some(i) => {
                proof {
                    lemma_key_map_index(self.entries@, i as int);
                }
                Some(&self.entries[i])
            },
            None => None,
        }
    }

    /// Replaces the record at position `i` by one with the same id.
    pub fn replace_at(&mut self, i: usize, x: T) -> (r: T)
        requires
            old(self).wf(),
            i < old(self).entries@.len(),
            x.key() == old(self).entries@[i as int].key(),
        ensures
            final(self).wf(),
            final(self).view() == old(self).view().insert(x.key(), x),
            r == old(self).entries@[i as int],
            old(self).view().contains_key(x.key()),
            old(self).view()[x.key()] == r,
            final(self).entries@.len() == old(self).entries@.len(),
            final(self).entries@ == old(self).entries@.update(i as int, x),
    {
        proof {
            lemma_key_map_update(self.entries@, i as int, x);
            lemma_key_map_index(self.entries@, i as int);
        }
        let r = self.entries.remove(i);
        self.entries.insert(i, x);
        assert(self.entries@ =~= old(self).entries@.update(i as int, x));
        r
    }

    /// Adds a record whose id the table does not hold yet.
    pub fn push_new(&mut self, x: T)
        requires
            old(self).wf(),
            !old(self).view().contains_key(x.key()),
        ensures
            final(self).wf(),
            final(self).view() == old(self).view().insert(x.key(), x),
    {
        proof {
            lemma_key_map_push(self.entries@, x);
        }
        self.entries.push(x);
    }

    /// Removes the record with id `id`, handing it back.
    pub fn remove(&mut self, id: &String) -> (r: Option<T>)
        requires
            old(self).wf(),
        ensures
            final(self).wf(),
            final(self).view() == old(self).view().remove(id@),
            match r {
                Some(x) => old(self).view().contains_key(id@) && x == old(self).view()[id@],
                None => !old(self).view().contains_key(id@),
            },
    {
        match self.find(id) {
            Some(i) => {
                proof {
                    lemma_key_map_remove(self.entries@, i as int);
                    lemma_key_map_index(self.entries@, i as int);
                }
                let x = self.entries.remove(i);
                Some(x)
            },
            None => {
                assert(self.view() =~= old(self).view().remove(id@));
                None
            },
        }
    }
}

} // verus!
