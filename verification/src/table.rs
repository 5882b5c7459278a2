//! A small keyed table: an association list whose keys are pairwise
//! distinct, viewed as a finite map.

use vstd::prelude::*;

verus! {

/// A key of a [`Table`]: a value that is compared through its view.
pub trait Key: View + Sized {
    /// Whether the two keys have the same view.
    fn same_key(&self, other: &Self) -> (same: bool)
        ensures
            same == (self@ == other@),
    ;
}

impl Key for String {
    fn same_key(&self, other: &Self) -> (same: bool) {
        *self == *other
    }
}

impl Key for Vec<u8> {
    fn same_key(&self, other: &Self) -> (same: bool) {
        if self.len() != other.len() {
            return false;
        }
        let mut i: usize = 0;
        while i < self.len()
            invariant
                i <= self.len(),
                self.len() == other.len(),
                forall|j: int| 0 <= j < i ==> self@[j] == other@[j],
            decreases self.len() - i,
        {
            if self[i] != other[i] {
                return false;
            }
            i = i + 1;
        }
        assert(self@ =~= other@);
        true
    }
}

/// Whether no key occurs twice among the entries.
pub open spec fn distinct_keys<K: Key, V: View>(s: Seq<(K, V)>) -> bool {
    forall|i: int, j: int|
        0 <= i < j < s.len() ==> (#[trigger] s[i]).0@ != (#[trigger] s[j]).0@
}

/// The map that a list of entries stands for: it maps the view of each key
/// that occurs to the view of the value of an entry with that key.
pub open spec fn entries_view<K: Key, V: View>(s: Seq<(K, V)>) -> Map<K::V, V::V> {
    Map::new(
        |k: K::V| exists|i: int| 0 <= i < s.len() && (#[trigger] s[i]).0@ == k,
        |k: K::V| s[choose|i: int| 0 <= i < s.len() && (#[trigger] s[i]).0@ == k].1@,
    )
}

/// With distinct keys, the map holds for the key of each entry the value of
/// that entry.
pub proof fn lemma_entries_view_at<K: Key, V: View>(s: Seq<(K, V)>, i: int)
    requires
        distinct_keys(s),
        0 <= i < s.len(),
    ensures
        entries_view(s).contains_key(s[i].0@),
        entries_view(s)[s[i].0@] == s[i].1@,
{
    let k = s[i].0@;
    assert(s[i].0@ == k);
    let j = choose|j: int| 0 <= j < s.len() && (#[trigger] s[j]).0@ == k;
    assert(j == i);
}

/// The map of a list of entries has the keys of the list without its last
/// entry, and the key of that entry.
pub proof fn lemma_entries_view_dom<K: Key, V: View>(s: Seq<(K, V)>)
    requires
        s.len() > 0,
    ensures
        entries_view(s).dom() == entries_view(s.drop_last()).dom().insert(s.last().0@),
{
    let t = s.drop_last();
    let n = t.len() as int;
    let d = entries_view(t).dom().insert(s.last().0@);
    assert forall|k: K::V| entries_view(s).dom().contains(k) <==> d.contains(k) by {
        if entries_view(s).dom().contains(k) {
            let i = choose|i: int| 0 <= i < s.len() && (#[trigger] s[i]).0@ == k;
            if i < n {
                assert(t[i].0@ == k);
            }
        }
        if d.contains(k) {
            if k == s.last().0@ {
                assert(s[n].0@ == k);
            } else {
                let i = choose|i: int| 0 <= i < t.len() && (#[trigger] t[i]).0@ == k;
                assert(s[i].0@ == k);
            }
        }
    }
    assert(entries_view(s).dom() =~= d);
}

/// With distinct keys, the map of a list of entries is the map of the list
/// without its last entry, which lacks that entry's key, with that entry
/// added.
pub proof fn lemma_entries_view_last<K: Key, V: View>(s: Seq<(K, V)>)
    requires
        distinct_keys(s),
        s.len() > 0,
    ensures
        distinct_keys(s.drop_last()),
        !entries_view(s.drop_last()).contains_key(s.last().0@),
        entries_view(s) == entries_view(s.drop_last()).insert(s.last().0@, s.last().1@),
{
    let t = s.drop_last();
    let n = t.len() as int;
    assert forall|j: int| 0 <= j < n implies #[trigger] t[j] == s[j] by {}
    assert forall|a: int, b: int| 0 <= a < b < t.len() implies (#[trigger] t[a]).0@ != (
    #[trigger] t[b]).0@ by {
        assert(t[a] == s[a] && t[b] == s[b]);
    }
    if entries_view(t).contains_key(s.last().0@) {
        let i = choose|i: int| 0 <= i < t.len() && (#[trigger] t[i]).0@ == s.last().0@;
        assert(s[i].0@ == s[n].0@);
    }
    let m = entries_view(t).insert(s[n].0@, s[n].1@);
    lemma_entries_view_dom(s);
    assert forall|k: K::V| entries_view(s).contains_key(k) implies entries_view(s)[k] == m[k] by {
        let j = choose|j: int| 0 <= j < s.len() && (#[trigger] s[j]).0@ == k;
        lemma_entries_view_at(s, j);
        if j < n {
            assert(t[j] == s[j]);
            lemma_entries_view_at(t, j);
        }
    }
    assert(entries_view(s) =~= m);
}

/// The map of a list of entries has finitely many keys.
pub proof fn lemma_entries_view_finite<K: Key, V: View>(s: Seq<(K, V)>)
    ensures
        entries_view(s).dom().finite(),
    decreases s.len(),
{
    if s.len() == 0 {
        assert(entries_view(s).dom() =~= Set::<K::V>::empty());
    } else {
        lemma_entries_view_finite(s.drop_last());
        lemma_entries_view_dom(s);
    }
}

/// A finite map from keys to values, held as a list of entries whose keys
/// are pairwise distinct. Its view is the map from each key's view to the
/// view of the value stored with it.
pub struct Table<K: Key, V: View> {
    entries: Vec<(K, V)>,
}

impl<K: Key, V: View> View for Table<K, V> {
    type V = Map<K::V, V::V>;

    closed spec fn view(&self) -> Map<K::V, V::V> {
        entries_view(self.entries@)
    }
}

impl<K: Key, V: View> Table<K, V> {
    /// The table is valid: no key occurs twice.
    pub closed spec fn wf(&self) -> bool {
        distinct_keys(self.entries@)
    }

    /// In a valid table the entry at a position is what the view holds for
    /// that entry's key.
    proof fn lemma_entry(&self, i: int)
        requires
            self.wf(),
            0 <= i < self.entries@.len(),
        ensures
            self@.contains_key(self.entries@[i].0@),
            self@[self.entries@[i].0@] == self.entries@[i].1@,
    {
        lemma_entries_view_at(self.entries@, i);
    }

    /// The empty table.
    pub fn new() -> (table: Self)
        ensures
            table.wf(),
            table@ == Map::<K::V, V::V>::empty(),
    {
        let table = Table { entries: Vec::new() };
        assert(table@ =~= Map::<K::V, V::V>::empty());
        table
    }

    /// The table that holds the given entries, if no key occurs twice among
    /// them.
    pub fn from_entries(entries: Vec<(K, V)>) -> (table: Option<Self>)
        ensures
            match table {
                Some(t) => distinct_keys(entries@) && t.wf() && t@ == entries_view(entries@),
                None => !distinct_keys(entries@),
            },
    {
        let mut j: usize = 0;
        while j < entries.len()
            invariant
                j <= entries@.len(),
                forall|a: int, b: int|
                    0 <= a < b < j ==> (#[trigger] entries@[a]).0@ != (#[trigger] entries@[b]).0@,
            decreases entries@.len() - j,
        {
            let mut i: usize = 0;
            while i < j
                invariant
                    i <= j < entries@.len(),
                    forall|a: int| 0 <= a < i ==> (#[trigger] entries@[a]).0@ != entries@[j as int].0@,
                decreases j - i,
            {
                if entries[i].0.same_key(&entries[j].0) {
                    return None;
                }
                i = i + 1;
            }
            j = j + 1;
        }
        Some(Table { entries })
    }

    /// The entries of the table, each key once, in no particular order.
    pub fn entries(&self) -> (entries: &Vec<(K, V)>)
        requires
            self.wf(),
        ensures
            distinct_keys(entries@),
            entries_view(entries@) == self@,
    {
        &self.entries
    }

    /// The position of `key` among the entries, if it has one.
    fn find(&self, key: &K) -> (found: Option<usize>)
        requires
            self.wf(),
        ensures
            match found {
                Some(i) => i < self.entries@.len() && self.entries@[i as int].0@ == key@,
                None => !self@.contains_key(key@),
            },
    {
        let mut i: usize = 0;
        while i < self.entries.len()
            invariant
                i <= self.entries@.len(),
                forall|j: int| 0 <= j < i ==> (#[trigger] self.entries@[j]).0@ != key@,
            decreases self.entries@.len() - i,
        {
            if self.entries[i].0.same_key(key) {
                return Some(i);
            }
            i = i + 1;
        }
        None
    }

    /// Whether `key` is mapped.
    pub fn contains_key(&self, key: &K) -> (present: bool)
        requires
            self.wf(),
        ensures
            present == self@.contains_key(key@),
    {
        match self.find(key) {
            Some(i) => {
                proof {
                    self.lemma_entry(i as int);
                }
                true
            },
            None => false,
        }
    }

    /// The value stored with `key`, if it is mapped.
    pub fn get(&self, key: &K) -> (value: Option<&V>)
        requires
            self.wf(),
        ensures
            match value {
                Some(v) => self@.contains_key(key@) && v@ == self@[key@],
                None => !self@.contains_key(key@),
            },
    {
        match self.find(key) {
            Some(i) => {
                proof {
                    self.lemma_entry(i as int);
                }
                Some(&self.entries[i].1)
            },
            None => None,
        }
    }

    /// Maps `key` to `value`, replacing what was stored with it before.
    pub fn insert(&mut self, key: K, value: V)
        requires
            old(self).wf(),
        ensures
            final(self).wf(),
            final(self)@ == old(self)@.insert(key@, value@),
    {
        let ghost before = *self;
        let found = self.find(&key);
        match found {
            Some(i) => {
                self.entries.push((key, value));
                let _ = self.entries.swap_remove(i);
                proof {
                    let s = before.entries@;
                    let t = self.entries@;
                    assert(t.len() == s.len());
                    assert(t[i as int].0@ == key@ && t[i as int].1@ == value@);
                    assert forall|j: int| 0 <= j < s.len() && j != i implies t[j] == s[j] by {}
                    assert forall|j: int| 0 <= j < s.len() implies (#[trigger] t[j]).0@ == s[j].0@ by {}
                    Self::lemma_view_after_replace(before, *self, i as int);
                }
            },
            None => {
                self.entries.push((key, value));
                proof {
                    assert(self.entries@.drop_last() =~= before.entries@);
                    Self::lemma_view_after_append(before, *self);
                }
            },
        }
    }

    /// Unmaps `key`, and returns the value that was stored with it.
    pub fn remove(&mut self, key: &K) -> (removed: Option<V>)
        requires
            old(self).wf(),
        ensures
            final(self).wf(),
            final(self)@ == old(self)@.remove(key@),
            match removed {
                Some(v) => old(self)@.contains_key(key@) && v@ == old(self)@[key@],
                None => !old(self)@.contains_key(key@),
            },
    {
        let ghost before = *self;
        let found = self.find(key);
        match found {
            Some(i) => {
                proof {
                    self.lemma_entry(i as int);
                }
                let entry = self.entries.remove(i);
                proof {
                    Self::lemma_view_after_delete(before, *self, i as int);
                }
                Some(entry.1)
            },
            None => {
                assert(self@ =~= before@.remove(key@));
                None
            },
        }
    }

    proof fn lemma_view_after_replace(before: Self, after: Self, i: int)
        requires
            before.wf(),
            0 <= i < before.entries@.len(),
            after.entries@.len() == before.entries@.len(),
            after.entries@[i].0@ == before.entries@[i].0@,
            forall|j: int|
                0 <= j < before.entries@.len() && j != i ==> after.entries@[j]
                    == before.entries@[j],
        ensures
            after.wf(),
            after@ == before@.insert(after.entries@[i].0@, after.entries@[i].1@),
    {
        let s = before.entries@;
        let t = after.entries@;
        assert forall|a: int, b: int| 0 <= a < b < t.len() implies (#[trigger] t[a]).0@ != (
        #[trigger] t[b]).0@ by {
            assert(t[a].0@ == s[a].0@);
            assert(t[b].0@ == s[b].0@);
        }
        let m = before@.insert(t[i].0@, t[i].1@);
        assert forall|k: K::V| after@.contains_key(k) <==> m.contains_key(k) by {
            if after@.contains_key(k) {
                let j = choose|j: int| 0 <= j < t.len() && (#[trigger] t[j]).0@ == k;
                assert(s[j].0@ == k);
            }
            if m.contains_key(k) {
                if k != t[i].0@ {
                    let j = choose|j: int| 0 <= j < s.len() && (#[trigger] s[j]).0@ == k;
                    assert(t[j].0@ == k);
                } else {
                    assert(t[i].0@ == k);
                }
            }
        }
        assert(after@.dom() =~= m.dom());
        assert forall|k: K::V| after@.contains_key(k) implies after@[k] == m[k] by {
            let j = choose|j: int| 0 <= j < t.len() && (#[trigger] t[j]).0@ == k;
            if j == i {
            } else {
                assert(t[j] == s[j]);
                before.lemma_entry(j);
            }
        }
        assert(after@ =~= m);
    }

    proof fn lemma_view_after_append(before: Self, after: Self)
        requires
            before.wf(),
            after.entries@.len() == before.entries@.len() + 1,
            after.entries@.drop_last() == before.entries@,
            !before@.contains_key(after.entries@.last().0@),
        ensures
            after.wf(),
            after@ == before@.insert(after.entries@.last().0@, after.entries@.last().1@),
    {
        let s = before.entries@;
        let t = after.entries@;
        let n = s.len() as int;
        assert forall|j: int| 0 <= j < n implies #[trigger] t[j] == s[j] by {
            assert(t.drop_last()[j] == t[j]);
        }
        assert forall|a: int, b: int| 0 <= a < b < t.len() implies (#[trigger] t[a]).0@ != (
        #[trigger] t[b]).0@ by {
            if b == n {
                assert(s[a].0@ == t[a].0@);
            } else {
                assert(s[a] == t[a] && s[b] == t[b]);
            }
        }
        lemma_entries_view_last(t);
    }

    proof fn lemma_view_after_delete(before: Self, after: Self, i: int)
        requires
            before.wf(),
            0 <= i < before.entries@.len(),
            after.entries@ == before.entries@.remove(i),
        ensures
            after.wf(),
            after@ == before@.remove(before.entries@[i].0@),
    {
        let s = before.entries@;
        let t = after.entries@;
        assert forall|j: int| 0 <= j < t.len() implies #[trigger] t[j] == s[if j < i { j } else { j + 1 }] by {}
        assert forall|a: int, b: int| 0 <= a < b < t.len() implies (#[trigger] t[a]).0@ != (
        #[trigger] t[b]).0@ by {
            let a2 = if a < i { a } else { a + 1 };
            let b2 = if b < i { b } else { b + 1 };
            assert(t[a] == s[a2] && t[b] == s[b2]);
        }
        let gone = s[i].0@;
        let m = before@.remove(gone);
        assert forall|k: K::V| after@.contains_key(k) <==> m.contains_key(k) by {
            if after@.contains_key(k) {
                let j = choose|j: int| 0 <= j < t.len() && (#[trigger] t[j]).0@ == k;
                let j2 = if j < i { j } else { j + 1 };
                assert(t[j] == s[j2]);
                assert(s[j2].0@ == k);
                assert(j2 != i);
                if k == gone {
                    assert(s[i].0@ == s[j2].0@);
                }
            }
            if m.contains_key(k) {
                let j = choose|j: int| 0 <= j < s.len() && (#[trigger] s[j]).0@ == k;
                assert(j != i);
                let j1 = if j < i { j } else { j - 1 };
                assert(t[j1] == s[j]);
                assert(t[j1].0@ == k);
            }
        }
        assert(after@.dom() =~= m.dom());
        assert forall|k: K::V| after@.contains_key(k) implies after@[k] == m[k] by {
            let j = choose|j: int| 0 <= j < t.len() && (#[trigger] t[j]).0@ == k;
            let j2 = if j < i { j } else { j + 1 };
            assert(t[j] == s[j2]);
            before.lemma_entry(j2);
        }
        assert(after@ =~= m);
    }
}

} // verus!
