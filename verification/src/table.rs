//! A map from text to values, for the small registries that the transport keeps.

use vstd::prelude::*;

verus! {

/// A map keyed by text. No key occurs twice, and a new key goes last.
pub struct Table<V> {
    entries: Vec<(String, V)>,
}

spec fn occurs<V>(entries: Seq<(String, V)>, key: Seq<char>) -> bool {
    exists|i: int| 0 <= i < entries.len() && (#[trigger] entries[i]).0@ == key
}

spec fn position<V>(entries: Seq<(String, V)>, key: Seq<char>) -> int {
    choose|i: int| 0 <= i < entries.len() && (#[trigger] entries[i]).0@ == key
}

spec fn distinct<V>(entries: Seq<(String, V)>) -> bool {
    forall|i: int, j: int|
        0 <= i < j < entries.len() ==> (#[trigger] entries[i]).0@ != (#[trigger] entries[j]).0@
}

spec fn contents<V: View>(entries: Seq<(String, V)>) -> Map<Seq<char>, V::V> {
    Map::new(
        |key: Seq<char>| occurs(entries, key),
        |key: Seq<char>| entries[position(entries, key)].1@,
    )
}

impl<V> Table<V> {
    #[verifier::type_invariant]
    spec fn inv(self) -> bool {
        distinct(self.entries@)
    }

    /// The keys, in the order in which they came.
    pub closed spec fn order(self) -> Seq<Seq<char>> {
        Seq::new(self.entries@.len(), |i: int| self.entries@[i].0@)
    }
}

/// Whether an order is another one without a key: the rest of the keys stay as they were.
pub open spec fn is_order_without(
    before: Seq<Seq<char>>,
    key: Seq<char>,
    after: Seq<Seq<char>>,
) -> bool {
    if before.contains(key) {
        exists|i: int|
            0 <= i < before.len() && #[trigger] before[i] == key && after == before.remove(i)
    } else {
        after == before
    }
}

impl<V: View> View for Table<V> {
    type V = Map<Seq<char>, V::V>;

    closed spec fn view(&self) -> Map<Seq<char>, V::V> {
        contents(self.entries@)
    }
}

proof fn lemma_at<V: View>(entries: Seq<(String, V)>, i: int)
    requires
        distinct(entries),
        0 <= i < entries.len(),
    ensures
        contents(entries).dom().contains(entries[i].0@),
        contents(entries)[entries[i].0@] == entries[i].1@,
{
    assert(occurs(entries, entries[i].0@));
    assert(position(entries, entries[i].0@) == i);
}

proof fn lemma_set<V: View>(entries: Seq<(String, V)>, i: int, key: String, value: V)
    requires
        distinct(entries),
        0 <= i < entries.len(),
        entries[i].0@ == key@,
    ensures
        distinct(entries.update(i, (key, value))),
        contents(entries.update(i, (key, value))) == contents(entries).insert(key@, value@),
{
    let after = entries.update(i, (key, value));
    assert forall|a: int, b: int| 0 <= a < b < after.len() implies (#[trigger] after[a]).0@ != (
    #[trigger] after[b]).0@ by {
        assert(entries[a].0@ != entries[b].0@);
    }
    let map = contents(entries).insert(key@, value@);
    assert forall|a: int| 0 <= a < after.len() implies map.dom().contains((#[trigger] after[a]).0@)
        && map[after[a].0@] == after[a].1@ by {
        lemma_at(entries, a);
    }
    assert forall|k: Seq<char>| #[trigger] map.dom().contains(k) implies occurs(after, k) by {
        let p = position(entries, k);
        assert(after[if k == key@ {
            i
        } else {
            p
        }].0@ == k);
    }
    lemma_same(after, map);
}

/// A map that lists each entry and nothing else is the contents.
proof fn lemma_same<V: View>(entries: Seq<(String, V)>, map: Map<Seq<char>, V::V>)
    requires
        distinct(entries),
        forall|i: int|
            0 <= i < entries.len() ==> map.dom().contains((#[trigger] entries[i]).0@)
                && map[entries[i].0@] == entries[i].1@,
        forall|key: Seq<char>| #[trigger] map.dom().contains(key) ==> occurs(entries, key),
    ensures
        contents(entries) == map,
{
    assert forall|key: Seq<char>| #[trigger] contents(entries).dom().contains(key)
        implies contents(entries)[key] == map[key] && map.dom().contains(key) by {
        let p = position(entries, key);
        assert(entries[p].0@ == key);
    }
    assert(contents(entries) =~= map);
}

proof fn lemma_push<V: View>(entries: Seq<(String, V)>, key: String, value: V)
    requires
        distinct(entries),
        !occurs(entries, key@),
    ensures
        distinct(entries.push((key, value))),
        contents(entries.push((key, value))) == contents(entries).insert(key@, value@),
{
    let after = entries.push((key, value));
    let map = contents(entries).insert(key@, value@);
    assert forall|i: int| 0 <= i < after.len() implies map.dom().contains((#[trigger] after[i]).0@)
        && map[after[i].0@] == after[i].1@ by {
        if i < entries.len() {
            lemma_at(entries, i);
        }
    }
    assert forall|k: Seq<char>| #[trigger] map.dom().contains(k) implies occurs(after, k) by {
        if k == key@ {
            assert(after[entries.len() as int].0@ == k);
        } else {
            let p = position(entries, k);
            assert(after[p].0@ == k);
        }
    }
    lemma_same(after, map);
}

proof fn lemma_remove<V: View>(entries: Seq<(String, V)>, i: int)
    requires
        distinct(entries),
        0 <= i < entries.len(),
    ensures
        distinct(entries.remove(i)),
        contents(entries.remove(i)) == contents(entries).remove(entries[i].0@),
{
    let after = entries.remove(i);
    let map = contents(entries).remove(entries[i].0@);
    assert forall|a: int| 0 <= a < after.len() implies map.dom().contains((#[trigger] after[a]).0@)
        && map[after[a].0@] == after[a].1@ by {
        let b = if a < i {
            a
        } else {
            a + 1
        };
        lemma_at(entries, b);
        assert(entries[b].0@ != entries[i].0@);
    }
    assert forall|k: Seq<char>| #[trigger] map.dom().contains(k) implies occurs(after, k) by {
        let p = position(entries, k);
        assert(entries[p].0@ == k);
        assert(after[if p < i {
            p
        } else {
            p - 1
        }].0@ == k);
    }
    lemma_same(after, map);
}

proof fn lemma_order<V: View>(table: Table<V>)
    requires
        distinct(table.entries@),
    ensures
        table.order().no_duplicates(),
        table.order().to_set() == table@.dom(),
{
    assert forall|key: Seq<char>| table.order().contains(key) == #[trigger] table@.dom().contains(
        key,
    ) by {
        if table.order().contains(key) {
            let i = choose|i: int| 0 <= i < table.order().len() && table.order()[i] == key;
            lemma_at(table.entries@, i);
        }
        if table@.dom().contains(key) {
            let p = position(table.entries@, key);
            assert(table.order()[p] == key);
        }
    }
    assert(table.order().to_set() =~= table@.dom());
}

/// What a table shows under a key is the view of a value that it holds.
pub(crate) proof fn lemma_value_is_held<V: View>(table: Table<V>, key: Seq<char>)
    requires
        table@.dom().contains(key),
    ensures
        exists|value: V| #[trigger] value@ == table@[key],
{
    let value = table.entries@[position(table.entries@, key)].1;
    assert(value@ == table@[key]);
}

impl<V: View> Table<V> {
    /// A map without entries.
    pub fn new() -> (table: Table<V>)
        ensures
            table@ == Map::<Seq<char>, V::V>::empty(),
            table.order() == Seq::<Seq<char>>::empty(),
    {
        let table: Table<V> = Table { entries: Vec::new() };
        assert(table@ =~= Map::empty());
        assert(table.order() =~= Seq::empty());
        table
    }

    fn find(&self, key: &str) -> (found: Option<usize>)
        ensures
            match found {
                Some(i) => i < self.entries@.len() && self.entries@[i as int].0@ == key@,
                None => !occurs(self.entries@, key@),
            },
    {
        let wanted = key.to_owned();
        let mut i: usize = 0;
        while i < self.entries.len()
            invariant
                wanted@ == key@,
                i <= self.entries@.len(),
                forall|j: int| 0 <= j < i ==> (#[trigger] self.entries@[j]).0@ != key@,
            decreases self.entries@.len() - i,
        {
            if self.entries[i].0 == wanted {
                return Some(i);
            }
            i = i + 1;
        }
        None
    }

    /// The number of entries. The order lists each key once.
    pub fn len(&self) -> (len: usize)
        ensures
            len == self.order().len(),
            len == self@.dom().len(),
            self@.dom().finite(),
            self.order().no_duplicates(),
            self.order().to_set() == self@.dom(),
    {
        proof {
            use_type_invariant(self);
            lemma_order(*self);
            self.order().unique_seq_to_set();
        }
        self.entries.len()
    }

    /// Whether there is no entry.
    pub fn is_empty(&self) -> (empty: bool)
        ensures
            empty == (self@ == Map::<Seq<char>, V::V>::empty()),
    {
        proof {
            use_type_invariant(self);
            if self.entries@.len() > 0 {
                lemma_at(self.entries@, 0);
            } else {
                assert(self@ =~= Map::empty());
            }
        }
        self.entries.is_empty()
    }

    /// Whether `key` has an entry.
    pub fn contains_key(&self, key: &str) -> (found: bool)
        ensures
            found == self@.dom().contains(key@),
    {
        self.find(key).is_some()
    }

    /// The value under `key`.
    pub fn get(&self, key: &str) -> (found: Option<&V>)
        ensures
            match found {
                Some(value) => self@.dom().contains(key@) && self@[key@] == value@,
                None => !self@.dom().contains(key@),
            },
    {
        proof {
            use_type_invariant(self);
        }
        match self.find(key) {
            Some(i) => {
                proof {
                    lemma_at(self.entries@, i as int);
                }
                Some(&self.entries[i].1)
            },
            None => None,
        }
    }

    /// The entry at a position of the order.
    pub fn entry(&self, index: usize) -> (entry: (&String, &V))
        requires
            index < self.order().len(),
        ensures
            entry.0@ == self.order()[index as int],
            self@.dom().contains(entry.0@),
            self@[entry.0@] == entry.1@,
    {
        proof {
            use_type_invariant(self);
            lemma_at(self.entries@, index as int);
        }
        (&self.entries[index].0, &self.entries[index].1)
    }

    /// The keys, in order.
    pub fn keys(&self) -> (keys: Vec<String>)
        ensures
            keys@.len() == self.order().len(),
            forall|i: int| 0 <= i < keys@.len() ==> (#[trigger] keys@[i])@ == self.order()[i],
            self.order().to_set() == self@.dom(),
    {
        let len = self.len();
        let mut keys: Vec<String> = Vec::new();
        let mut i: usize = 0;
        while i < len
            invariant
                i <= len,
                len == self.order().len(),
                keys@.len() == i,
                forall|j: int| 0 <= j < i ==> (#[trigger] keys@[j])@ == self.order()[j],
            decreases len - i,
        {
            keys.push(self.entry(i).0.clone());
            i = i + 1;
        }
        keys
    }

    /// Puts `value` under `key`.
    pub fn insert(&mut self, key: &str, value: V)
        ensures
            final(self)@ == old(self)@.insert(key@, value@),
            final(self).order() == if old(self)@.dom().contains(key@) {
                old(self).order()
            } else {
                old(self).order().push(key@)
            },
    {
        proof {
            use_type_invariant(&*self);
        }
        let found = self.find(key);
        let mut entries: Vec<(String, V)> = Vec::new();
        core::mem::swap(&mut entries, &mut self.entries);
        let name = key.to_owned();
        match found {
            Some(i) => {
                proof {
                    lemma_at(entries@, i as int);
                    lemma_set(entries@, i as int, name, value);
                }
                entries.set(i, (name, value));
            },
            None => {
                proof {
                    lemma_push(entries@, name, value);
                }
                entries.push((name, value));
            },
        }
        self.entries = entries;
        assert(self.order() =~= if old(self)@.dom().contains(key@) {
            old(self).order()
        } else {
            old(self).order().push(key@)
        });
    }

    /// Takes the first entry out.
    pub fn take_first(&mut self) -> (first: Option<(String, V)>)
        ensures
            match first {
                Some((key, value)) => {
                    &&& old(self).order().len() > 0
                    &&& key@ == old(self).order()[0]
                    &&& old(self)@.dom().contains(key@)
                    &&& value@ == old(self)@[key@]
                    &&& final(self)@ == old(self)@.remove(key@)
                    &&& final(self).order() == old(self).order().drop_first()
                },
                None => {
                    &&& old(self).order().len() == 0
                    &&& final(self)@ == old(self)@
                    &&& final(self).order() == old(self).order()
                },
            },
    {
        proof {
            use_type_invariant(&*self);
        }
        let mut entries: Vec<(String, V)> = Vec::new();
        core::mem::swap(&mut entries, &mut self.entries);
        if entries.len() == 0 {
            assert(self@ =~= old(self)@);
            assert(self.order() =~= old(self).order());
            return None;
        }
        proof {
            lemma_at(entries@, 0);
            lemma_remove(entries@, 0);
        }
        let (key, value) = entries.remove(0);
        self.entries = entries;
        assert(self.order() =~= old(self).order().drop_first());
        Some((key, value))
    }

    /// Takes the entry of `key` out.
    pub fn remove(&mut self, key: &str) -> (removed: Option<V>)
        ensures
            final(self)@ == old(self)@.remove(key@),
            match removed {
                Some(value) => old(self)@.dom().contains(key@) && old(self)@[key@] == value@,
                None => !old(self)@.dom().contains(key@),
            },
            is_order_without(old(self).order(), key@, final(self).order()),
    {
        proof {
            use_type_invariant(&*self);
        }
        match self.find(key) {
            Some(i) => {
                let mut entries: Vec<(String, V)> = Vec::new();
                core::mem::swap(&mut entries, &mut self.entries);
                proof {
                    lemma_at(entries@, i as int);
                    lemma_remove(entries@, i as int);
                }
                let (_, value) = entries.remove(i);
                self.entries = entries;
                assert(old(self).order()[i as int] == key@);
                assert(self.order() =~= old(self).order().remove(i as int));
                Some(value)
            },
            None => {
                assert(self@ =~= self@.remove(key@));
                assert forall|i: int| 0 <= i < self.order().len() implies self.order()[i]
                    != key@ by {
                    assert(self.entries@[i].0@ != key@);
                }
                None
            },
        }
    }

    /// Drops every entry.
    pub fn clear(&mut self)
        ensures
            final(self)@ == Map::<Seq<char>, V::V>::empty(),
            final(self).order() == Seq::<Seq<char>>::empty(),
    {
        self.entries = Vec::new();
        assert(self@ =~= Map::empty());
        assert(self.order() =~= Seq::empty());
    }
}

} // verus!
