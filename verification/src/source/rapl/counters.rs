//! A small map from text keys to 64-bit counters, stored as a list of
//! entries in which no key occurs twice.

use vstd::prelude::*;

verus! {

/// True when no two entries of `s` carry the same key.
pub open spec fn keys_distinct(s: Seq<(Seq<char>, u64)>) -> bool {
    forall|i: int, j: int| 0 <= i < j < s.len() ==> (#[trigger] s[i]).0 != (#[trigger] s[j]).0
}

/// True when some entry of `s` carries `key`.
pub open spec fn has_key(s: Seq<(Seq<char>, u64)>, key: Seq<char>) -> bool {
    exists|i: int| 0 <= i < s.len() && (#[trigger] s[i]).0 == key
}

/// The value stored under `key` in `s` (arbitrary when the key is absent).
pub open spec fn value_of(s: Seq<(Seq<char>, u64)>, key: Seq<char>) -> u64 {
    s[choose|i: int| 0 <= i < s.len() && (#[trigger] s[i]).0 == key].1
}

/// The finite map that a list of entries stands for.
pub open spec fn entries_to_map(s: Seq<(Seq<char>, u64)>) -> Map<Seq<char>, u64> {
    Map::new(|k: Seq<char>| has_key(s, k), |k: Seq<char>| value_of(s, k))
}

/// `s` lists `m`: every entry of `s` is a pair of `m`, no key occurs twice,
/// and every key of `m` occurs in `s`.
pub open spec fn lists_map(s: Seq<(Seq<char>, u64)>, m: Map<Seq<char>, u64>) -> bool {
    &&& keys_distinct(s)
    &&& forall|i: int| 0 <= i < s.len() ==> m.contains_pair((#[trigger] s[i]).0, s[i].1)
    &&& forall|k: Seq<char>| m.contains_key(k) ==> has_key(s, k)
}

/// In a duplicate-free list each entry is found again under its own key.
proof fn lemma_entry_lookup(s: Seq<(Seq<char>, u64)>, i: int)
    requires
        keys_distinct(s),
        0 <= i < s.len(),
    ensures
        has_key(s, s[i].0),
        value_of(s, s[i].0) == s[i].1,
        entries_to_map(s).contains_pair(s[i].0, s[i].1),
{
    let k = s[i].0;
    let j = choose|j: int| 0 <= j < s.len() && (#[trigger] s[j]).0 == k;
    assert(j == i) by {
        if j < i {
            assert(s[j].0 != s[i].0);
        } else if i < j {
            assert(s[i].0 != s[j].0);
        }
    }
}

/// A duplicate-free list lists the map it stands for.
proof fn lemma_lists_own_map(s: Seq<(Seq<char>, u64)>)
    requires
        keys_distinct(s),
    ensures
        lists_map(s, entries_to_map(s)),
{
    assert forall|i: int| 0 <= i < s.len() implies entries_to_map(s).contains_pair(
        (#[trigger] s[i]).0,
        s[i].1,
    ) by {
        lemma_entry_lookup(s, i);
    }
}

/// Appending an entry under a new key inserts it into the map.
proof fn lemma_push_inserts(s: Seq<(Seq<char>, u64)>, key: Seq<char>, value: u64)
    requires
        keys_distinct(s),
        !has_key(s, key),
    ensures
        keys_distinct(s.push((key, value))),
        entries_to_map(s.push((key, value))) == entries_to_map(s).insert(key, value),
{
    let t = s.push((key, value));
    assert forall|i: int, j: int| 0 <= i < j < t.len() implies (#[trigger] t[i]).0 != (
    #[trigger] t[j]).0 by {
        if j < s.len() {
            assert(s[i].0 != s[j].0);
        } else {
            assert(s[i].0 != key);
        }
    }
    let a = entries_to_map(t);
    let b = entries_to_map(s).insert(key, value);
    assert forall|k: Seq<char>| a.contains_key(k) <==> b.contains_key(k) by {
        if a.contains_key(k) {
            let i = choose|i: int| 0 <= i < t.len() && (#[trigger] t[i]).0 == k;
            if i < s.len() {
                assert(s[i].0 == k);
            }
        }
        if b.contains_key(k) {
            if k == key {
                assert(t[s.len() as int].0 == k);
            } else {
                let i = choose|i: int| 0 <= i < s.len() && (#[trigger] s[i]).0 == k;
                assert(t[i].0 == k);
            }
        }
    }
    assert forall|k: Seq<char>| a.contains_key(k) implies a[k] == b[k] by {
        let i = choose|i: int| 0 <= i < t.len() && (#[trigger] t[i]).0 == k;
        lemma_entry_lookup(t, i);
        if i < s.len() {
            lemma_entry_lookup(s, i);
        }
    }
    assert(a =~= b);
}

/// Replacing the value of an entry overwrites its key in the map.
proof fn lemma_update_inserts(s: Seq<(Seq<char>, u64)>, i: int, value: u64)
    requires
        keys_distinct(s),
        0 <= i < s.len(),
    ensures
        keys_distinct(s.update(i, (s[i].0, value))),
        entries_to_map(s.update(i, (s[i].0, value))) == entries_to_map(s).insert(s[i].0, value),
{
    let key = s[i].0;
    let t = s.update(i, (key, value));
    assert forall|a: int, b: int| 0 <= a < b < t.len() implies (#[trigger] t[a]).0 != (
    #[trigger] t[b]).0 by {
        assert(s[a].0 != s[b].0);
    }
    let ma = entries_to_map(t);
    let mb = entries_to_map(s).insert(key, value);
    assert forall|k: Seq<char>| ma.contains_key(k) <==> mb.contains_key(k) by {
        if ma.contains_key(k) {
            let j = choose|j: int| 0 <= j < t.len() && (#[trigger] t[j]).0 == k;
            assert(s[j].0 == k);
        }
        if mb.contains_key(k) {
            if k == key {
                assert(t[i].0 == k);
            } else {
                let j = choose|j: int| 0 <= j < s.len() && (#[trigger] s[j]).0 == k;
                assert(t[j].0 == k);
            }
        }
    }
    assert forall|k: Seq<char>| ma.contains_key(k) implies ma[k] == mb[k] by {
        let j = choose|j: int| 0 <= j < t.len() && (#[trigger] t[j]).0 == k;
        lemma_entry_lookup(t, j);
        if j != i {
            lemma_entry_lookup(s, j);
        }
    }
    assert(ma =~= mb);
}

/// A duplicate-free list has as many entries as its map has keys.
proof fn lemma_map_size(s: Seq<(Seq<char>, u64)>)
    requires
        keys_distinct(s),
    ensures
        entries_to_map(s).dom().finite(),
        entries_to_map(s).dom().len() == s.len(),
    decreases s.len(),
{
    if s.len() == 0 {
        assert(entries_to_map(s).dom() =~= Set::<Seq<char>>::empty());
    } else {
        let init = s.drop_last();
        let last = s.last();
        assert forall|i: int, j: int| 0 <= i < j < init.len() implies (#[trigger] init[i]).0 != (
        #[trigger] init[j]).0 by {
            assert(s[i].0 != s[j].0);
        }
        lemma_map_size(init);
        if has_key(init, last.0) {
            let i = choose|i: int| 0 <= i < init.len() && (#[trigger] init[i]).0 == last.0;
            assert(s[i].0 != s[s.len() - 1].0);
        }
        lemma_push_inserts(init, last.0, last.1);
        assert(init.push((last.0, last.1)) =~= s);
        assert(entries_to_map(s).dom() =~= entries_to_map(init).dom().insert(last.0));
        assert(!entries_to_map(init).dom().contains(last.0));
    }
}

/// The counter under `key`, or zero when the key is absent.
pub open spec fn counter_or_zero(m: Map<Seq<char>, u64>, key: Seq<char>) -> u64 {
    if m.contains_key(key) {
        m[key]
    } else {
        0
    }
}

/// Adding `b` to `a` key by key stays within 64 bits.
pub open spec fn sums_fit(a: Map<Seq<char>, u64>, b: Map<Seq<char>, u64>) -> bool {
    forall|k: Seq<char>| #[trigger] b.contains_key(k) ==> counter_or_zero(a, k) + b[k] <= u64::MAX
}

/// Key-by-key sum of two maps; a key absent from one counts as zero there.
pub open spec fn sum_maps(a: Map<Seq<char>, u64>, b: Map<Seq<char>, u64>) -> Map<Seq<char>, u64> {
    Map::new(
        |k: Seq<char>| a.contains_key(k) || b.contains_key(k),
        |k: Seq<char>| (counter_or_zero(a, k) + counter_or_zero(b, k)) as u64,
    )
}

/// A prefix of a duplicate-free list is duplicate-free, lacks the key that
/// follows it, and grows into the next prefix by one insertion.
proof fn lemma_prefix_grows(s: Seq<(Seq<char>, u64)>, j: int)
    requires
        keys_distinct(s),
        0 <= j < s.len(),
    ensures
        keys_distinct(s.take(j)),
        !has_key(s.take(j), s[j].0),
        entries_to_map(s.take(j + 1)) == entries_to_map(s.take(j)).insert(s[j].0, s[j].1),
{
    let t = s.take(j);
    assert forall|a: int, b: int| 0 <= a < b < t.len() implies (#[trigger] t[a]).0 != (
    #[trigger] t[b]).0 by {
        assert(s[a].0 != s[b].0);
    }
    if has_key(t, s[j].0) {
        let i = choose|i: int| 0 <= i < t.len() && (#[trigger] t[i]).0 == s[j].0;
        assert(s[i].0 != s[j].0);
    }
    lemma_push_inserts(t, s[j].0, s[j].1);
    assert(t.push((s[j].0, s[j].1)) =~= s.take(j + 1));
}

/// A finite map from text keys to unsigned 64-bit counters.
#[derive(Debug)]
pub struct CounterMap {
    entries: Vec<(String, u64)>,
}

impl View for CounterMap {
    type V = Map<Seq<char>, u64>;

    closed spec fn view(&self) -> Map<Seq<char>, u64> {
        entries_to_map(self.listing())
    }
}

impl Clone for CounterMap {
    fn clone(&self) -> (copy: Self)
        ensures
            copy@ == self@,
    {
        proof {
            use_type_invariant(self);
        }
        let mut entries: Vec<(String, u64)> = Vec::new();
        let mut i: usize = 0;
        while i < self.entries.len()
            invariant
                0 <= i <= self.entries.len(),
                entries@.len() == i,
                forall|j: int| 0 <= j < i ==> (#[trigger] entries@[j]).0@ == self.entries@[j].0@,
                forall|j: int| 0 <= j < i ==> (#[trigger] entries@[j]).1 == self.entries@[j].1,
            decreases self.entries.len() - i,
        {
            entries.push((self.entries[i].0.clone(), self.entries[i].1));
            i += 1;
        }
        assert(entries@.map_values(|e: (String, u64)| (e.0@, e.1)) =~= self.listing());
        CounterMap { entries }
    }
}

impl CounterMap {
    /// The entries in storage order, keys taken by their views.
    pub closed spec fn listing(&self) -> Seq<(Seq<char>, u64)> {
        self.entries@.map_values(|e: (String, u64)| (e.0@, e.1))
    }

    #[verifier::type_invariant]
    spec fn inv(&self) -> bool {
        keys_distinct(self.listing())
    }

    /// The empty map.
    pub fn new() -> (m: Self)
        ensures
            m@ == Map::<Seq<char>, u64>::empty(),
    {
        let m = CounterMap { entries: Vec::new() };
        assert(m@ =~= Map::<Seq<char>, u64>::empty());
        m
    }

    /// Number of keys.
    pub fn len(&self) -> (n: usize)
        ensures
            self@.dom().finite(),
            n == self@.dom().len(),
    {
        proof {
            use_type_invariant(self);
            lemma_map_size(self.listing());
        }
        self.entries.len()
    }

    /// Whether the map holds no key at all.
    pub fn is_empty(&self) -> (b: bool)
        ensures
            b == self@.is_empty(),
            b == (self@ == Map::<Seq<char>, u64>::empty()),
    {
        proof {
            use_type_invariant(self);
            lemma_map_size(self.listing());
            if self.entries@.len() == 0 {
                assert(self@ =~= Map::<Seq<char>, u64>::empty());
            } else {
                lemma_entry_lookup(self.listing(), 0);
            }
        }
        self.entries.len() == 0
    }

    /// Position of `key` among the entries, if it is present.
    fn position(&self, key: &String) -> (r: Option<usize>)
        ensures
            match r {
                Some(i) => i < self.listing().len() && self.listing()[i as int].0 == key@,
                None => !has_key(self.listing(), key@),
            },
    {
        let mut i: usize = 0;
        while i < self.entries.len()
            invariant
                0 <= i <= self.entries.len(),
                forall|j: int| 0 <= j < i ==> (#[trigger] self.listing()[j]).0 != key@,
            decreases self.entries.len() - i,
        {
            if self.entries[i].0 == *key {
                assert(self.listing()[i as int].0 == key@);
                return Some(i);
            }
            i += 1;
        }
        None
    }

    /// The counter stored under `key`, if any.
    pub fn get(&self, key: &str) -> (r: Option<u64>)
        ensures
            r == (if self@.contains_key(key@) {
                Some(self@[key@])
            } else {
                None::<u64>
            }),
    {
        proof {
            use_type_invariant(self);
        }
        let wanted = key.to_owned();
        match self.position(&wanted) {
            Some(i) => {
                proof {
                    lemma_entry_lookup(self.listing(), i as int);
                }
                Some(self.entries[i].1)
            },
            None => None,
        }
    }

    /// Whether `key` is present.
    pub fn contains_key(&self, key: &str) -> (b: bool)
        ensures
            b == self@.contains_key(key@),
    {
        self.get(key).is_some()
    }

    /// Stores `value` under `key`, replacing what was there.
    pub fn insert(&mut self, key: String, value: u64)
        ensures
            final(self)@ == old(self)@.insert(key@, value),
    {
        proof {
            use_type_invariant(&*self);
        }
        let found = self.position(&key);
        let mut entries: Vec<(String, u64)> = Vec::new();
        std::mem::swap(&mut entries, &mut self.entries);
        let ghost before = entries@.map_values(|e: (String, u64)| (e.0@, e.1));
        match found {
            Some(i) => {
                proof {
                    lemma_update_inserts(before, i as int, value);
                }
                entries.set(i, (key, value));
                assert(entries@.map_values(|e: (String, u64)| (e.0@, e.1)) =~= before.update(
                    i as int,
                    (before[i as int].0, value),
                ));
            },
            None => {
                proof {
                    lemma_push_inserts(before, key@, value);
                }
                entries.push((key, value));
                assert(entries@.map_values(|e: (String, u64)| (e.0@, e.1)) =~= before.push(
                    (key@, value),
                ));
            },
        }
        self.entries = entries;
    }

    /// The entries as a vector of pairs, one per key.
    pub fn pairs(&self) -> (v: Vec<(String, u64)>)
        ensures
            lists_map(v@.map_values(|e: (String, u64)| (e.0@, e.1)), self@),
            v@.len() == self@.dom().len(),
            self@.dom().finite(),
    {
        proof {
            use_type_invariant(self);
            lemma_lists_own_map(self.listing());
            lemma_map_size(self.listing());
        }
        let mut v: Vec<(String, u64)> = Vec::new();
        let mut i: usize = 0;
        while i < self.entries.len()
            invariant
                0 <= i <= self.entries.len(),
                v@.len() == i,
                forall|j: int| 0 <= j < i ==> (#[trigger] v@[j]).0@ == self.entries@[j].0@,
                forall|j: int| 0 <= j < i ==> (#[trigger] v@[j]).1 == self.entries@[j].1,
            decreases self.entries.len() - i,
        {
            v.push((self.entries[i].0.clone(), self.entries[i].1));
            i += 1;
        }
        assert(v@.map_values(|e: (String, u64)| (e.0@, e.1)) =~= self.listing());
        v
    }

    /// Whether every counter of `other` can be added to the counter of the
    /// same key here without leaving 64 bits.
    pub fn can_add_all(&self, other: &CounterMap) -> (b: bool)
        ensures
            b == sums_fit(self@, other@),
    {
        proof {
            use_type_invariant(self);
            use_type_invariant(other);
        }
        let mut j: usize = 0;
        while j < other.entries.len()
            invariant
                0 <= j <= other.entries.len(),
                keys_distinct(other.listing()),
                forall|i: int|
                    0 <= i < j ==> counter_or_zero(self@, (#[trigger] other.listing()[i]).0)
                        + other.listing()[i].1 <= u64::MAX,
            decreases other.entries.len() - j,
        {
            let current = match self.get(other.entries[j].0.as_str()) {
                Some(c) => c,
                None => 0,
            };
            proof {
                lemma_entry_lookup(other.listing(), j as int);
            }
            if current.checked_add(other.entries[j].1).is_none() {
                assert(other@.contains_key(other.listing()[j as int].0));
                return false;
            }
            j += 1;
        }
        proof {
            assert forall|k: Seq<char>| #[trigger] other@.contains_key(k) implies counter_or_zero(
                self@,
                k,
            ) + other@[k] <= u64::MAX by {
                let i = choose|i: int|
                    0 <= i < other.listing().len() && (#[trigger] other.listing()[i]).0 == k;
                lemma_entry_lookup(other.listing(), i);
            }
        }
        true
    }

    /// Adds every counter of `other` to the counter of the same key here; a
    /// key that is new here starts from zero.
    pub fn add_all(&mut self, other: &CounterMap)
        requires
            sums_fit(old(self)@, other@),
        ensures
            final(self)@ == sum_maps(old(self)@, other@),
    {
        proof {
            use_type_invariant(other);
        }
        let ghost start = self@;
        let ghost list = other.listing();
        let mut j: usize = 0;
        proof {
            assert(entries_to_map(list.take(0)) =~= Map::<Seq<char>, u64>::empty());
            assert(self@ =~= sum_maps(start, entries_to_map(list.take(0))));
        }
        while j < other.entries.len()
            invariant
                0 <= j <= other.entries.len(),
                list == other.listing(),
                keys_distinct(list),
                sums_fit(start, other@),
                self@ == sum_maps(start, entries_to_map(list.take(j as int))),
            decreases other.entries.len() - j,
        {
            let key = other.entries[j].0.clone();
            let amount = other.entries[j].1;
            let current = match self.get(key.as_str()) {
                Some(c) => c,
                None => 0,
            };
            proof {
                lemma_entry_lookup(list, j as int);
                lemma_prefix_grows(list, j as int);
                assert(list[j as int].0 == key@);
                assert(other@.contains_key(key@));
                assert(!entries_to_map(list.take(j as int)).contains_key(key@));
                assert(current == counter_or_zero(start, key@));
            }
            let ghost before = self@;
            self.insert(key, current + amount);
            proof {
                let grown = entries_to_map(list.take(j as int)).insert(key@, amount);
                assert(before.insert(key@, (current + amount) as u64) =~= sum_maps(start, grown));
            }
            j += 1;
        }
        proof {
            assert(list.take(j as int) =~= list);
        }
    }
}

} // verus!
