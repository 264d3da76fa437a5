//! A finite map held as a vector of distinct keys with their values.
//!
//! Every storage map of the pallets is one of these tables: a single map is
//! keyed by an id, a double map by a pair of keys. The view of a table is a
//! `Map`, and every operation states its effect on that map.
use vstd::prelude::*;

verus! {

/// A key that can be compared for equality in executable code.
pub trait TableKey: Sized {
    fn key_eq(&self, other: &Self) -> (r: bool)
        ensures
            r == (*self == *other),
    ;

    fn copy_key(&self) -> (r: Self)
        ensures
            r == *self,
    ;
}

impl TableKey for u32 {
    fn key_eq(&self, other: &Self) -> (r: bool) {
        *self == *other
    }

    fn copy_key(&self) -> (r: Self) {
        *self
    }
}

impl TableKey for u64 {
    fn key_eq(&self, other: &Self) -> (r: bool) {
        *self == *other
    }

    fn copy_key(&self) -> (r: Self) {
        *self
    }
}

impl<A: TableKey, B: TableKey> TableKey for (A, B) {
    fn key_eq(&self, other: &Self) -> (r: bool) {
        self.0.key_eq(&other.0) && self.1.key_eq(&other.1)
    }

    fn copy_key(&self) -> (r: Self) {
        (self.0.copy_key(), self.1.copy_key())
    }
}

/// A finite map from keys to values.
#[verifier::reject_recursive_types(K)]
pub struct Table<K, V> {
    entries: Vec<(K, V)>,
    map: Ghost<Map<K, V>>,
}

impl<K, V> View for Table<K, V> {
    type V = Map<K, V>;

    closed spec fn view(&self) -> Map<K, V> {
        self.map@
    }
}

impl<K: TableKey, V> Table<K, V> {
    /// The entries hold each key once and are exactly the map.
    pub closed spec fn wf(&self) -> bool {
        &&& self.map@.dom().finite()
        &&& forall|i: int, j: int|
            0 <= i < self.entries@.len() && 0 <= j < self.entries@.len() && i != j
                ==> #[trigger] self.entries@[i].0 != #[trigger] self.entries@[j].0
        &&& forall|i: int|
            0 <= i < self.entries@.len() ==> self.map@.contains_key(#[trigger] self.entries@[i].0)
                && self.map@[self.entries@[i].0] == self.entries@[i].1
        &&& forall|k: K| #[trigger]
            self.map@.contains_key(k) ==> exists|i: int|
                0 <= i < self.entries@.len() && #[trigger] self.entries@[i].0 == k
    }

    /// A well-formed table holds finitely many keys.
    pub proof fn lemma_finite(&self)
        requires
            self.wf(),
        ensures
            self@.dom().finite(),
    {
    }

    /// An empty table.
    pub fn new() -> (t: Self)
        ensures
            t.wf(),
            t@ == Map::<K, V>::empty(),
    {
        Table { entries: Vec::new(), map: Ghost(Map::empty()) }
    }

    /// The number of keys.
    pub fn len(&self) -> (n: usize)
        requires
            self.wf(),
        ensures
            n == self@.len(),
    {
        proof {
            self.lemma_len();
        }
        self.entries.len()
    }

    proof fn lemma_len(&self)
        requires
            self.wf(),
        ensures
            self.entries@.len() == self@.len(),
    {
        let keys = self.entries@.map_values(|e: (K, V)| e.0);
        assert(keys.no_duplicates()) by {
            assert forall|i: int, j: int|
                0 <= i < keys.len() && 0 <= j < keys.len() && i != j implies keys[i] != keys[j] by {
                assert(self.entries@[i].0 != self.entries@[j].0);
            }
        }
        keys.unique_seq_to_set();
        assert(keys.to_set() =~= self.map@.dom()) by {
            assert forall|k: K| keys.to_set().contains(k) implies self.map@.dom().contains(k) by {
                let i = choose|i: int| 0 <= i < keys.len() && keys[i] == k;
                assert(self.entries@[i].0 == k);
            }
            assert forall|k: K| self.map@.dom().contains(k) implies keys.to_set().contains(k) by {
                let i = choose|i: int| 0 <= i < self.entries@.len() && self.entries@[i].0 == k;
                assert(keys[i] == k);
            }
        }
    }

    fn find(&self, k: &K) -> (r: Option<usize>)
        requires
            self.wf(),
        ensures
            match r {
                Some(i) => i < self.entries@.len() && self.entries@[i as int].0 == *k,
                None => !self@.contains_key(*k),
            },
    {
        let mut i: usize = 0;
        while i < self.entries.len()
            invariant
                self.wf(),
                i <= self.entries@.len(),
                forall|j: int| 0 <= j < i ==> self.entries@[j].0 != *k,
            decreases self.entries@.len() - i,
        {
            if self.entries[i].0.key_eq(k) {
                return Some(i);
            }
            i += 1;
        }
        None
    }

    /// Whether the key is present.
    pub fn contains_key(&self, k: &K) -> (r: bool)
        requires
            self.wf(),
        ensures
            r == self@.contains_key(*k),
    {
        match self.find(k) {
            Some(_) => true,
            None => false,
        }
    }

    /// The value at a key.
    pub fn get(&self, k: &K) -> (r: Option<&V>)
        requires
            self.wf(),
        ensures
            match r {
                Some(v) => self@.contains_key(*k) && *v == self@[*k],
                None => !self@.contains_key(*k),
            },
    {
        match self.find(k) {
            Some(i) => Some(&self.entries[i].1),
            None => None,
        }
    }

    /// Sets the value at a key, adding the key if it is new.
    pub fn insert(&mut self, k: K, v: V)
        requires
            old(self).wf(),
        ensures
            final(self).wf(),
            final(self)@ == old(self)@.insert(k, v),
    {
        let ghost old_entries = self.entries@;
        let ghost old_map = self.map@;
        match self.find(&k) {
            Some(i) => {
                self.entries.set(i, (k, v));
                self.map = Ghost(self.map@.insert(k, v));
                proof {
                    assert forall|kk: K| #[trigger]
                        self.map@.contains_key(kk) implies exists|j: int|
                            0 <= j < self.entries@.len() && #[trigger] self.entries@[j].0 == kk by {
                        if kk == k {
                            assert(self.entries@[i as int].0 == kk);
                        } else {
                            assert(old_map.contains_key(kk));
                            let j = choose|j: int|
                                0 <= j < old_entries.len() && #[trigger] old_entries[j].0 == kk;
                            assert(self.entries@[j].0 == kk);
                        }
                    }
                }
            },
            None => {
                self.entries.push((k, v));
                self.map = Ghost(self.map@.insert(k, v));
                proof {
                    let n = old_entries.len() as int;
                    assert(self.entries@[n].0 == k);
                    assert forall|kk: K| #[trigger]
                        self.map@.contains_key(kk) implies exists|j: int|
                            0 <= j < self.entries@.len() && #[trigger] self.entries@[j].0 == kk by {
                        if kk == k {
                            assert(self.entries@[n].0 == kk);
                        } else {
                            assert(old_map.contains_key(kk));
                            let j = choose|j: int|
                                0 <= j < old_entries.len() && #[trigger] old_entries[j].0 == kk;
                            assert(self.entries@[j].0 == kk);
                        }
                    }
                    assert forall|a: int, b: int|
                        0 <= a < self.entries@.len() && 0 <= b < self.entries@.len() && a != b
                            implies #[trigger] self.entries@[a].0 != #[trigger] self.entries@[b].0 by {
                        if a == n {
                            assert(old_map.contains_key(old_entries[b].0));
                        } else if b == n {
                            assert(old_map.contains_key(old_entries[a].0));
                        }
                    }
                }
            },
        }
    }

    fn remove_at(&mut self, i: usize) -> (v: V)
        requires
            old(self).wf(),
            i < old(self).entries@.len(),
        ensures
            final(self).wf(),
            final(self)@ == old(self)@.remove(old(self).entries@[i as int].0),
            v == old(self)@[old(self).entries@[i as int].0],
            final(self).entries@.len() == old(self).entries@.len() - 1,
            forall|j: int| 0 <= j < i ==> final(self).entries@[j] == old(self).entries@[j],
            forall|j: int|
                i <= j < final(self).entries@.len() ==> final(self).entries@[j] == old(self).entries@[j + 1],
    {
        let ghost old_entries = self.entries@;
        let ghost old_map = self.map@;
        let ghost key = old_entries[i as int].0;
        let (_, v) = self.entries.remove(i);
        self.map = Ghost(self.map@.remove(key));
        proof {
            assert forall|a: int, b: int|
                0 <= a < self.entries@.len() && 0 <= b < self.entries@.len() && a != b
                    implies #[trigger] self.entries@[a].0 != #[trigger] self.entries@[b].0 by {
                let oa = if a < i { a } else { a + 1 };
                let ob = if b < i { b } else { b + 1 };
                assert(old_entries[oa].0 != old_entries[ob].0);
            }
            assert forall|a: int| 0 <= a < self.entries@.len() implies self.map@.contains_key(
                #[trigger] self.entries@[a].0,
            ) && self.map@[self.entries@[a].0] == self.entries@[a].1 by {
                let oa = if a < i { a } else { a + 1 };
                assert(old_entries[oa].0 != old_entries[i as int].0);
                assert(old_map.contains_key(old_entries[oa].0));
            }
            assert forall|kk: K| #[trigger]
                self.map@.contains_key(kk) implies exists|j: int|
                    0 <= j < self.entries@.len() && #[trigger] self.entries@[j].0 == kk by {
                assert(old_map.contains_key(kk));
                let j = choose|j: int| 0 <= j < old_entries.len() && #[trigger] old_entries[j].0 == kk;
                assert(j != i);
                if j < i {
                    assert(self.entries@[j].0 == kk);
                } else {
                    assert(self.entries@[j - 1].0 == kk);
                }
            }
        }
        v
    }

    /// Removes a key, handing back its value if it was present.
    pub fn remove(&mut self, k: &K) -> (r: Option<V>)
        requires
            old(self).wf(),
        ensures
            final(self).wf(),
            final(self)@ == old(self)@.remove(*k),
            match r {
                Some(v) => old(self)@.contains_key(*k) && v == old(self)@[*k],
                None => !old(self)@.contains_key(*k),
            },
    {
        match self.find(k) {
            Some(i) => Some(self.remove_at(i)),
            None => {
                assert(self@.remove(*k) =~= self@);
                None
            },
        }
    }

    /// All keys, each once.
    pub fn keys(&self) -> (r: Vec<K>)
        requires
            self.wf(),
        ensures
            r@.no_duplicates(),
            forall|k: K| r@.contains(k) <==> self@.contains_key(k),
    {
        let mut r: Vec<K> = Vec::new();
        let mut i: usize = 0;
        while i < self.entries.len()
            invariant
                self.wf(),
                i <= self.entries@.len(),
                r@.len() == i,
                forall|j: int| 0 <= j < i ==> #[trigger] r@[j] == self.entries@[j].0,
            decreases self.entries@.len() - i,
        {
            r.push(self.entries[i].0.copy_key());
            i += 1;
        }
        proof {
            assert forall|a: int, b: int| 0 <= a < r@.len() && 0 <= b < r@.len() && a != b implies r@[a]
                != r@[b] by {
                assert(self.entries@[a].0 != self.entries@[b].0);
            }
            assert forall|k: K| r@.contains(k) <==> self@.contains_key(k) by {
                if self@.contains_key(k) {
                    let j = choose|j: int| 0 <= j < self.entries@.len() && #[trigger] self.entries@[j].0 == k;
                    assert(r@[j] == k);
                }
                if r@.contains(k) {
                    let j = choose|j: int| 0 <= j < r@.len() && r@[j] == k;
                    assert(self.entries@[j].0 == k);
                }
            }
        }
        r
    }
}

impl<K: TableKey, V> Table<K, V> {
    /// Inserts the pairs one after the other; a later pair wins over an earlier one.
    pub fn insert_all(&mut self, entries: Vec<(K, V)>)
        requires
            old(self).wf(),
        ensures
            final(self).wf(),
            final(self)@ == inserted_all(old(self)@, entries@),
    {
        let mut rest = entries;
        while rest.len() > 0
            invariant
                self.wf(),
                inserted_all(self@, rest@) == inserted_all(old(self)@, entries@),
            decreases rest@.len(),
        {
            let ghost before = rest@;
            let (k, v) = rest.remove(0);
            assert(rest@ =~= before.drop_first());
            self.insert(k, v);
        }
    }

    /// Removes every listed key.
    pub fn remove_all(&mut self, keys: &Vec<K>)
        requires
            old(self).wf(),
        ensures
            final(self).wf(),
            final(self)@ == old(self)@.remove_keys(keys@.to_set()),
    {
        let mut i: usize = 0;
        assert(old(self)@.remove_keys(keys@.take(0).to_set()) =~= old(self)@);
        while i < keys.len()
            invariant
                self.wf(),
                i <= keys@.len(),
                self@ == old(self)@.remove_keys(keys@.take(i as int).to_set()),
            decreases keys@.len() - i,
        {
            self.remove(&keys[i]);
            let ghost prev = keys@.take(i as int);
            let ghost next = keys@.take(i as int + 1);
            assert(next =~= prev.push(keys@[i as int]));
            assert(next.to_set() =~= prev.to_set().insert(keys@[i as int])) by {
                assert forall|x: K| next.to_set().contains(x) <==> prev.to_set().insert(keys@[i as int]).contains(x) by {
                    if next.contains(x) {
                        let j = choose|j: int| 0 <= j < next.len() && next[j] == x;
                        if j < prev.len() {
                            assert(prev[j] == x);
                            assert(prev.contains(x));
                        }
                    }
                    if prev.contains(x) {
                        let j = choose|j: int| 0 <= j < prev.len() && prev[j] == x;
                        assert(next[j] == x);
                        assert(next.contains(x));
                    }
                    if x == keys@[i as int] {
                        assert(next[i as int] == x);
                        assert(next.contains(x));
                    }
                }
            }
            assert(self@ =~= old(self)@.remove_keys(keys@.take(i as int + 1).to_set()));
            i += 1;
        }
        assert(keys@.take(i as int) =~= keys@);
    }
}

/// The map after inserting the pairs one after the other.
pub open spec fn inserted_all<K, V>(m: Map<K, V>, entries: Seq<(K, V)>) -> Map<K, V>
    decreases entries.len(),
{
    if entries.len() == 0 {
        m
    } else {
        inserted_all(m.insert(entries[0].0, entries[0].1), entries.drop_first())
    }
}

impl<A: TableKey, B: TableKey, V> Table<(A, B), V> {
    /// The second keys that stand under a first key, each once.
    pub fn keys_with_prefix(&self, a: &A) -> (r: Vec<B>)
        requires
            self.wf(),
        ensures
            r@.no_duplicates(),
            forall|b: B| r@.contains(b) <==> self@.contains_key((*a, b)),
    {
        let mut r: Vec<B> = Vec::new();
        let mut i: usize = 0;
        while i < self.entries.len()
            invariant
                self.wf(),
                i <= self.entries@.len(),
                r@.no_duplicates(),
                forall|b: B|
                    r@.contains(b) <==> exists|j: int|
                        0 <= j < i && #[trigger] self.entries@[j].0 == (*a, b),
            decreases self.entries@.len() - i,
        {
            let key = &self.entries[i].0;
            if key.0.key_eq(a) {
                proof {
                    assert forall|b: B| r@.contains(b) implies b != key.1 by {
                        let j = choose|j: int| 0 <= j < i && #[trigger] self.entries@[j].0 == (*a, b);
                        assert(self.entries@[j].0 != self.entries@[i as int].0);
                    }
                }
                let ghost old_r = r@;
                r.push(key.1.copy_key());
                proof {
                    let n = old_r.len() as int;
                    assert forall|x: int, y: int|
                        0 <= x < r@.len() && 0 <= y < r@.len() && x != y implies r@[x] != r@[y] by {
                        if x == n {
                            assert(old_r[y] == r@[y]);
                            assert(old_r.contains(r@[y]));
                        } else if y == n {
                            assert(old_r[x] == r@[x]);
                            assert(old_r.contains(r@[x]));
                        } else {
                            assert(old_r[x] == r@[x] && old_r[y] == r@[y]);
                        }
                    }
                    assert forall|b: B|
                        r@.contains(b) <==> exists|j: int|
                            0 <= j < i + 1 && #[trigger] self.entries@[j].0 == (*a, b) by {
                        if r@.contains(b) && b != key.1 {
                            let k = choose|k: int| 0 <= k < r@.len() && r@[k] == b;
                            assert(old_r[k] == b);
                            assert(old_r.contains(b));
                        }
                        if b == key.1 {
                            assert(self.entries@[i as int].0 == (*a, b));
                            assert(r@[old_r.len() as int] == b);
                        }
                        if exists|j: int| 0 <= j < i + 1 && #[trigger] self.entries@[j].0 == (*a, b) {
                            let j = choose|j: int| 0 <= j < i + 1 && #[trigger] self.entries@[j].0 == (*a, b);
                            if j < i {
                                assert(old_r.contains(b));
                                let k = choose|k: int| 0 <= k < old_r.len() && old_r[k] == b;
                                assert(r@[k] == b);
                            } else {
                                assert(r@[old_r.len() as int] == b);
                            }
                        }
                    }
                }
            } else {
                proof {
                    assert forall|b: B|
                        r@.contains(b) <==> exists|j: int|
                            0 <= j < i + 1 && #[trigger] self.entries@[j].0 == (*a, b) by {
                        if exists|j: int| 0 <= j < i + 1 && #[trigger] self.entries@[j].0 == (*a, b) {
                            let j = choose|j: int| 0 <= j < i + 1 && #[trigger] self.entries@[j].0 == (*a, b);
                            assert(j != i);
                        }
                    }
                }
            }
            i += 1;
        }
        proof {
            assert forall|b: B| r@.contains(b) <==> self@.contains_key((*a, b)) by {
                if self@.contains_key((*a, b)) {
                    let j = choose|j: int|
                        0 <= j < self.entries@.len() && #[trigger] self.entries@[j].0 == (*a, b);
                }
            }
        }
        r
    }

    /// The second keys under a first key, each once, with their values.
    pub fn entries_with_prefix(&self, a: &A) -> (r: Vec<(B, &V)>)
        requires
            self.wf(),
        ensures
            forall|i: int, j: int| 0 <= i < r@.len() && 0 <= j < r@.len() && i != j ==> r@[i].0 != r@[j].0,
            forall|i: int|
                0 <= i < r@.len() ==> self@.contains_key((*a, #[trigger] r@[i].0)) && *r@[i].1 == self@[(
                    *a,
                    r@[i].0,
                )],
            forall|b: B| #[trigger] self@.contains_key((*a, b)) ==> exists|i: int| 0 <= i < r@.len() && r@[i].0 == b,
    {
        let keys = self.keys_with_prefix(a);
        let mut r: Vec<(B, &V)> = Vec::new();
        let mut i: usize = 0;
        while i < keys.len()
            invariant
                self.wf(),
                i <= keys@.len(),
                keys@.no_duplicates(),
                forall|b: B| keys@.contains(b) <==> self@.contains_key((*a, b)),
                r@.len() == i,
                forall|j: int| 0 <= j < i ==> (#[trigger] r@[j]).0 == keys@[j],
                forall|j: int| 0 <= j < i ==> *(#[trigger] r@[j]).1 == self@[(*a, keys@[j])],
            decreases keys@.len() - i,
        {
            let b = keys[i].copy_key();
            proof {
                assert(keys@.contains(b));
            }
            let key = (a.copy_key(), b.copy_key());
            match self.get(&key) {
                Some(v) => {
                    r.push((b, v));
                },
                None => {
                    return r;
                },
            }
            i += 1;
        }
        proof {
            assert forall|x: int, y: int| 0 <= x < r@.len() && 0 <= y < r@.len() && x != y implies r@[x].0 != r@[y].0 by {
                assert(r@[x].0 == keys@[x] && r@[y].0 == keys@[y]);
            }
            assert forall|x: int| 0 <= x < r@.len() implies self@.contains_key((*a, #[trigger] r@[x].0)) && *r@[x].1
                == self@[(*a, r@[x].0)] by {
                assert(r@[x].0 == keys@[x]);
                assert(keys@.contains(keys@[x]));
            }
            assert forall|b: B| #[trigger]
                self@.contains_key((*a, b)) implies exists|x: int| 0 <= x < r@.len() && r@[x].0 == b by {
                assert(keys@.contains(b));
                let x = choose|x: int| 0 <= x < keys@.len() && keys@[x] == b;
                assert(r@[x].0 == b);
            }
        }
        r
    }

    /// Whether any key stands under a first key.
    pub fn has_prefix(&self, a: &A) -> (r: bool)
        requires
            self.wf(),
        ensures
            r == exists|b: B| self@.contains_key((*a, b)),
    {
        let keys = self.keys_with_prefix(a);
        if keys.len() == 0 {
            proof {
                assert forall|b: B| !self@.contains_key((*a, b)) by {
                    if self@.contains_key((*a, b)) {
                        assert(keys@.contains(b));
                    }
                }
            }
            false
        } else {
            proof {
                assert(keys@.contains(keys@[0]));
                assert(self@.contains_key((*a, keys@[0])));
            }
            true
        }
    }

    /// Removes every key that stands under a first key.
    pub fn remove_prefix(&mut self, a: &A)
        requires
            old(self).wf(),
        ensures
            final(self).wf(),
            final(self)@ == prefix_removed(old(self)@, *a),
    {
        let ghost old_map = self@;
        let mut i: usize = 0;
        while i < self.entries.len()
            invariant
                self.wf(),
                i <= self.entries@.len(),
                forall|j: int| 0 <= j < i ==> (#[trigger] self.entries@[j]).0.0 != *a,
                forall|k: (A, B)|
                    #[trigger] self@.contains_key(k) ==> old_map.contains_key(k) && self@[k]
                        == old_map[k],
                forall|k: (A, B)|
                    #[trigger] old_map.contains_key(k) && k.0 != *a ==> self@.contains_key(k),
            decreases self.entries@.len() - i,
        {
            if self.entries[i].0.0.key_eq(a) {
                self.remove_at(i);
            } else {
                i += 1;
            }
        }
        proof {
            assert forall|k: (A, B)| #[trigger] self@.contains_key(k) implies k.0 != *a by {
                let j = choose|j: int| 0 <= j < self.entries@.len() && #[trigger] self.entries@[j].0 == k;
                assert(self.entries@[j].0.0 != *a);
            }
            assert(self@ =~= prefix_removed(old_map, *a));
        }
    }
}

impl<A: TableKey, B: TableKey, V: Copy> Table<(A, B), V> {
    /// The second keys under a first key, each once, with copies of their values.
    pub fn copied_with_prefix(&self, a: &A) -> (r: Vec<(B, V)>)
        requires
            self.wf(),
        ensures
            lists_prefix(r@, self@, *a),
    {
        let entries = self.entries_with_prefix(a);
        let mut r: Vec<(B, V)> = Vec::new();
        let mut i: usize = 0;
        while i < entries.len()
            invariant
                i <= entries@.len(),
                r@.len() == i,
                forall|j: int| 0 <= j < i ==> (#[trigger] r@[j]).0 == entries@[j].0 && r@[j].1 == *entries@[j].1,
            decreases entries@.len() - i,
        {
            let e = &entries[i];
            r.push((e.0.copy_key(), *e.1));
            i += 1;
        }
        proof {
            assert forall|x: int, y: int| 0 <= x < r@.len() && 0 <= y < r@.len() && x != y implies r@[x].0 != r@[y].0 by {
                assert(r@[x].0 == entries@[x].0 && r@[y].0 == entries@[y].0);
            }
            assert forall|x: int| 0 <= x < r@.len() implies self@.contains_key((*a, #[trigger] r@[x].0)) && self@[(
                *a,
                r@[x].0,
            )] == r@[x].1 by {
                assert(r@[x].0 == entries@[x].0);
            }
            assert forall|b: B| #[trigger] self@.contains_key((*a, b)) implies exists|x: int| 0 <= x < r@.len() && r@[x].0 == b by {
                let x = choose|x: int| 0 <= x < entries@.len() && entries@[x].0 == b;
                assert(r@[x].0 == b);
            }
        }
        r
    }
}

/// A list of the entries under a first key: each second key once, with its value.
pub open spec fn lists_prefix<A, B, V>(r: Seq<(B, V)>, m: Map<(A, B), V>, a: A) -> bool {
    &&& forall|i: int, j: int| 0 <= i < r.len() && 0 <= j < r.len() && i != j ==> r[i].0 != r[j].0
    &&& forall|i: int| 0 <= i < r.len() ==> m.contains_key((a, #[trigger] r[i].0)) && m[(a, r[i].0)] == r[i].1
    &&& forall|b: B| #[trigger] m.contains_key((a, b)) ==> exists|i: int| 0 <= i < r.len() && r[i].0 == b
}

/// A list of the second keys under a first key, each once.
pub open spec fn lists_keys<A, B, V>(r: Seq<B>, m: Map<(A, B), V>, a: A) -> bool {
    &&& r.no_duplicates()
    &&& forall|b: B| r.contains(b) <==> m.contains_key((a, b))
}

/// Inserting entries keeps every key already present.
pub proof fn lemma_inserted_all_keeps<K, V>(m: Map<K, V>, entries: Seq<(K, V)>, k: K)
    requires
        m.contains_key(k),
    ensures
        inserted_all(m, entries).contains_key(k),
    decreases entries.len(),
{
    if entries.len() > 0 {
        lemma_inserted_all_keeps(m.insert(entries[0].0, entries[0].1), entries.drop_first(), k);
    }
}

/// Keys that no pair inserts keep their value.
pub proof fn lemma_inserted_all_other<K, V>(m: Map<K, V>, entries: Seq<(K, V)>, k: K)
    requires
        forall|j: int| 0 <= j < entries.len() ==> (#[trigger] entries[j]).0 != k,
    ensures
        inserted_all(m, entries).contains_key(k) == m.contains_key(k),
        m.contains_key(k) ==> inserted_all(m, entries)[k] == m[k],
    decreases entries.len(),
{
    if entries.len() > 0 {
        assert(entries[0].0 != k);
        assert forall|j: int| 0 <= j < entries.drop_first().len() implies (#[trigger] entries.drop_first()[j]).0 != k by {
            assert(entries.drop_first()[j] == entries[j + 1]);
        }
        lemma_inserted_all_other(m.insert(entries[0].0, entries[0].1), entries.drop_first(), k);
    }
}

/// A pair that no later pair overrides gives its key its value.
pub proof fn lemma_inserted_all_last<K, V>(m: Map<K, V>, entries: Seq<(K, V)>, i: int)
    requires
        0 <= i < entries.len(),
        forall|j: int| i < j < entries.len() ==> (#[trigger] entries[j]).0 != entries[i].0,
    ensures
        inserted_all(m, entries).contains_key(entries[i].0),
        inserted_all(m, entries)[entries[i].0] == entries[i].1,
    decreases entries.len(),
{
    let rest = entries.drop_first();
    let m1 = m.insert(entries[0].0, entries[0].1);
    if i == 0 {
        assert forall|j: int| 0 <= j < rest.len() implies (#[trigger] rest[j]).0 != entries[0].0 by {
            assert(rest[j] == entries[j + 1]);
        }
        lemma_inserted_all_other(m1, rest, entries[0].0);
    } else {
        assert(rest[i - 1] == entries[i]);
        assert forall|j: int| i - 1 < j < rest.len() implies (#[trigger] rest[j]).0 != rest[i - 1].0 by {
            assert(rest[j] == entries[j + 1]);
        }
        lemma_inserted_all_last(m1, rest, i - 1);
    }
}

/// Two double maps hold the same entries, with the two keys swapped.
pub open spec fn mirrored<A, B, V>(m: Map<(A, B), V>, n: Map<(B, A), V>) -> bool {
    &&& forall|a: A, b: B| #[trigger] m.contains_key((a, b)) ==> n.contains_key((b, a)) && n[(b, a)] == m[(a, b)]
    &&& forall|a: A, b: B| #[trigger] n.contains_key((b, a)) ==> m.contains_key((a, b))
}

/// Entries with the two keys swapped.
pub open spec fn swapped<A, B, V>(s: Seq<((A, B), V)>) -> Seq<((B, A), V)> {
    s.map_values(|e: ((A, B), V)| ((e.0.1, e.0.0), e.1))
}

/// Inserting an entry into both of two mirrored maps keeps them mirrored.
pub proof fn lemma_mirrored_insert<A, B, V>(m: Map<(A, B), V>, n: Map<(B, A), V>, a: A, b: B, v: V)
    requires
        mirrored(m, n),
    ensures
        mirrored(m.insert((a, b), v), n.insert((b, a), v)),
{
}

/// Inserting entries into one map and the same entries swapped into its mirror
/// keeps them mirrored.
pub proof fn lemma_mirrored_inserted_all<A, B, V>(m: Map<(A, B), V>, n: Map<(B, A), V>, s: Seq<((A, B), V)>)
    requires
        mirrored(m, n),
    ensures
        mirrored(inserted_all(m, s), inserted_all(n, swapped(s))),
    decreases s.len(),
{
    if s.len() > 0 {
        let e = s[0];
        lemma_mirrored_insert(m, n, e.0.0, e.0.1, e.1);
        assert(swapped(s).drop_first() =~= swapped(s.drop_first()));
        lemma_mirrored_inserted_all(m.insert(e.0, e.1), n.insert((e.0.1, e.0.0), e.1), s.drop_first());
    }
}

/// Removing swapped sets of keys from two mirrored maps keeps them mirrored.
pub proof fn lemma_mirrored_remove_keys<A, B, V>(m: Map<(A, B), V>, n: Map<(B, A), V>, ks: Set<(A, B)>, ls: Set<(B, A)>)
    requires
        mirrored(m, n),
        forall|a: A, b: B| #[trigger] ks.contains((a, b)) ==> ls.contains((b, a)),
        forall|a: A, b: B| #[trigger] ls.contains((b, a)) ==> ks.contains((a, b)),
    ensures
        mirrored(m.remove_keys(ks), n.remove_keys(ls)),
{
}

/// The map without the keys that stand under a first key.
pub open spec fn prefix_removed<A, B, V>(m: Map<(A, B), V>, a: A) -> Map<(A, B), V> {
    m.restrict(m.dom().filter(|k: (A, B)| k.0 != a))
}

} // verus!
