//! Small collections keyed by text: a set of names and a map from names to
//! values, both backed by vectors and searched linearly. Nothing about a
//! lookup rests on how a text is hashed or ordered: what a search finds is
//! proved here from the equality of texts alone.

use vstd::prelude::*;

verus! {

/// The texts of a sequence of strings, in order.
pub open spec fn texts(v: Seq<String>) -> Seq<Seq<char>> {
    v.map_values(|s: String| s@)
}

/// In a sequence without duplicates an element is found at its own index.
pub proof fn lemma_index_of_unique<A>(s: Seq<A>, i: int)
    requires
        s.no_duplicates(),
        0 <= i < s.len(),
    ensures
        s.contains(s[i]),
        s.index_of(s[i]) == i,
{
    let j = s.index_of(s[i]);
    assert(0 <= j < s.len() && s[j] == s[i]);
}

/// One step of picking from a sequence without duplicates those elements
/// that satisfy `p`: what was picked from `done`, extended by `c` where `p`
/// holds of it, is what is picked from `done` with `c` appended.
pub proof fn lemma_pick_step<A>(done: Seq<A>, picked: Seq<A>, c: A, p: spec_fn(A) -> bool)
    requires
        !done.contains(c),
        picked.no_duplicates(),
        forall|x: A| picked.contains(x) <==> (done.contains(x) && p(x)),
    ensures
        p(c) ==> picked.push(c).no_duplicates(),
        p(c) ==> forall|x: A| picked.push(c).contains(x) <==> (done.push(c).contains(x) && p(x)),
        !p(c) ==> forall|x: A| picked.contains(x) <==> (done.push(c).contains(x) && p(x)),
{
    let done2 = done.push(c);
    assert forall|x: A| done2.contains(x) <==> (done.contains(x) || x == c) by {
        if done.contains(x) {
            let j = choose|j: int| 0 <= j < done.len() && done[j] == x;
            assert(done2[j] == x);
        }
        if x == c {
            assert(done2[done.len() as int] == x);
        }
    }
    if p(c) {
        let picked2 = picked.push(c);
        assert(!picked.contains(c));
        assert forall|x: A| picked2.contains(x) <==> (picked.contains(x) || x == c) by {
            if picked.contains(x) {
                let j = choose|j: int| 0 <= j < picked.len() && picked[j] == x;
                assert(picked2[j] == x);
            }
            if x == c {
                assert(picked2[picked.len() as int] == x);
            }
        }
    }
}

/// Appending an element that a sequence without duplicates does not hold
/// keeps it without duplicates, and it then holds what it held and that
/// element.
pub proof fn lemma_push_fresh<A>(s: Seq<A>, x: A)
    requires
        s.no_duplicates(),
        !s.contains(x),
    ensures
        s.push(x).no_duplicates(),
        forall|y: A| #[trigger] s.push(x).contains(y) <==> (s.contains(y) || y == x),
{
    assert forall|y: A| #[trigger] s.push(x).contains(y) <==> (s.contains(y) || y == x) by {
        if s.contains(y) {
            let j = choose|j: int| 0 <= j < s.len() && s[j] == y;
            assert(s.push(x)[j] == y);
        }
        if y == x {
            assert(s.push(x)[s.len() as int] == y);
        }
    }
}

/// A prefix of a sequence without duplicates does not hold the element that
/// follows it, and the next prefix is this one with that element appended.
pub proof fn lemma_take_next<A>(all: Seq<A>, i: int)
    requires
        all.no_duplicates(),
        0 <= i < all.len(),
    ensures
        !all.take(i).contains(all[i]),
        all.take(i + 1) == all.take(i).push(all[i]),
{
    let done = all.take(i);
    if done.contains(all[i]) {
        let j = choose|j: int| 0 <= j < done.len() && done[j] == all[i];
        assert(all[j] == all[i]);
    }
    assert(all.take(i + 1) =~= done.push(all[i]));
}

/// A finite set of names.
pub struct NameSet {
    names: Vec<String>,
}

impl View for NameSet {
    type V = Set<Seq<char>>;

    open spec fn view(&self) -> Set<Seq<char>> {
        self.seq().to_set()
    }
}

impl NameSet {
    /// The names in storage order.
    pub closed spec fn seq(&self) -> Seq<Seq<char>> {
        texts(self.names@)
    }

    /// No name is stored twice.
    pub open spec fn wf(&self) -> bool {
        self.seq().no_duplicates()
    }

    /// The set is finite and has as many elements as names are stored.
    pub proof fn lemma_len(&self)
        requires
            self.wf(),
        ensures
            self@.finite(),
            self@.len() == self.seq().len(),
    {
        self.seq().unique_seq_to_set();
        vstd::seq_lib::seq_to_set_is_finite(self.seq());
    }

    pub fn new() -> (s: Self)
        ensures
            s.wf(),
            s@ == Set::<Seq<char>>::empty(),
            s.seq() == Seq::<Seq<char>>::empty(),
    {
        let s = NameSet { names: Vec::new() };
        assert(s.seq() =~= Seq::<Seq<char>>::empty());
        assert(s@ =~= Set::<Seq<char>>::empty());
        s
    }

    pub fn len(&self) -> (n: usize)
        ensures
            n == self.seq().len(),
            self.wf() ==> n == self@.len(),
    {
        proof {
            if self.wf() {
                self.lemma_len();
            }
        }
        self.names.len()
    }

    pub fn is_empty(&self) -> (b: bool)
        ensures
            b == (self.seq().len() == 0),
            b == (self@ == Set::<Seq<char>>::empty()),
    {
        proof {
            if self.seq().len() == 0 {
                assert(self@ =~= Set::<Seq<char>>::empty());
            } else {
                assert(self@.contains(self.seq()[0]));
            }
        }
        self.names.len() == 0
    }

    /// The name stored at position `i`.
    pub fn get(&self, i: usize) -> (name: &String)
        requires
            i < self.seq().len(),
        ensures
            name@ == self.seq()[i as int],
            self@.contains(name@),
    {
        &self.names[i]
    }

    /// Where `name` is stored, if it is.
    pub fn position(&self, name: &String) -> (r: Option<usize>)
        ensures
            match r {
                Some(i) => i < self.seq().len() && self.seq()[i as int] == name@,
                None => !self@.contains(name@),
            },
    {
        let mut i: usize = 0;
        while i < self.names.len()
            invariant
                i <= self.names.len(),
                forall|j: int| 0 <= j < i ==> self.seq()[j] != name@,
            decreases self.names.len() - i,
        {
            if self.names[i] == *name {
                return Some(i);
            }
            i += 1;
        }
        None
    }

    pub fn contains(&self, name: &String) -> (b: bool)
        ensures
            b == self@.contains(name@),
    {
        self.position(name).is_some()
    }

    /// Adds `name`; tells whether it was new.
    pub fn insert(&mut self, name: String) -> (added: bool)
        requires
            old(self).wf(),
        ensures
            final(self).wf(),
            final(self)@ == old(self)@.insert(name@),
            added == !old(self)@.contains(name@),
            added ==> final(self).seq() == old(self).seq().push(name@),
            !added ==> final(self).seq() == old(self).seq(),
    {
        if self.position(&name).is_some() {
            assert(self@ =~= self@.insert(name@));
            false
        } else {
            let ghost before = self.seq();
            self.names.push(name);
            assert(self.seq() =~= before.push(name@));
            assert(self@ =~= before.to_set().insert(name@)) by {
                assert forall|x: Seq<char>| self.seq().contains(x) <==> (before.contains(x) || x
                    == name@) by {
                    if before.contains(x) {
                        let j = choose|j: int| 0 <= j < before.len() && before[j] == x;
                        assert(self.seq()[j] == x);
                    }
                    if x == name@ {
                        assert(self.seq()[before.len() as int] == x);
                    }
                }
            }
            true
        }
    }

    /// Removes `name`; tells whether it was there.
    pub fn remove(&mut self, name: &String) -> (removed: bool)
        requires
            old(self).wf(),
        ensures
            final(self).wf(),
            final(self)@ == old(self)@.remove(name@),
            removed == old(self)@.contains(name@),
    {
        match self.position(name) {
            None => {
                assert(self@ =~= self@.remove(name@));
                false
            },
            Some(i) => {
                let ghost before = self.seq();
                self.names.remove(i);
                assert(self.seq() =~= before.remove(i as int));
                assert(self@ =~= before.to_set().remove(name@)) by {
                    assert forall|x: Seq<char>| self.seq().contains(x) <==> (before.contains(x)
                        && x != name@) by {
                        if self.seq().contains(x) {
                            let j = choose|j: int| 0 <= j < self.seq().len() && self.seq()[j] == x;
                            if j < i {
                                assert(before[j] == x);
                            } else {
                                assert(before[j + 1] == x);
                            }
                        }
                        if before.contains(x) && x != name@ {
                            let j = choose|j: int| 0 <= j < before.len() && before[j] == x;
                            if j < i {
                                assert(self.seq()[j] == x);
                            } else {
                                assert(self.seq()[j - 1] == x);
                            }
                        }
                    }
                }
                true
            },
        }
    }

    /// The set of the names in `list`.
    pub fn from_vec(list: &Vec<String>) -> (s: Self)
        ensures
            s.wf(),
            s@ == texts(list@).to_set(),
    {
        let mut s = NameSet::new();
        let mut i: usize = 0;
        assert(texts(list@).take(0).to_set() =~= Set::<Seq<char>>::empty());
        while i < list.len()
            invariant
                i <= list.len(),
                s.wf(),
                s@ == texts(list@).take(i as int).to_set(),
            decreases list.len() - i,
        {
            proof {
                let done = texts(list@).take(i as int);
                assert(texts(list@).take(i + 1) =~= done.push(list@[i as int]@));
                done.lemma_push_to_set_commute(list@[i as int]@);
            }
            s.insert(list[i].clone());
            i += 1;
        }
        assert(texts(list@).take(i as int) =~= texts(list@));
        s
    }

    /// The names as a vector of their own, in storage order.
    pub fn to_vec(&self) -> (v: Vec<String>)
        ensures
            texts(v@) == self.seq(),
    {
        let mut v: Vec<String> = Vec::new();
        let mut i: usize = 0;
        while i < self.names.len()
            invariant
                i <= self.names.len(),
                v@.len() == i,
                forall|j: int| 0 <= j < i ==> v@[j]@ == self.names@[j]@,
            decreases self.names.len() - i,
        {
            v.push(self.names[i].clone());
            i += 1;
        }
        assert(texts(v@) =~= self.seq());
        v
    }
}

/// A finite map from names to values.
pub struct NameMap<V> {
    keys: Vec<String>,
    values: Vec<V>,
}

impl<V> View for NameMap<V> {
    type V = Map<Seq<char>, V>;

    open spec fn view(&self) -> Map<Seq<char>, V> {
        Map::new(
            |k: Seq<char>| self.key_seq().contains(k),
            |k: Seq<char>| self.value_seq()[self.key_seq().index_of(k)],
        )
    }
}

impl<V> NameMap<V> {
    /// The keys in storage order.
    pub closed spec fn key_seq(&self) -> Seq<Seq<char>> {
        texts(self.keys@)
    }

    /// The values in storage order, each beside its key.
    pub closed spec fn value_seq(&self) -> Seq<V> {
        self.values@
    }

    /// No key is stored twice and every key has its value.
    pub open spec fn wf(&self) -> bool {
        &&& self.key_seq().no_duplicates()
        &&& self.key_seq().len() == self.value_seq().len()
    }

    /// The entry stored at position `i` is the map's entry for that key.
    pub proof fn lemma_entry(&self, i: int)
        requires
            self.wf(),
            0 <= i < self.key_seq().len(),
        ensures
            self@.contains_key(self.key_seq()[i]),
            self@[self.key_seq()[i]] == self.value_seq()[i],
    {
        lemma_index_of_unique(self.key_seq(), i);
    }

    /// Every key of the map is stored at some position.
    pub proof fn lemma_stored(&self, k: Seq<char>) -> (i: int)
        requires
            self.wf(),
            self@.contains_key(k),
        ensures
            0 <= i < self.key_seq().len(),
            self.key_seq()[i] == k,
            self.value_seq()[i] == self@[k],
    {
        let i = self.key_seq().index_of(k);
        assert(0 <= i < self.key_seq().len() && self.key_seq()[i] == k);
        i
    }

    /// The domain is finite and has as many keys as entries are stored.
    pub proof fn lemma_len(&self)
        requires
            self.wf(),
        ensures
            self@.dom().finite(),
            self@.dom() == self.key_seq().to_set(),
            self@.dom().len() == self.key_seq().len(),
    {
        assert(self@.dom() =~= self.key_seq().to_set());
        self.key_seq().unique_seq_to_set();
        vstd::seq_lib::seq_to_set_is_finite(self.key_seq());
    }

    pub fn new() -> (m: Self)
        ensures
            m.wf(),
            m@ == Map::<Seq<char>, V>::empty(),
            m.key_seq().len() == 0,
    {
        let m = NameMap { keys: Vec::new(), values: Vec::new() };
        assert(m.key_seq() =~= Seq::<Seq<char>>::empty());
        assert(m@ =~= Map::<Seq<char>, V>::empty());
        m
    }

    pub fn len(&self) -> (n: usize)
        ensures
            n == self.key_seq().len(),
            self.wf() ==> n == self@.dom().len(),
    {
        proof {
            if self.wf() {
                self.lemma_len();
            }
        }
        self.keys.len()
    }

    /// The key stored at position `i`.
    pub fn key_at(&self, i: usize) -> (key: &String)
        requires
            self.wf(),
            i < self.key_seq().len(),
        ensures
            key@ == self.key_seq()[i as int],
            self@.contains_key(key@),
    {
        proof {
            self.lemma_entry(i as int);
        }
        &self.keys[i]
    }

    /// The value stored at position `i`.
    pub fn value_at(&self, i: usize) -> (value: &V)
        requires
            self.wf(),
            i < self.key_seq().len(),
        ensures
            *value == self.value_seq()[i as int],
            self@.contains_key(self.key_seq()[i as int]),
            *value == self@[self.key_seq()[i as int]],
    {
        proof {
            self.lemma_entry(i as int);
        }
        &self.values[i]
    }

    /// The keys as a vector of their own, in storage order: each key of the
    /// map once.
    pub fn keys(&self) -> (v: Vec<String>)
        requires
            self.wf(),
        ensures
            texts(v@) == self.key_seq(),
            texts(v@).no_duplicates(),
            forall|k: Seq<char>|
                #![trigger texts(v@).contains(k)]
                #![trigger self@.contains_key(k)]
                texts(v@).contains(k) <==> self@.contains_key(k),
    {
        let mut v: Vec<String> = Vec::new();
        let mut i: usize = 0;
        while i < self.keys.len()
            invariant
                i <= self.keys.len(),
                v@.len() == i,
                forall|j: int| 0 <= j < i ==> v@[j]@ == self.keys@[j]@,
            decreases self.keys.len() - i,
        {
            v.push(self.keys[i].clone());
            i += 1;
        }
        assert(texts(v@) =~= self.key_seq());
        v
    }

    /// Where `key` is stored, if it is.
    pub fn position(&self, key: &String) -> (r: Option<usize>)
        ensures
            match r {
                Some(i) => i < self.key_seq().len() && self.key_seq()[i as int] == key@,
                None => !self@.contains_key(key@),
            },
    {
        let mut i: usize = 0;
        while i < self.keys.len()
            invariant
                i <= self.keys.len(),
                forall|j: int| 0 <= j < i ==> self.key_seq()[j] != key@,
            decreases self.keys.len() - i,
        {
            if self.keys[i] == *key {
                return Some(i);
            }
            i += 1;
        }
        None
    }

    pub fn contains_key(&self, key: &String) -> (b: bool)
        ensures
            b == self@.contains_key(key@),
    {
        let r = self.position(key);
        proof {
            if let Some(i) = r {
                assert(self.key_seq().contains(key@));
            }
        }
        r.is_some()
    }

    pub fn get(&self, key: &String) -> (r: Option<&V>)
        requires
            self.wf(),
        ensures
            match r {
                Some(v) => self@.contains_key(key@) && *v == self@[key@],
                None => !self@.contains_key(key@),
            },
    {
        match self.position(key) {
            Some(i) => {
                proof {
                    self.lemma_entry(i as int);
                }
                Some(&self.values[i])
            },
            None => None,
        }
    }

    /// The value bound to `key`, for changing it in place.
    pub fn get_mut(&mut self, key: &String) -> (r: Option<&mut V>)
        requires
            old(self).wf(),
        ensures
            match r {
                Some(v) => {
                    &&& old(self)@.contains_key(key@)
                    &&& *v == old(self)@[key@]
                    &&& final(self)@ == old(self)@.insert(key@, *final(v))
                    &&& final(self).wf()
                },
                None => !old(self)@.contains_key(key@) && *final(self) == *old(self),
            },
    {
        match self.position(key) {
            Some(i) => {
                proof {
                    self.lemma_entry(i as int);
                }
                Some(&mut self.values[i])
            },
            None => None,
        }
    }

    /// Binds `key` to `value`; hands back the value that was bound before.
    pub fn insert(&mut self, key: String, value: V) -> (previous: Option<V>)
        requires
            old(self).wf(),
        ensures
            final(self).wf(),
            final(self)@ == old(self)@.insert(key@, value),
            match previous {
                Some(v) => old(self)@.contains_key(key@) && v == old(self)@[key@],
                None => !old(self)@.contains_key(key@),
            },
    {
        let ghost before = *self;
        match self.position(&key) {
            Some(i) => {
                proof {
                    before.lemma_entry(i as int);
                }
                let previous = self.values.remove(i);
                self.values.insert(i, value);
                assert(self.value_seq() =~= before.value_seq().update(i as int, value));
                assert(self.key_seq() == before.key_seq());
                assert(self@ =~= before@.insert(key@, value)) by {
                    assert forall|k: Seq<char>| self@.contains_key(k) implies self@[k]
                        == before@.insert(key@, value)[k] by {
                        let j = self.lemma_stored(k);
                        before.lemma_entry(j);
                    }
                }
                Some(previous)
            },
            None => {
                self.keys.push(key);
                self.values.push(value);
                assert(self.key_seq() =~= before.key_seq().push(key@));
                assert(self.value_seq() =~= before.value_seq().push(value));
                assert(self@ =~= before@.insert(key@, value)) by {
                    assert forall|k: Seq<char>| self@.contains_key(k) <==> (before@.contains_key(k)
                        || k == key@) by {
                        if before@.contains_key(k) {
                            let j = before.lemma_stored(k);
                            assert(self.key_seq()[j] == k);
                        }
                        if k == key@ {
                            assert(self.key_seq()[before.key_seq().len() as int] == k);
                        }
                    }
                    assert forall|k: Seq<char>| self@.contains_key(k) implies self@[k]
                        == before@.insert(key@, value)[k] by {
                        let j = self.lemma_stored(k);
                        if j < before.key_seq().len() {
                            before.lemma_entry(j);
                        }
                    }
                }
                None
            },
        }
    }

    /// Unbinds `key`; hands back the value that was bound.
    pub fn remove(&mut self, key: &String) -> (previous: Option<V>)
        requires
            old(self).wf(),
        ensures
            final(self).wf(),
            final(self)@ == old(self)@.remove(key@),
            match previous {
                Some(v) => old(self)@.contains_key(key@) && v == old(self)@[key@],
                None => !old(self)@.contains_key(key@),
            },
    {
        let ghost before = *self;
        match self.position(key) {
            None => {
                assert(self@ =~= before@.remove(key@));
                None
            },
            Some(i) => {
                proof {
                    before.lemma_entry(i as int);
                }
                self.keys.remove(i);
                let previous = self.values.remove(i);
                assert(self.key_seq() =~= before.key_seq().remove(i as int));
                assert(self.value_seq() =~= before.value_seq().remove(i as int));
                assert(self@ =~= before@.remove(key@)) by {
                    assert forall|k: Seq<char>| self@.contains_key(k) <==> (before@.contains_key(k)
                        && k != key@) by {
                        if self@.contains_key(k) {
                            let j = self.lemma_stored(k);
                            if j < i {
                                assert(before.key_seq()[j] == k);
                            } else {
                                assert(before.key_seq()[j + 1] == k);
                            }
                        }
                        if before@.contains_key(k) && k != key@ {
                            let j = before.lemma_stored(k);
                            if j < i {
                                assert(self.key_seq()[j] == k);
                            } else {
                                assert(self.key_seq()[j - 1] == k);
                            }
                        }
                    }
                    assert forall|k: Seq<char>| self@.contains_key(k) implies self@[k]
                        == before@[k] by {
                        let j = self.lemma_stored(k);
                        if j < i {
                            before.lemma_entry(j);
                        } else {
                            before.lemma_entry(j + 1);
                        }
                    }
                }
                Some(previous)
            },
        }
    }
}

} // verus!
