//! A keyed container over string keys in which a second insertion under an
//! existing key never replaces the stored value.
//!
//! The abstract content of a [`Holder`] is a `Map<Seq<char>, T>`; every
//! operation states its effect on that map.

use vstd::prelude::*;

verus! {

/// The map described by an association list, read left to right.
pub open spec fn assoc_map<T>(s: Seq<(String, T)>) -> Map<Seq<char>, T>
    decreases s.len(),
{
    if s.len() == 0 {
        Map::empty()
    } else {
        assoc_map(s.drop_last()).insert(s.last().0@, s.last().1)
    }
}

/// All keys of the association list are distinct.
pub open spec fn distinct_keys<T>(s: Seq<(String, T)>) -> bool {
    forall|i: int, j: int| 0 <= i < j < s.len() ==> s[i].0@ != s[j].0@
}

proof fn lemma_assoc_map_domain<T>(s: Seq<(String, T)>, k: Seq<char>)
    ensures
        assoc_map(s).contains_key(k) <==> exists|i: int| 0 <= i < s.len() && s[i].0@ == k,
    decreases s.len(),
{
    if s.len() > 0 {
        lemma_assoc_map_domain(s.drop_last(), k);
        if s.last().0@ == k {
            assert(s[s.len() - 1].0@ == k);
        } else if assoc_map(s).contains_key(k) {
            let i = choose|i: int| 0 <= i < s.drop_last().len() && s.drop_last()[i].0@ == k;
            assert(s[i].0@ == k);
        } else if exists|i: int| 0 <= i < s.len() && s[i].0@ == k {
            let i = choose|i: int| 0 <= i < s.len() && s[i].0@ == k;
            assert(s.drop_last()[i].0@ == k);
        }
    }
}

proof fn lemma_assoc_map_index<T>(s: Seq<(String, T)>, i: int)
    requires
        distinct_keys(s),
        0 <= i < s.len(),
    ensures
        assoc_map(s).contains_key(s[i].0@),
        assoc_map(s)[s[i].0@] == s[i].1,
    decreases s.len(),
{
    if i < s.len() - 1 {
        lemma_assoc_map_index(s.drop_last(), i);
        assert(s.drop_last()[i] == s[i]);
        assert(s[i].0@ != s.last().0@);
    }
}

proof fn lemma_assoc_map_len<T>(s: Seq<(String, T)>)
    requires
        distinct_keys(s),
    ensures
        assoc_map(s).dom().finite(),
        assoc_map(s).len() == s.len(),
    decreases s.len(),
{
    if s.len() == 0 {
        assert(assoc_map(s).dom() =~= Set::<Seq<char>>::empty());
    } else {
        lemma_assoc_map_len(s.drop_last());
        lemma_assoc_map_domain(s.drop_last(), s.last().0@);
        let m0 = assoc_map(s.drop_last());
        let k = s.last().0@;
        assert(!m0.dom().contains(k));
        assert(assoc_map(s).dom() =~= m0.dom().insert(k));
        vstd::set::axiom_set_insert_finite(m0.dom(), k);
        vstd::set::axiom_set_insert_len(m0.dom(), k);
    }
}

/// A keyed container over owned string keys.  Looking a key up yields a
/// shared reference to the stored value; inserting under a key that is
/// already present keeps the old value and hands the caller a reference to
/// it instead of storing the new one.  Entries leave the container only
/// through [`Holder::clear`].
pub struct Holder<T> {
    entries: Vec<(String, T)>,
    cap: usize,
}

impl<T> View for Holder<T> {
    type V = Map<Seq<char>, T>;

    closed spec fn view(&self) -> Map<Seq<char>, T> {
        assoc_map(self.entries@)
    }
}

impl<T> Holder<T> {
    #[verifier::type_invariant]
    spec fn well_formed(self) -> bool {
        distinct_keys(self.entries@) && self.entries@.len() <= self.cap
    }

    /// The advertised capacity: a lower bound on the number of entries the
    /// container will hold without growing its bookkeeping.
    pub closed spec fn spec_capacity(&self) -> nat {
        self.cap as nat
    }

    /// Constructs a new, empty `Holder<T>`.
    pub fn new() -> (holder: Self)
        ensures
            holder@ == Map::<Seq<char>, T>::empty(),
            holder.spec_capacity() == 0,
    {
        Holder { entries: Vec::new(), cap: 0 }
    }

    /// Constructs a new, empty `Holder<T>` able to hold at least `capacity`
    /// entries without growing.
    pub fn with_capacity(capacity: usize) -> (holder: Self)
        ensures
            holder@ == Map::<Seq<char>, T>::empty(),
            holder.spec_capacity() == capacity,
    {
        Holder { entries: Vec::new(), cap: capacity }
    }

    /// Position of `key` among the entries, if it occurs.
    fn index_of(&self, key: &str) -> (r: Option<usize>)
        ensures
            match r {
                Some(i) => i < self.entries@.len() && self.entries@[i as int].0@ == key@,
                None => forall|j: int|
                    0 <= j < self.entries@.len() ==> self.entries@[j].0@ != key@,
            },
    {
        let owned: String = key.to_owned();
        let n = self.entries.len();
        let mut i: usize = 0;
        while i < n
            invariant
                n == self.entries@.len(),
                i <= n,
                owned@ == key@,
                forall|j: int| 0 <= j < i ==> self.entries@[j].0@ != key@,
            decreases n - i,
        {
            if self.entries[i].0 == owned {
                return Some(i);
            }
            i += 1;
        }
        None
    }

    /// Returns a reference to the value stored under `key`, if any.
    pub fn get<'a>(&'a self, key: &str) -> (r: Option<&'a T>)
        ensures
            match r {
                Some(v) => self@.contains_key(key@) && *v == self@[key@],
                None => !self@.contains_key(key@),
            },
    {
        proof {
            use_type_invariant(&*self);
            lemma_assoc_map_domain(self.entries@, key@);
        }
        match self.index_of(key) {
            Some(i) => {
                proof {
                    lemma_assoc_map_index(self.entries@, i as int);
                }
                Some(&self.entries[i].1)
            },
            None => None,
        }
    }

    /// Inserts `element` under `key` if the key is absent, returning `None`;
    /// if the key is already present, `element` is dropped and a reference
    /// to the value that is already stored comes back instead.  Either way
    /// the value first stored under a key is the one that stays.
    pub fn insert<'a>(&'a mut self, key: &str, element: T) -> (r: Option<&'a T>)
        ensures
            final(self)@ == inserted(old(self)@, key@, element),
            final(self).spec_capacity() == spec_max(
                old(self).spec_capacity() as int,
                final(self)@.len() as int,
            ),
            old(self)@.contains_key(key@) ==> (r matches Some(v) && *v == old(self)@[key@]),
            !old(self)@.contains_key(key@) ==> r is None,
    {
        proof {
            use_type_invariant(&*self);
            lemma_assoc_map_domain(self.entries@, key@);
            lemma_assoc_map_len(self.entries@);
        }
        match self.index_of(key) {
            Some(i) => {
                proof {
                    lemma_assoc_map_index(self.entries@, i as int);
                }
                Some(&self.entries[i].1)
            },
            None => {
                let mut entries = Vec::new();
                std::mem::swap(&mut entries, &mut self.entries);
                entries.push((key.to_owned(), element));
                proof {
                    assert(entries@.drop_last() == old(self).entries@);
                    lemma_assoc_map_len(entries@);
                }
                let n = entries.len();
                if self.cap < n {
                    self.cap = n;
                }
                self.entries = entries;
                None
            },
        }
    }

    /// Like [`Holder::insert`], but the value is produced by calling
    /// `element`, and only when `key` is absent; when the key is already
    /// present the producer is never run.
    pub fn insert_fn<'a, F: Fn() -> T>(&'a mut self, key: &str, element: F) -> (r: Option<&'a T>)
        requires
            !old(self)@.contains_key(key@) ==> call_requires(element, ()),
        ensures
            old(self)@.contains_key(key@) ==> (r matches Some(v) && *v == old(self)@[key@]
                && final(self)@ == old(self)@),
            !old(self)@.contains_key(key@) ==> r is None && final(self)@.contains_key(key@)
                && call_ensures(element, (), final(self)@[key@]) && final(self)@ == old(
                self,
            )@.insert(key@, final(self)@[key@]),
            final(self).spec_capacity() == spec_max(
                old(self).spec_capacity() as int,
                final(self)@.len() as int,
            ),
    {
        proof {
            use_type_invariant(&*self);
            lemma_assoc_map_domain(self.entries@, key@);
            lemma_assoc_map_len(self.entries@);
        }
        match self.index_of(key) {
            Some(i) => {
                proof {
                    lemma_assoc_map_index(self.entries@, i as int);
                }
                Some(&self.entries[i].1)
            },
            None => {
                let value = element();
                let mut entries = Vec::new();
                std::mem::swap(&mut entries, &mut self.entries);
                entries.push((key.to_owned(), value));
                proof {
                    assert(entries@.drop_last() == old(self).entries@);
                    lemma_assoc_map_len(entries@);
                }
                let n = entries.len();
                if self.cap < n {
                    self.cap = n;
                }
                self.entries = entries;
                None
            },
        }
    }

    /// Removes every entry; the advertised capacity is untouched.
    pub fn clear(&mut self)
        ensures
            final(self)@ == Map::<Seq<char>, T>::empty(),
            final(self).spec_capacity() == old(self).spec_capacity(),
    {
        self.entries = Vec::new();
    }

    /// The number of entries.
    pub fn len(&self) -> (r: usize)
        ensures
            r == self@.len(),
    {
        proof {
            use_type_invariant(&*self);
            lemma_assoc_map_len(self.entries@);
        }
        self.entries.len()
    }

    /// Lowers the advertised capacity to the number of entries; the entries
    /// themselves are untouched.
    pub fn shrink_to_fit(&mut self)
        ensures
            final(self)@ == old(self)@,
            final(self).spec_capacity() == old(self)@.len(),
    {
        proof {
            use_type_invariant(&*self);
            lemma_assoc_map_len(self.entries@);
        }
        self.cap = self.entries.len();
    }

    /// A lower bound on the number of entries the container will hold
    /// without growing its bookkeeping.
    pub fn capacity(&self) -> (r: usize)
        ensures
            r == self.spec_capacity(),
    {
        self.cap
    }
}

/// The larger of two integers.
pub open spec fn spec_max(a: int, b: int) -> int {
    if a >= b {
        a
    } else {
        b
    }
}

/// What one call of [`Holder::insert`] leaves behind: the first value stored
/// under a key is the one that stays.
pub open spec fn inserted<T>(m: Map<Seq<char>, T>, k: Seq<char>, v: T) -> Map<Seq<char>, T> {
    if m.contains_key(k) {
        m
    } else {
        m.insert(k, v)
    }
}

/// What a run of [`Holder::insert`] calls leaves behind: the keys `ks` are
/// inserted in order, each with the value of `vs` at the same position.
pub open spec fn inserted_all<T>(
    m: Map<Seq<char>, T>,
    ks: Seq<Seq<char>>,
    vs: Seq<T>,
) -> Map<Seq<char>, T>
    decreases ks.len(),
{
    if ks.len() == 0 || vs.len() == 0 {
        m
    } else {
        inserted_all(inserted(m, ks[0], vs[0]), ks.drop_first(), vs.drop_first())
    }
}

/// Inserting under one key is idempotent: a second insertion under `k`
/// changes nothing, and the value that can be read under `k` afterwards is
/// the first one stored, never the second.
pub proof fn lemma_insert_idempotent<T>(m: Map<Seq<char>, T>, k: Seq<char>, v1: T, v2: T)
    ensures
        inserted(inserted(m, k, v1), k, v2) == inserted(m, k, v1),
        !m.contains_key(k) ==> inserted(m, k, v1)[k] == v1,
{
}

/// The value stored under `k` survives any run of insertions under other
/// keys, whatever values they carry.
pub proof fn lemma_insert_preserves_others<T>(
    m: Map<Seq<char>, T>,
    k: Seq<char>,
    ks: Seq<Seq<char>>,
    vs: Seq<T>,
)
    requires
        m.contains_key(k),
        forall|i: int| 0 <= i < ks.len() ==> ks[i] != k,
    ensures
        inserted_all(m, ks, vs).contains_key(k),
        inserted_all(m, ks, vs)[k] == m[k],
    decreases ks.len(),
{
    if ks.len() > 0 && vs.len() > 0 {
        let m1 = inserted(m, ks[0], vs[0]);
        lemma_insert_preserves_others(m1, k, ks.drop_first(), vs.drop_first());
    }
}

/// A run of insertions under distinct keys, none of them present yet,
/// stores every value under its own key and grows the entry count by the
/// number of keys.
pub proof fn lemma_distinct_fresh_inserts<T>(
    m: Map<Seq<char>, T>,
    ks: Seq<Seq<char>>,
    vs: Seq<T>,
)
    requires
        ks.len() == vs.len(),
        forall|i: int, j: int| 0 <= i < j < ks.len() ==> ks[i] != ks[j],
        forall|i: int| 0 <= i < ks.len() ==> !m.contains_key(ks[i]),
        m.dom().finite(),
    ensures
        forall|i: int|
            0 <= i < ks.len() ==> inserted_all(m, ks, vs).contains_key(#[trigger] ks[i])
                && inserted_all(m, ks, vs)[ks[i]] == vs[i],
        inserted_all(m, ks, vs).dom().finite(),
        inserted_all(m, ks, vs).len() == m.len() + ks.len(),
    decreases ks.len(),
{
    if ks.len() > 0 {
        let m1 = inserted(m, ks[0], vs[0]);
        vstd::set::axiom_set_insert_finite(m.dom(), ks[0]);
        vstd::set::axiom_set_insert_len(m.dom(), ks[0]);
        assert(m1.dom() =~= m.dom().insert(ks[0]));
        lemma_distinct_fresh_inserts(m1, ks.drop_first(), vs.drop_first());
        lemma_insert_preserves_others(m1, ks[0], ks.drop_first(), vs.drop_first());
        assert forall|i: int|
            0 <= i < ks.len() implies inserted_all(m, ks, vs).contains_key(#[trigger] ks[i])
            && inserted_all(m, ks, vs)[ks[i]] == vs[i] by {
            if i > 0 {
                assert(ks.drop_first()[i - 1] == ks[i]);
                assert(vs.drop_first()[i - 1] == vs[i]);
            }
        }
    }
}

/// From an empty container, inserting distinct keys `ks` with values `vs`
/// leaves every `ks[i]` mapped to `vs[i]` and exactly `ks.len()` entries.
pub proof fn lemma_fresh_inserts_from_empty<T>(ks: Seq<Seq<char>>, vs: Seq<T>)
    requires
        ks.len() == vs.len(),
        forall|i: int, j: int| 0 <= i < j < ks.len() ==> ks[i] != ks[j],
    ensures
        forall|i: int|
            0 <= i < ks.len() ==> inserted_all(Map::<Seq<char>, T>::empty(), ks, vs).contains_key(
                #[trigger] ks[i],
            ) && inserted_all(Map::<Seq<char>, T>::empty(), ks, vs)[ks[i]] == vs[i],
        inserted_all(Map::<Seq<char>, T>::empty(), ks, vs).len() == ks.len(),
{
    let m = Map::<Seq<char>, T>::empty();
    assert(m.dom() =~= Set::<Seq<char>>::empty());
    lemma_distinct_fresh_inserts(m, ks, vs);
}

} // verus!
