//! Collections of records kept in the order of their string keys, each key
//! at most once: the tables of models, loaded models and download jobs.

use vstd::prelude::*;
use crate::text::{chars_of, lemma_lex_asymmetric, lemma_lex_irreflexive, lemma_lex_total,
    lemma_lex_transitive, lex_lt, lex_lt_exec, slice_eq};

verus! {

broadcast use vstd::string::group_string_axioms;

/// A record with a string key.
pub trait Keyed: View + Sized {
    spec fn key_of(v: Self::V) -> Seq<char>;

    fn key(&self) -> (k: &str)
        ensures
            k@ == Self::key_of(self@),
    ;

    fn duplicate(&self) -> (r: Self)
        ensures
            r@ == self@,
    ;
}

/// The views of the elements of `s`.
pub open spec fn views_of<T: View>(s: Seq<T>) -> Seq<T::V> {
    s.map_values(|x: T| x@)
}

/// The keys of `s` strictly increase.
pub open spec fn keys_sorted<T: Keyed>(s: Seq<T::V>) -> bool {
    forall|i: int, j: int| 0 <= i < j < s.len() ==> lex_lt(T::key_of(s[i]), T::key_of(s[j]))
}

pub open spec fn has_key<T: Keyed>(s: Seq<T::V>, k: Seq<char>) -> bool {
    exists|i: int| 0 <= i < s.len() && T::key_of(s[i]) == k
}

/// The map from keys to records of a list (later records win).
pub open spec fn keyed_map<T: Keyed>(s: Seq<T::V>) -> Map<Seq<char>, T::V>
    decreases s.len(),
{
    if s.len() == 0 {
        Map::empty()
    } else {
        keyed_map::<T>(s.drop_last()).insert(T::key_of(s.last()), s.last())
    }
}

proof fn lemma_keyed_dom<T: Keyed>(s: Seq<T::V>, k: Seq<char>)
    ensures
        keyed_map::<T>(s).contains_key(k) == has_key::<T>(s, k),
    decreases s.len(),
{
    if s.len() > 0 {
        let t = s.drop_last();
        lemma_keyed_dom::<T>(t, k);
        if has_key::<T>(t, k) {
            let j = choose|j: int| 0 <= j < t.len() && T::key_of(t[j]) == k;
            assert(T::key_of(s[j]) == k);
        }
        if has_key::<T>(s, k) && T::key_of(s.last()) != k {
            let j = choose|j: int| 0 <= j < s.len() && T::key_of(s[j]) == k;
            assert(j < s.len() - 1);
            assert(T::key_of(t[j]) == k);
        }
    }
}

proof fn lemma_keyed_at<T: Keyed>(s: Seq<T::V>, i: int)
    requires
        keys_sorted::<T>(s),
        0 <= i < s.len(),
    ensures
        keyed_map::<T>(s).contains_key(T::key_of(s[i])),
        keyed_map::<T>(s)[T::key_of(s[i])] == s[i],
    decreases s.len(),
{
    let t = s.drop_last();
    if i < s.len() - 1 {
        assert(keys_sorted::<T>(t));
        lemma_keyed_at::<T>(t, i);
        assert(lex_lt(T::key_of(s[i]), T::key_of(s.last())));
        lemma_lex_irreflexive(T::key_of(s[i]));
        assert(t[i] == s[i]);
    }
}

/// Records kept sorted by key, without repeated keys.
pub struct KeyedList<T: Keyed> {
    items: Vec<T>,
}

impl<T: Keyed> KeyedList<T> {
    /// The records in key order.
    pub closed spec fn listing(&self) -> Seq<T::V> {
        views_of(self.items@)
    }

    /// The records by key.
    pub open spec fn map(&self) -> Map<Seq<char>, T::V> {
        keyed_map::<T>(self.listing())
    }

    pub closed spec fn wf(&self) -> bool {
        keys_sorted::<T>(self.listing())
    }

    /// The listing holds each record of the map once, in key order.
    pub proof fn lemma_listing(&self)
        requires
            self.wf(),
        ensures
            keys_sorted::<T>(self.listing()),
            self.listing().len() == self.map().dom().len(),
            self.map().dom().finite(),
            forall|i: int|
                0 <= i < self.listing().len() ==> #[trigger] self.map().contains_key(
                    T::key_of(self.listing()[i]),
                ) && self.map()[T::key_of(self.listing()[i])] == self.listing()[i],
            forall|k: Seq<char>| #[trigger]
                self.map().contains_key(k) ==> exists|i: int|
                    0 <= i < self.listing().len() && T::key_of(self.listing()[i]) == k,
    {
        let s = self.listing();
        assert forall|i: int| 0 <= i < s.len() implies #[trigger] self.map().contains_key(
            T::key_of(s[i]),
        ) && self.map()[T::key_of(s[i])] == s[i] by {
            lemma_keyed_at::<T>(s, i);
        }
        let keys = s.map_values(|v: T::V| T::key_of(v));
        assert(self.map().dom() =~= keys.to_set()) by {
            assert forall|k: Seq<char>| self.map().dom().contains(k) implies keys.to_set().contains(
                k,
            ) by {
                lemma_keyed_dom::<T>(s, k);
                let i = choose|i: int| 0 <= i < s.len() && T::key_of(s[i]) == k;
                assert(keys[i] == k);
            }
            assert forall|k: Seq<char>| keys.to_set().contains(k) implies self.map().dom().contains(
                k,
            ) by {
                let i = choose|i: int| 0 <= i < keys.len() && keys[i] == k;
                assert(T::key_of(s[i]) == k);
                lemma_keyed_dom::<T>(s, k);
            }
        }
        assert(keys.no_duplicates()) by {
            assert forall|i: int, j: int| 0 <= i < keys.len() && 0 <= j < keys.len() && i != j
                implies keys[i] != keys[j] by {
                if i < j {
                    assert(lex_lt(keys[i], keys[j]));
                    lemma_lex_irreflexive(keys[i]);
                } else {
                    assert(lex_lt(keys[j], keys[i]));
                    lemma_lex_irreflexive(keys[j]);
                }
            }
        }
        keys.unique_seq_to_set();
        assert forall|k: Seq<char>| #[trigger] self.map().contains_key(k) implies exists|i: int|
            0 <= i < s.len() && T::key_of(s[i]) == k by {
            lemma_keyed_dom::<T>(s, k);
        }
    }

    /// Each record is filed under its own key.
    pub proof fn lemma_map_keys(&self)
        requires
            self.wf(),
        ensures
            forall|k: Seq<char>| #[trigger]
                self.map().contains_key(k) ==> T::key_of(self.map()[k]) == k,
    {
        self.lemma_listing();
        assert forall|k: Seq<char>| #[trigger]
            self.map().contains_key(k) implies T::key_of(self.map()[k]) == k by {
            let i = choose|i: int|
                0 <= i < self.listing().len() && T::key_of(self.listing()[i]) == k;
            assert(self.map()[T::key_of(self.listing()[i])] == self.listing()[i]);
        }
    }

    /// An empty collection.
    pub fn new() -> (r: Self)
        ensures
            r.wf(),
            r.map() == Map::<Seq<char>, T::V>::empty(),
    {
        let r = KeyedList { items: Vec::new() };
        assert(r.map() =~= Map::<Seq<char>, T::V>::empty());
        r
    }

    pub fn len(&self) -> (n: usize)
        requires
            self.wf(),
        ensures
            n == self.map().dom().len(),
    {
        proof {
            self.lemma_listing();
        }
        self.items.len()
    }

    /// The position of `key`, or where it would go.
    fn locate(&self, key: &str) -> (r: (bool, usize))
        requires
            self.wf(),
        ensures
            r.1 <= self.listing().len(),
            forall|i: int| 0 <= i < r.1 ==> lex_lt(T::key_of(self.listing()[i]), key@),
            r.0 ==> r.1 < self.listing().len() && T::key_of(self.listing()[r.1 as int]) == key@,
            !r.0 ==> forall|i: int|
                r.1 <= i < self.listing().len() ==> lex_lt(key@, T::key_of(self.listing()[i])),
    {
        let kv = chars_of(key);
        let mut i: usize = 0;
        while i < self.items.len()
            invariant
                self.wf(),
                kv@ == key@,
                i <= self.listing().len(),
                forall|j: int| 0 <= j < i ==> lex_lt(T::key_of(self.listing()[j]), key@),
            decreases self.listing().len() - i,
        {
            let here = chars_of(self.items[i].key());
            assert(here@ == T::key_of(self.listing()[i as int]));
            if !lex_lt_exec(here.as_slice(), kv.as_slice()) {
                let found = slice_eq(here.as_slice(), kv.as_slice());
                proof {
                    let s = self.listing();
                    if !found {
                        lemma_lex_total(here@, kv@);
                        assert forall|j: int| i <= j < s.len() implies lex_lt(
                            key@,
                            T::key_of(s[j]),
                        ) by {
                            if j > i {
                                lemma_lex_transitive(key@, T::key_of(s[i as int]), T::key_of(s[j]));
                            }
                        }
                    }
                }
                return (found, i);
            }
            i += 1;
        }
        (false, i)
    }

    /// The record with key `key`.
    pub fn get(&self, key: &str) -> (r: Option<&T>)
        requires
            self.wf(),
        ensures
            r matches Some(x) ==> self.map().contains_key(key@) && self.map()[key@] == x@,
            r is None ==> !self.map().contains_key(key@),
    {
        let (found, i) = self.locate(key);
        proof {
            let s = self.listing();
            if found {
                lemma_keyed_at::<T>(s, i as int);
            } else {
                assert forall|j: int| 0 <= j < s.len() implies T::key_of(s[j]) != key@ by {
                    lemma_lex_irreflexive(key@);
                }
                lemma_keyed_dom::<T>(s, key@);
            }
        }
        if found {
            Some(&self.items[i])
        } else {
            None
        }
    }

    /// Whether a record has key `key`.
    pub fn contains_key(&self, key: &str) -> (r: bool)
        requires
            self.wf(),
        ensures
            r == self.map().contains_key(key@),
    {
        self.get(key).is_some()
    }

    /// Adds `item`, replacing the record with the same key; returns the
    /// replaced record.
    pub fn insert(&mut self, item: T) -> (old_item: Option<T>)
        requires
            old(self).wf(),
        ensures
            final(self).wf(),
            final(self).map() == old(self).map().insert(T::key_of(item@), item@),
            old_item matches Some(x) ==> old(self).map().contains_key(T::key_of(item@)) && old(
                self,
            ).map()[T::key_of(item@)] == x@,
            old_item is None ==> !old(self).map().contains_key(T::key_of(item@)),
    {
        let ghost k = T::key_of(item@);
        let ghost s0 = self.listing();
        let (found, i) = self.locate(item.key());
        proof {
            if found {
                lemma_keyed_at::<T>(s0, i as int);
            } else {
                assert forall|j: int| 0 <= j < s0.len() implies T::key_of(s0[j]) != k by {
                    lemma_lex_irreflexive(k);
                }
                lemma_keyed_dom::<T>(s0, k);
            }
        }
        let replaced = if found {
            let old_item = self.items.remove(i);
            self.items.insert(i, item);
            Some(old_item)
        } else {
            self.items.insert(i, item);
            None
        };
        proof {
            let s1 = self.listing();
            if found {
                assert(s1 =~= s0.update(i as int, item@));
            } else {
                s0.insert_ensures(i as int, item@);
                assert(s1 =~= s0.insert(i as int, item@));
            }
            assert forall|a: int, b: int| 0 <= a < b < s1.len() implies lex_lt(
                T::key_of(s1[a]),
                T::key_of(s1[b]),
            ) by {
                if !found {
                    if b < i {
                        assert(s1[a] == s0[a]);
                        assert(s1[b] == s0[b]);
                    } else if a < i && b == i {
                    } else if a < i && b > i {
                        lemma_lex_transitive(T::key_of(s1[a]), k, T::key_of(s1[b]));
                    } else if a == i {
                    } else {
                        assert(s0.insert(i as int, item@)[a] == s0[a - 1]);
                        assert(s0.insert(i as int, item@)[b] == s0[b - 1]);
                    }
                } else {
                    if a == i {
                        assert(T::key_of(s0[a]) == k);
                    } else if b == i {
                        assert(T::key_of(s0[b]) == k);
                    }
                }
            }
            assert(self.map() =~= keyed_map::<T>(s0).insert(k, item@)) by {
                assert forall|key: Seq<char>| #[trigger]
                    self.map().contains_key(key) == keyed_map::<T>(s0).insert(
                        k,
                        item@,
                    ).contains_key(key) by {
                    lemma_keyed_dom::<T>(s0, key);
                    lemma_keyed_dom::<T>(s1, key);
                    if has_key::<T>(s1, key) && key != k {
                        let j = choose|j: int| 0 <= j < s1.len() && T::key_of(s1[j]) == key;
                        if found {
                            assert(T::key_of(s0[j]) == key);
                        } else if j < i {
                            assert(T::key_of(s0[j]) == key);
                        } else {
                            assert(T::key_of(s0[j - 1]) == key);
                        }
                    }
                    if has_key::<T>(s0, key) {
                        let j = choose|j: int| 0 <= j < s0.len() && T::key_of(s0[j]) == key;
                        if found || j < i {
                            if !(found && j == i) {
                                assert(T::key_of(s1[j]) == key);
                            }
                        } else {
                            assert(T::key_of(s1[j + 1]) == key);
                        }
                    }
                    if key == k {
                        assert(T::key_of(s1[i as int]) == k);
                    }
                }
                assert forall|key: Seq<char>| #[trigger] self.map().contains_key(key) implies self.map()[key]
                    == keyed_map::<T>(s0).insert(k, item@)[key] by {
                    lemma_keyed_dom::<T>(s1, key);
                    let j = choose|j: int| 0 <= j < s1.len() && T::key_of(s1[j]) == key;
                    lemma_keyed_at::<T>(s1, j);
                    if key != k {
                        if found || j < i {
                            assert(s1[j] == s0[j]);
                            lemma_keyed_at::<T>(s0, j);
                        } else {
                            assert(s1[j] == s0[j - 1]);
                            lemma_keyed_at::<T>(s0, j - 1);
                        }
                    } else {
                        assert(s1[i as int] == item@);
                        lemma_keyed_at::<T>(s1, i as int);
                    }
                }
            }
        }
        replaced
    }

    /// Removes the record with key `key` and returns it.
    pub fn remove(&mut self, key: &str) -> (r: Option<T>)
        requires
            old(self).wf(),
        ensures
            final(self).wf(),
            final(self).map() == old(self).map().remove(key@),
            r matches Some(x) ==> old(self).map().contains_key(key@) && old(self).map()[key@]
                == x@,
            r is None ==> !old(self).map().contains_key(key@),
    {
        let ghost s0 = self.listing();
        let (found, i) = self.locate(key);
        proof {
            if found {
                lemma_keyed_at::<T>(s0, i as int);
            } else {
                assert forall|j: int| 0 <= j < s0.len() implies T::key_of(s0[j]) != key@ by {
                    lemma_lex_irreflexive(key@);
                }
                lemma_keyed_dom::<T>(s0, key@);
                assert(keyed_map::<T>(s0) =~= keyed_map::<T>(s0).remove(key@));
            }
        }
        if !found {
            return None;
        }
        let item = self.items.remove(i);
        proof {
            let s1 = self.listing();
            s0.remove_ensures(i as int);
            assert(s1 =~= s0.remove(i as int));
            assert forall|a: int, b: int| 0 <= a < b < s1.len() implies lex_lt(
                T::key_of(s1[a]),
                T::key_of(s1[b]),
            ) by {
                if a < i && b >= i {
                    assert(s1[b] == s0[b + 1]);
                } else if a >= i {
                    assert(s1[a] == s0[a + 1]);
                    assert(s1[b] == s0[b + 1]);
                }
            }
            assert(self.map() =~= keyed_map::<T>(s0).remove(key@)) by {
                assert forall|k: Seq<char>| #[trigger]
                    self.map().contains_key(k) == keyed_map::<T>(s0).remove(key@).contains_key(
                        k,
                    ) by {
                    lemma_keyed_dom::<T>(s0, k);
                    lemma_keyed_dom::<T>(s1, k);
                    if has_key::<T>(s1, k) {
                        let j = choose|j: int| 0 <= j < s1.len() && T::key_of(s1[j]) == k;
                        if j < i {
                            assert(T::key_of(s0[j]) == k);
                            assert(lex_lt(k, key@));
                            lemma_lex_irreflexive(k);
                        } else {
                            assert(T::key_of(s0[j + 1]) == k);
                            assert(lex_lt(key@, k));
                            lemma_lex_irreflexive(k);
                        }
                    }
                    if has_key::<T>(s0, k) && k != key@ {
                        let j = choose|j: int| 0 <= j < s0.len() && T::key_of(s0[j]) == k;
                        if j < i {
                            assert(T::key_of(s1[j]) == k);
                        } else if j > i {
                            assert(T::key_of(s1[j - 1]) == k);
                        }
                    }
                }
                assert forall|k: Seq<char>| #[trigger] self.map().contains_key(k) implies self.map()[k]
                    == keyed_map::<T>(s0).remove(key@)[k] by {
                    lemma_keyed_dom::<T>(s1, k);
                    let j = choose|j: int| 0 <= j < s1.len() && T::key_of(s1[j]) == k;
                    lemma_keyed_at::<T>(s1, j);
                    if j < i {
                        lemma_keyed_at::<T>(s0, j);
                    } else {
                        lemma_keyed_at::<T>(s0, j + 1);
                    }
                }
            }
        }
        Some(item)
    }

    /// Copies of all records, in key order.
    pub fn values(&self) -> (r: Vec<T>)
        requires
            self.wf(),
        ensures
            views_of(r@) == self.listing(),
    {
        let mut r: Vec<T> = Vec::new();
        let mut i: usize = 0;
        while i < self.items.len()
            invariant
                i <= self.listing().len(),
                views_of(r@) == self.listing().take(i as int),
            decreases self.listing().len() - i,
        {
            let ghost prev = r@;
            let d = self.items[i].duplicate();
            assert(d@ == self.listing()[i as int]);
            r.push(d);
            assert(r@ =~= prev.push(d));
            assert(views_of(prev.push(d)) =~= views_of(prev).push(d@));
            assert(self.listing().take(i + 1) =~= self.listing().take(i as int).push(
                self.listing()[i as int],
            ));
            i += 1;
        }
        assert(self.listing().take(i as int) =~= self.listing());
        r
    }

    /// A copy of the collection.
    pub fn duplicate(&self) -> (r: Self)
        requires
            self.wf(),
        ensures
            r.wf(),
            r.listing() == self.listing(),
            r.map() == self.map(),
    {
        KeyedList { items: self.values() }
    }

    /// The records in key order.
    pub fn as_slice(&self) -> (r: &[T])
        requires
            self.wf(),
        ensures
            views_of(r@) == self.listing(),
    {
        self.items.as_slice()
    }
}

} // verus!
