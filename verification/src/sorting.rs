//! Stable sorting of keyed records by their keys (the `sort_by` on string
//! keys that the listings use), and keyed strings.

use vstd::prelude::*;
use crate::keyed::{views_of, Keyed};
use crate::text::{chars_of, lemma_lex_asymmetric, lemma_lex_total, lemma_lex_transitive,
    lex_lt, lex_lt_exec};

verus! {

broadcast use vstd::string::group_string_axioms;

/// A string is its own key.
impl Keyed for String {
    open spec fn key_of(v: Seq<char>) -> Seq<char> {
        v
    }

    fn key(&self) -> (k: &str) {
        self.as_str()
    }

    fn duplicate(&self) -> (r: Self) {
        self.clone()
    }
}

/// Where a stable insertion puts `x` into `s`: after every record whose key
/// is not greater than that of `x`, scanning from the end.
pub open spec fn insert_pos<T: Keyed>(s: Seq<T::V>, x: T::V) -> int
    decreases s.len(),
{
    if s.len() == 0 {
        0
    } else if lex_lt(T::key_of(x), T::key_of(s.last())) {
        insert_pos::<T>(s.drop_last(), x)
    } else {
        s.len() as int
    }
}

/// `s` with `x` inserted at its stable position.
pub open spec fn sorted_insert<T: Keyed>(s: Seq<T::V>, x: T::V) -> Seq<T::V> {
    s.insert(insert_pos::<T>(s, x), x)
}

/// The stable sort of `s` by key: records with equal keys keep their order.
pub open spec fn stable_sort<T: Keyed>(s: Seq<T::V>) -> Seq<T::V>
    decreases s.len(),
{
    if s.len() == 0 {
        s
    } else {
        sorted_insert::<T>(stable_sort::<T>(s.drop_last()), s.last())
    }
}

/// The keys of `s` never decrease.
pub open spec fn keys_ordered<T: Keyed>(s: Seq<T::V>) -> bool {
    forall|i: int, j: int|
        0 <= i < j < s.len() ==> !lex_lt(T::key_of(s[j]), T::key_of(s[i]))
}

proof fn lemma_insert_pos<T: Keyed>(s: Seq<T::V>, x: T::V)
    ensures
        0 <= insert_pos::<T>(s, x) <= s.len(),
        forall|i: int|
            insert_pos::<T>(s, x) <= i < s.len() ==> lex_lt(T::key_of(x), T::key_of(s[i])),
        insert_pos::<T>(s, x) > 0 ==> !lex_lt(
            T::key_of(x),
            T::key_of(s[insert_pos::<T>(s, x) - 1]),
        ),
    decreases s.len(),
{
    if s.len() > 0 && lex_lt(T::key_of(x), T::key_of(s.last())) {
        let t = s.drop_last();
        lemma_insert_pos::<T>(t, x);
        assert forall|i: int|
            insert_pos::<T>(s, x) <= i < s.len() implies lex_lt(T::key_of(x), T::key_of(s[i])) by {
            if i < s.len() - 1 {
                assert(s[i] == t[i]);
            }
        }
        if insert_pos::<T>(t, x) > 0 {
            assert(s[insert_pos::<T>(t, x) - 1] == t[insert_pos::<T>(t, x) - 1]);
        }
    }
}

proof fn lemma_sorted_insert_ordered<T: Keyed>(s: Seq<T::V>, x: T::V)
    requires
        keys_ordered::<T>(s),
    ensures
        keys_ordered::<T>(sorted_insert::<T>(s, x)),
        sorted_insert::<T>(s, x).to_multiset() == s.to_multiset().insert(x),
        sorted_insert::<T>(s, x).len() == s.len() + 1,
{
    lemma_insert_pos::<T>(s, x);
    let p = insert_pos::<T>(s, x);
    let r = sorted_insert::<T>(s, x);
    assert(r.len() == s.len() + 1);
    assert forall|i: int, j: int| 0 <= i < j < r.len() implies !lex_lt(
        T::key_of(r[j]),
        T::key_of(r[i]),
    ) by {
        if i < p && j == p {
            // r[i] = s[i] <= s[p - 1], and x is not below s[p - 1]
            if i < p - 1 {
                if lex_lt(T::key_of(x), T::key_of(s[i])) {
                    lemma_lex_total(T::key_of(s[i]), T::key_of(s[p - 1]));
                    if lex_lt(T::key_of(s[i]), T::key_of(s[p - 1])) {
                        lemma_lex_transitive(T::key_of(x), T::key_of(s[i]), T::key_of(s[p - 1]));
                    }
                }
            }
        } else if i == p && j > p {
            lemma_lex_asymmetric(T::key_of(x), T::key_of(s[j - 1]));
        } else if i < p && j > p {
            assert(!lex_lt(T::key_of(s[j - 1]), T::key_of(s[i])));
        } else if i > p {
            assert(!lex_lt(T::key_of(s[j - 1]), T::key_of(s[i - 1])));
        }
    }
    vstd::seq_lib::to_multiset_insert(s, p, x);
}

/// The stable sort orders the keys and keeps every record.
pub proof fn law_stable_sort_orders<T: Keyed>(s: Seq<T::V>)
    ensures
        keys_ordered::<T>(stable_sort::<T>(s)),
        stable_sort::<T>(s).to_multiset() == s.to_multiset(),
        stable_sort::<T>(s).len() == s.len(),
    decreases s.len(),
{
    if s.len() > 0 {
        law_stable_sort_orders::<T>(s.drop_last());
        lemma_sorted_insert_ordered::<T>(stable_sort::<T>(s.drop_last()), s.last());
        assert(s =~= s.drop_last().push(s.last()));
        vstd::seq_lib::to_multiset_build(s.drop_last(), s.last());
    }
}

/// Sorts records by key, stably.
pub fn sort_by_key<T: Keyed>(v: Vec<T>) -> (r: Vec<T>)
    ensures
        views_of(r@) == stable_sort::<T>(views_of(v@)),
{
    let mut r: Vec<T> = Vec::new();
    let mut i: usize = 0;
    while i < v.len()
        invariant
            i <= v@.len(),
            views_of(r@) == stable_sort::<T>(views_of(v@).take(i as int)),
        decreases v@.len() - i,
    {
        let x = v[i].duplicate();
        let kx = chars_of(x.key());
        let ghost s = views_of(r@);
        let ghost xv = x@;
        let mut p: usize = r.len();
        assert(s.take(p as int) =~= s);
        while p > 0 && lex_lt_exec(kx.as_slice(), chars_of(r[p - 1].key()).as_slice())
            invariant
                p <= r@.len(),
                s == views_of(r@),
                kx@ == T::key_of(xv),
                insert_pos::<T>(s, xv) == insert_pos::<T>(s.take(p as int), xv),
            decreases p,
        {
            assert(s.take(p as int).drop_last() =~= s.take(p - 1));
            assert(s.take(p as int).last() == s[p - 1]);
            p -= 1;
        }
        proof {
            if p > 0 {
                assert(s.take(p as int).last() == s[p - 1]);
            }
        }
        assert(insert_pos::<T>(s, xv) == p);
        r.insert(p, x);
        proof {
            assert(views_of(r@) =~= s.insert(p as int, xv));
            assert(views_of(v@).take(i + 1).drop_last() =~= views_of(v@).take(i as int));
        }
        i += 1;
    }
    assert(views_of(v@).take(v@.len() as int) =~= views_of(v@));
    r
}

} // verus!
