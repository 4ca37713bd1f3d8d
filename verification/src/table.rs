//! An ordered table from keys to values.
//!
//! A table is modelled as the sequence of its entries in the order in which
//! they are walked. A well-formed table holds no key twice.

use vstd::prelude::*;

use crate::listing::{entries, lemma_filter_lists, lemma_lists_same, lists};

verus! {

/// Some entry of `s` has the key `k`.
pub open spec fn holds<A, B>(s: Seq<(A, B)>, k: A) -> bool {
    exists|i: int| 0 <= i < s.len() && (#[trigger] s[i]).0 == k
}

/// The index of an entry of `s` with the key `k`.
pub open spec fn at<A, B>(s: Seq<(A, B)>, k: A) -> int {
    choose|i: int| 0 <= i < s.len() && (#[trigger] s[i]).0 == k
}

/// The value that `s` holds under the key `k`.
pub open spec fn get<A, B>(s: Seq<(A, B)>, k: A) -> B {
    s[at(s, k)].1
}

/// `s` with `v` under the key `k`: in the place of the old value where there
/// was one, at the end otherwise.
pub open spec fn put<A, B>(s: Seq<(A, B)>, k: A, v: B) -> Seq<(A, B)> {
    if holds(s, k) {
        s.update(at(s, k), (k, v))
    } else {
        s.push((k, v))
    }
}

/// The entries that have another key than `k`.
pub open spec fn other_than<A, B>(k: A) -> spec_fn((A, B)) -> bool {
    |e: (A, B)| e.0 != k
}

/// `s` without the entries of the key `k`.
pub open spec fn without<A, B>(s: Seq<(A, B)>, k: A) -> Seq<(A, B)> {
    s.filter(other_than(k))
}

/// No key occurs twice in `s`.
pub open spec fn distinct<A, B>(s: Seq<(A, B)>) -> bool {
    forall|i: int, j: int|
        0 <= i < s.len() && 0 <= j < s.len() && i != j ==> (#[trigger] s[i]).0 != (
        #[trigger] s[j]).0
}

/// In a table without double keys a key has one place only.
pub proof fn lemma_at<A, B>(s: Seq<(A, B)>, i: int)
    requires
        distinct(s),
        0 <= i < s.len(),
    ensures
        holds(s, s[i].0),
        at(s, s[i].0) == i,
        get(s, s[i].0) == s[i].1,
{
    assert(holds(s, s[i].0));
}

/// Taking out the one entry of a key is the same as filtering the key out.
pub proof fn lemma_remove_is_without<A, B>(s: Seq<(A, B)>, i: int)
    requires
        distinct(s),
        0 <= i < s.len(),
    ensures
        s.remove(i) == without(s, s[i].0),
{
    let k = s[i].0;
    let p = other_than::<A, B>(k);
    let a = s.take(i);
    let b = s.skip(i + 1);
    assert(s =~= (a + seq![s[i]]) + b);
    Seq::filter_distributes_over_add(a + seq![s[i]], b, p);
    Seq::filter_distributes_over_add(a, seq![s[i]], p);
    lemma_filter_all(a, p);
    lemma_filter_all(b, p);
    assert(seq![s[i]].filter(p) =~= Seq::<(A, B)>::empty()) by {
        reveal_with_fuel(Seq::filter, 2);
        assert(seq![s[i]].drop_last() =~= Seq::<(A, B)>::empty());
    }
    assert(s.remove(i) =~= a + b);
}

/// Filtering keeps everything where everything passes.
pub proof fn lemma_filter_all<T>(s: Seq<T>, p: spec_fn(T) -> bool)
    requires
        forall|i: int| 0 <= i < s.len() ==> p(#[trigger] s[i]),
    ensures
        s.filter(p) == s,
    decreases s.len(),
{
    reveal(Seq::filter);
    if s.len() > 0 {
        assert forall|i: int| 0 <= i < s.drop_last().len() implies p(#[trigger] s.drop_last()[i]) by {
            assert(s.drop_last()[i] == s[i]);
        }
        lemma_filter_all(s.drop_last(), p);
        assert(s.drop_last().push(s.last()) =~= s);
    }
}

/// Filtering out a key that is not there changes nothing.
pub proof fn lemma_without_absent<A, B>(s: Seq<(A, B)>, k: A)
    requires
        !holds(s, k),
    ensures
        without(s, k) == s,
{
    lemma_filter_all(s, other_than(k));
}

/// What a filter keeps, it keeps in order: every kept entry has a source, and
/// later entries have later sources.
pub proof fn lemma_filter_source<T>(s: Seq<T>, p: spec_fn(T) -> bool, i: int, j: int) -> (r: (int, int))
    requires
        0 <= i < j < s.filter(p).len(),
    ensures
        0 <= r.0 < r.1 < s.len(),
        s[r.0] == s.filter(p)[i],
        s[r.1] == s.filter(p)[j],
    decreases s.len(),
{
    reveal(Seq::filter);
    let f = s.drop_last().filter(p);
    if j < f.len() {
        let r = lemma_filter_source(s.drop_last(), p, i, j);
        assert(s[r.0] == s.drop_last()[r.0]);
        assert(s[r.1] == s.drop_last()[r.1]);
        r
    } else {
        s.drop_last().lemma_filter_contains_rev(p, f[i]);
        let a = choose|a: int| 0 <= a < s.drop_last().len() && s.drop_last()[a] == f[i];
        assert(s[a] == s.drop_last()[a]);
        (a, s.len() - 1)
    }
}

/// Filtering a table makes no key double.
pub proof fn lemma_filter_distinct<A, B>(s: Seq<(A, B)>, p: spec_fn((A, B)) -> bool)
    requires
        distinct(s),
    ensures
        distinct(s.filter(p)),
{
    let f = s.filter(p);
    assert forall|i: int, j: int| 0 <= i < f.len() && 0 <= j < f.len() && i != j implies (
    #[trigger] f[i]).0 != (#[trigger] f[j]).0 by {
        if i < j {
            let r = lemma_filter_source(s, p, i, j);
            assert(s[r.0].0 != s[r.1].0);
        } else {
            let r = lemma_filter_source(s, p, j, i);
            assert(s[r.0].0 != s[r.1].0);
        }
    }
}

/// An entry is kept by a filter exactly when it was there and passes.
pub proof fn lemma_filter_member<T>(s: Seq<T>, p: spec_fn(T) -> bool, e: T)
    ensures
        s.filter(p).contains(e) <==> s.contains(e) && p(e),
{
    if s.contains(e) && p(e) {
        let i = choose|i: int| 0 <= i < s.len() && s[i] == e;
        s.lemma_filter_contains(p, i);
    }
    if s.filter(p).contains(e) {
        s.lemma_filter_contains_rev(p, e);
        let i = choose|i: int| 0 <= i < s.filter(p).len() && s.filter(p)[i] == e;
        s.lemma_filter_pred(p, i);
    }
}

/// Two filters one after the other are one filter.
pub proof fn lemma_filter_twice<T>(
    s: Seq<T>,
    p: spec_fn(T) -> bool,
    q: spec_fn(T) -> bool,
    both: spec_fn(T) -> bool,
)
    requires
        forall|e: T| #[trigger] both(e) == (p(e) && q(e)),
    ensures
        s.filter(p).filter(q) == s.filter(both),
    decreases s.len(),
{
    reveal(Seq::filter);
    if s.len() > 0 {
        let rest = s.drop_last();
        lemma_filter_twice(rest, p, q, both);
        rest.filter(p).lemma_filter_push(s.last(), q);
    }
}

/// A type whose values can be the keys of a table.
pub trait TableKey: View + Sized {
    fn same(&self, other: &Self) -> (r: bool)
        ensures
            r == (self@ == other@),
    ;
}

impl TableKey for String {
    fn same(&self, other: &Self) -> (r: bool) {
        *self == *other
    }
}

impl TableKey for u128 {
    fn same(&self, other: &Self) -> (r: bool) {
        *self == *other
    }
}

/// A table whose entries are walked in the order in which their keys came.
pub struct Table<K, V> {
    entries: Vec<(K, V)>,
}

impl<K: TableKey, V: View> View for Table<K, V> {
    type V = Seq<(K::V, V::V)>;

    open spec fn view(&self) -> Seq<(K::V, V::V)> {
        self.raw().map_values(|e: (K, V)| (e.0@, e.1@))
    }
}

impl<K, V> Table<K, V> {
    /// The entries themselves, in order.
    pub closed spec fn raw(self) -> Seq<(K, V)> {
        self.entries@
    }
}

impl<K: TableKey, V: View> Table<K, V> {
    pub fn new() -> (r: Self)
        ensures
            r@ == Seq::<(K::V, V::V)>::empty(),
    {
        let r = Table { entries: Vec::new() };
        assert(r@ =~= Seq::<(K::V, V::V)>::empty());
        r
    }

    pub fn len(&self) -> (r: usize)
        ensures
            r == self@.len(),
            r == self.raw().len(),
    {
        self.entries.len()
    }

    pub fn key_at(&self, i: usize) -> (r: &K)
        requires
            i < self@.len(),
        ensures
            r@ == self@[i as int].0,
    {
        &self.entries[i].0
    }

    pub fn value_at(&self, i: usize) -> (r: &V)
        requires
            i < self@.len(),
        ensures
            r@ == self@[i as int].1,
            *r == self.raw()[i as int].1,
    {
        &self.entries[i].1
    }

    pub fn value_at_mut(&mut self, i: usize) -> (r: &mut V)
        requires
            i < old(self)@.len(),
        ensures
            *r == old(self).raw()[i as int].1,
            final(self).raw() == old(self).raw().update(
                i as int,
                (old(self).raw()[i as int].0, *final(r)),
            ),
            final(self)@ == old(self)@.update(i as int, (old(self)@[i as int].0, final(r)@)),
    {
        &mut self.entries[i].1
    }

    /// The place of a key.
    pub fn position(&self, key: &K) -> (r: Option<usize>)
        ensures
            match r {
                Some(i) => i < self@.len() && self@[i as int].0 == key@ && holds(self@, key@),
                None => !holds(self@, key@),
            },
    {
        let mut i: usize = 0;
        while i < self.entries.len()
            invariant
                i <= self.entries.len(),
                forall|j: int| 0 <= j < i ==> (#[trigger] self@[j]).0 != key@,
            decreases self.entries.len() - i,
        {
            if self.entries[i].0.same(key) {
                assert(self@[i as int].0 == key@);
                return Some(i);
            }
            i += 1;
        }
        None
    }

    pub fn get(&self, key: &K) -> (r: Option<&V>)
        requires
            distinct(self@),
        ensures
            match r {
                Some(v) => holds(self@, key@) && v@ == get(self@, key@),
                None => !holds(self@, key@),
            },
    {
        match self.position(key) {
            Some(i) => {
                proof {
                    lemma_at(self@, i as int);
                }
                Some(&self.entries[i].1)
            },
            None => None,
        }
    }

    pub fn get_mut(&mut self, key: &K) -> (r: Option<&mut V>)
        requires
            distinct(old(self)@),
        ensures
            match r {
                Some(v) => {
                    &&& holds(old(self)@, key@)
                    &&& v@ == get(old(self)@, key@)
                    &&& final(self)@ == put(old(self)@, key@, final(v)@)
                },
                None => !holds(old(self)@, key@) && final(self)@ == old(self)@,
            },
    {
        match self.position(key) {
            Some(i) => {
                proof {
                    lemma_at(self@, i as int);
                }
                Some(self.value_at_mut(i))
            },
            None => None,
        }
    }

    /// Puts `value` under `key`, in the place of the old value where there was one.
    pub fn insert(&mut self, key: K, value: V)
        requires
            distinct(old(self)@),
        ensures
            final(self)@ == put(old(self)@, key@, value@),
            distinct(final(self)@),
    {
        match self.position(&key) {
            Some(i) => {
                proof {
                    lemma_at(self@, i as int);
                }
                *self.value_at_mut(i) = value;
            },
            None => {
                let ghost before = self@;
                self.entries.push((key, value));
                assert(self@ =~= before.push((key@, value@)));
                assert forall|a: int, b: int|
                    0 <= a < self@.len() && 0 <= b < self@.len() && a != b implies (
                #[trigger] self@[a]).0 != (#[trigger] self@[b]).0 by {
                    if a < before.len() {
                        assert(before[a].0 != key@);
                    }
                    if b < before.len() {
                        assert(before[b].0 != key@);
                    }
                }
            },
        }
    }

    /// Takes the key out.
    pub fn remove(&mut self, key: &K)
        requires
            distinct(old(self)@),
        ensures
            final(self)@ == without(old(self)@, key@),
            distinct(final(self)@),
    {
        let ghost before = self@;
        match self.position(key) {
            Some(i) => {
                let _ = self.entries.remove(i);
                proof {
                    assert(self@ =~= before.remove(i as int));
                    lemma_remove_is_without(before, i as int);
                    lemma_filter_distinct(before, other_than(key@));
                }
            },
            None => {
                proof {
                    lemma_without_absent(before, key@);
                }
            },
        }
    }
}

/// A key is held exactly when an entry has it; where no key is double, what is
/// found under it is that entry's value.
pub proof fn a_key_finds_its_own_value<A, B>(s: Seq<(A, B)>, k: A, i: int)
    ensures
        holds(s, k) <==> exists|j: int| 0 <= j < s.len() && (#[trigger] s[j]).0 == k,
        distinct(s) && 0 <= i < s.len() ==> get(s, s[i].0) == s[i].1,
        distinct(s) <==> forall|a: int, b: int|
            0 <= a < b < s.len() ==> (#[trigger] s[a]).0 != (#[trigger] s[b]).0,
{
    if distinct(s) && 0 <= i < s.len() {
        lemma_at(s, i);
    }
}

/// A value that is put under a key takes the place of the old one, or the end
/// where there was none; every other entry stays as it was.
pub proof fn putting_changes_one_entry<A, B>(s: Seq<(A, B)>, k: A, v: B, i: int)
    requires
        distinct(s),
    ensures
        0 <= i < s.len() ==> put(s, s[i].0, v) == s.update(i, (s[i].0, v)),
        (forall|j: int| 0 <= j < s.len() ==> (#[trigger] s[j]).0 != k) ==> put(s, k, v) == s + seq![
            (k, v),
        ],
{
    if 0 <= i < s.len() {
        lemma_at(s, i);
    }
    if !holds(s, k) {
        assert(s.push((k, v)) =~= s + seq![(k, v)]);
    }
}

/// Taking a key out takes exactly the entries of that key; the others stay as
/// they were and in their order.
pub proof fn taking_out_spares_all_other_keys<A, B>(s: Seq<(A, B)>, k: A) -> (left: Seq<int>)
    ensures
        lists(left, s.len() as int, |i: int| s[i].0 != k),
        without(s, k) == entries(s, left),
{
    let p = other_than::<A, B>(k);
    let left = lemma_filter_lists(s, p);
    lemma_lists_same(left, s.len() as int, |i: int| p(s[i]), |i: int| s[i].0 != k);
    left
}

} // verus!
