//! Lists of places: which entries of a sequence were taken, in their order.

use vstd::prelude::*;

verus! {

/// `at` lists, from the lowest up, exactly those numbers from zero to below `n`
/// of which `p` holds.
pub open spec fn lists(at: Seq<int>, n: int, p: spec_fn(int) -> bool) -> bool {
    &&& forall|k: int| 0 <= k < at.len() ==> 0 <= #[trigger] at[k] < n && p(at[k])
    &&& forall|k: int, l: int| 0 <= k < l < at.len() ==> #[trigger] at[k] < #[trigger] at[l]
    &&& forall|i: int| 0 <= i < n && #[trigger] p(i) ==> at.contains(i)
}

/// The entries of `s` at some places.
pub open spec fn entries<T>(s: Seq<T>, at: Seq<int>) -> Seq<T> {
    Seq::new(at.len(), |k: int| s[at[k]])
}

/// A filter takes exactly the entries that pass, in their order.
pub proof fn lemma_filter_lists<T>(s: Seq<T>, p: spec_fn(T) -> bool) -> (at: Seq<int>)
    ensures
        lists(at, s.len() as int, |i: int| p(s[i])),
        s.filter(p) == entries(s, at),
    decreases s.len(),
{
    reveal(Seq::filter);
    if s.len() == 0 {
        let at = Seq::<int>::empty();
        assert(s.filter(p) =~= entries(s, at));
        at
    } else {
        let rest = s.drop_last();
        let before = lemma_filter_lists(rest, p);
        let n = s.len() - 1;
        let at = if p(s.last()) {
            before.push(n)
        } else {
            before
        };
        lemma_lists_step(before, at, n, |i: int| p(rest[i]), |i: int| p(s[i]));
        assert(s.filter(p) =~= entries(s, at));
        at
    }
}

/// A map that drops some entries keeps what it makes of the others, in their order.
pub proof fn lemma_filter_map_lists<T, U>(s: Seq<T>, f: spec_fn(T) -> Option<U>) -> (at: Seq<int>)
    ensures
        lists(at, s.len() as int, |i: int| f(s[i]) is Some),
        s.filter_map(f).len() == at.len(),
        forall|k: int|
            0 <= k < at.len() ==> Some(#[trigger] s.filter_map(f)[k]) == f(s[at[k]]),
    decreases s.len(),
{
    if s.len() == 0 {
        Seq::<int>::empty()
    } else {
        let rest = s.drop_last();
        let before = lemma_filter_map_lists(rest, f);
        let n = s.len() - 1;
        let at = if f(s.last()) is Some {
            before.push(n)
        } else {
            before
        };
        lemma_lists_step(
            before,
            at,
            n,
            |i: int| f(rest[i]) is Some,
            |i: int| f(s[i]) is Some,
        );
        assert forall|k: int| 0 <= k < at.len() implies Some(#[trigger] s.filter_map(f)[k]) == f(
            s[at[k]],
        ) by {
            if k < before.len() {
                assert(s.filter_map(f)[k] == rest.filter_map(f)[k]);
                assert(at[k] == before[k]);
                assert(s[at[k]] == rest[before[k]]);
            }
        }
        at
    }
}

/// One more number is looked at.
proof fn lemma_lists_step(
    before: Seq<int>,
    at: Seq<int>,
    n: int,
    p: spec_fn(int) -> bool,
    q: spec_fn(int) -> bool,
)
    requires
        0 <= n,
        lists(before, n, p),
        forall|i: int| 0 <= i < n ==> #[trigger] q(i) == p(i),
        at == if q(n) {
            before.push(n)
        } else {
            before
        },
    ensures
        lists(at, n + 1, q),
{
    assert forall|i: int| 0 <= i < n + 1 && #[trigger] q(i) implies at.contains(i) by {
        if i < n {
            assert(p(i));
            assert(before.contains(i));
            let k = choose|k: int| 0 <= k < before.len() && before[k] == i;
            assert(at[k] == i);
        } else {
            assert(at[before.len() as int] == i);
        }
    }
    assert forall|k: int| 0 <= k < at.len() implies 0 <= #[trigger] at[k] < n + 1 && q(at[k]) by {
        if k < before.len() {
            assert(at[k] == before[k]);
        }
    }
    assert forall|k: int, l: int| 0 <= k < l < at.len() implies #[trigger] at[k] < #[trigger] at[l] by {
        assert(at[k] == before[k]);
        if l < before.len() {
            assert(at[l] == before[l]);
        }
    }
}

/// A list is one of every condition that agrees with its own.
pub proof fn lemma_lists_same(
    at: Seq<int>,
    n: int,
    p: spec_fn(int) -> bool,
    q: spec_fn(int) -> bool,
)
    requires
        lists(at, n, p),
        forall|i: int| 0 <= i < n ==> #[trigger] q(i) == p(i),
    ensures
        lists(at, n, q),
{
    assert forall|i: int| 0 <= i < n && #[trigger] q(i) implies at.contains(i) by {
        assert(p(i));
    }
    assert forall|k: int| 0 <= k < at.len() implies 0 <= #[trigger] at[k] < n && q(at[k]) by {
        assert(p(at[k]));
    }
}

} // verus!
