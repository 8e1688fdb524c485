//! Stable ordering of ranked results.
//!
//! Every ranked list in the launcher is ordered by a strict "comes before"
//! relation and keeps equal items in their original order, exactly as a
//! stable `sort_by` does. The order is defined here once, by insertion.

use vstd::prelude::*;

verus! {

/// A strict order on result rows: `precedes` means "must be listed earlier".
pub trait Ranked: Sized {
    spec fn spec_precedes(&self, other: &Self) -> bool;

    fn precedes(&self, other: &Self) -> (r: bool)
        ensures
            r == self.spec_precedes(other),
    ;
}

/// `s` with `x` placed before the first element it precedes.
pub open spec fn insert_sorted<T: Ranked>(s: Seq<T>, x: T) -> Seq<T>
    decreases s.len(),
{
    if s.len() == 0 {
        seq![x]
    } else if x.spec_precedes(&s[0]) {
        seq![x] + s
    } else {
        seq![s[0]] + insert_sorted(s.drop_first(), x)
    }
}

/// The stable sort of `s`: each element in turn inserted after every
/// earlier element it does not precede.
pub open spec fn stable_sort<T: Ranked>(s: Seq<T>) -> Seq<T>
    decreases s.len(),
{
    if s.len() == 0 {
        seq![]
    } else {
        insert_sorted(stable_sort(s.drop_last()), s.last())
    }
}

proof fn lemma_insert_split<T: Ranked>(s: Seq<T>, x: T, i: int)
    requires
        0 <= i <= s.len(),
        forall|j: int| 0 <= j < i ==> !x.spec_precedes(&s[j]),
    ensures
        insert_sorted(s, x) == s.take(i) + insert_sorted(s.skip(i), x),
    decreases i,
{
    if i == 0 {
        assert(s.skip(0) =~= s);
        assert(s.take(0) + insert_sorted(s, x) =~= insert_sorted(s, x));
    } else {
        let t = s.drop_first();
        assert forall|j: int| 0 <= j < i - 1 implies !x.spec_precedes(&t[j]) by {
            assert(t[j] == s[j + 1]);
        }
        lemma_insert_split(t, x, i - 1);
        assert(t.skip(i - 1) =~= s.skip(i));
        assert(seq![s[0]] + (t.take(i - 1) + insert_sorted(s.skip(i), x)) =~= s.take(i)
            + insert_sorted(s.skip(i), x));
    }
}

pub proof fn lemma_insert_sorted_len<T: Ranked>(s: Seq<T>, x: T)
    ensures
        insert_sorted(s, x).len() == s.len() + 1,
    decreases s.len(),
{
    if s.len() > 0 && !x.spec_precedes(&s[0]) {
        lemma_insert_sorted_len(s.drop_first(), x);
    }
}

pub proof fn lemma_stable_sort_len<T: Ranked>(s: Seq<T>)
    ensures
        stable_sort(s).len() == s.len(),
    decreases s.len(),
{
    if s.len() > 0 {
        lemma_stable_sort_len(s.drop_last());
        lemma_insert_sorted_len(stable_sort(s.drop_last()), s.last());
    }
}

/// Every element of `insert_sorted(s, x)` is `x` or an element of `s`.
pub proof fn lemma_insert_sorted_from<T: Ranked>(s: Seq<T>, x: T)
    ensures
        forall|y: T| #[trigger] insert_sorted(s, x).contains(y) ==> y == x || s.contains(y),
    decreases s.len(),
{
    if s.len() > 0 && !x.spec_precedes(&s[0]) {
        let t = s.drop_first();
        lemma_insert_sorted_from(t, x);
        assert forall|y: T| #[trigger] insert_sorted(s, x).contains(y) implies y == x || s.contains(y) by {
            let u = insert_sorted(s, x);
            let j = choose|j: int| 0 <= j < u.len() && u[j] == y;
            if j > 0 {
                assert(insert_sorted(t, x)[j - 1] == y);
                assert(insert_sorted(t, x).contains(y));
                if t.contains(y) {
                    let k = choose|k: int| 0 <= k < t.len() && t[k] == y;
                    assert(s[k + 1] == y);
                }
            } else {
                assert(s[0] == y);
            }
        }
    } else if s.len() > 0 {
        assert forall|y: T| #[trigger] insert_sorted(s, x).contains(y) implies y == x || s.contains(y) by {
            let u = insert_sorted(s, x);
            let j = choose|j: int| 0 <= j < u.len() && u[j] == y;
            if j > 0 {
                assert(s[j - 1] == y);
            }
        }
    } else {
        assert forall|y: T| #[trigger] insert_sorted(s, x).contains(y) implies y == x || s.contains(y) by {
            assert(insert_sorted(s, x) =~= seq![x]);
        }
    }
}

/// Every element of `stable_sort(s)` is an element of `s`.
pub proof fn lemma_stable_sort_from<T: Ranked>(s: Seq<T>)
    ensures
        forall|y: T| #[trigger] stable_sort(s).contains(y) ==> s.contains(y),
    decreases s.len(),
{
    if s.len() > 0 {
        let init = s.drop_last();
        lemma_stable_sort_from(init);
        lemma_insert_sorted_from(stable_sort(init), s.last());
        assert forall|y: T| #[trigger] stable_sort(s).contains(y) implies s.contains(y) by {
            if y == s.last() {
                assert(s[s.len() - 1] == y);
            } else {
                assert(stable_sort(init).contains(y));
                assert(init.contains(y));
                let k = choose|k: int| 0 <= k < init.len() && init[k] == y;
                assert(s[k] == y);
            }
        }
    }
}

/// `insert_sorted` for plain values under a strict order `lt`.
pub open spec fn insert_by<V>(s: Seq<V>, x: V, lt: spec_fn(V, V) -> bool) -> Seq<V>
    decreases s.len(),
{
    if s.len() == 0 {
        seq![x]
    } else if lt(x, s[0]) {
        seq![x] + s
    } else {
        seq![s[0]] + insert_by(s.drop_first(), x, lt)
    }
}

/// `stable_sort` for plain values under a strict order `lt`.
pub open spec fn sort_by<V>(s: Seq<V>, lt: spec_fn(V, V) -> bool) -> Seq<V>
    decreases s.len(),
{
    if s.len() == 0 {
        seq![]
    } else {
        insert_by(sort_by(s.drop_last(), lt), s.last(), lt)
    }
}

proof fn lemma_insert_view<T: Ranked, V>(s: Seq<T>, x: T, f: spec_fn(T) -> V, lt: spec_fn(V, V) -> bool)
    requires
        forall|a: T, b: T| #[trigger] a.spec_precedes(&b) == lt(f(a), f(b)),
    ensures
        insert_sorted(s, x).map_values(f) == insert_by(s.map_values(f), f(x), lt),
    decreases s.len(),
{
    let sv = s.map_values(f);
    if s.len() == 0 {
        assert(insert_sorted(s, x).map_values(f) =~= seq![f(x)]);
    } else {
        assert(sv[0] == f(s[0]));
        assert(x.spec_precedes(&s[0]) == lt(f(x), f(s[0])));
        if x.spec_precedes(&s[0]) {
            assert((seq![x] + s).map_values(f) =~= seq![f(x)] + sv);
        } else {
            lemma_insert_view(s.drop_first(), x, f, lt);
            assert(s.drop_first().map_values(f) =~= sv.drop_first());
            assert((seq![s[0]] + insert_sorted(s.drop_first(), x)).map_values(f) =~= seq![f(s[0])]
                + insert_sorted(s.drop_first(), x).map_values(f));
        }
    }
}

/// Sorting rows by an order that depends only on their views sorts the views.
pub proof fn lemma_sort_view<T: Ranked, V>(s: Seq<T>, f: spec_fn(T) -> V, lt: spec_fn(V, V) -> bool)
    requires
        forall|a: T, b: T| #[trigger] a.spec_precedes(&b) == lt(f(a), f(b)),
    ensures
        stable_sort(s).map_values(f) == sort_by(s.map_values(f), lt),
    decreases s.len(),
{
    if s.len() > 0 {
        lemma_sort_view(s.drop_last(), f, lt);
        lemma_insert_view(stable_sort(s.drop_last()), s.last(), f, lt);
        assert(s.drop_last().map_values(f) =~= s.map_values(f).drop_last());
        assert(s.map_values(f).last() == f(s.last()));
    }
}

/// Inserts `x` into the already ordered `v` at its stable position.
pub fn insert_ranked<T: Ranked>(v: &mut Vec<T>, x: T)
    ensures
        final(v)@ == insert_sorted(old(v)@, x),
{
    let mut i: usize = 0;
    while i < v.len() && !x.precedes(&v[i])
        invariant
            i <= v@.len(),
            forall|j: int| 0 <= j < i ==> !x.spec_precedes(&v@[j]),
        decreases v@.len() - i,
    {
        i += 1;
    }
    proof {
        lemma_insert_split(v@, x, i as int);
        assert(v@.skip(i as int).len() == 0 ==> insert_sorted(v@.skip(i as int), x) == seq![x]);
        if i < v@.len() {
            assert(v@.skip(i as int)[0] == v@[i as int]);
        }
        assert(v@.take(i as int) + (seq![x] + v@.skip(i as int)) =~= v@.insert(i as int, x));
    }
    v.insert(i, x);
}

/// Stable sort of `v` by `precedes`.
pub fn sort_ranked<T: Ranked>(v: Vec<T>) -> (r: Vec<T>)
    ensures
        r@ == stable_sort(v@),
{
    let ghost orig = v@;
    let n = v.len();
    let mut rest = v;
    let mut out: Vec<T> = Vec::new();
    let mut k: usize = 0;
    assert(orig.take(0) =~= seq![]);
    assert(orig.skip(0) =~= orig);
    while rest.len() > 0
        invariant
            k + rest@.len() == orig.len(),
            orig.len() == n,
            rest@ == orig.skip(k as int),
            out@ == stable_sort(orig.take(k as int)),
        decreases rest@.len(),
    {
        let x = rest.remove(0);
        proof {
            assert(orig.take(k + 1).drop_last() =~= orig.take(k as int));
            assert(orig.take(k + 1).last() == x);
        }
        insert_ranked(&mut out, x);
        k += 1;
        assert(rest@ =~= orig.skip(k as int));
    }
    assert(orig.take(k as int) =~= orig);
    out
}

} // verus!
