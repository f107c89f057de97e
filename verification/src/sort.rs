//! Stable sorting, as `slice::sort_by` does it: the sorted arrangement that
//! keeps items with equal keys in the order they came in.

use vstd::prelude::*;

verus! {

/// An order on items: `stays_before(a, b)` says that `a` may come before `b`
/// (its key is not greater than `b`'s).
pub trait SortKey: Sized {
    spec fn stays_before(&self, other: &Self) -> bool;

    fn le(&self, other: &Self) -> (r: bool)
        ensures
            r == self.stays_before(other),
    ;
}

/// Places `x` after every item that may stay before it, scanning from the end.
pub open spec fn insert_by<A>(s: Seq<A>, x: A, before: spec_fn(A, A) -> bool) -> Seq<A>
    decreases s.len(),
{
    if s.len() == 0 {
        seq![x]
    } else if before(s.last(), x) {
        s.push(x)
    } else {
        insert_by(s.drop_last(), x, before).push(s.last())
    }
}

/// The stable sort of `s`: each item inserted in turn into the sorted prefix.
pub open spec fn sort_by<A>(s: Seq<A>, before: spec_fn(A, A) -> bool) -> Seq<A>
    decreases s.len(),
{
    if s.len() == 0 {
        Seq::empty()
    } else {
        insert_by(sort_by(s.drop_last(), before), s.last(), before)
    }
}

pub open spec fn key_order<T: SortKey>() -> spec_fn(T, T) -> bool {
    |a: T, b: T| a.stays_before(&b)
}

/// Every item may stay before every later one.
pub open spec fn is_sorted_by<A>(s: Seq<A>, before: spec_fn(A, A) -> bool) -> bool {
    forall|i: int, j: int| 0 <= i < j < s.len() ==> before(s[i], s[j])
}

/// `before` orders items totally: it is transitive and any two items compare.
pub open spec fn total_preorder<A>(before: spec_fn(A, A) -> bool) -> bool {
    &&& forall|a: A, b: A| #![trigger before(a, b)] before(a, b) || before(b, a)
    &&& forall|a: A, b: A, c: A|
        #![trigger before(a, b), before(b, c)]
        before(a, b) && before(b, c) ==> before(a, c)
}

proof fn lemma_insert_at<A>(s: Seq<A>, x: A, before: spec_fn(A, A) -> bool, j: int)
    requires
        0 <= j <= s.len(),
        j == 0 || before(s[j - 1], x),
        forall|k: int| j <= k < s.len() ==> !before(#[trigger] s[k], x),
    ensures
        insert_by(s, x, before) == s.insert(j, x),
    decreases s.len(),
{
    if s.len() == 0 {
        assert(s.insert(j, x) =~= seq![x]);
    } else if j == s.len() {
        assert(s.insert(j, x) =~= s.push(x));
    } else {
        assert(!before(s[s.len() - 1], x));
        let t = s.drop_last();
        lemma_insert_at(t, x, before, j);
        assert(t.insert(j, x).push(s.last()) =~= s.insert(j, x));
    }
}

/// Inserts `x` where `insert_by` puts it.
pub fn insert_sorted_exec<T: SortKey>(v: &mut Vec<T>, x: T)
    ensures
        final(v)@ == insert_by(old(v)@, x, key_order::<T>()),
{
    let mut j = v.len();
    while j > 0 && !v[j - 1].le(&x)
        invariant
            j <= v.len(),
            forall|k: int| j <= k < v.len() ==> !(#[trigger] v@[k]).stays_before(&x),
        decreases j,
    {
        j = j - 1;
    }
    proof {
        lemma_insert_at(v@, x, key_order::<T>(), j as int);
    }
    v.insert(j, x);
}

/// The stable sort of `v` by its key.
pub fn stable_sort_exec<T: SortKey>(v: Vec<T>) -> (r: Vec<T>)
    ensures
        r@ == sort_by(v@, key_order::<T>()),
{
    let ghost orig = v@;
    let mut rest = v;
    let mut out: Vec<T> = Vec::new();
    while rest.len() > 0
        invariant
            rest@.len() <= orig.len(),
            rest@ == orig.subrange(orig.len() - rest@.len(), orig.len() as int),
            out@ == sort_by(orig.subrange(0, orig.len() - rest@.len()), key_order::<T>()),
        decreases rest@.len(),
    {
        let ghost done = orig.len() - rest@.len();
        let x = rest.remove(0);
        assert(orig.subrange(0, done + 1).drop_last() =~= orig.subrange(0, done));
        assert(orig.subrange(0, done + 1).last() == x);
        insert_sorted_exec(&mut out, x);
        assert(rest@ =~= orig.subrange(orig.len() - rest@.len(), orig.len() as int));
    }
    assert(orig.subrange(0, orig.len() as int) =~= orig);
    out
}

/// Sorting commutes with a map that keeps the order.
pub proof fn lemma_sort_map<A, B>(
    s: Seq<A>,
    f: spec_fn(A) -> B,
    pa: spec_fn(A, A) -> bool,
    pb: spec_fn(B, B) -> bool,
)
    requires
        forall|a: A, b: A| #[trigger] pa(a, b) == pb(f(a), f(b)),
    ensures
        sort_by(s, pa).map_values(f) == sort_by(s.map_values(f), pb),
    decreases s.len(),
{
    if s.len() > 0 {
        lemma_sort_map(s.drop_last(), f, pa, pb);
        assert(s.map_values(f).drop_last() =~= s.drop_last().map_values(f));
        lemma_insert_map(sort_by(s.drop_last(), pa), s.last(), f, pa, pb);
    } else {
        assert(sort_by(s, pa).map_values(f) =~= Seq::<B>::empty());
    }
}

proof fn lemma_insert_map<A, B>(
    s: Seq<A>,
    x: A,
    f: spec_fn(A) -> B,
    pa: spec_fn(A, A) -> bool,
    pb: spec_fn(B, B) -> bool,
)
    requires
        forall|a: A, b: A| #[trigger] pa(a, b) == pb(f(a), f(b)),
    ensures
        insert_by(s, x, pa).map_values(f) == insert_by(s.map_values(f), f(x), pb),
    decreases s.len(),
{
    if s.len() == 0 {
        assert(insert_by(s, x, pa).map_values(f) =~= seq![f(x)]);
    } else {
        assert(s.map_values(f).last() == f(s.last()));
        assert(pa(s.last(), x) == pb(f(s.last()), f(x)));
        assert(s.map_values(f).drop_last() =~= s.drop_last().map_values(f));
        if pa(s.last(), x) {
            assert(s.push(x).map_values(f) =~= s.map_values(f).push(f(x)));
        } else {
            lemma_insert_map(s.drop_last(), x, f, pa, pb);
            assert(insert_by(s.drop_last(), x, pa).push(s.last()).map_values(f) =~= insert_by(
                s.drop_last(),
                x,
                pa,
            ).map_values(f).push(f(s.last())));
        }
    }
}

proof fn lemma_insert_sorted<A>(s: Seq<A>, x: A, before: spec_fn(A, A) -> bool)
    requires
        total_preorder(before),
        is_sorted_by(s, before),
    ensures
        is_sorted_by(insert_by(s, x, before), before),
        insert_by(s, x, before).len() == s.len() + 1,
        insert_by(s, x, before).to_multiset() == s.to_multiset().insert(x),
    decreases s.len(),
{
    broadcast use vstd::seq_lib::group_seq_properties;
    broadcast use vstd::multiset::group_multiset_axioms;

    if s.len() == 0 {
        assert(insert_by(s, x, before) =~= seq![x]);
    } else if before(s.last(), x) {
        let r = s.push(x);
        assert forall|i: int, j: int| 0 <= i < j < r.len() implies before(r[i], r[j]) by {
            if j == r.len() - 1 && i < s.len() - 1 {
                assert(before(s[i], s[s.len() - 1]));
            }
        }
    } else {
        let t = s.drop_last();
        assert(is_sorted_by(t, before));
        lemma_insert_sorted(t, x, before);
        let u = insert_by(t, x, before);
        let r = u.push(s.last());
        assert(before(x, s.last()));
        assert forall|k: int| 0 <= k < u.len() implies before(u[k], s.last()) by {
            assert(u.to_multiset().count(u[k]) > 0);
            assert(t.to_multiset().insert(x).count(u[k]) > 0);
            if u[k] != x {
                assert(t.to_multiset().count(u[k]) > 0);
                let m = t.index_of(u[k]);
                assert(t[m] == u[k]);
                assert(before(s[m], s[s.len() - 1]));
            }
        }
        assert forall|i: int, j: int| 0 <= i < j < r.len() implies before(r[i], r[j]) by {
            if j == r.len() - 1 {
                assert(r[i] == u[i]);
            } else {
                assert(r[i] == u[i] && r[j] == u[j]);
            }
        }
        assert(s =~= t.push(s.last()));
    }
}

/// A stable sort by a total order leaves its items in order, and holds the
/// same items as it was given.
pub proof fn lemma_sort_by_sorted<A>(s: Seq<A>, before: spec_fn(A, A) -> bool)
    requires
        total_preorder(before),
    ensures
        is_sorted_by(sort_by(s, before), before),
        sort_by(s, before).to_multiset() == s.to_multiset(),
    decreases s.len(),
{
    broadcast use vstd::seq_lib::group_seq_properties;

    if s.len() == 0 {
    } else {
        lemma_sort_by_sorted(s.drop_last(), before);
        lemma_insert_sorted(sort_by(s.drop_last(), before), s.last(), before);
        assert(s =~= s.drop_last().push(s.last()));
    }
}

/// How many items of `s` satisfy `p`.
pub open spec fn count_where<A>(s: Seq<A>, p: spec_fn(A) -> bool) -> nat
    decreases s.len(),
{
    if s.len() == 0 {
        0
    } else {
        count_where(s.drop_last(), p) + if p(s.last()) {
            1nat
        } else {
            0nat
        }
    }
}

pub proof fn lemma_count_concat<A>(a: Seq<A>, b: Seq<A>, p: spec_fn(A) -> bool)
    ensures
        count_where(a + b, p) == count_where(a, p) + count_where(b, p),
    decreases b.len(),
{
    if b.len() == 0 {
        assert(a + b =~= a);
    } else {
        lemma_count_concat(a, b.drop_last(), p);
        assert((a + b).drop_last() =~= a + b.drop_last());
        assert((a + b).last() == b.last());
    }
}

proof fn lemma_count_insert<A>(s: Seq<A>, x: A, before: spec_fn(A, A) -> bool, p: spec_fn(A) -> bool)
    ensures
        count_where(insert_by(s, x, before), p) == count_where(s, p) + if p(x) {
            1nat
        } else {
            0nat
        },
    decreases s.len(),
{
    if s.len() == 0 {
        assert(seq![x].drop_last() =~= Seq::<A>::empty());
        assert(count_where(Seq::<A>::empty(), p) == 0);
        assert(seq![x].last() == x);
    } else if before(s.last(), x) {
        assert(s.push(x).drop_last() =~= s);
        assert(s.push(x).last() == x);
    } else {
        lemma_count_insert(s.drop_last(), x, before, p);
        let t = insert_by(s.drop_last(), x, before);
        assert(t.push(s.last()).drop_last() =~= t);
        assert(t.push(s.last()).last() == s.last());
        assert(s.drop_last().push(s.last()) =~= s);
        assert(count_where(s, p) == count_where(s.drop_last(), p) + if p(s.last()) {
            1nat
        } else {
            0nat
        });
    }
}

/// Sorting keeps how many items satisfy any property.
pub proof fn lemma_sort_count<A>(s: Seq<A>, before: spec_fn(A, A) -> bool, p: spec_fn(A) -> bool)
    ensures
        count_where(sort_by(s, before), p) == count_where(s, p),
    decreases s.len(),
{
    if s.len() > 0 {
        lemma_sort_count(s.drop_last(), before, p);
        lemma_count_insert(sort_by(s.drop_last(), before), s.last(), before, p);
    }
}

} // verus!
