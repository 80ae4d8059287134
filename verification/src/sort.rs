//! Sorting that keeps the order of what ranks the same.

use vstd::prelude::*;

use crate::text::{le, text_le, text_order_is_total, text_order_is_transitive};

verus! {

/// A type whose values have a rank, one for each order `O`, that their views
/// decide.
pub trait Ranked<O>: View + Sized {
    /// `a` ranks no higher than `b`.
    spec fn ranks_before(a: Self::V, b: Self::V) -> bool;

    /// `self` ranks no higher than `other`.
    fn may_precede(&self, other: &Self) -> (r: bool)
        ensures
            r == Self::ranks_before(self@, other@),
    ;

    /// Any two values can be ranked.
    proof fn rank_is_total(a: Self::V, b: Self::V)
        ensures
            Self::ranks_before(a, b) || Self::ranks_before(b, a),
    ;

    /// Ranking is transitive.
    proof fn rank_is_transitive(a: Self::V, b: Self::V, c: Self::V)
        requires
            Self::ranks_before(a, b),
            Self::ranks_before(b, c),
        ensures
            Self::ranks_before(a, c),
    ;
}

/// The views of some values.
pub open spec fn views<T: View>(s: Seq<T>) -> Seq<T::V> {
    s.map_values(|x: T| x@)
}

/// A value put into a sequence behind the last one that may precede it.
pub open spec fn inserted<T: Ranked<O>, O>(s: Seq<T::V>, x: T::V) -> Seq<T::V>
    decreases s.len(),
{
    if s.len() == 0 || T::ranks_before(s.last(), x) {
        s.push(x)
    } else {
        inserted::<T, O>(s.drop_last(), x).push(s.last())
    }
}

/// A sequence in the order of rank; what ranks the same keeps its order.
pub open spec fn sorted<T: Ranked<O>, O>(s: Seq<T::V>) -> Seq<T::V>
    decreases s.len(),
{
    if s.len() == 0 {
        s
    } else {
        inserted::<T, O>(sorted::<T, O>(s.drop_last()), s.last())
    }
}

/// Every value of a sequence may precede each that follows it.
pub open spec fn in_order<T: Ranked<O>, O>(s: Seq<T::V>) -> bool {
    forall|i: int, j: int| 0 <= i < j < s.len() ==> T::ranks_before(#[trigger] s[i], #[trigger] s[j])
}

proof fn lemma_inserted<T: Ranked<O>, O>(s: Seq<T::V>, x: T::V)
    requires
        in_order::<T, O>(s),
    ensures
        in_order::<T, O>(inserted::<T, O>(s, x)),
        inserted::<T, O>(s, x).len() == s.len() + 1,
        inserted::<T, O>(s, x).to_multiset() == s.to_multiset().insert(x),
    decreases s.len(),
{
    broadcast use vstd::seq_lib::group_to_multiset_ensures;

    let r = inserted::<T, O>(s, x);
    if s.len() == 0 || T::ranks_before(s.last(), x) {
        assert forall|i: int, j: int| 0 <= i < j < r.len() implies T::ranks_before(
            #[trigger] r[i],
            #[trigger] r[j],
        ) by {
            if j == s.len() {
                if i < s.len() - 1 {
                    assert(T::ranks_before(s[i], s[s.len() - 1]));
                    T::rank_is_transitive(s[i], s.last(), x);
                }
            } else {
                assert(T::ranks_before(s[i], s[j]));
            }
        }
    } else {
        let t = s.drop_last();
        assert forall|i: int, j: int| 0 <= i < j < t.len() implies T::ranks_before(
            #[trigger] t[i],
            #[trigger] t[j],
        ) by {
            assert(T::ranks_before(s[i], s[j]));
        }
        lemma_inserted::<T, O>(t, x);
        let u = inserted::<T, O>(t, x);
        T::rank_is_total(s.last(), x);
        assert forall|i: int| 0 <= i < u.len() implies T::ranks_before(
            #[trigger] u[i],
            s.last(),
        ) by {
            assert(u.contains(u[i]));
            assert(u.to_multiset().count(u[i]) > 0);
            if u[i] != x {
                assert(t.to_multiset().count(u[i]) > 0);
                assert(t.contains(u[i]));
                let k = choose|k: int| 0 <= k < t.len() && t[k] == u[i];
                assert(T::ranks_before(s[k], s[s.len() - 1]));
            }
        }
        assert forall|i: int, j: int| 0 <= i < j < r.len() implies T::ranks_before(
            #[trigger] r[i],
            #[trigger] r[j],
        ) by {
            if j == u.len() {
                assert(T::ranks_before(u[i], s.last()));
            } else {
                assert(T::ranks_before(u[i], u[j]));
            }
        }
        assert(s =~= t.push(s.last()));
        assert(s.to_multiset() =~= t.to_multiset().insert(s.last()));
        assert(r.to_multiset() =~= u.to_multiset().insert(s.last()));
        assert(r.to_multiset() =~= s.to_multiset().insert(x));
    }
}

/// Sorting puts a sequence in order and keeps exactly its values.
pub proof fn sorting_orders_and_permutes<T: Ranked<O>, O>(s: Seq<T::V>)
    ensures
        in_order::<T, O>(sorted::<T, O>(s)),
        sorted::<T, O>(s).len() == s.len(),
        sorted::<T, O>(s).to_multiset() == s.to_multiset(),
    decreases s.len(),
{
    broadcast use vstd::seq_lib::group_to_multiset_ensures;

    if s.len() > 0 {
        let t = s.drop_last();
        sorting_orders_and_permutes::<T, O>(t);
        lemma_inserted::<T, O>(sorted::<T, O>(t), s.last());
        assert(s =~= t.push(s.last()));
        assert(s.to_multiset() =~= t.to_multiset().insert(s.last()));
    }
}

proof fn lemma_in_order_stays<T: Ranked<O>, O>(s: Seq<T::V>)
    requires
        in_order::<T, O>(s),
    ensures
        sorted::<T, O>(s) == s,
    decreases s.len(),
{
    if s.len() > 0 {
        let t = s.drop_last();
        assert forall|i: int, j: int| 0 <= i < j < t.len() implies T::ranks_before(
            #[trigger] t[i],
            #[trigger] t[j],
        ) by {
            assert(T::ranks_before(s[i], s[j]));
        }
        lemma_in_order_stays::<T, O>(t);
        if t.len() > 0 {
            assert(T::ranks_before(s[s.len() - 2], s[s.len() - 1]));
        }
        assert(t.push(s.last()) =~= s);
    }
}

/// Sorting what is sorted changes nothing.
pub proof fn sorting_is_idempotent<T: Ranked<O>, O>(s: Seq<T::V>)
    ensures
        sorted::<T, O>(sorted::<T, O>(s)) == sorted::<T, O>(s),
{
    sorting_orders_and_permutes::<T, O>(s);
    lemma_in_order_stays::<T, O>(sorted::<T, O>(s));
}

proof fn lemma_inserted_at<T: Ranked<O>, O>(s: Seq<T::V>, x: T::V, k: int)
    requires
        0 <= k <= s.len(),
        forall|i: int| k <= i < s.len() ==> !T::ranks_before(#[trigger] s[i], x),
        k == 0 || T::ranks_before(s[k - 1], x),
    ensures
        inserted::<T, O>(s, x) == s.insert(k, x),
    decreases s.len() - k,
{
    if k == s.len() {
        assert(s.insert(k, x) =~= s.push(x));
    } else {
        lemma_inserted_at::<T, O>(s.drop_last(), x, k);
        assert(s.drop_last().insert(k, x).push(s.last()) =~= s.insert(k, x));
    }
}

/// Sorts in the order of rank; what ranks the same keeps its order.
pub fn stable_sort<T: Ranked<O>, O>(items: &mut Vec<T>)
    ensures
        views(final(items)@) == sorted::<T, O>(views(old(items)@)),
{
    let ghost start = views(items@);
    let n: usize = items.len();
    let mut done: usize = 0;
    assert(start.take(0) =~= Seq::empty());
    assert(Seq::<T::V>::empty() + start.skip(0) =~= start);
    while done < n
        invariant
            done <= n,
            n == items@.len(),
            n == start.len(),
            views(items@) == sorted::<T, O>(start.take(done as int)) + start.skip(done as int),
            sorted::<T, O>(start.take(done as int)).len() == done,
        decreases n - done,
    {
        let ghost front = sorted::<T, O>(start.take(done as int));
        let ghost all = views(items@);
        let x = items.remove(done);
        assert(all[done as int] == start[done as int]);
        let ghost rest = views(items@);
        assert(rest =~= all.remove(done as int));
        assert(rest =~= front + start.skip(done + 1));
        assert forall|i: int| 0 <= i < done implies front[i] == #[trigger] items@[i]@ by {
            assert(rest[i] == front[i]);
        }
        let mut k: usize = done;
        while k > 0 && !items[k - 1].may_precede(&x)
            invariant
                k <= done,
                done < n,
                n == items@.len() + 1,
                n == start.len(),
                views(items@) == rest,
                rest == front + start.skip(done + 1),
                front.len() == done,
                forall|i: int| 0 <= i < done ==> front[i] == #[trigger] items@[i]@,
                forall|i: int| k <= i < done ==> !T::ranks_before(#[trigger] front[i], x@),
            ensures
                k == 0 || T::ranks_before(front[k - 1], x@),
            decreases k,
        {
            k -= 1;
        }
        proof {
            lemma_inserted_at::<T, O>(front, x@, k as int);
            assert(start.take(done + 1).drop_last() =~= start.take(done as int));
            assert(start.take(done + 1).last() == x@);
        }
        let ghost xv = x@;
        items.insert(k, x);
        assert(views(items@) =~= rest.insert(k as int, xv));
        assert(rest.insert(k as int, xv) =~= front.insert(k as int, xv) + start.skip(done + 1));
        done += 1;
    }
    assert(start.take(n as int) =~= start);
    assert(views(items@) =~= sorted::<T, O>(start));
}

/// The order of code points.
pub struct Alphabetical;

impl Ranked<Alphabetical> for String {
    open spec fn ranks_before(a: Seq<char>, b: Seq<char>) -> bool {
        text_le(a, b)
    }

    fn may_precede(&self, other: &Self) -> (r: bool) {
        le(self.as_str(), other.as_str())
    }

    proof fn rank_is_total(a: Seq<char>, b: Seq<char>) {
        text_order_is_total(a, b);
    }

    proof fn rank_is_transitive(a: Seq<char>, b: Seq<char>, c: Seq<char>) {
        text_order_is_transitive(a, b, c);
    }
}

/// Numbers in ascending order.
pub open spec fn ascending(s: Seq<u64>) -> bool {
    forall|i: int, j: int| 0 <= i < j < s.len() ==> #[trigger] s[i] <= #[trigger] s[j]
}

/// `[u64]::sort_unstable` of std: ascending order, and the same numbers as
/// often as before.
#[verifier::external_body]
pub(crate) fn sort_numbers(items: &mut Vec<u64>)
    ensures
        ascending(final(items)@),
        final(items)@.len() == old(items)@.len(),
        final(items)@.to_multiset() == old(items)@.to_multiset(),
{
    items.sort_unstable()
}

} // verus!
