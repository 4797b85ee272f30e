//! An insertion sort over a total preorder, shared by the profile lists and
//! the suggestion ranking.
use vstd::prelude::*;

verus! {

/// A total preorder with an executable comparison.
pub trait Ordered: Sized {
    spec fn le(&self, other: &Self) -> bool;

    proof fn le_total(a: &Self, b: &Self)
        ensures
            a.le(b) || b.le(a),
    ;

    proof fn le_trans(a: &Self, b: &Self, c: &Self)
        requires
            a.le(b),
            b.le(c),
        ensures
            a.le(c),
    ;

    fn le_exec(&self, other: &Self) -> (r: bool)
        ensures
            r == self.le(other),
    ;
}

/// `s` is in non-decreasing order.
pub open spec fn sorted<T: Ordered>(s: Seq<T>) -> bool {
    forall|i: int, j: int| #![trigger s[i], s[j]] 0 <= i < j < s.len() ==> s[i].le(&s[j])
}

proof fn lemma_insert_multiset<T>(s: Seq<T>, pos: int, x: T)
    requires
        0 <= pos <= s.len(),
    ensures
        s.insert(pos, x).to_multiset() =~= s.to_multiset().insert(x),
{
    broadcast use vstd::seq_lib::group_to_multiset_ensures;

    let t = s.insert(pos, x);
    t.to_multiset_ensures();
    assert(t.remove(pos) =~= s);
    assert(t[pos] == x);
    assert(t.remove(pos).to_multiset() =~= t.to_multiset().remove(x));
    assert(t.to_multiset().count(x) > 0) by {
        assert(t.contains(x));
    }
}

/// Sorts `v` into non-decreasing order; the result is a permutation of `v`.
pub fn insertion_sort<T: Ordered>(v: Vec<T>) -> (r: Vec<T>)
    ensures
        sorted(r@),
        r@.to_multiset() =~= v@.to_multiset(),
{
    broadcast use vstd::seq_lib::group_to_multiset_ensures;

    let mut v = v;
    let ghost orig = v@;
    let mut r: Vec<T> = Vec::new();
    while v.len() > 0
        invariant
            sorted(r@),
            v@.to_multiset().add(r@.to_multiset()) =~= orig.to_multiset(),
        decreases v@.len(),
    {
        let ghost before_v = v@;
        let x = v.pop().unwrap();
        proof {
            assert(before_v =~= v@.push(x));
            v@.to_multiset_ensures();
            assert(v@.push(x).to_multiset() =~= v@.to_multiset().insert(x));
            assert(before_v.to_multiset() =~= v@.to_multiset().insert(x));
        }
        let mut j: usize = 0;
        while j < r.len() && !x.le_exec(&r[j])
            invariant
                j <= r@.len(),
                forall|k: int| 0 <= k < j ==> !x.le(&r@[k]),
            decreases r@.len() - j,
        {
            j = j + 1;
        }
        let ghost before_r = r@;
        r.insert(j, x);
        proof {
            lemma_insert_multiset(before_r, j as int, x);
            assert(v@.to_multiset().add(r@.to_multiset()) =~= before_v.to_multiset().add(
                before_r.to_multiset(),
            ));
            assert forall|a: int, b: int| #![trigger r@[a], r@[b]] 0 <= a < b < r@.len() implies r@[a].le(
                &r@[b],
            ) by {
                if b < j {
                    assert(r@[a] == before_r[a] && r@[b] == before_r[b]);
                } else if b == j {
                    assert(!x.le(&before_r[a]));
                    T::le_total(&x, &before_r[a]);
                } else if a == j {
                    assert(x.le(&before_r[j as int]));
                    if b - 1 > j {
                        assert(before_r[j as int].le(&before_r[b - 1]));
                        T::le_trans(&x, &before_r[j as int], &before_r[b - 1]);
                    }
                } else if a < j {
                    assert(before_r[a].le(&before_r[b - 1]));
                } else {
                    assert(before_r[a - 1].le(&before_r[b - 1]));
                }
            }
        }
    }
    r
}

} // verus!
