//! Stable insertion sort over items that carry a total preorder.
use vstd::prelude::*;
use vstd::multiset::*;
use vstd::seq_lib::*;

verus! {

/// Items that can be put in order: `rank_le` is a total preorder.
pub trait Ranked: Sized {
    spec fn rank_le(self, other: Self) -> bool;

    proof fn lemma_rank_total(a: Self, b: Self)
        ensures
            a.rank_le(b) || b.rank_le(a),
    ;

    proof fn lemma_rank_trans(a: Self, b: Self, c: Self)
        requires
            a.rank_le(b),
            b.rank_le(c),
        ensures
            a.rank_le(c),
    ;

    fn ranks_le(&self, other: &Self) -> (r: bool)
        ensures
            r == self.rank_le(*other),
    ;
}

/// Every item ranks at most as high as every later one.
pub open spec fn sorted<T: Ranked>(s: Seq<T>) -> bool {
    forall|i: int, j: int| 0 <= i < j < s.len() ==> #[trigger] s[i].rank_le(#[trigger] s[j])
}

proof fn lemma_insert_multiset<T>(s: Seq<T>, j: int, x: T)
    requires
        0 <= j <= s.len(),
    ensures
        s.insert(j, x).to_multiset() =~= s.to_multiset().insert(x),
{
    broadcast use group_multiset_axioms;
    broadcast use group_to_multiset_ensures;

    let a = s.subrange(0, j);
    let b = s.subrange(j, s.len() as int);
    assert(s =~= a + b);
    assert(s.insert(j, x) =~= a.push(x) + b);
    lemma_multiset_commutative(a, b);
    lemma_multiset_commutative(a.push(x), b);
}

/// `a` and `b` rank the same.
pub open spec fn same_rank<T: Ranked>(a: T, b: T) -> bool {
    a.rank_le(b) && b.rank_le(a)
}

/// The items of `s` that rank the same as `k`, in their order in `s`.
pub open spec fn rank_class<T: Ranked>(s: Seq<T>, k: T) -> Seq<T> {
    s.filter(|y: T| same_rank(y, k))
}

proof fn lemma_class_push<T: Ranked>(s: Seq<T>, x: T, k: T)
    ensures
        rank_class(s.push(x), k) == if same_rank(x, k) {
            rank_class(s, k).push(x)
        } else {
            rank_class(s, k)
        },
{
    reveal(Seq::filter);
    assert(s.push(x).drop_last() =~= s);
}

/// Inserting `x` after every item that ranks at most as high as it, into a sorted sequence,
/// appends `x` to its rank class and leaves the other classes alone.
proof fn lemma_class_insert<T: Ranked>(s: Seq<T>, j: int, x: T, k: T)
    requires
        sorted(s),
        0 <= j <= s.len(),
        forall|m: int| 0 <= m < j ==> #[trigger] s[m].rank_le(x),
        j < s.len() ==> !s[j].rank_le(x),
    ensures
        rank_class(s.insert(j, x), k) == if same_rank(x, k) {
            rank_class(s, k).push(x)
        } else {
            rank_class(s, k)
        },
{
    broadcast use Seq::filter_distributes_over_add;

    let p = |y: T| same_rank(y, k);
    let a = s.subrange(0, j);
    let b = s.subrange(j, s.len() as int);
    assert(s =~= a + b);
    assert(s.insert(j, x) =~= a.push(x) + b);
    lemma_class_push(a, x, k);
    if same_rank(x, k) {
        assert(b.filter(p) =~= Seq::<T>::empty()) by {
            if b.filter(p).len() > 0 {
                let e = b.filter(p)[0];
                assert(b.filter(p).contains(e));
                b.lemma_filter_contains_rev(p, e);
                b.lemma_filter_pred(p, 0);
                let m = choose|m: int| 0 <= m < b.len() && b[m] == e;
                T::lemma_rank_trans(e, k, x);
                if m > 0 {
                    assert(s[j].rank_le(s[j + m]));
                    T::lemma_rank_trans(s[j], e, x);
                }
            }
        }
    }
}

/// Puts `x` after every item of `r` that ranks at most as high as it.
fn insert_sorted<T: Ranked>(r: &mut Vec<T>, x: T)
    requires
        sorted(old(r)@),
    ensures
        sorted(final(r)@),
        final(r)@.to_multiset() =~= old(r)@.to_multiset().insert(x),
        forall|k: T| #[trigger] rank_class(final(r)@, k) == if same_rank(x, k) {
            rank_class(old(r)@, k).push(x)
        } else {
            rank_class(old(r)@, k)
        },
{
    let mut j: usize = 0;
    let mut found = false;
    while j < r.len() && !found
        invariant
            j <= r.len(),
            forall|m: int| 0 <= m < j ==> #[trigger] r@[m].rank_le(x),
            found ==> j < r.len() && !r@[j as int].rank_le(x),
        decreases r.len() - j + (if found { 0int } else { 1int }),
    {
        if !r[j].ranks_le(&x) {
            found = true;
        } else {
            j = j + 1;
        }
    }
    let ghost before = r@;
    proof {
        lemma_insert_multiset(before, j as int, x);
        if j < before.len() {
            T::lemma_rank_total(before[j as int], x);
        }
    }
    r.insert(j, x);
    proof {
        assert forall|k: T| #[trigger] rank_class(r@, k) == if same_rank(x, k) {
            rank_class(before, k).push(x)
        } else {
            rank_class(before, k)
        } by {
            lemma_class_insert(before, j as int, x, k);
        }
        assert forall|a: int, b: int| 0 <= a < b < r@.len() implies #[trigger] r@[a].rank_le(
            #[trigger] r@[b],
        ) by {
            if b < j {
                assert(r@[a] == before[a] && r@[b] == before[b]);
            } else if b == j {
                assert(r@[a] == before[a]);
            } else if a == j {
                assert(r@[b] == before[b - 1]);
                if j < b - 1 {
                    assert(before[j as int].rank_le(before[b - 1]));
                } else {
                    T::lemma_rank_total(before[j as int], before[j as int]);
                }
                T::lemma_rank_trans(x, before[j as int], before[b - 1]);
            } else if a < j {
                assert(r@[a] == before[a] && r@[b] == before[b - 1]);
            } else {
                assert(r@[a] == before[a - 1] && r@[b] == before[b - 1]);
            }
        }
    }
}

/// The items in order of rank; items of equal rank keep their relative order.
pub fn sort<T: Ranked>(items: Vec<T>) -> (r: Vec<T>)
    ensures
        sorted(r@),
        r@.to_multiset() =~= items@.to_multiset(),
        r@.len() == items@.len(),
        forall|k: T| #[trigger] rank_class(r@, k) == rank_class(items@, k),
{
    broadcast use group_to_multiset_ensures;

    let ghost orig = items@;
    let mut rest = items;
    let mut r: Vec<T> = Vec::new();
    let ghost mut done: Seq<T> = Seq::empty();
    while rest.len() > 0
        invariant
            orig == done + rest@,
            sorted(r@),
            r@.to_multiset() =~= done.to_multiset(),
            forall|k: T| #[trigger] rank_class(r@, k) == rank_class(done, k),
        decreases rest.len(),
    {
        let x = rest.remove(0);
        let ghost r0 = r@;
        let ghost done0 = done;
        proof {
            done.to_multiset_ensures();
            assert(orig == done.push(x) + rest@);
            done = done.push(x);
        }
        insert_sorted(&mut r, x);
        proof {
            assert forall|k: T| #[trigger] rank_class(r@, k) == rank_class(done, k) by {
                assert(rank_class(r0, k) == rank_class(done0, k));
                lemma_class_push(done0, x, k);
            }
        }
    }
    assert(orig =~= done);
    proof {
        r@.to_multiset_ensures();
        orig.to_multiset_ensures();
    }
    r
}

} // verus!
