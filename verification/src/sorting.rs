//! Stable ordering of events by their start time.
use vstd::prelude::*;

verus! {

/// Values that carry a start time, ordered by an integer key.
pub trait StartOrdered: Sized {
    spec fn start_key(&self) -> int;

    fn starts_no_later_than(&self, other: &Self) -> (r: bool)
        ensures
            r == (self.start_key() <= other.start_key()),
    ;
}

/// `x` placed into `t` right after the last element that does not start later than it
/// (at the front, when there is none).
pub open spec fn insert_by_start<T: StartOrdered>(t: Seq<T>, x: T) -> Seq<T>
    decreases t.len(),
{
    if t.len() == 0 {
        seq![x]
    } else if t.last().start_key() <= x.start_key() {
        t.push(x)
    } else {
        insert_by_start(t.drop_last(), x).push(t.last())
    }
}

/// The stable sort of `s` by start: each element in turn inserted after every element before it
/// that does not start later.
pub open spec fn sort_by_start<T: StartOrdered>(s: Seq<T>) -> Seq<T>
    decreases s.len(),
{
    if s.len() == 0 {
        s
    } else {
        insert_by_start(sort_by_start(s.drop_last()), s.last())
    }
}

pub open spec fn sorted_by_start<T: StartOrdered>(s: Seq<T>) -> bool {
    forall|i: int, j: int| 0 <= i <= j < s.len() ==> s[i].start_key() <= s[j].start_key()
}

/// Inserting keeps a sorted sequence sorted, and adds exactly the inserted element.
pub proof fn lemma_insert_by_start<T: StartOrdered>(t: Seq<T>, x: T)
    ensures
        sorted_by_start(t) ==> sorted_by_start(insert_by_start(t, x)),
        insert_by_start(t, x).to_multiset() =~= t.to_multiset().insert(x),
        insert_by_start(t, x).len() == t.len() + 1,
    decreases t.len(),
{
    broadcast use vstd::seq_lib::group_to_multiset_ensures;

    if t.len() == 0 {
        assert(seq![x] =~= Seq::<T>::empty().push(x));
    } else if t.last().start_key() <= x.start_key() {
    } else {
        let u = t.drop_last();
        lemma_insert_by_start(u, x);
        assert(t =~= u.push(t.last()));
        let w = insert_by_start(u, x);
        if sorted_by_start(t) {
            assert forall|i: int, j: int| 0 <= i <= j < w.push(t.last()).len() implies
                w.push(t.last())[i].start_key() <= w.push(t.last())[j].start_key() by {
                if j == w.len() {
                    if i < w.len() {
                        // every element of `w` is `x` or an element of `u`
                        let e = w[i];
                        assert(w.to_multiset().count(e) > 0);
                        assert(t.to_multiset().insert(x).count(e) > 0);
                        if e != x {
                            assert(t.to_multiset().count(e) > 0);
                            let k = choose|k: int| 0 <= k < u.len() && u[k] == e;
                            assert(u.contains(e));
                            let k = choose|k: int| 0 <= k < u.len() && u[k] == e;
                            assert(t[k] == e);
                        }
                    }
                }
            }
        }
    }
}


/// The stable sort is sorted and holds the same elements.
pub proof fn lemma_sort_by_start<T: StartOrdered>(s: Seq<T>)
    ensures
        sorted_by_start(sort_by_start(s)),
        sort_by_start(s).to_multiset() =~= s.to_multiset(),
        sort_by_start(s).len() == s.len(),
    decreases s.len(),
{
    broadcast use vstd::seq_lib::group_to_multiset_ensures;

    if s.len() > 0 {
        lemma_sort_by_start(s.drop_last());
        lemma_insert_by_start(sort_by_start(s.drop_last()), s.last());
        assert(s =~= s.drop_last().push(s.last()));
    }
}

/// Sorting a sequence that is already sorted leaves it as it is.
pub proof fn lemma_sort_sorted<T: StartOrdered>(s: Seq<T>)
    requires
        sorted_by_start(s),
    ensures
        sort_by_start(s) == s,
    decreases s.len(),
{
    if s.len() > 0 {
        let u = s.drop_last();
        assert(sorted_by_start(u));
        lemma_sort_sorted(u);
        if u.len() > 0 {
            assert(u.last() == s[s.len() - 2]);
        }
        assert(u.push(s.last()) =~= s);
    }
}

/// Inserting puts the element between a prefix of the sequence and the rest of it.
pub proof fn lemma_insert_position<T: StartOrdered>(t: Seq<T>, x: T) -> (j: int)
    ensures
        0 <= j <= t.len(),
        insert_by_start(t, x) == t.take(j) + seq![x] + t.skip(j),
    decreases t.len(),
{
    if t.len() == 0 {
        assert(t.take(0) + seq![x] + t.skip(0) =~= seq![x]);
        0
    } else if t.last().start_key() <= x.start_key() {
        assert(t.take(t.len() as int) + seq![x] + t.skip(t.len() as int) =~= t.push(x));
        t.len() as int
    } else {
        let u = t.drop_last();
        let j = lemma_insert_position(u, x);
        assert(u.take(j) + seq![x] + u.skip(j) + seq![t.last()] =~= t.take(j) + seq![x] + t.skip(j));
        j
    }
}

/// Inserting past a run of later-starting elements at the end.
proof fn lemma_insert_split<T: StartOrdered>(t: Seq<T>, x: T, j: int)
    requires
        0 < j <= t.len(),
        !(t[j - 1].start_key() <= x.start_key()),
    ensures
        insert_by_start(t.take(j), x) + t.skip(j)
            =~= insert_by_start(t.take(j - 1), x) + t.skip(j - 1),
{
    let a = t.take(j);
    assert(a.drop_last() =~= t.take(j - 1));
    assert(a.last() == t[j - 1]);
    assert(t.skip(j - 1) =~= seq![t[j - 1]] + t.skip(j));
}

/// Sorts `v` stably by start.
pub fn sort_in_place<T: StartOrdered>(v: &mut Vec<T>)
    ensures
        final(v)@ == sort_by_start(old(v)@),
{
    let ghost orig = v@;
    let n = v.len();
    let mut i: usize = 0;
    while i < n
        invariant
            0 <= i <= n,
            n == orig.len(),
            v@.len() == n,
            v@.take(i as int) == sort_by_start(orig.take(i as int)),
            v@.skip(i as int) == orig.skip(i as int),
        decreases n - i,
    {
        proof {
            lemma_sort_by_start(orig.take(i as int));
        }
        let ghost prefix = v@.take(i as int);
        let ghost rest = v@.skip(i as int + 1);
        assert(v@ =~= prefix + seq![v@[i as int]] + rest);
        assert(rest =~= orig.skip(i as int + 1)) by {
            assert forall|k: int| 0 <= k < rest.len() implies rest[k] == orig.skip(i as int + 1)[k] by {
                assert(rest[k] == v@.skip(i as int)[k + 1]);
            }
        }
        let x = v.remove(i);
        assert(v@ =~= prefix + rest);
        assert(x == orig[i as int]) by {
            assert(orig.skip(i as int)[0] == orig[i as int]);
        }
        assert(prefix.take(i as int) =~= prefix);
        assert(prefix.skip(i as int) =~= Seq::<T>::empty());
        let mut j: usize = i;
        while j > 0 && !v[j - 1].starts_no_later_than(&x)
            invariant
                0 <= j <= i,
                i < n,
                v@ == prefix + rest,
                prefix.len() == i,
                insert_by_start(prefix, x) == insert_by_start(prefix.take(j as int), x) + prefix.skip(j as int),
            decreases j,
        {
            proof {
                assert(v@[j - 1] == prefix[j - 1]);
                lemma_insert_split(prefix, x, j as int);
            }
            j = j - 1;
        }
        proof {
            if j > 0 {
                assert(v@[j - 1] == prefix[j - 1]);
                assert(prefix.take(j as int).last() == prefix[j - 1]);
            }
            assert(insert_by_start(prefix.take(j as int), x) =~= prefix.take(j as int).push(x));
        }
        v.insert(j, x);
        proof {
            assert(orig.take(i + 1).drop_last() =~= orig.take(i as int));
            assert(orig.take(i + 1).last() == x);
            assert(v@.take(i + 1) =~= insert_by_start(prefix, x));
            assert(v@.skip(i + 1) =~= orig.skip(i + 1));
        }
        i = i + 1;
    }
    assert(v@.take(n as int) =~= v@);
    assert(orig.take(n as int) =~= orig);
}
} // verus!
