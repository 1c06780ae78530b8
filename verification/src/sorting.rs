//! Stable sorting of records by a text key, as `sort_by` on the key does:
//! elements with equal keys keep their relative order.
use vstd::prelude::*;
use crate::text::{seq_lt, str_lt};

verus! {

/// A record ordered by one of its text fields.
pub trait SortKey {
    spec fn sort_key(&self) -> Seq<char>;

    fn key_str(&self) -> (k: &str)
        ensures
            k@ == self.sort_key(),
    ;
}

impl SortKey for String {
    open spec fn sort_key(&self) -> Seq<char> {
        self@
    }

    fn key_str(&self) -> (k: &str) {
        self.as_str()
    }
}

/// `x` placed into `s` after every trailing element whose key it does not
/// sort before.
pub open spec fn insert_stable<T: SortKey>(s: Seq<T>, x: T) -> Seq<T>
    decreases s.len(),
{
    if s.len() == 0 {
        seq![x]
    } else if seq_lt(x.sort_key(), s.last().sort_key()) {
        insert_stable(s.drop_last(), x).push(s.last())
    } else {
        s.push(x)
    }
}

/// The stable sort of `s` by key.
pub open spec fn stable_sorted<T: SortKey>(s: Seq<T>) -> Seq<T>
    decreases s.len(),
{
    if s.len() == 0 {
        Seq::empty()
    } else {
        insert_stable(stable_sorted(s.drop_last()), s.last())
    }
}

/// Keys never decrease along `s`.
pub open spec fn keys_ascending<T: SortKey>(s: Seq<T>) -> bool {
    forall|i: int, j: int| 0 <= i < j < s.len() ==> !seq_lt(#[trigger] s[j].sort_key(), #[trigger] s[i].sort_key())
}

/// Keys strictly increase along `s`.
pub open spec fn keys_strictly_ascending<T: SortKey>(s: Seq<T>) -> bool {
    forall|i: int, j: int| 0 <= i < j < s.len() ==> seq_lt(#[trigger] s[i].sort_key(), #[trigger] s[j].sort_key())
}

proof fn lemma_insert_at<T: SortKey>(s: Seq<T>, x: T, j: int)
    requires
        0 <= j <= s.len(),
        forall|k: int| j <= k < s.len() ==> seq_lt(x.sort_key(), #[trigger] s[k].sort_key()),
        j == 0 || !seq_lt(x.sort_key(), s[j - 1].sort_key()),
    ensures
        insert_stable(s, x) == s.take(j).push(x) + s.skip(j),
    decreases s.len(),
{
    if s.len() == j {
        if j == 0 {
            assert(s.take(j).push(x) + s.skip(j) =~= seq![x]);
        } else {
            assert(s.take(j) =~= s);
            assert(s.take(j).push(x) + s.skip(j) =~= s.push(x));
        }
    } else {
        assert(seq_lt(x.sort_key(), s[s.len() - 1].sort_key()));
        let d = s.drop_last();
        assert forall|k: int| j <= k < d.len() implies seq_lt(x.sort_key(), #[trigger] d[k].sort_key()) by {
            assert(d[k] == s[k]);
        }
        if j > 0 {
            assert(d[j - 1] == s[j - 1]);
        }
        lemma_insert_at(d, x, j);
        assert(d.take(j) =~= s.take(j));
        assert((d.take(j).push(x) + d.skip(j)).push(s.last()) =~= s.take(j).push(x) + s.skip(j));
    }
}

/// Inserting keeps the multiset of elements.
pub proof fn lemma_insert_stable_multiset<T: SortKey>(s: Seq<T>, x: T)
    ensures
        insert_stable(s, x).to_multiset() == s.to_multiset().insert(x),
    decreases s.len(),
{
    broadcast use vstd::seq_lib::group_to_multiset_ensures;
    if s.len() == 0 {
        assert(seq![x] =~= Seq::<T>::empty().push(x));
    } else if seq_lt(x.sort_key(), s.last().sort_key()) {
        lemma_insert_stable_multiset(s.drop_last(), x);
        assert(s =~= s.drop_last().push(s.last()));
    } else {
    }
}

/// A stable sort is a permutation.
pub proof fn lemma_stable_sorted_multiset<T: SortKey>(s: Seq<T>)
    ensures
        stable_sorted(s).to_multiset() == s.to_multiset(),
    decreases s.len(),
{
    broadcast use vstd::seq_lib::group_to_multiset_ensures;
    if s.len() > 0 {
        lemma_stable_sorted_multiset(s.drop_last());
        lemma_insert_stable_multiset(stable_sorted(s.drop_last()), s.last());
        assert(s =~= s.drop_last().push(s.last()));
    }
}

/// Inserting into an ascending sequence keeps it ascending.
pub proof fn lemma_insert_stable_ascending<T: SortKey>(s: Seq<T>, x: T)
    requires
        keys_ascending(s),
    ensures
        keys_ascending(insert_stable(s, x)),
        insert_stable(s, x).len() == s.len() + 1,
    decreases s.len(),
{
    broadcast use vstd::seq_lib::group_to_multiset_ensures;
    let r = insert_stable(s, x);
    if s.len() == 0 {
    } else if seq_lt(x.sort_key(), s.last().sort_key()) {
        let d = s.drop_last();
        lemma_insert_stable_ascending(d, x);
        lemma_insert_stable_multiset(d, x);
        let q = insert_stable(d, x);
        assert(r == q.push(s.last()));
        assert forall|i: int, j: int| 0 <= i < j < r.len() implies !seq_lt(
            #[trigger] r[j].sort_key(),
            #[trigger] r[i].sort_key(),
        ) by {
            if j == r.len() - 1 {
                let e = q[i];
                assert(r[i] == e);
                assert(q.contains(e));
                assert(q.to_multiset().count(e) > 0);
                if e == x {
                    crate::text::lemma_seq_lt_irreflexive(x.sort_key(), s.last().sort_key());
                } else {
                    assert(d.to_multiset().count(e) > 0);
                    assert(d.contains(e));
                    let k = choose|k: int| 0 <= k < d.len() && d[k] == e;
                    assert(s[k] == e);
                    assert(!seq_lt(s[s.len() - 1].sort_key(), s[k].sort_key()));
                }
            } else {
                assert(r[i] == q[i] && r[j] == q[j]);
            }
        }
    } else {
        let last = s[s.len() - 1];
        assert forall|i: int, j: int| 0 <= i < j < r.len() implies !seq_lt(
            #[trigger] r[j].sort_key(),
            #[trigger] r[i].sort_key(),
        ) by {
            if j == r.len() - 1 {
                assert(r[j] == x);
                assert(r[i] == s[i]);
                if seq_lt(x.sort_key(), s[i].sort_key()) {
                    if s[i].sort_key() != last.sort_key() {
                        assert(!seq_lt(last.sort_key(), s[i].sort_key()));
                        crate::text::lemma_seq_lt_total(s[i].sort_key(), last.sort_key());
                        crate::text::lemma_seq_lt_transitive(x.sort_key(), s[i].sort_key(), last.sort_key());
                    }
                }
            } else {
                assert(r[i] == s[i] && r[j] == s[j]);
            }
        }
    }
}

/// A stable sort orders the keys.
pub proof fn lemma_stable_sorted_ascending<T: SortKey>(s: Seq<T>)
    ensures
        keys_ascending(stable_sorted(s)),
        stable_sorted(s).len() == s.len(),
    decreases s.len(),
{
    if s.len() > 0 {
        lemma_stable_sorted_ascending(s.drop_last());
        lemma_insert_stable_ascending(stable_sorted(s.drop_last()), s.last());
    }
}

/// Each key sorts strictly before the next.
pub open spec fn keys_adjacent_strict<T: SortKey>(s: Seq<T>) -> bool {
    forall|i: int| 0 < i < s.len() ==> seq_lt(s[i - 1].sort_key(), #[trigger] s[i].sort_key())
}

pub proof fn lemma_adjacent_strict_is_strict<T: SortKey>(s: Seq<T>)
    requires
        keys_adjacent_strict(s),
    ensures
        keys_strictly_ascending(s),
    decreases s.len(),
{
    if s.len() > 0 {
        let d = s.drop_last();
        assert forall|i: int| 0 < i < d.len() implies seq_lt(d[i - 1].sort_key(), #[trigger] d[i].sort_key()) by {
            assert(d[i] == s[i] && d[i - 1] == s[i - 1]);
        }
        lemma_adjacent_strict_is_strict(d);
        assert forall|i: int, j: int| 0 <= i < j < s.len() implies seq_lt(
            #[trigger] s[i].sort_key(),
            #[trigger] s[j].sort_key(),
        ) by {
            if j < s.len() - 1 {
                assert(d[i] == s[i] && d[j] == s[j]);
            } else if i < j - 1 {
                assert(d[i] == s[i] && d[j - 1] == s[j - 1]);
                assert(seq_lt(d[i].sort_key(), d[j - 1].sort_key()));
                assert(seq_lt(s[j - 1].sort_key(), s[j].sort_key()));
                crate::text::lemma_seq_lt_transitive(s[i].sort_key(), s[j - 1].sort_key(), s[j].sort_key());
            }
        }
    }
}

/// A sequence whose keys strictly increase is the only ascending arrangement
/// of its elements.
pub proof fn lemma_strict_arrangement_unique<T: SortKey>(p: Seq<T>, q: Seq<T>)
    requires
        keys_adjacent_strict(p),
        keys_ascending(q),
        p.to_multiset() == q.to_multiset(),
    ensures
        p == q,
    decreases p.len(),
{
    broadcast use vstd::seq_lib::group_to_multiset_ensures;
    lemma_adjacent_strict_is_strict(p);
    assert(p.len() == p.to_multiset().len());
    assert(q.len() == q.to_multiset().len());
    if p.len() == 0 {
        assert(q.len() == 0);
        assert(p =~= q);
    } else {
        assert(q.len() == p.len());
        assert(p.contains(p[0]));
        assert(q.to_multiset().count(p[0]) > 0);
        assert(q.contains(p[0]));
        let j = choose|j: int| 0 <= j < q.len() && q[j] == p[0];
        assert(q.contains(q[0]));
        assert(p.to_multiset().count(q[0]) > 0);
        assert(p.contains(q[0]));
        let i = choose|i: int| 0 <= i < p.len() && p[i] == q[0];
        if i > 0 && j > 0 {
            assert(seq_lt(p[0].sort_key(), p[i].sort_key()));
            assert(!seq_lt(q[j].sort_key(), q[0].sort_key()));
            assert(false);
        }
        assert(p[0] == q[0]);
        let p1 = p.drop_first();
        let q1 = q.drop_first();
        assert(p.remove(0) =~= p1);
        assert(q.remove(0) =~= q1);
        assert(p1.to_multiset() == q1.to_multiset());
        assert forall|k: int| 0 < k < p1.len() implies seq_lt(p1[k - 1].sort_key(), #[trigger] p1[k].sort_key()) by {
            assert(p1[k] == p[k + 1] && p1[k - 1] == p[k]);
        }
        assert forall|a: int, b: int| 0 <= a < b < q1.len() implies !seq_lt(
            #[trigger] q1[b].sort_key(),
            #[trigger] q1[a].sort_key(),
        ) by {
            assert(q1[a] == q[a + 1] && q1[b] == q[b + 1]);
        }
        lemma_strict_arrangement_unique(p1, q1);
        assert forall|k: int| 0 <= k < p.len() implies p[k] == q[k] by {
            if k > 0 {
                assert(p[k] == p1[k - 1] && q[k] == q1[k - 1]);
            }
        }
        assert(p =~= q);
    }
}

/// Sorting two arrangements of the same elements gives one result, when
/// the sort of the first has strictly increasing keys.
pub proof fn lemma_sort_ignores_arrangement<T: SortKey>(a: Seq<T>, b: Seq<T>)
    requires
        a.to_multiset() == b.to_multiset(),
        keys_adjacent_strict(stable_sorted(a)),
    ensures
        stable_sorted(a) == stable_sorted(b),
{
    lemma_stable_sorted_multiset(a);
    lemma_stable_sorted_multiset(b);
    lemma_stable_sorted_ascending(b);
    lemma_strict_arrangement_unique(stable_sorted(a), stable_sorted(b));
}

/// Sorts `v` by key, stably.
pub fn sort_by_key<T: SortKey>(v: &mut Vec<T>)
    ensures
        final(v)@ == stable_sorted(old(v)@),
{
    let ghost start = old(v)@;
    let mut rest: Vec<T> = Vec::new();
    std::mem::swap(v, &mut rest);
    let mut out: Vec<T> = Vec::new();
    let mut n: usize = 0;
    assert(start.take(0) =~= Seq::<T>::empty());
    assert(start.len() == rest.len());
    while rest.len() > 0
        invariant
            start == old(v)@,
            start.len() <= usize::MAX,
            n <= start.len(),
            rest@ == start.skip(n as int),
            out@ == stable_sorted(start.take(n as int)),
        decreases rest.len(),
    {
        let x = rest.remove(0);
        let mut j: usize = out.len();
        while j > 0 && str_lt(x.key_str(), out[j - 1].key_str())
            invariant
                j <= out.len(),
                forall|k: int| j <= k < out.len() ==> seq_lt(x.sort_key(), #[trigger] out@[k].sort_key()),
            decreases j,
        {
            j = j - 1;
        }
        proof {
            lemma_insert_at(out@, x, j as int);
            assert(start.take(n + 1).drop_last() =~= start.take(n as int));
            assert(start.skip(n as int)[0] == start[n as int]);
        }
        out.insert(j, x);
        proof {
            assert(out@ =~= insert_stable(stable_sorted(start.take(n as int)), start[n as int]));
            assert(rest@ =~= start.skip(n + 1));
        }
        n = n + 1;
    }
    proof {
        assert(start.skip(n as int).len() == 0);
        assert(start.take(n as int) =~= start);
    }
    *v = out;
}

} // verus!
