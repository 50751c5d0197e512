//! A stable sort by an integer key, as `slice::sort_by_key` does it: items
//! with equal keys keep their relative order.
use vstd::prelude::*;
use vstd::multiset::Multiset;
use vstd::seq_lib::{to_multiset_build, to_multiset_contains, to_multiset_insert, to_multiset_len};

verus! {

/// Items ordered by an integer key.
pub trait SortKey {
    /// The key the sort orders by.
    spec fn key_of(&self) -> int;

    /// Computes the key.
    fn sort_key(&self) -> (k: i128)
        ensures
            k == self.key_of(),
    ;
}

/// Where `k` goes into `s`: after the leading items whose key is at most
/// `k`.
pub open spec fn insert_pos<T: SortKey>(s: Seq<T>, k: int) -> int
    decreases s.len(),
{
    if s.len() == 0 {
        0
    } else if s[0].key_of() > k {
        0
    } else {
        1 + insert_pos(s.drop_first(), k)
    }
}

/// `s` with `x` inserted after every item whose key is at most its own.
pub open spec fn insert_sorted<T: SortKey>(s: Seq<T>, x: T) -> Seq<T> {
    s.insert(insert_pos(s, x.key_of()), x)
}

/// `s` sorted by key, stably: each item in turn is inserted after the
/// items already placed whose key is at most its own.
pub open spec fn sorted_by_key<T: SortKey>(s: Seq<T>) -> Seq<T>
    decreases s.len(),
{
    if s.len() == 0 {
        s
    } else {
        insert_sorted(sorted_by_key(s.drop_last()), s.last())
    }
}

/// Keys never decrease along `s`.
pub open spec fn is_sorted_by_key<T: SortKey>(s: Seq<T>) -> bool {
    forall|i: int, j: int| 0 <= i <= j < s.len() ==> #[trigger] s[i].key_of() <= #[trigger] s[j].key_of()
}

proof fn lemma_insert_pos_bounds<T: SortKey>(s: Seq<T>, k: int)
    ensures
        0 <= insert_pos(s, k) <= s.len(),
        forall|i: int| 0 <= i < insert_pos(s, k) ==> #[trigger] s[i].key_of() <= k,
        is_sorted_by_key(s) ==> forall|i: int|
            insert_pos(s, k) <= i < s.len() ==> #[trigger] s[i].key_of() > k,
    decreases s.len(),
{
    if s.len() > 0 && s[0].key_of() <= k {
        let t = s.drop_first();
        lemma_insert_pos_bounds(t, k);
        assert forall|i: int| 0 <= i < insert_pos(s, k) implies #[trigger] s[i].key_of() <= k by {
            if i > 0 {
                assert(s[i] == t[i - 1]);
            }
        }
        if is_sorted_by_key(s) {
            assert(is_sorted_by_key(t)) by {
                assert forall|i: int, j: int| 0 <= i <= j < t.len() implies #[trigger] t[i].key_of()
                    <= #[trigger] t[j].key_of() by {
                    assert(t[i] == s[i + 1] && t[j] == s[j + 1]);
                }
            }
            assert forall|i: int| insert_pos(s, k) <= i < s.len() implies #[trigger] s[i].key_of()
                > k by {
                assert(s[i] == t[i - 1]);
            }
        }
    } else if s.len() > 0 {
        if is_sorted_by_key(s) {
            assert forall|i: int| insert_pos(s, k) <= i < s.len() implies #[trigger] s[i].key_of()
                > k by {
                assert(s[0].key_of() <= s[i].key_of());
            }
        }
    }
}

proof fn lemma_insert_sorted_keeps_order<T: SortKey>(s: Seq<T>, x: T)
    requires
        is_sorted_by_key(s),
    ensures
        is_sorted_by_key(insert_sorted(s, x)),
        insert_sorted(s, x).to_multiset() == s.to_multiset().insert(x),
        insert_sorted(s, x).len() == s.len() + 1,
{
    let p = insert_pos(s, x.key_of());
    lemma_insert_pos_bounds(s, x.key_of());
    let r = insert_sorted(s, x);
    assert forall|i: int, j: int| 0 <= i <= j < r.len() implies #[trigger] r[i].key_of()
        <= #[trigger] r[j].key_of() by {
        if i < p && j < p {
            assert(r[i] == s[i] && r[j] == s[j]);
        } else if i < p && j == p {
            assert(r[i] == s[i]);
        } else if i < p {
            assert(r[i] == s[i] && r[j] == s[j - 1]);
        } else if i == p && j > p {
            assert(r[j] == s[j - 1]);
        } else if i > p {
            assert(r[i] == s[i - 1] && r[j] == s[j - 1]);
        }
    }
    to_multiset_insert(s, p, x);
}

/// The stable sort's result is ordered by key and holds exactly the items
/// it was given.
pub proof fn law_sorted_by_key<T: SortKey>(s: Seq<T>)
    ensures
        is_sorted_by_key(sorted_by_key(s)),
        sorted_by_key(s).to_multiset() == s.to_multiset(),
        sorted_by_key(s).len() == s.len(),
    decreases s.len(),
{
    if s.len() > 0 {
        let t = s.drop_last();
        law_sorted_by_key(t);
        lemma_insert_sorted_keeps_order(sorted_by_key(t), s.last());
        to_multiset_build(t, s.last());
        assert(t.push(s.last()) == s);
    }
}

/// No two different items of `m` share a key.
pub open spec fn keys_identify<T: SortKey>(m: Multiset<T>) -> bool {
    forall|x: T, y: T| m.count(x) > 0 && m.count(y) > 0 && x.key_of() == y.key_of() ==> x == y
}

proof fn lemma_last_has_max_key<T: SortKey>(r: Seq<T>, x: T)
    requires
        is_sorted_by_key(r),
        r.len() > 0,
        r.to_multiset().count(x) > 0,
    ensures
        x.key_of() <= r.last().key_of(),
{
    to_multiset_contains(r, x);
    let k = choose|k: int| 0 <= k < r.len() && r[k] == x;
    assert(r[k].key_of() <= r[r.len() - 1].key_of());
}

proof fn lemma_sorted_equal<T: SortKey>(r1: Seq<T>, r2: Seq<T>)
    requires
        is_sorted_by_key(r1),
        is_sorted_by_key(r2),
        r1.to_multiset() == r2.to_multiset(),
        keys_identify(r1.to_multiset()),
    ensures
        r1 == r2,
    decreases r1.len(),
{
    to_multiset_len(r1);
    to_multiset_len(r2);
    if r1.len() > 0 {
        let a = r1.last();
        let b = r2.last();
        let m = r1.to_multiset();
        to_multiset_contains(r1, a);
        to_multiset_contains(r2, b);
        assert(r1.contains(a)) by {
            assert(r1[r1.len() - 1] == a);
        }
        assert(r2.contains(b)) by {
            assert(r2[r2.len() - 1] == b);
        }
        lemma_last_has_max_key(r1, b);
        lemma_last_has_max_key(r2, a);
        assert(a == b);
        let t1 = r1.drop_last();
        let t2 = r2.drop_last();
        to_multiset_build(t1, a);
        to_multiset_build(t2, a);
        assert(t1.push(a) == r1);
        assert(t2.push(a) == r2);
        assert(t1.to_multiset() =~= t2.to_multiset()) by {
            assert forall|x: T| t1.to_multiset().count(x) == t2.to_multiset().count(x) by {
                assert(t1.to_multiset().insert(a).count(x) == t2.to_multiset().insert(a).count(x));
            }
        }
        assert(is_sorted_by_key(t1)) by {
            assert forall|i: int, j: int| 0 <= i <= j < t1.len() implies #[trigger] t1[i].key_of() <= #[trigger] t1[j].key_of() by {
                assert(t1[i] == r1[i] && t1[j] == r1[j]);
            }
        }
        assert(is_sorted_by_key(t2)) by {
            assert forall|i: int, j: int| 0 <= i <= j < t2.len() implies #[trigger] t2[i].key_of() <= #[trigger] t2[j].key_of() by {
                assert(t2[i] == r2[i] && t2[j] == r2[j]);
            }
        }
        assert(keys_identify(t1.to_multiset())) by {
            assert forall|x: T, y: T| t1.to_multiset().count(x) > 0 && t1.to_multiset().count(y) > 0 && x.key_of() == y.key_of() implies x == y by {
                assert(m.count(x) > 0 && m.count(y) > 0);
            }
        }
        lemma_sorted_equal(t1, t2);
    }
}

/// Sorting depends only on which items there are, not on the order they
/// come in, when no two different items share a key: two inputs holding
/// the same items sort to the same list.
pub proof fn law_sort_ignores_input_order<T: SortKey>(s1: Seq<T>, s2: Seq<T>)
    requires
        s1.to_multiset() == s2.to_multiset(),
        keys_identify(s1.to_multiset()),
    ensures
        sorted_by_key(s1) == sorted_by_key(s2),
{
    law_sorted_by_key(s1);
    law_sorted_by_key(s2);
    lemma_sorted_equal(sorted_by_key(s1), sorted_by_key(s2));
}

/// Sorts `v` stably by key.
pub fn sort_by_key<T: SortKey>(v: Vec<T>) -> (r: Vec<T>)
    ensures
        r@ == sorted_by_key(v@),
{
    let ghost orig = v@;
    let n = v.len();
    let mut rest = v;
    let mut out: Vec<T> = Vec::new();
    let mut i: usize = 0;
    proof {
        assert(orig.take(0) == Seq::<T>::empty());
        assert(orig.skip(0) == orig);
    }
    while i < n
        invariant
            n == orig.len(),
            i <= n,
            rest@ == orig.skip(i as int),
            out@ == sorted_by_key(orig.take(i as int)),
        decreases n - i,
    {
        let x = rest.remove(0);
        let k = x.sort_key();
        let mut p: usize = 0;
        proof {
            assert(out@.subrange(0, out@.len() as int) == out@);
        }
        while p < out.len() && out[p].sort_key() <= k
            invariant
                p <= out@.len(),
                insert_pos(out@, k as int) == p + insert_pos(out@.subrange(p as int, out@.len() as int), k as int),
            decreases out@.len() - p,
        {
            proof {
                assert(out@.subrange(p as int, out@.len() as int).drop_first() == out@.subrange(
                    p + 1,
                    out@.len() as int,
                ));
            }
            p += 1;
        }
        proof {
            let tail = orig.take(i + 1);
            assert(tail.drop_last() == orig.take(i as int));
            assert(tail.last() == x);
        }
        out.insert(p, x);
        i += 1;
    }
    proof {
        assert(orig.take(n as int) == orig);
    }
    out
}

} // verus!
