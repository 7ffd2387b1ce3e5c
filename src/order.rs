//! Stable ordering of items by integer keys, shared by the reading-order
//! and confidence sorts.
use vstd::prelude::*;

verus! {

/// `s` (indices into `keys`) with `x` inserted after every index whose key
/// is at most `keys[x]` at the end of `s`: the insertion step of a stable
/// insertion sort.
pub open spec fn insert_by_key(s: Seq<usize>, keys: Seq<i128>, x: usize) -> Seq<usize>
    decreases s.len(),
{
    if s.len() == 0 {
        seq![x]
    } else if keys[s.last() as int] <= keys[x as int] {
        s.push(x)
    } else {
        insert_by_key(s.drop_last(), keys, x).push(s.last())
    }
}

/// The indices `0..n` ordered by ascending key, equal keys in index order.
pub open spec fn stable_order(keys: Seq<i128>, n: nat) -> Seq<usize>
    decreases n,
{
    if n == 0 {
        seq![]
    } else {
        insert_by_key(stable_order(keys, (n - 1) as nat), keys, (n - 1) as usize)
    }
}

/// The keys of the indices in `s` never decrease.
pub open spec fn keys_ascending(s: Seq<usize>, keys: Seq<i128>) -> bool {
    forall|a: int, b: int| 0 <= a < b < s.len() ==> keys[s[a] as int] <= keys[s[b] as int]
}

/// `keys` never decreases.
pub open spec fn ascending(keys: Seq<i128>) -> bool {
    forall|a: int, b: int| 0 <= a < b < keys.len() ==> keys[a] <= keys[b]
}

proof fn lemma_insert_at(s: Seq<usize>, keys: Seq<i128>, x: usize, j: int)
    requires
        0 <= j <= s.len(),
        forall|k: int| j <= k < s.len() ==> keys[#[trigger] s[k] as int] > keys[x as int],
        j == 0 || keys[s[j - 1] as int] <= keys[x as int],
    ensures
        insert_by_key(s, keys, x) == s.insert(j, x),
    decreases s.len(),
{
    if s.len() == 0 {
        assert(s.insert(j, x) =~= seq![x]);
    } else if j == s.len() {
        assert(s.insert(j, x) =~= s.push(x));
    } else {
        let d = s.drop_last();
        assert(forall|k: int| j <= k < d.len() ==> d[k] == s[k]);
        lemma_insert_at(d, keys, x, j);
        assert(s.insert(j, x) =~= d.insert(j, x).push(s.last()));
    }
}

proof fn lemma_insert_sorted(s: Seq<usize>, keys: Seq<i128>, x: usize, m: usize)
    requires
        keys_ascending(s, keys),
        x < m,
        forall|k: int| 0 <= k < s.len() ==> #[trigger] s[k] < m,
    ensures
        forall|k: int| 0 <= k < s.len() + 1 ==> #[trigger] insert_by_key(s, keys, x)[k] < m,
        keys_ascending(insert_by_key(s, keys, x), keys),
        insert_by_key(s, keys, x).len() == s.len() + 1,
        insert_by_key(s, keys, x).last() == x || (s.len() > 0 && insert_by_key(s, keys, x).last()
            == s.last()),
    decreases s.len(),
{
    if s.len() > 0 && keys[s.last() as int] > keys[x as int] {
        let d = s.drop_last();
        lemma_insert_sorted(d, keys, x, m);
        let r = insert_by_key(d, keys, x);
        if d.len() > 0 {
            assert(keys[d.last() as int] <= keys[s.last() as int]);
        }
        assert(keys[r.last() as int] <= keys[s.last() as int]);
        assert forall|a: int, b: int| 0 <= a < b < r.len() + 1 implies keys[r.push(s.last())[a] as int]
            <= keys[r.push(s.last())[b] as int] by {
            if b == r.len() {
                assert(keys[r[a] as int] <= keys[r.last() as int]);
            }
        }
    }
}

/// The stable order puts the keys in ascending order.
pub proof fn lemma_stable_order_ascending(keys: Seq<i128>, n: nat)
    requires
        n <= usize::MAX,
    ensures
        keys_ascending(stable_order(keys, n), keys),
        stable_order(keys, n).len() == n,
        forall|k: int| 0 <= k < n ==> #[trigger] stable_order(keys, n)[k] < n,
    decreases n,
{
    if n > 0 {
        lemma_stable_order_ascending(keys, (n - 1) as nat);
        let p = stable_order(keys, (n - 1) as nat);
        assert(forall|k: int| 0 <= k < p.len() ==> #[trigger] p[k] < n as usize);
        lemma_insert_sorted(p, keys, (n - 1) as usize, n as usize);
    }
}

/// Keys that are already ascending keep every index in place.
pub proof fn lemma_stable_order_of_ascending(keys: Seq<i128>, n: nat)
    requires
        ascending(keys),
        n <= keys.len(),
        keys.len() <= usize::MAX,
    ensures
        stable_order(keys, n) == Seq::new(n, |i: int| i as usize),
    decreases n,
{
    if n > 0 {
        lemma_stable_order_of_ascending(keys, (n - 1) as nat);
        let p = stable_order(keys, (n - 1) as nat);
        if n > 1 {
            assert(p.last() as int == n - 2);
            assert(keys[p.last() as int] <= keys[n - 1]);
            assert(insert_by_key(p, keys, (n - 1) as usize) == p.push((n - 1) as usize));
        } else {
            assert(insert_by_key(p, keys, (n - 1) as usize) =~= p.push((n - 1) as usize));
        }
        assert(Seq::new((n - 1) as nat, |i: int| i as usize).push((n - 1) as usize) =~= Seq::new(
            n,
            |i: int| i as usize,
        ));
    }
}

/// No index appears twice.
pub open spec fn distinct_indices(s: Seq<usize>) -> bool {
    forall|a: int, b: int| 0 <= a < b < s.len() ==> s[a] != s[b]
}

proof fn lemma_insert_distinct(s: Seq<usize>, keys: Seq<i128>, x: usize)
    requires
        distinct_indices(s),
        !s.contains(x),
    ensures
        distinct_indices(insert_by_key(s, keys, x)),
        forall|y: usize| #[trigger] insert_by_key(s, keys, x).contains(y) ==> y == x || s.contains(y),
    decreases s.len(),
{
    let r = insert_by_key(s, keys, x);
    if s.len() == 0 {
    } else if keys[s.last() as int] <= keys[x as int] {
        assert forall|y: usize| #[trigger] r.contains(y) implies y == x || s.contains(y) by {
            let i = choose|i: int| 0 <= i < r.len() && r[i] == y;
            if i < s.len() {
                assert(s[i] == y);
            }
        }
    } else {
        let d = s.drop_last();
        assert(distinct_indices(d));
        assert(!d.contains(x)) by {
            if d.contains(x) {
                let i = choose|i: int| 0 <= i < d.len() && d[i] == x;
                assert(s[i] == x);
            }
        }
        lemma_insert_distinct(d, keys, x);
        let e = insert_by_key(d, keys, x);
        assert(!e.contains(s.last())) by {
            if e.contains(s.last()) {
                if d.contains(s.last()) {
                    let i = choose|i: int| 0 <= i < d.len() && d[i] == s.last();
                    assert(s[i] == s[s.len() - 1]);
                } else {
                    assert(s.contains(x)) by {
                        assert(s[s.len() - 1] == x);
                    }
                }
            }
        }
        assert(distinct_indices(r)) by {
            assert forall|a: int, b: int| 0 <= a < b < r.len() implies r[a] != r[b] by {
                if b == r.len() - 1 {
                    assert(r[a] == e[a]);
                    assert(e.contains(r[a]));
                }
            }
        }
        assert forall|y: usize| #[trigger] r.contains(y) implies y == x || s.contains(y) by {
            let i = choose|i: int| 0 <= i < r.len() && r[i] == y;
            if i < e.len() {
                assert(e[i] == y);
                assert(e.contains(y));
                if d.contains(y) {
                    let j = choose|j: int| 0 <= j < d.len() && d[j] == y;
                    assert(s[j] == y);
                }
            } else {
                assert(s[s.len() - 1] == y);
            }
        }
    }
}

/// The stable order lists each index below `n` exactly once.
pub proof fn lemma_stable_order_permutes(keys: Seq<i128>, n: nat)
    requires
        n <= usize::MAX,
    ensures
        stable_order(keys, n).len() == n,
        distinct_indices(stable_order(keys, n)),
        forall|k: int| 0 <= k < n ==> #[trigger] stable_order(keys, n)[k] < n,
    decreases n,
{
    lemma_stable_order_ascending(keys, n);
    if n > 0 {
        lemma_stable_order_permutes(keys, (n - 1) as nat);
        let p = stable_order(keys, (n - 1) as nat);
        assert(!p.contains((n - 1) as usize)) by {
            if p.contains((n - 1) as usize) {
                let i = choose|i: int| 0 <= i < p.len() && p[i] == (n - 1) as usize;
            }
        }
        lemma_insert_distinct(p, keys, (n - 1) as usize);
    }
}

/// Indices of `keys` in stable ascending order of key.
pub fn stable_sort_indices(keys: &Vec<i128>) -> (r: Vec<usize>)
    ensures
        r@ == stable_order(keys@, keys.len() as nat),
        r.len() == keys.len(),
        forall|k: int| 0 <= k < r.len() ==> r[k] < keys.len(),
{
    let mut out: Vec<usize> = Vec::new();
    let mut i: usize = 0;
    while i < keys.len()
        invariant
            i <= keys.len(),
            out@ == stable_order(keys@, i as nat),
            out.len() == i,
            forall|k: int| 0 <= k < out.len() ==> out[k] < i,
        decreases keys.len() - i,
    {
        let mut j: usize = out.len();
        while j > 0 && keys[out[j - 1]] > keys[i]
            invariant
                i < keys.len(),
                j <= out.len(),
                forall|k: int| 0 <= k < out.len() ==> out[k] < i,
                forall|k: int| j <= k < out.len() ==> keys@[#[trigger] out@[k] as int] > keys@[i as int],
            decreases j,
        {
            j -= 1;
        }
        proof {
            lemma_insert_at(out@, keys@, i, j as int);
        }
        let ghost before = out@;
        out.insert(j, i);
        assert forall|k: int| 0 <= k < out.len() implies out[k] < i + 1 by {
            if k < j {
                assert(out[k] == before[k]);
            } else if k > j {
                assert(out[k] == before[k - 1]);
            }
        }
        i += 1;
    }
    out
}

} // verus!
