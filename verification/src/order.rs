use vstd::prelude::*;

verus! {

/// The positions with key `f`, in order, among the first `n`.
pub open spec fn bucket(keys: Seq<usize>, f: usize, n: nat) -> Seq<usize>
    decreases n,
{
    if n == 0 {
        Seq::empty()
    } else if keys[n - 1] == f {
        bucket(keys, f, (n - 1) as nat).push((n - 1) as usize)
    } else {
        bucket(keys, f, (n - 1) as nat)
    }
}

/// The positions with keys below `f`, sorted by key, ties in original order:
/// what a stable sort by key yields when every key is below `f`.
pub open spec fn buckets_below(keys: Seq<usize>, f: nat) -> Seq<usize>
    decreases f,
{
    if f == 0 {
        Seq::empty()
    } else {
        buckets_below(keys, (f - 1) as nat) + bucket(keys, (f - 1) as usize, keys.len())
    }
}

/// Positions of `keys` sorted by key, ties kept in order, for keys below `bound`.
pub fn stable_order_by_key(keys: &Vec<usize>, bound: usize) -> (order: Vec<usize>)
    ensures
        order@ == buckets_below(keys@, bound as nat),
{
    let mut order: Vec<usize> = Vec::new();
    let mut f: usize = 0;
    while f < bound
        invariant
            f <= bound,
            order@ == buckets_below(keys@, f as nat),
        decreases bound - f,
    {
        let ghost before = order@;
        let mut i: usize = 0;
        while i < keys.len()
            invariant
                i <= keys@.len(),
                order@ == before + bucket(keys@, f, i as nat),
            decreases keys@.len() - i,
        {
            if keys[i] == f {
                order.push(i);
            }
            i += 1;
        }
        f += 1;
    }
    order
}

proof fn lemma_bucket_elements(keys: Seq<usize>, f: usize, n: nat)
    requires
        n <= keys.len(),
        keys.len() <= usize::MAX,
    ensures
        forall|k: int| 0 <= k < bucket(keys, f, n).len() ==> #[trigger] bucket(keys, f, n)[k] < n
            && keys[bucket(keys, f, n)[k] as int] == f,
        forall|i: int, j: int| 0 <= i < j < bucket(keys, f, n).len() ==> #[trigger] bucket(keys, f, n)[i]
            < #[trigger] bucket(keys, f, n)[j],
        forall|x: usize| x < n && keys[x as int] == f ==> #[trigger] bucket(keys, f, n).contains(x),
    decreases n,
{
    if n > 0 {
        lemma_bucket_elements(keys, f, (n - 1) as nat);
        let prev = bucket(keys, f, (n - 1) as nat);
        if keys[n - 1] == f {
            let b = prev.push((n - 1) as usize);
            assert(b == bucket(keys, f, n));
            assert forall|k: int| 0 <= k < b.len() implies #[trigger] b[k] < n && keys[b[k] as int] == f by {
                if k < prev.len() {
                    assert(b[k] == prev[k]);
                }
            }
            assert forall|i: int, j: int| 0 <= i < j < b.len() implies #[trigger] b[i] < #[trigger] b[j] by {
                assert(b[i] == prev[i]);
                if j < prev.len() {
                    assert(b[j] == prev[j]);
                }
            }
            assert forall|x: usize| x < n && keys[x as int] == f implies #[trigger] b.contains(x) by {
                if x == n - 1 {
                    assert(b[b.len() - 1] == x);
                } else {
                    assert(prev.contains(x));
                    let k = choose|k: int| 0 <= k < prev.len() && prev[k] == x;
                    assert(b[k] == x);
                }
            }
        }
    }
}

/// Sum of the bucket lengths for keys below `g`, over the first `n` positions.
spec fn bucket_total(keys: Seq<usize>, g: nat, n: nat) -> nat
    decreases g,
{
    if g == 0 {
        0
    } else {
        bucket_total(keys, (g - 1) as nat, n) + bucket(keys, (g - 1) as usize, n).len()
    }
}

proof fn lemma_bucket_total_step(keys: Seq<usize>, g: nat, n: nat)
    requires
        n < keys.len(),
        g <= usize::MAX + 1,
    ensures
        bucket_total(keys, g, n + 1) == bucket_total(keys, g, n) + if keys[n as int] < g {
            1nat
        } else {
            0nat
        },
    decreases g,
{
    if g > 0 {
        lemma_bucket_total_step(keys, (g - 1) as nat, n);
    }
}

proof fn lemma_bucket_total_all(keys: Seq<usize>, bound: nat, n: nat)
    requires
        n <= keys.len(),
        bound <= usize::MAX + 1,
        forall|i: int| 0 <= i < keys.len() ==> #[trigger] keys[i] < bound,
    ensures
        bucket_total(keys, bound, n) == n,
    decreases n,
{
    if n == 0 {
        lemma_bucket_total_zero(keys, bound);
    } else {
        lemma_bucket_total_all(keys, bound, (n - 1) as nat);
        lemma_bucket_total_step(keys, bound, (n - 1) as nat);
    }
}

proof fn lemma_bucket_total_zero(keys: Seq<usize>, g: nat)
    ensures
        bucket_total(keys, g, 0) == 0,
    decreases g,
{
    if g > 0 {
        lemma_bucket_total_zero(keys, (g - 1) as nat);
    }
}

proof fn lemma_buckets_below(keys: Seq<usize>, g: nat)
    requires
        g <= usize::MAX + 1,
        keys.len() <= usize::MAX,
    ensures
        buckets_below(keys, g).len() == bucket_total(keys, g, keys.len()),
        forall|k: int| 0 <= k < buckets_below(keys, g).len() ==> #[trigger] buckets_below(keys, g)[k] < keys.len()
            && keys[buckets_below(keys, g)[k] as int] < g,
        forall|i: int, j: int|
            0 <= i < j < buckets_below(keys, g).len() ==> keys[#[trigger] buckets_below(keys, g)[i] as int]
                < keys[#[trigger] buckets_below(keys, g)[j] as int] || (keys[buckets_below(keys, g)[i] as int]
                == keys[buckets_below(keys, g)[j] as int] && buckets_below(keys, g)[i] < buckets_below(keys, g)[j]),
        forall|x: usize| x < keys.len() && keys[x as int] < g ==> #[trigger] buckets_below(keys, g).contains(x),
    decreases g,
{
    if g > 0 {
        let f = (g - 1) as usize;
        lemma_buckets_below(keys, (g - 1) as nat);
        lemma_bucket_elements(keys, f, keys.len());
        let a = buckets_below(keys, (g - 1) as nat);
        let b = bucket(keys, f, keys.len());
        let r = a + b;
        assert(r == buckets_below(keys, g));
        assert forall|k: int| 0 <= k < r.len() implies #[trigger] r[k] < keys.len() && keys[r[k] as int] < g by {
            if k >= a.len() {
                assert(r[k] == b[k - a.len()]);
            }
        }
        assert forall|i: int, j: int| 0 <= i < j < r.len() implies keys[#[trigger] r[i] as int] < keys[#[trigger] r[j] as int]
            || (keys[r[i] as int] == keys[r[j] as int] && r[i] < r[j]) by {
            if j < a.len() {
                assert(r[i] == a[i] && r[j] == a[j]);
            } else if i < a.len() {
                assert(r[i] == a[i]);
                assert(r[j] == b[j - a.len()]);
            } else {
                assert(r[i] == b[i - a.len()] && r[j] == b[j - a.len()]);
            }
        }
        assert forall|x: usize| x < keys.len() && keys[x as int] < g implies #[trigger] r.contains(x) by {
            if keys[x as int] < f {
                assert(a.contains(x));
                let k = choose|k: int| 0 <= k < a.len() && a[k] == x;
                assert(r[k] == x);
            } else {
                assert(b.contains(x));
                let k = choose|k: int| 0 <= k < b.len() && b[k] == x;
                assert(r[a.len() + k] == x);
            }
        }
    }
}

/// When every key is below `bound`, the stable order lists every position
/// exactly once, ordered by key and, among equal keys, by position.
pub proof fn lemma_stable_order_is_sorted_permutation(keys: Seq<usize>, bound: usize)
    requires
        keys.len() <= usize::MAX,
        forall|i: int| 0 <= i < keys.len() ==> #[trigger] keys[i] < bound,
    ensures
        buckets_below(keys, bound as nat).len() == keys.len(),
        forall|x: usize| x < keys.len() ==> #[trigger] buckets_below(keys, bound as nat).contains(x),
        forall|k: int| 0 <= k < keys.len() ==> #[trigger] buckets_below(keys, bound as nat)[k] < keys.len(),
        forall|i: int, j: int|
            0 <= i < j < keys.len() ==> keys[#[trigger] buckets_below(keys, bound as nat)[i] as int]
                < keys[#[trigger] buckets_below(keys, bound as nat)[j] as int] || (keys[buckets_below(
                keys,
                bound as nat,
            )[i] as int] == keys[buckets_below(keys, bound as nat)[j] as int] && buckets_below(
                keys,
                bound as nat,
            )[i] < buckets_below(keys, bound as nat)[j]),
{
    lemma_buckets_below(keys, bound as nat);
    lemma_bucket_total_all(keys, bound as nat, keys.len());
}

} // verus!
