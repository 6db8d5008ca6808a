//! Order statistics of measurements.

use vstd::prelude::*;

verus! {

/// Where `x` goes in the ascending list `l`: before the first larger value.
pub open spec fn slot(l: Seq<u64>, x: u64) -> int
    decreases l.len(),
{
    if l.len() == 0 {
        0
    } else if x < l[0] {
        0
    } else {
        1 + slot(l.drop_first(), x)
    }
}

/// The values in ascending order (insertion of each value in turn).
pub open spec fn ascending(values: Seq<u64>) -> Seq<u64>
    decreases values.len(),
{
    if values.len() == 0 {
        seq![]
    } else {
        let l = ascending(values.drop_last());
        l.insert(slot(l, values.last()), values.last())
    }
}

proof fn lemma_slot_bounds(l: Seq<u64>, x: u64)
    ensures
        0 <= slot(l, x) <= l.len(),
    decreases l.len(),
{
    if l.len() > 0 {
        lemma_slot_bounds(l.drop_first(), x);
    }
}

proof fn lemma_slot_skip(l: Seq<u64>, x: u64, j: int)
    requires
        0 <= j <= l.len(),
        forall|k: int| 0 <= k < j ==> !(x < #[trigger] l[k]),
    ensures
        slot(l, x) == j + slot(l.skip(j), x),
    decreases j,
{
    if j > 0 {
        assert(!(x < l[0]));
        assert forall|k: int| 0 <= k < j - 1 implies !(x < #[trigger] l.drop_first()[k]) by {
            assert(l.drop_first()[k] == l[k + 1]);
        }
        lemma_slot_skip(l.drop_first(), x, j - 1);
        assert(l.drop_first().skip(j - 1) =~= l.skip(j));
    } else {
        assert(l.skip(0) =~= l);
    }
}

pub proof fn lemma_ascending_len(values: Seq<u64>)
    ensures
        ascending(values).len() == values.len(),
    decreases values.len(),
{
    if values.len() > 0 {
        lemma_ascending_len(values.drop_last());
        lemma_slot_bounds(ascending(values.drop_last()), values.last());
    }
}

proof fn lemma_slot_facts(l: Seq<u64>, x: u64)
    ensures
        0 <= slot(l, x) <= l.len(),
        forall|m: int| 0 <= m < slot(l, x) ==> !(x < #[trigger] l[m]),
        slot(l, x) < l.len() ==> x < l[slot(l, x)],
    decreases l.len(),
{
    if l.len() > 0 && !(x < l[0]) {
        let t = l.drop_first();
        lemma_slot_facts(t, x);
        assert forall|m: int| 0 <= m < slot(l, x) implies !(x < #[trigger] l[m]) by {
            if m > 0 {
                assert(l[m] == t[m - 1]);
            }
        }
        if slot(l, x) < l.len() {
            assert(l[slot(l, x)] == t[slot(t, x)]);
        }
    }
}

proof fn lemma_insert_to_multiset(l: Seq<u64>, p: int, x: u64)
    requires
        0 <= p <= l.len(),
    ensures
        l.insert(p, x).to_multiset() =~= l.to_multiset().insert(x),
{
    broadcast use vstd::seq_lib::group_to_multiset_ensures;
    broadcast use vstd::multiset::group_multiset_axioms;
    let t = l.insert(p, x);
    assert(t.remove(p) =~= l);
    assert(t[p] == x);
    assert(t.remove(p).to_multiset() =~= t.to_multiset().remove(x));
    assert(t.to_multiset().count(x) > 0) by {
        assert(t.contains(x));
    }
}

/// The ascending order is sorted and holds the same values, each as often.
pub proof fn lemma_ascending_sorted_permutation(values: Seq<u64>)
    ensures
        ascending(values).len() == values.len(),
        forall|i: int, j: int| 0 <= i <= j < values.len() ==> #[trigger] ascending(values)[i] <= #[trigger] ascending(values)[j],
        ascending(values).to_multiset() =~= values.to_multiset(),
    decreases values.len(),
{
    broadcast use vstd::seq_lib::group_to_multiset_ensures;
    lemma_ascending_len(values);
    if values.len() > 0 {
        let d = values.drop_last();
        let x = values.last();
        lemma_ascending_sorted_permutation(d);
        let l = ascending(d);
        lemma_slot_facts(l, x);
        let p = slot(l, x);
        let out = l.insert(p, x);
        assert(ascending(values) == out);
        assert forall|i: int, j: int| 0 <= i <= j < out.len() implies #[trigger] out[i] <= #[trigger] out[j] by {
            if p < l.len() {
                assert(x < l[p]);
            }
            if i < p {
                assert(out[i] == l[i]);
                assert(!(x < l[i]));
                if j < p {
                    assert(out[j] == l[j]);
                } else if j > p {
                    assert(out[j] == l[j - 1]);
                }
            } else if i == p {
                if j > p {
                    assert(out[j] == l[j - 1]);
                    assert(l[p] <= l[j - 1]);
                }
            } else {
                assert(out[i] == l[i - 1]);
                assert(out[j] == l[j - 1]);
            }
        }
        lemma_insert_to_multiset(l, p, x);
        assert(d.push(x) =~= values);
    }
}

fn ascending_vec(values: &[u64]) -> (res: Vec<u64>)
    ensures
        res@ == ascending(values@),
{
    let mut out: Vec<u64> = Vec::new();
    let mut i: usize = 0;
    while i < values.len()
        invariant
            i <= values.len(),
            out@ == ascending(values@.take(i as int)),
        decreases values.len() - i,
    {
        proof {
            assert(values@.take(i + 1).drop_last() =~= values@.take(i as int));
            lemma_ascending_len(values@.take(i as int));
        }
        let x = values[i];
        let mut j: usize = 0;
        while j < out.len() && !(x < out[j])
            invariant
                j <= out.len(),
                forall|k: int| 0 <= k < j ==> !(x < #[trigger] out@[k]),
            decreases out.len() - j,
        {
            j = j + 1;
        }
        proof {
            lemma_slot_skip(out@, x, j as int);
            if j < out.len() {
                assert(out@.skip(j as int)[0] == out@[j as int]);
            }
        }
        out.insert(j, x);
        i = i + 1;
    }
    proof {
        assert(values@.take(i as int) =~= values@);
    }
    out
}

/// The rank of a percentile among `n` values: `ceil(n * p / 100) - 1`, at least 0.
pub open spec fn percentile_rank(n: nat, p: nat) -> int {
    let c = (n * p + 99) / 100;
    if c == 0 { 0 } else { c - 1 }
}

/// The `p`-th percentile (nearest rank) of the values; `None` for no values.
pub fn percentile(values: &[u64], p: usize) -> (res: Option<u64>)
    requires
        values@.len() * p <= usize::MAX,
    ensures
        values@.len() == 0 ==> res is None,
        values@.len() > 0 ==> ({
            let r = percentile_rank(values@.len(), p as nat);
            &&& r < values@.len() ==> res == Some(ascending(values@)[r])
            &&& r >= values@.len() ==> res is None
        }),
{
    if values.len() == 0 {
        return None;
    }
    let sorted = ascending_vec(values);
    proof {
        lemma_ascending_len(values@);
    }
    let prod = values.len() * p;
    let c = prod / 100 + if prod % 100 == 0 { 0 } else { 1 };
    proof {
        assert(c == (values@.len() * p + 99) / 100) by (nonlinear_arith)
            requires
                prod == values@.len() * p,
                c == prod / 100 + if prod % 100 == 0 { 0int } else { 1 },
        {
        }
    }
    let rank = if c == 0 { 0 } else { c - 1 };
    if rank < sorted.len() {
        Some(sorted[rank])
    } else {
        None
    }
}

} // verus!
