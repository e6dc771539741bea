use vstd::prelude::*;
use vstd::multiset::Multiset;

verus! {

/// Items that are listed in order of CPU load.
pub trait CpuRanked {
    spec fn rank(&self) -> u64;

    fn cpu_rank(&self) -> (r: u64)
        ensures
            r == self.rank(),
    ;
}

/// No item is ranked above one that precedes it.
pub open spec fn sorted_desc<T: CpuRanked>(s: Seq<T>) -> bool {
    forall|i: int, j: int| 0 <= i < j < s.len() ==> s[i].rank() >= s[j].rank()
}

/// The items of `s` whose rank is `v`, in their order in `s`.
pub open spec fn with_rank<T: CpuRanked>(s: Seq<T>, v: u64) -> Seq<T>
    decreases s.len(),
{
    if s.len() == 0 {
        seq![]
    } else {
        let p = with_rank(s.drop_last(), v);
        if s.last().rank() == v {
            p.push(s.last())
        } else {
            p
        }
    }
}

/// `out` lists the items of `s`, highest rank first, and items of equal rank
/// keep their relative order.
pub open spec fn stable_desc_of<T: CpuRanked>(out: Seq<T>, s: Seq<T>) -> bool {
    &&& sorted_desc(out)
    &&& forall|v: u64| #[trigger] with_rank(out, v) == with_rank(s, v)
}

pub proof fn lemma_with_rank_append<T: CpuRanked>(a: Seq<T>, b: Seq<T>, v: u64)
    ensures
        with_rank(a + b, v) == with_rank(a, v) + with_rank(b, v),
    decreases b.len(),
{
    if b.len() == 0 {
        assert(a + b =~= a);
        assert(with_rank(a, v) + with_rank(b, v) =~= with_rank(a, v));
    } else {
        assert((a + b).drop_last() =~= a + b.drop_last());
        lemma_with_rank_append(a, b.drop_last(), v);
        assert(with_rank(a + b, v) =~= with_rank(a, v) + with_rank(b, v));
    }
}

proof fn lemma_with_rank_absent<T: CpuRanked>(s: Seq<T>, v: u64)
    requires
        forall|i: int| 0 <= i < s.len() ==> s[i].rank() != v,
    ensures
        with_rank(s, v) == Seq::<T>::empty(),
    decreases s.len(),
{
    if s.len() > 0 {
        lemma_with_rank_absent(s.drop_last(), v);
    }
}

/// Stable insertion sort, highest rank first.
pub fn sort_by_cpu_desc<T: CpuRanked>(items: Vec<T>) -> (out: Vec<T>)
    ensures
        out@.len() == items@.len(),
        out@.to_multiset() == items@.to_multiset(),
        stable_desc_of(out@, items@),
{
    broadcast use vstd::seq_lib::group_to_multiset_ensures, vstd::multiset::group_multiset_axioms;

    let ghost orig = items@;
    let mut rest = items;
    let mut out: Vec<T> = Vec::new();
    while rest.len() > 0
        invariant
            rest@.len() <= orig.len(),
            rest@ == orig.skip(orig.len() - rest@.len()),
            out@.len() == orig.len() - rest@.len(),
            out@.to_multiset().add(rest@.to_multiset()) == orig.to_multiset(),
            sorted_desc(out@),
            forall|v: u64| #[trigger]
                with_rank(out@, v) == with_rank(orig.take(orig.len() - rest@.len()), v),
        decreases rest@.len(),
    {
        let ghost k = orig.len() - rest@.len();
        let ghost rest_before = rest@;
        let ghost out_before = out@;
        let x = rest.remove(0);
        assert(x == orig[k]);
        let xr = x.cpu_rank();
        let mut p: usize = 0;
        while p < out.len() && out[p].cpu_rank() >= xr
            invariant
                p <= out@.len(),
                forall|t: int| 0 <= t < p ==> out@[t].rank() >= xr,
            decreases out@.len() - p,
        {
            p = p + 1;
        }
        let ghost before = out@;
        proof {
            assert forall|t: int| p <= t < before.len() implies before[t].rank() < xr by {
                assert(before[p as int].rank() < xr);
            }
        }
        out.insert(p, x);
        proof {
            assert(rest_before.len() > 0 && rest_before[0] == x);
            assert(rest@ =~= rest_before.remove(0));
            vstd::seq_lib::to_multiset_remove(rest_before, 0);
            vstd::seq_lib::to_multiset_contains(rest_before, x);
            assert(rest_before.contains(x));
            assert(rest_before.to_multiset().count(x) > 0);
            assert(out@ == out_before.insert(p as int, x));
            vstd::seq_lib::to_multiset_insert(out_before, p as int, x);
            assert(out@.to_multiset().add(rest@.to_multiset()) =~= out_before.to_multiset().add(
                rest_before.to_multiset(),
            ));
            let a = before.subrange(0, p as int);
            let b = before.subrange(p as int, before.len() as int);
            assert(before =~= a + b);
            assert(out@ =~= a + seq![x] + b);
            assert(orig.skip(k + 1) =~= rest@);
            assert(orig.take(k + 1).drop_last() =~= orig.take(k));
            assert(seq![x].drop_last() =~= Seq::<T>::empty());
            assert forall|v: u64| #[trigger]
                with_rank(out@, v) == with_rank(orig.take(k + 1), v) by {
                lemma_with_rank_append(a, b, v);
                lemma_with_rank_append(a + seq![x], b, v);
                lemma_with_rank_append(a, seq![x], v);
                assert(seq![x].last() == x);
                assert(with_rank(Seq::<T>::empty(), v) =~= Seq::<T>::empty());
                if v == xr {
                    assert(with_rank(seq![x], v) =~= seq![x]);
                    lemma_with_rank_absent(b, v);
                    assert(with_rank(out@, v) =~= with_rank(before, v).push(x));
                } else {
                    assert(with_rank(seq![x], v) =~= Seq::<T>::empty());
                    assert(with_rank(out@, v) =~= with_rank(before, v));
                }
            }
        }
    }
    proof {
        assert(orig.take(orig.len() as int) =~= orig);
        assert(rest@.to_multiset() =~= Multiset::empty());
        assert(out@.to_multiset() =~= out@.to_multiset().add(rest@.to_multiset()));
    }
    out
}

} // verus!
