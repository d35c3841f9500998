//! Process snapshotting: ordering a raw process enumeration descending by
//! CPU usage while keeping exactly the enumerated records, and reducing an
//! enumeration to its aggregate statistics.
use vstd::multiset::Multiset;
use vstd::prelude::*;

use crate::models::{ProcessInfo, ProcessRec, SystemStats, process_views};

verus! {

/// No pid occurs twice: a pid identifies a record within one snapshot.
pub open spec fn distinct_pids(s: Seq<ProcessRec>) -> bool {
    forall|i: int, j: int| 0 <= i < j < s.len() ==> s[i].pid != s[j].pid
}

/// Reordering a process table cannot forge or drop a pid: any table holding
/// the same records (as a multiset) as one with pairwise distinct pids has
/// pairwise distinct pids itself. The enumeration the snapshotter sorts
/// comes from an OS table keyed by pid, which supplies the distinctness on
/// the left; every snapshot therefore holds each pid at most once.
pub proof fn lemma_permutation_keeps_pids_distinct(a: Seq<ProcessRec>, b: Seq<ProcessRec>)
    requires
        a.to_multiset() == b.to_multiset(),
        distinct_pids(a),
    ensures
        distinct_pids(b),
{
    broadcast use vstd::seq_lib::group_to_multiset_ensures;

    assert(a.no_duplicates());
    a.lemma_multiset_has_no_duplicates();
    b.lemma_multiset_has_no_duplicates_conv();
    assert forall|i: int, j: int| 0 <= i < j < b.len() implies b[i].pid != b[j].pid by {
        if b[i].pid == b[j].pid {
            assert(b[i] != b[j]);
            assert(b.contains(b[i]));
            assert(b.contains(b[j]));
            assert(a.to_multiset().count(b[i]) > 0);
            assert(a.to_multiset().count(b[j]) > 0);
            assert(a.contains(b[i]));
            assert(a.contains(b[j]));
            let k = choose|k: int| 0 <= k < a.len() && a[k] == b[i];
            let l = choose|l: int| 0 <= l < a.len() && a[l] == b[j];
            assert(a[k] != a[l]);
        }
    }
}

/// The records reporting CPU usage `c`.
pub open spec fn has_cpu(c: u32) -> spec_fn(ProcessRec) -> bool {
    |p: ProcessRec| p.cpu_usage == c
}

/// Index of the first record with maximal CPU usage.
pub open spec fn first_max_index(s: Seq<ProcessRec>) -> int
    decreases s.len(),
{
    if s.len() <= 1 {
        0
    } else {
        let r = first_max_index(s.drop_last());
        if s.last().cpu_usage > s[r].cpu_usage {
            s.len() - 1
        } else {
            r
        }
    }
}

pub proof fn lemma_first_max_index_props(s: Seq<ProcessRec>)
    requires
        s.len() > 0,
    ensures
        0 <= first_max_index(s) < s.len(),
        forall|t: int|
            0 <= t < s.len() ==> s[first_max_index(s)].cpu_usage >= #[trigger] s[t].cpu_usage,
        forall|t: int|
            0 <= t < first_max_index(s) ==> #[trigger] s[t].cpu_usage < s[first_max_index(
                s,
            )].cpu_usage,
    decreases s.len(),
{
    if s.len() > 1 {
        lemma_first_max_index_props(s.drop_last());
        let r = first_max_index(s.drop_last());
        assert forall|t: int| 0 <= t < s.len() - 1 implies s.drop_last()[t] == s[t] by {}
        if s.last().cpu_usage > s[r].cpu_usage {
            assert(first_max_index(s) == s.len() - 1);
            assert forall|t: int| 0 <= t < s.len() - 1 implies #[trigger] s[t].cpu_usage < s[s.len()
                - 1].cpu_usage by {
                assert(s.drop_last()[t].cpu_usage <= s.drop_last()[r].cpu_usage);
            }
        } else {
            assert(first_max_index(s) == r);
            assert forall|t: int| 0 <= t < s.len() implies s[r].cpu_usage
                >= #[trigger] s[t].cpu_usage by {
                if t < s.len() - 1 {
                    assert(s.drop_last()[r].cpu_usage >= s.drop_last()[t].cpu_usage);
                }
            }
        }
    }
}

proof fn lemma_filter_single(x: ProcessRec, c: u32)
    ensures
        seq![x].filter(has_cpu(c)) == if x.cpu_usage == c {
            seq![x]
        } else {
            Seq::<ProcessRec>::empty()
        },
{
    reveal(Seq::filter);
    let s = seq![x];
    assert(s.last() == x);
    assert(s.drop_last() =~= Seq::<ProcessRec>::empty());
    assert(s.drop_last().filter(has_cpu(c)) == Seq::<ProcessRec>::empty());
    if x.cpu_usage == c {
        assert(Seq::<ProcessRec>::empty().push(x) =~= seq![x]);
    }
}

/// The first maximum is characterized by its two order properties.
pub proof fn lemma_first_max_index_at(s: Seq<ProcessRec>, m: int)
    requires
        0 <= m < s.len(),
        forall|t: int| 0 <= t < s.len() ==> s[m].cpu_usage >= #[trigger] s[t].cpu_usage,
        forall|t: int| 0 <= t < m ==> #[trigger] s[t].cpu_usage < s[m].cpu_usage,
    ensures
        first_max_index(s) == m,
    decreases s.len(),
{
    if s.len() > 1 {
        let r = first_max_index(s.drop_last());
        lemma_first_max_index_props(s.drop_last());
        if m == s.len() - 1 {
            assert(s[r].cpu_usage < s[m].cpu_usage);
        } else {
            lemma_first_max_index_at(s.drop_last(), m);
        }
    }
}

/// The stable descending order of a process table: repeatedly move the
/// first record of maximal CPU usage to the front of what remains. Records
/// of equal CPU usage keep their enumeration order.
pub open spec fn stable_sort_desc(s: Seq<ProcessRec>) -> Seq<ProcessRec>
    decreases s.len(),
    via stable_sort_desc_dec
{
    if s.len() == 0 {
        s
    } else {
        let m = first_max_index(s);
        seq![s[m]] + stable_sort_desc(s.remove(m))
    }
}

#[via_fn]
proof fn stable_sort_desc_dec(s: Seq<ProcessRec>) {
    if s.len() > 0 {
        lemma_first_max_index_props(s);
    }
}

proof fn lemma_filter_all_false(t: Seq<ProcessRec>, c: u32)
    requires
        forall|i: int| 0 <= i < t.len() ==> #[trigger] t[i].cpu_usage != c,
    ensures
        t.filter(has_cpu(c)) == Seq::<ProcessRec>::empty(),
    decreases t.len(),
{
    reveal(Seq::filter);
    if t.len() == 0 {
        assert(t.filter(has_cpu(c)) =~= Seq::<ProcessRec>::empty());
    } else {
        lemma_filter_all_false(t.drop_last(), c);
    }
}

/// Stability: for any CPU value, the subsequence of records reporting it is
/// unchanged by the stable descending order — ties keep their enumeration
/// order.
pub proof fn lemma_stable_sort_keeps_ties(s: Seq<ProcessRec>, c: u32)
    ensures
        stable_sort_desc(s).filter(has_cpu(c)) == s.filter(has_cpu(c)),
    decreases s.len(),
{
    broadcast use vstd::prelude::Seq::filter_distributes_over_add;

    reveal(Seq::filter);
    if s.len() > 0 {
        let m = first_max_index(s);
        lemma_first_max_index_props(s);
        lemma_stable_sort_keeps_ties(s.remove(m), c);
        let x = s[m];
        let pre = s.take(m);
        let post = s.skip(m + 1);
        assert(s =~= (pre + seq![x]) + post);
        assert(s.remove(m) =~= pre + post);
        assert(s.filter(has_cpu(c)) == (pre.filter(has_cpu(c)) + seq![x].filter(has_cpu(c)))
            + post.filter(has_cpu(c)));
        assert(s.remove(m).filter(has_cpu(c)) == pre.filter(has_cpu(c)) + post.filter(
            has_cpu(c),
        ));
        assert(stable_sort_desc(s).filter(has_cpu(c)) == seq![x].filter(has_cpu(c))
            + stable_sort_desc(s.remove(m)).filter(has_cpu(c)));
        lemma_filter_single(x, c);
        if x.cpu_usage == c {
            assert(forall|i: int| 0 <= i < pre.len() ==> #[trigger] pre[i].cpu_usage != c);
            lemma_filter_all_false(pre, c);
            assert(seq![x] + (pre.filter(has_cpu(c)) + post.filter(has_cpu(c)))
                =~= (pre.filter(has_cpu(c)) + seq![x]) + post.filter(has_cpu(c)));
        } else {
            assert(Seq::<ProcessRec>::empty() + (pre.filter(has_cpu(c)) + post.filter(
                has_cpu(c),
            )) =~= (pre.filter(has_cpu(c)) + Seq::<ProcessRec>::empty()) + post.filter(
                has_cpu(c),
            ));
        }
    }
}

/// Reorders a process enumeration descending by CPU usage, keeping exactly
/// the enumerated records (as a multiset of their views); records of equal
/// CPU usage keep the enumeration's relative order (the result is exactly
/// the stable descending order). Pids that were pairwise distinct stay
/// pairwise distinct.
pub fn sort_processes(v: Vec<ProcessInfo>) -> (r: Vec<ProcessInfo>)
    ensures
        process_views(r@) == stable_sort_desc(process_views(v@)),
        process_views(r@).to_multiset() == process_views(v@).to_multiset(),
        forall|i: int, j: int| 0 <= i < j < r@.len() ==> r@[i].cpu_usage >= r@[j].cpu_usage,
        forall|c: u32| #[trigger] process_views(r@).filter(has_cpu(c)) == process_views(
            v@,
        ).filter(has_cpu(c)),
        distinct_pids(process_views(v@)) ==> distinct_pids(process_views(r@)),
{
    broadcast use vstd::seq_lib::group_to_multiset_ensures;

    let mut src = v;
    let mut r: Vec<ProcessInfo> = Vec::new();
    proof {
        assert(process_views(r@) =~= Seq::<ProcessRec>::empty());
        assert(process_views(r@).to_multiset() =~= Multiset::<ProcessRec>::empty());
        assert(process_views(r@).to_multiset().add(process_views(src@).to_multiset())
            =~= process_views(src@).to_multiset());
        assert(process_views(r@) + stable_sort_desc(process_views(src@)) =~= stable_sort_desc(
            process_views(src@),
        ));
    }
    while src.len() > 0
        invariant
            process_views(r@) + stable_sort_desc(process_views(src@)) == stable_sort_desc(
                process_views(v@),
            ),
            process_views(r@).to_multiset().add(process_views(src@).to_multiset())
                == process_views(v@).to_multiset(),
            forall|i: int, j: int| 0 <= i < j < r@.len() ==> r@[i].cpu_usage >= r@[j].cpu_usage,
            forall|i: int, j: int|
                0 <= i < r@.len() && 0 <= j < src@.len() ==> r@[i].cpu_usage
                    >= src@[j].cpu_usage,
        decreases src.len(),
    {
        let mut m: usize = 0;
        let mut k: usize = 1;
        while k < src.len()
            invariant
                m < k <= src.len(),
                src.len() > 0,
                forall|t: int| 0 <= t < k ==> src@[m as int].cpu_usage >= src@[t].cpu_usage,
                forall|t: int| 0 <= t < m ==> src@[t].cpu_usage < src@[m as int].cpu_usage,
            decreases src.len() - k,
        {
            if src[k].cpu_usage > src[m].cpu_usage {
                m = k;
            }
            k = k + 1;
        }
        let ghost pre_src = src@;
        let ghost pre_r = r@;
        let x = src.remove(m);
        r.push(x);
        proof {
            let pv_pre = process_views(pre_src);
            let rv_pre = process_views(pre_r);
            pv_pre.to_multiset_ensures();
            rv_pre.to_multiset_ensures();
            assert(process_views(src@) =~= pv_pre.remove(m as int));
            assert(pv_pre[m as int] == x@);
            assert(pv_pre.remove(m as int).to_multiset() =~= pv_pre.to_multiset().remove(x@));
            assert(process_views(src@).to_multiset() == pv_pre.to_multiset().remove(x@));
            assert(process_views(r@) =~= rv_pre.push(x@));
            assert(rv_pre.push(x@).to_multiset() =~= rv_pre.to_multiset().insert(x@));
            assert(process_views(r@).to_multiset() == rv_pre.to_multiset().insert(x@));
            assert(pv_pre.contains(x@));
            assert(pv_pre.to_multiset().count(x@) > 0);
            assert(process_views(r@).to_multiset().add(process_views(src@).to_multiset())
                =~= rv_pre.to_multiset().add(pv_pre.to_multiset()));
            assert(forall|t: int|
                0 <= t < pv_pre.len() ==> pv_pre[m as int].cpu_usage
                    >= #[trigger] pv_pre[t].cpu_usage);
            assert(forall|t: int|
                0 <= t < m ==> #[trigger] pv_pre[t].cpu_usage < pv_pre[m as int].cpu_usage);
            lemma_first_max_index_at(pv_pre, m as int);
            assert(stable_sort_desc(pv_pre) == seq![x@] + stable_sort_desc(
                pv_pre.remove(m as int),
            ));
            assert(rv_pre + (seq![x@] + stable_sort_desc(pv_pre.remove(m as int)))
                =~= process_views(r@) + stable_sort_desc(process_views(src@)));
            assert forall|i: int, j: int|
                0 <= i < r@.len() && 0 <= j < src@.len() implies r@[i].cpu_usage
                >= src@[j].cpu_usage by {
                if j < m {
                    assert(src@[j] == pre_src[j]);
                } else {
                    assert(src@[j] == pre_src[j + 1]);
                }
            }
        }
    }
    proof {
        assert(process_views(src@) =~= Seq::<ProcessRec>::empty());
        assert(process_views(src@).to_multiset() =~= Multiset::<ProcessRec>::empty());
        assert(process_views(r@).to_multiset().add(Multiset::<ProcessRec>::empty())
            =~= process_views(r@).to_multiset());
        assert(stable_sort_desc(process_views(src@)) == process_views(src@));
        assert(process_views(r@) + process_views(src@) =~= process_views(r@));
        if distinct_pids(process_views(v@)) {
            lemma_permutation_keeps_pids_distinct(process_views(v@), process_views(r@));
        }
        assert forall|c: u32| #[trigger] process_views(r@).filter(has_cpu(c)) == process_views(
            v@,
        ).filter(has_cpu(c)) by {
            lemma_stable_sort_keeps_ties(process_views(v@), c);
        }
    }
    r
}

/// The sum of the CPU usage fields of a process table.
pub open spec fn total_cpu(s: Seq<ProcessRec>) -> int
    decreases s.len(),
{
    if s.len() == 0 {
        0
    } else {
        total_cpu(s.drop_last()) + s.last().cpu_usage
    }
}

/// Reduces one process enumeration to its aggregate statistics: the record
/// count, the plain sum of the records' CPU usage, and the memory totals of
/// the same underlying reading. The bound on the count is a machine limit —
/// it keeps the 64-bit sum from overflowing — and is no restriction on real
/// enumerations, whose pids are themselves 32-bit.
pub fn stats_summary(procs: &Vec<ProcessInfo>, total_memory: u64, used_memory: u64) -> (r:
    SystemStats)
    requires
        procs@.len() <= 0xFFFF_FFFF,
    ensures
        r.total_processes == procs@.len(),
        r.total_cpu_usage == total_cpu(process_views(procs@)),
        r.total_memory == total_memory,
        r.used_memory == used_memory,
{
    let ghost pv = process_views(procs@);
    let mut sum: u64 = 0;
    let mut i: usize = 0;
    proof {
        assert(pv.take(0) =~= Seq::<ProcessRec>::empty());
    }
    while i < procs.len()
        invariant
            procs@.len() <= 0xFFFF_FFFF,
            pv == process_views(procs@),
            i <= procs@.len(),
            sum == total_cpu(pv.take(i as int)),
            sum <= i * 0xFFFF_FFFF,
        decreases procs@.len() - i,
    {
        proof {
            assert(pv.take(i + 1).drop_last() =~= pv.take(i as int));
            assert(pv.take(i + 1).last() == pv[i as int]);
            assert((i + 1) * 0xFFFF_FFFF == i * 0xFFFF_FFFF + 0xFFFF_FFFF) by (nonlinear_arith);
            assert(i * 0xFFFF_FFFF <= 0xFFFF_FFFE * 0xFFFF_FFFF) by (nonlinear_arith)
                requires
                    0 <= i <= 0xFFFF_FFFE,
            ;
        }
        sum = sum + procs[i].cpu_usage as u64;
        i = i + 1;
    }
    proof {
        assert(pv.take(procs@.len() as int) =~= pv);
    }
    SystemStats { total_processes: procs.len(), total_cpu_usage: sum, total_memory, used_memory }
}

} // verus!
