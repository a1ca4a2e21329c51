//! Collector registration and the gatherer that assembles snapshots.
//!
//! The gatherer is the single consumer of registrations.  Collectors are
//! named by the identifiers the registry hands out; the caller polls each
//! live collector (upgrading its weak handle to the backing metric) and
//! passes the outcomes in, and the gatherer decides, exactly: which
//! collectors stay live, and the sorted, grouped snapshot of everything the
//! poll yielded.  A collector whose backing metric is gone answers `None`
//! once and is pruned for good.
use vstd::prelude::*;

use crate::metric::{
    families_of, group_families, lemma_metric_le_connex, lemma_metric_le_trans, metric_le,
    metric_le_exec, metrics_sorted, partition, Metric, MetricFamilies,
};
use crate::order::lemma_insert_to_multiset;

verus! {

/// Sorts metrics in the grouping order, keeping the multiset of metrics.
pub fn sort_metrics(metrics: Vec<Metric>) -> (r: Vec<Metric>)
    ensures
        metrics_sorted(r@),
        r@.to_multiset() == metrics@.to_multiset(),
{
    let ghost ms = metrics@;
    let mut rest = metrics;
    let mut out: Vec<Metric> = Vec::new();
    proof {
        out@.to_multiset_ensures();
        ms.to_multiset_ensures();
        assert(out@ =~= Seq::<Metric>::empty());
        assert(out@.to_multiset().add(rest@.to_multiset()) =~= ms.to_multiset());
    }
    while rest.len() > 0
        invariant
            metrics_sorted(out@),
            out@.to_multiset().add(rest@.to_multiset()) == ms.to_multiset(),
        decreases rest@.len(),
    {
        let ghost restpre = rest@;
        let m = rest.remove(0);
        proof {
            restpre.to_multiset_ensures();
            assert(restpre.remove(0) =~= rest@);
            assert(rest@.to_multiset() == restpre.to_multiset().remove(restpre[0]));
        }
        let mut j: usize = 0;
        loop
            invariant
                j <= out@.len(),
                forall|k: int| 0 <= k < j ==> metric_le(#[trigger] out@[k], m),
            ensures
                j <= out@.len(),
                forall|k: int| 0 <= k < j ==> metric_le(#[trigger] out@[k], m),
                j < out@.len() ==> !metric_le(out@[j as int], m),
            decreases out@.len() - j,
        {
            if j >= out.len() {
                break ;
            }
            if !metric_le_exec(&out[j], &m) {
                break ;
            }
            j = j + 1;
        }
        let ghost s1 = out@;
        out.insert(j, m);
        proof {
            lemma_insert_to_multiset(s1, j as int, m);
            assert(restpre.to_multiset().contains(restpre[0]));
            assert(out@.to_multiset().add(rest@.to_multiset()) =~= ms.to_multiset());
            assert forall|a: int, b: int|
                0 <= a < b < out@.len() implies metric_le(#[trigger] out@[a], #[trigger] out@[b]) by {
                if b == j as int {
                    assert(out@[a] == s1[a]);
                } else if a == j as int {
                    assert(out@[b] == s1[b - 1]);
                    lemma_metric_le_connex(s1[b - 1], m);
                    if b - 1 == j as int {
                    } else {
                        lemma_metric_le_connex(s1[j as int], m);
                        lemma_metric_le_trans(m, s1[j as int], s1[b - 1]);
                    }
                } else if a < j as int && b > j as int {
                    assert(out@[a] == s1[a] && out@[b] == s1[b - 1]);
                } else if b < j as int {
                    assert(out@[a] == s1[a] && out@[b] == s1[b]);
                } else {
                    assert(out@[a] == s1[a - 1] && out@[b] == s1[b - 1]);
                }
            }
        }
    }
    proof {
        rest@.to_multiset_ensures();
        assert(rest@ =~= Seq::<Metric>::empty());
        assert(out@.to_multiset() =~= ms.to_multiset());
    }
    out
}

/// The producer side of registration: hands out collector identifiers that
/// the gatherer will drain on its next pass.
#[derive(Debug)]
pub struct Registry {
    /// The next identifier to hand out.
    pub next_id: u64,
    /// The identifiers registered since the last gather.
    pub pending: Vec<u64>,
}

impl Registry {
    /// Makes an empty registry.
    pub fn new() -> (r: Self)
        ensures
            r.next_id == 0,
            r.pending@.len() == 0,
    {
        Registry { next_id: 0, pending: Vec::new() }
    }

    /// Registers a collector and returns its identifier; the caller keeps
    /// the weak handle it will poll under this identifier.
    pub fn register(&mut self) -> (id: u64)
        requires
            old(self).next_id < u64::MAX,
        ensures
            id == old(self).next_id,
            final(self).next_id == old(self).next_id + 1,
            final(self).pending@ == old(self).pending@.push(id),
    {
        let id = self.next_id;
        self.next_id = self.next_id + 1;
        self.pending.push(id);
        id
    }
}

/// The collector identifiers that stay live: those whose poll yielded
/// metrics rather than the "backing metric is gone" signal.
pub open spec fn surviving(ids: Seq<u64>, polls: Seq<Option<Vec<Metric>>>) -> Seq<u64>
    decreases ids.len(),
{
    if ids.len() == 0 || polls.len() == 0 {
        Seq::empty()
    } else {
        (if polls[0] is Some {
            seq![ids[0]]
        } else {
            Seq::empty()
        }) + surviving(ids.drop_first(), polls.drop_first())
    }
}

/// Everything the polls yielded, in poll order.
pub open spec fn polled_metrics(polls: Seq<Option<Vec<Metric>>>) -> Seq<Metric>
    decreases polls.len(),
{
    if polls.len() == 0 {
        Seq::empty()
    } else {
        (match polls[0] {
            Option::Some(v) => v@,
            Option::None => Seq::empty(),
        }) + polled_metrics(polls.drop_first())
    }
}

/// A collector that answers `None` is gone from the live list for good: its
/// identifier is not among the survivors, so no later gather polls it again.
pub proof fn lemma_gather_prunes_dead(ids: Seq<u64>, polls: Seq<Option<Vec<Metric>>>, i: int)
    requires
        ids.len() == polls.len(),
        0 <= i < ids.len(),
        polls[i] is None,
        forall|j: int| 0 <= j < ids.len() && j != i ==> ids[j] != ids[i],
    ensures
        !surviving(ids, polls).contains(ids[i]),
    decreases ids.len(),
{
    let s = surviving(ids, polls);
    if i == 0 {
        lemma_surviving_subset(ids.drop_first(), polls.drop_first());
        if s.contains(ids[0]) {
            assert(ids.drop_first().contains(ids[0]));
            let w = choose|w: int|
                0 <= w < ids.drop_first().len() && ids.drop_first()[w] == ids[0];
            assert(ids[w + 1] == ids[0]);
            assert(false);
        }
    } else {
        lemma_gather_prunes_dead(ids.drop_first(), polls.drop_first(), i - 1);
        assert(ids.drop_first()[i - 1] == ids[i]);
        assert forall|j: int|
            0 <= j < ids.drop_first().len() && j != i - 1 implies (#[trigger] ids.drop_first()[j])
            != ids.drop_first()[i - 1] by {
            assert(ids.drop_first()[j] == ids[j + 1]);
        }
        if s.contains(ids[i]) {
            let k = choose|k: int| 0 <= k < s.len() && s[k] == ids[i];
            if polls[0] is Some {
                if k == 0 {
                    assert(s[0] == ids[0]);
                    assert(false);
                } else {
                    assert(s[k] == surviving(ids.drop_first(), polls.drop_first())[k - 1]);
                    assert(surviving(ids.drop_first(), polls.drop_first()).contains(ids[i]));
                    assert(false);
                }
            } else {
                assert(s[k] == surviving(ids.drop_first(), polls.drop_first())[k]);
                assert(surviving(ids.drop_first(), polls.drop_first()).contains(ids[i]));
                assert(false);
            }
        }
    }
}

/// Every survivor is one of the polled identifiers.
proof fn lemma_surviving_subset(ids: Seq<u64>, polls: Seq<Option<Vec<Metric>>>)
    ensures
        forall|x: u64| surviving(ids, polls).contains(x) ==> ids.contains(x),
    decreases ids.len(),
{
    if ids.len() > 0 && polls.len() > 0 {
        lemma_surviving_subset(ids.drop_first(), polls.drop_first());
        assert forall|x: u64| surviving(ids, polls).contains(x) implies ids.contains(x) by {
            let s = surviving(ids, polls);
            let k = choose|k: int| 0 <= k < s.len() && s[k] == x;
            if polls[0] is Some && k == 0 {
                assert(ids[0] == x);
            } else {
                let off: int = if polls[0] is Some {
                    1
                } else {
                    0
                };
                assert(s[k] == surviving(ids.drop_first(), polls.drop_first())[k - off]);
                assert(surviving(ids.drop_first(), polls.drop_first()).contains(x));
                assert(ids.drop_first().contains(x));
                let w = choose|w: int|
                    0 <= w < ids.drop_first().len() && ids.drop_first()[w] == x;
                assert(ids.drop_first()[w] == ids[w + 1]);
                assert(ids[w + 1] == x);
            }
        }
    }
}

/// The consumer side: the live collector list and the gather step.
#[derive(Debug)]
pub struct Gatherer {
    /// The identifiers of the collectors seen alive at the last gather.
    pub live: Vec<u64>,
}

impl Gatherer {
    /// Makes a gatherer with no live collectors.
    pub fn new() -> (r: Self)
        ensures
            r.live@.len() == 0,
    {
        Gatherer { live: Vec::new() }
    }

    /// The identifiers to poll for the next gather, in order: the live
    /// collectors, then the newly registered ones.
    pub fn poll_order(&self, registry: &Registry) -> (r: Vec<u64>)
        ensures
            r@ == self.live@ + registry.pending@,
    {
        let mut out: Vec<u64> = Vec::new();
        let mut i: usize = 0;
        while i < self.live.len()
            invariant
                i <= self.live@.len(),
                out@ =~= self.live@.take(i as int),
            decreases self.live@.len() - i,
        {
            out.push(self.live[i]);
            proof {
                assert(out@ =~= self.live@.take(i as int + 1));
            }
            i = i + 1;
        }
        let mut j: usize = 0;
        while j < registry.pending.len()
            invariant
                j <= registry.pending@.len(),
                out@ =~= self.live@ + registry.pending@.take(j as int),
            decreases registry.pending@.len() - j,
        {
            out.push(registry.pending[j]);
            proof {
                assert(out@ =~= self.live@ + registry.pending@.take(j as int + 1));
            }
            j = j + 1;
        }
        proof {
            assert(self.live@.take(self.live@.len() as int) =~= self.live@);
            assert(self.live@ + Seq::<u64>::empty() =~= self.live@);
            assert(registry.pending@.take(registry.pending@.len() as int) =~= registry.pending@);
        }
        out
    }

    /// Gathers: drains the pending registrations into the live list, keeps
    /// exactly the collectors whose poll yielded metrics, and returns every
    /// yielded metric sorted by name and kind and grouped into families.
    ///
    /// `polls` holds one outcome per identifier of `poll_order`, in order.
    pub fn gather(&mut self, registry: &mut Registry, polls: Vec<Option<Vec<Metric>>>) -> (r:
        MetricFamilies)
        requires
            polls@.len() == old(self).live@.len() + old(registry).pending@.len(),
        ensures
            final(registry).pending@.len() == 0,
            final(registry).next_id == old(registry).next_id,
            final(self).live@ == surviving(old(self).live@ + old(registry).pending@, polls@),
            exists|ss: Seq<Metric>|
                {
                    &&& #[trigger] ss.to_multiset() == polled_metrics(polls@).to_multiset()
                    &&& metrics_sorted(ss)
                    &&& families_of(partition(ss), r.families@)
                },
    {
        let ghost ids = old(self).live@ + old(registry).pending@;
        let mut polls = polls;
        let order = self.poll_order(registry);
        registry.pending.clear();
        let mut newlive: Vec<u64> = Vec::new();
        let mut metrics: Vec<Metric> = Vec::new();
        let ghost polls0 = polls@;
        let ghost mut i: int = 0;
        proof {
            assert(ids =~= order@);
            assert(ids.skip(0) =~= ids);
            assert(polls0.skip(0) =~= polls0);
            assert(newlive@ + surviving(ids, polls0) =~= surviving(ids, polls0));
            assert(metrics@ + polled_metrics(polls0) =~= polled_metrics(polls0));
        }
        while polls.len() > 0
            invariant
                order@ == ids,
                0 <= i <= ids.len(),
                ids.len() == polls0.len(),
                polls@ =~= polls0.skip(i),
                newlive@ + surviving(ids.skip(i), polls0.skip(i)) == surviving(ids, polls0),
                metrics@ + polled_metrics(polls0.skip(i)) == polled_metrics(polls0),
            decreases polls@.len(),
        {
            let ghost pre = polls@;
            let poll = polls.remove(0);
            proof {
                assert(pre[0] == polls0[i]);
                assert(pre.remove(0) =~= polls0.skip(i + 1));
                assert(ids.skip(i)[0] == ids[i]);
                assert(ids.skip(i).drop_first() =~= ids.skip(i + 1));
                assert(polls0.skip(i)[0] == polls0[i]);
                assert(polls0.skip(i).drop_first() =~= polls0.skip(i + 1));
            }
            match poll {
                Some(mut got) => {
                    let idx = order.len() - polls.len() - 1;
                    proof {
                        assert(idx as int == i);
                        assert(order@[i] == ids[i]);
                    }
                    newlive.push(order[idx]);
                    let ghost mstart = metrics@;
                    let ghost gotv = got@;
                    let ghost mut k: int = 0;
                    proof {
                        assert(got@ =~= gotv.skip(0));
                        assert(metrics@ =~= mstart + gotv.take(0));
                    }
                    while got.len() > 0
                        invariant
                            0 <= k <= gotv.len(),
                            got@ =~= gotv.skip(k),
                            metrics@ =~= mstart + gotv.take(k),
                        decreases got@.len(),
                    {
                        let m = got.remove(0);
                        proof {
                            assert(gotv.skip(k)[0] == gotv[k]);
                            assert(gotv.skip(k).drop_first() =~= gotv.skip(k + 1));
                        }
                        metrics.push(m);
                        proof {
                            assert(gotv.take(k).push(gotv[k]) =~= gotv.take(k + 1));
                            k = k + 1;
                        }
                    }
                    proof {
                        assert(gotv.skip(k).len() == 0);
                        assert(k == gotv.len());
                        assert(gotv.take(k) =~= gotv);
                        assert(metrics@ =~= mstart + gotv);
                        // The head of the remaining survivors and yields is
                        // exactly what was appended.
                        assert(surviving(ids.skip(i), polls0.skip(i)) =~= seq![ids[i]]
                            + surviving(ids.skip(i + 1), polls0.skip(i + 1)));
                        assert(newlive@ =~= newlive@.drop_last().push(ids[i]));
                        assert(newlive@ + surviving(ids.skip(i + 1), polls0.skip(i + 1))
                            =~= newlive@.drop_last() + surviving(ids.skip(i), polls0.skip(i)));
                        assert(polled_metrics(polls0.skip(i)) =~= gotv + polled_metrics(
                            polls0.skip(i + 1),
                        ));
                        assert(metrics@ + polled_metrics(polls0.skip(i + 1)) =~= mstart
                            + polled_metrics(polls0.skip(i)));
                    }
                },
                None => {
                    proof {
                        assert(surviving(ids.skip(i), polls0.skip(i)) =~= surviving(
                            ids.skip(i + 1),
                            polls0.skip(i + 1),
                        ));
                        assert(polled_metrics(polls0.skip(i)) =~= polled_metrics(
                            polls0.skip(i + 1),
                        ));
                    }
                },
            }
            proof {
                i = i + 1;
            }
        }
        proof {
            assert(polls0.skip(i).len() == 0);
            assert(i == polls0.len());
            assert(ids.skip(i).len() == 0);
            assert(surviving(ids.skip(i), polls0.skip(i)) =~= Seq::<u64>::empty());
            assert(polled_metrics(polls0.skip(i)) =~= Seq::<Metric>::empty());
            assert(newlive@ =~= surviving(ids, polls0));
            assert(metrics@ =~= polled_metrics(polls0));
        }
        self.live = newlive;
        let ghost msfinal = metrics@;
        let sorted = sort_metrics(metrics);
        let fams = group_families(sorted);
        proof {
            let ss = sorted@;
            assert(ss.to_multiset() == polled_metrics(polls0).to_multiset());
            assert(metrics_sorted(ss));
            assert(families_of(partition(ss), fams@));
        }
        MetricFamilies { families: fams }
    }
}

} // verus!
