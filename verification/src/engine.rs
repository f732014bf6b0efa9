//! The work-dispatch engine: one active job slot fed from a queue of
//! pending requests, with per-root cancellation and a count of workers that
//! gave up on the active job.
//!
//! Completion sinks are carried as numeric identifiers, minted by
//! `enqueue`. Every operation returns the completions it decided on; the
//! surrounding server owns the actual one-shot channels, signals each
//! returned identifier once, and never sees an identifier twice, because a
//! well-formed queue holds each identifier at most once and identifiers
//! only count upward.

use vstd::prelude::*;
use crate::rng::{thread_rng_handle, gen_below};

verus! {

/// How a job can fail: cancelled by request, or abandoned by every worker.
#[derive(PartialEq, Eq, Structural, Debug, Clone, Copy)]
pub enum WorkError {
    Canceled,
    Errored,
}

/// A queued request: block root, difficulty threshold, and the identifier
/// of its completion sink.
pub struct PendingItem {
    pub root: Vec<u8>,
    pub threshold: Vec<u8>,
    pub sink: u64,
}

impl PendingItem {
    pub open spec fn wf(&self) -> bool {
        self.root@.len() == 32 && self.threshold@.len() == 32
    }
}

/// A decision to signal one completion sink with a result.
pub struct Completion {
    pub sink: u64,
    pub outcome: Result<Vec<u8>, WorkError>,
}

/// The shared dispatch state.
pub struct WorkQueue {
    pub active: Option<PendingItem>,
    pub pending: Vec<PendingItem>,
    pub random_mode: bool,
    pub n_workers: usize,
    pub unsuccessful_workers: usize,
    pub next_sink: u64,
}

/// The pending items whose root differs from `root`, in order.
pub open spec fn keep_others(s: Seq<PendingItem>, root: Seq<u8>) -> Seq<PendingItem>
    decreases s.len(),
{
    if s.len() == 0 {
        Seq::empty()
    } else {
        let rest = keep_others(s.drop_last(), root);
        if s.last().root@ == root {
            rest
        } else {
            rest.push(s.last())
        }
    }
}

/// The sinks of the pending items whose root equals `root`, in order.
pub open spec fn matching_sinks(s: Seq<PendingItem>, root: Seq<u8>) -> Seq<u64>
    decreases s.len(),
{
    if s.len() == 0 {
        Seq::empty()
    } else {
        let rest = matching_sinks(s.drop_last(), root);
        if s.last().root@ == root {
            rest.push(s.last().sink)
        } else {
            rest
        }
    }
}

/// One promotion chance over the pending sequence `pre`: either nothing
/// was pending and the slot stays empty, or one pending item moved into
/// the slot — the oldest one under FIFO, any one under random selection.
pub open spec fn promoted_from(
    pre: Seq<PendingItem>,
    random_mode: bool,
    active: Option<PendingItem>,
    post: Seq<PendingItem>,
) -> bool {
    if pre.len() == 0 {
        active is None && post.len() == 0
    } else {
        exists|i: int|
            0 <= i < pre.len() && active == Some(pre[i]) && post == pre.remove(i) && (!random_mode
                ==> i == 0)
    }
}

impl WorkQueue {
    /// The sink `id` is held by some item, pending or active.
    pub open spec fn has_sink(&self, id: u64) -> bool {
        (exists|i: int| 0 <= i < self.pending@.len() && (#[trigger] self.pending@[i]).sink == id)
            || (self.active matches Some(a) && a.sink == id)
    }

    /// Structural well-formedness: at least one worker; 32-byte roots and
    /// thresholds; all sinks distinct and below the mint counter; fewer
    /// quit workers than workers while a job runs.
    pub open spec fn wf_base(&self) -> bool {
        &&& self.n_workers >= 1
        &&& (self.active is Some ==> self.unsuccessful_workers < self.n_workers)
        &&& (forall|i: int|
            0 <= i < self.pending@.len() ==> (#[trigger] self.pending@[i]).wf()
                && self.pending@[i].sink < self.next_sink)
        &&& (self.active matches Some(a) ==> a.wf() && a.sink < self.next_sink)
        &&& (forall|i: int, j: int|
            0 <= i < j < self.pending@.len() ==> self.pending@[i].sink != self.pending@[j].sink)
        &&& (self.active matches Some(a) ==> forall|i: int|
            0 <= i < self.pending@.len() ==> (#[trigger] self.pending@[i]).sink != a.sink)
    }

    /// Full invariant: additionally, an empty active slot means an empty
    /// queue (promotion is never postponed) and no quit workers counted.
    pub open spec fn wf(&self) -> bool {
        &&& self.wf_base()
        &&& (self.active is None ==> self.pending@.len() == 0 && self.unsuccessful_workers == 0)
    }

    /// An empty queue serving `n_workers` workers.
    pub fn new(n_workers: usize, random_mode: bool) -> (r: WorkQueue)
        requires
            n_workers >= 1,
        ensures
            r.wf(),
            r.active is None,
            r.pending@.len() == 0,
            r.random_mode == random_mode,
            r.n_workers == n_workers,
            r.unsuccessful_workers == 0,
            r.next_sink == 0,
    {
        WorkQueue {
            active: None,
            pending: Vec::new(),
            random_mode,
            n_workers,
            unsuccessful_workers: 0,
            next_sink: 0,
        }
    }

    /// Promotion: if no job is active and something is pending, move one
    /// pending item into the active slot — the oldest under FIFO, a
    /// uniformly chosen one under random selection.
    fn set_task(&mut self)
        requires
            old(self).wf_base(),
            old(self).active is None ==> old(self).unsuccessful_workers == 0,
        ensures
            final(self).wf(),
            final(self).random_mode == old(self).random_mode,
            final(self).n_workers == old(self).n_workers,
            final(self).next_sink == old(self).next_sink,
            final(self).unsuccessful_workers == old(self).unsuccessful_workers,
            old(self).active is Some ==> *final(self) == *old(self),
            old(self).active is None ==> promoted_from(
                old(self).pending@,
                old(self).random_mode,
                final(self).active,
                final(self).pending@,
            ),
    {
        if self.active.is_none() {
            if self.pending.len() > 0 {
                let max_range = if self.random_mode {
                    self.pending.len()
                } else {
                    1
                };
                let mut rng = thread_rng_handle();
                let i = gen_below(&mut rng, max_range);
                let ghost pre = self.pending@;
                let item = self.pending.remove(i);
                self.active = Some(item);
                proof {
                    assert(self.pending@ == pre.remove(i as int));
                    assert forall|a: int, b: int| 0 <= a < b < self.pending@.len() implies self
                        .pending@[a].sink != self.pending@[b].sink by {
                        assert(self.pending@[a] == if a < i { pre[a] } else { pre[a + 1] });
                        assert(self.pending@[b] == if b < i { pre[b] } else { pre[b + 1] });
                    }
                    assert forall|a: int| 0 <= a < self.pending@.len() implies (#[trigger] self
                        .pending@[a]).wf() && self.pending@[a].sink < self.next_sink && self
                        .pending@[a].sink != pre[i as int].sink by {
                        assert(self.pending@[a] == if a < i { pre[a] } else { pre[a + 1] });
                    }
                }
            }
        }
    }

    /// Accept a request: mint a sink identifier, append the item, and give
    /// promotion a chance. The new identifier is fresh: it was held by no
    /// item before, and every identifier held afterwards is either the new
    /// one or was held before.
    pub fn enqueue(&mut self, root: Vec<u8>, threshold: Vec<u8>) -> (id: u64)
        requires
            old(self).wf(),
            root@.len() == 32,
            threshold@.len() == 32,
            old(self).next_sink < u64::MAX,
        ensures
            final(self).wf(),
            final(self).random_mode == old(self).random_mode,
            final(self).n_workers == old(self).n_workers,
            id == old(self).next_sink,
            final(self).next_sink == old(self).next_sink + 1,
            !old(self).has_sink(id),
            final(self).has_sink(id),
            forall|s: u64| final(self).has_sink(s) <==> (old(self).has_sink(s) || s == id),
            ({
                let item = (PendingItem { root, threshold, sink: id });
                let q = old(self).pending@.push(item);
                if old(self).active is Some {
                    final(self).active == old(self).active && final(self).pending@ == q
                        && final(self).unsuccessful_workers == old(self).unsuccessful_workers
                } else {
                    promoted_from(q, old(self).random_mode, final(self).active, final(self).pending@)
                        && final(self).unsuccessful_workers == 0
                }
            }),
    {
        let id = self.next_sink;
        self.next_sink = self.next_sink + 1;
        self.pending.push(PendingItem { root, threshold, sink: id });
        let ghost pre = *self;
        proof {
            let q = self.pending@;
            assert forall|a: int, b: int| 0 <= a < b < q.len() implies q[a].sink != q[b].sink by {
                if b == q.len() - 1 {
                    assert(q[a] == old(self).pending@[a]);
                    assert(old(self).pending@[a].sink < id);
                }
            }
        }
        self.set_task();
        proof {
            let item = (PendingItem { root, threshold, sink: id });
            let q = old(self).pending@.push(item);
            if old(self).active is None {
                assert(old(self).pending@.len() == 0);
                assert(q.len() == 1);
                assert(promoted_from(q, old(self).random_mode, self.active, self.pending@));
            }
            assert forall|s: u64| self.has_sink(s) <==> (old(self).has_sink(s) || s == id) by {
                lemma_has_sink_step(pre, *self, *old(self), q, item, s, id);
            }
        }
        id
    }

    /// Cancel every item, pending or active, whose root equals `root`,
    /// deciding a `Canceled` completion for each; if the active job was
    /// cancelled, promote the next pending item under the same lock hold.
    /// Cancelling a root with no residual presence changes nothing, so a
    /// second cancellation of the same root is a no-op.
    pub fn cancel_work(&mut self, root: &Vec<u8>) -> (completions: Vec<Completion>)
        requires
            old(self).wf(),
        ensures
            final(self).wf(),
            final(self).random_mode == old(self).random_mode,
            final(self).n_workers == old(self).n_workers,
            final(self).next_sink == old(self).next_sink,
            forall|k: int|
                0 <= k < completions@.len() ==> (#[trigger] completions@[k]).outcome == Err::<
                    Vec<u8>,
                    WorkError,
                >(WorkError::Canceled),
            ({
                let kept = keep_others(old(self).pending@, root@);
                let canceled = matching_sinks(old(self).pending@, root@);
                let untouched = final(self).active == old(self).active && final(self).pending@ == kept
                    && completions@.map_values(|c: Completion| c.sink) == canceled
                    && final(self).unsuccessful_workers == old(self).unsuccessful_workers;
                match old(self).active {
                    Some(a) => if a.root@ == root@ {
                        completions@.map_values(|c: Completion| c.sink) == canceled.push(a.sink)
                            && promoted_from(
                            kept,
                            old(self).random_mode,
                            final(self).active,
                            final(self).pending@,
                        ) && final(self).unsuccessful_workers == 0
                    } else {
                        untouched
                    },
                    None => untouched,
                }
            }),
            forall|j: int|
                0 <= j < final(self).pending@.len() ==> (#[trigger] final(self).pending@[j]).root@ != root@,
            final(self).active matches Some(a) ==> a.root@ != root@,
            forall|k: int, l: int|
                0 <= k < l < completions@.len() ==> completions@[k].sink != completions@[l].sink,
            forall|k: int|
                0 <= k < completions@.len() ==> !final(self).has_sink(
                    (#[trigger] completions@[k]).sink,
                ),
            (forall|j: int|
                0 <= j < old(self).pending@.len() ==> (#[trigger] old(self).pending@[j]).root@
                    != root@) && !(old(self).active matches Some(a) && a.root@ == root@)
                ==> final(self).pending@ == old(self).pending@ && final(self).active == old(self).active && final(self).unsuccessful_workers == old(self).unsuccessful_workers
                && completions@.len() == 0,
    {
        let ghost orig = self.pending@;
        let ghost entry = *old(self);
        let mut completions: Vec<Completion> = Vec::new();
        let mut i: usize = 0;
        while i < self.pending.len()
            invariant
                entry.wf(),
                orig == entry.pending@,
                self.active == entry.active,
                self.random_mode == entry.random_mode,
                self.n_workers == entry.n_workers,
                self.next_sink == entry.next_sink,
                self.unsuccessful_workers == entry.unsuccessful_workers,
                i <= self.pending@.len(),
                forall|j: int|
                    0 <= j < self.pending@.len() ==> (#[trigger] self.pending@[j]).wf() && self
                        .pending@[j].sink < self.next_sink,
                forall|a: int, b: int|
                    0 <= a < b < self.pending@.len() ==> self.pending@[a].sink != self
                        .pending@[b].sink,
                (entry.active matches Some(a) ==> forall|j: int|
                    0 <= j < self.pending@.len() ==> (#[trigger] self.pending@[j]).sink != a.sink),
                forall|j: int|
                    0 <= j < i ==> (#[trigger] self.pending@[j]).root@ != root@,
                self.pending@.take(i as int) == keep_others(orig.take(i as int + completions@.len()
                    as int), root@),
                self.pending@.skip(i as int) == orig.skip(i as int + completions@.len() as int),
                i + completions@.len() <= orig.len(),
                completions@.map_values(|c: Completion| c.sink) == matching_sinks(
                    orig.take(i as int + completions@.len() as int),
                    root@,
                ),
                forall|k: int|
                    0 <= k < completions@.len() ==> (#[trigger] completions@[k]).outcome == Err::<
                        Vec<u8>,
                        WorkError,
                    >(WorkError::Canceled),
            decreases self.pending@.len() - i,
        {
            let ghost p = i as int + completions@.len() as int;
            let ghost pre = self.pending@;
            proof {
                assert(pre.skip(i as int).len() == pre.len() - i);
                assert(orig.skip(p).len() == pre.skip(i as int).len());
                assert(p < orig.len());
                assert(pre.skip(i as int)[0] == pre[i as int]);
                assert(orig.skip(p)[0] == orig[p]);
                assert(pre[i as int] == orig[p]);
                assert(orig.take(p + 1).drop_last() =~= orig.take(p));
                assert(orig.take(p + 1).last() == orig[p]);
            }
            let matches_root = bytes_eq(&self.pending[i].root, root);
            if matches_root {
                let it = self.pending.remove(i);
                completions.push(
                    Completion { sink: it.sink, outcome: Err(WorkError::Canceled) },
                );
                proof {
                    assert(it == pre[i as int]);
                    assert(pre[i as int] == orig[p]);
                    assert(self.pending@ == pre.remove(i as int));
                    assert(self.pending@.take(i as int) =~= pre.take(i as int));
                    assert(self.pending@.skip(i as int) =~= pre.skip(i as int).skip(1));
                    assert(pre.skip(i as int).skip(1) =~= orig.skip(p).skip(1));
                    assert(orig.skip(p).skip(1) =~= orig.skip(p + 1));
                    assert(keep_others(orig.take(p + 1), root@) == keep_others(
                        orig.take(p),
                        root@,
                    ));
                    assert(completions@.map_values(|c: Completion| c.sink) =~= matching_sinks(
                        orig.take(p),
                        root@,
                    ).push(it.sink));
                    assert forall|a: int, b: int|
                        0 <= a < b < self.pending@.len() implies self.pending@[a].sink != self
                        .pending@[b].sink by {
                        assert(self.pending@[a] == if a < i { pre[a] } else { pre[a + 1] });
                        assert(self.pending@[b] == if b < i { pre[b] } else { pre[b + 1] });
                    }
                    assert forall|j: int| 0 <= j < self.pending@.len() implies (#[trigger] self
                        .pending@[j]).wf() && self.pending@[j].sink < self.next_sink by {
                        assert(self.pending@[j] == if j < i { pre[j] } else { pre[j + 1] });
                    }
                    match entry.active {
                        Some(a) => {
                            assert forall|j: int| 0 <= j < self.pending@.len() implies (
                            #[trigger] self.pending@[j]).sink != a.sink by {
                                assert(self.pending@[j] == if j < i {
                                    pre[j]
                                } else {
                                    pre[j + 1]
                                });
                            }
                        },
                        None => {},
                    }
                }
            } else {
                proof {
                    assert(self.pending@[i as int].root@ != root@);
                    assert(keep_others(orig.take(p + 1), root@) == keep_others(
                        orig.take(p),
                        root@,
                    ).push(orig[p]));
                    assert(self.pending@.take(i as int + 1) =~= self.pending@.take(i as int).push(
                        self.pending@[i as int],
                    ));
                    assert(self.pending@[i as int] == self.pending@.skip(i as int)[0]);
                    assert(self.pending@.skip(i as int + 1) =~= self.pending@.skip(i as int).skip(
                        1,
                    ));
                    assert(self.pending@.skip(i as int).skip(1) =~= orig.skip(p).skip(1));
                    assert(orig.skip(p).skip(1) =~= orig.skip(p + 1));
                    assert(matching_sinks(orig.take(p + 1), root@) == matching_sinks(
                        orig.take(p),
                        root@,
                    ));
                }
                i += 1;
            }
        }
        proof {
            let p = i as int + completions@.len() as int;
            assert(self.pending@.skip(i as int).len() == 0);
            assert(p == orig.len());
            assert(orig.take(p) =~= orig);
            assert(self.pending@.take(i as int) =~= self.pending@);
            assert(self.pending@ == keep_others(orig, root@));
            assert(completions@.map_values(|c: Completion| c.sink) == matching_sinks(orig, root@));
        }
        let take_active = match &self.active {
            Some(a) => bytes_eq(&a.root, root),
            None => false,
        };
        if take_active {
            let a = self.active.take().unwrap();
            completions.push(Completion { sink: a.sink, outcome: Err(WorkError::Canceled) });
            self.unsuccessful_workers = 0;
            proof {
                assert(completions@.map_values(|c: Completion| c.sink) =~= matching_sinks(
                    orig,
                    root@,
                ).push(a.sink));
            }
            self.set_task();
            proof {
                lemma_keep_others_roots(orig, root@);
                promoted_roots_differ(keep_others(orig, root@), self.random_mode, self.active,
                    self.pending@, root@);
            }
        } else {
            proof {
                lemma_keep_others_roots(orig, root@);
                if forall|j: int| 0 <= j < orig.len() ==> (#[trigger] orig[j]).root@ != root@ {
                    lemma_keep_others_all(orig, root@);
                    assert(self.pending@ == orig);
                    assert(completions@.map_values(|c: Completion| c.sink) =~= matching_sinks(
                        orig,
                        root@,
                    ));
                    assert(completions@.len() == 0);
                }
            }
        }
        proof {
            let kept = keep_others(orig, root@);
            let canceled = matching_sinks(orig, root@);
            lemma_split_disjoint(orig, root@);
            lemma_split_membership(orig, root@);
            // Each sink of `orig` differs from the old active job's sink.
            assert forall|id: u64| sink_in(orig, id) implies (match entry.active {
                Some(a) => id != a.sink,
                None => true,
            }) by {
                match entry.active {
                    Some(a) => {
                        let j = choose|j: int|
                            0 <= j < orig.len() && (#[trigger] orig[j]).sink == id;
                        assert(orig[j].sink != a.sink);
                    },
                    None => {},
                }
            }
            // Kept sinks avoid every cancelled sink and the active sink.
            assert forall|k: int, l: int|
                0 <= k < l < completions@.len() implies completions@[k].sink != completions@[
                l].sink by {
                assert(completions@.map_values(|c: Completion| c.sink)[k] == completions@[k].sink);
                assert(completions@.map_values(|c: Completion| c.sink)[l] == completions@[l].sink);
                if l < canceled.len() {
                } else {
                    assert(sink_in(orig, canceled[k]));
                }
            }
            assert forall|k: int| 0 <= k < completions@.len() implies !self.has_sink(
                (#[trigger] completions@[k]).sink,
            ) by {
                assert(completions@.map_values(|c: Completion| c.sink)[k] == completions@[k].sink);
                let id = completions@[k].sink;
                if k < canceled.len() {
                    assert(id == canceled[k]);
                    assert(forall|j: int|
                        0 <= j < kept.len() ==> (#[trigger] kept[j]).sink != id);
                } else {
                    // The old active job's sink: kept sinks come from the
                    // pending items, which never share it.
                    assert forall|j: int| 0 <= j < kept.len() implies (#[trigger] kept[j]).sink
                        != id by {
                        assert(sink_in(orig, kept[j].sink));
                    }
                }
                match entry.active {
                    Some(a) => if a.root@ == root@ {
                        lemma_promoted_excludes(
                            kept,
                            entry.random_mode,
                            self.active,
                            self.pending@,
                            id,
                        );
                    } else {
                        // The state kept its old shape: pending is `kept`,
                        // the active job is unchanged and its sink is not
                        // a pending sink.
                        if k < canceled.len() {
                            assert(sink_in(orig, id));
                        }
                    },
                    None => {},
                }
            }
        }
        completions
    }

    /// A worker found a valid nonce for `root`. If that job is still the
    /// active one, decide an `Ok` completion carrying the nonce and
    /// promote the next pending item; a stale root changes nothing.
    pub fn complete(&mut self, root: &Vec<u8>, work: &Vec<u8>) -> (r: Option<Completion>)
        requires
            old(self).wf(),
            work@.len() == 8,
        ensures
            final(self).wf(),
            final(self).random_mode == old(self).random_mode,
            final(self).n_workers == old(self).n_workers,
            final(self).next_sink == old(self).next_sink,
            (match old(self).active {
                Some(a) => a.root@ == root@ ==> (r matches Some(c) && c.sink == a.sink && (
                c.outcome matches Ok(w) && w@ == work@) && promoted_from(
                    old(self).pending@,
                    old(self).random_mode,
                    final(self).active,
                    final(self).pending@,
                ) && final(self).unsuccessful_workers == 0),
                None => true,
            }),
            (old(self).active is None || (old(self).active matches Some(a) && a.root@ != root@))
                ==> r is None && *final(self) == *old(self),
            r matches Some(c) ==> !final(self).has_sink(c.sink),
    {
        let take_active = match &self.active {
            Some(a) => bytes_eq(&a.root, root),
            None => false,
        };
        if take_active {
            let a = self.active.take().unwrap();
            self.unsuccessful_workers = 0;
            let out = Completion { sink: a.sink, outcome: Ok(copy_bytes(work)) };
            self.set_task();
            proof {
                lemma_promoted_excludes(
                    old(self).pending@,
                    old(self).random_mode,
                    self.active,
                    self.pending@,
                    a.sink,
                );
            }
            Some(out)
        } else {
            None
        }
    }

    /// A worker reports that it has given up on the job with `root`. If
    /// that job is still active, count it; when every worker has given up,
    /// fail the job with `Errored` and promote the next pending item.
    pub fn report_failure(&mut self, root: &Vec<u8>) -> (r: Option<Completion>)
        requires
            old(self).wf(),
        ensures
            final(self).wf(),
            final(self).random_mode == old(self).random_mode,
            final(self).n_workers == old(self).n_workers,
            final(self).next_sink == old(self).next_sink,
            (old(self).active is None || (old(self).active matches Some(a) && a.root@ != root@))
                ==> r is None && *final(self) == *old(self),
            (match old(self).active {
                Some(a) => a.root@ == root@ ==> (if old(self).unsuccessful_workers + 1 == old(self).n_workers {
                    r matches Some(c) && c.sink == a.sink && c.outcome == Err::<Vec<u8>, WorkError>(
                        WorkError::Errored,
                    ) && promoted_from(
                        old(self).pending@,
                        old(self).random_mode,
                        final(self).active,
                        final(self).pending@,
                    ) && final(self).unsuccessful_workers == 0
                } else {
                    r is None && final(self).active == old(self).active && final(self).pending@ == old(self).pending@ && final(self).unsuccessful_workers == old(self).unsuccessful_workers + 1
                }),
                None => true,
            }),
            r matches Some(c) ==> !final(self).has_sink(c.sink),
    {
        let still_active = match &self.active {
            Some(a) => bytes_eq(&a.root, root),
            None => false,
        };
        if still_active {
            let quit = self.unsuccessful_workers + 1;
            if quit == self.n_workers {
                let a = self.active.take().unwrap();
                self.unsuccessful_workers = 0;
                let out = Completion { sink: a.sink, outcome: Err(WorkError::Errored) };
                self.set_task();
                proof {
                    lemma_promoted_excludes(
                        old(self).pending@,
                        old(self).random_mode,
                        self.active,
                        self.pending@,
                        a.sink,
                    );
                }
                Some(out)
            } else {
                self.unsuccessful_workers = quit;
                None
            }
        } else {
            None
        }
    }

    /// The queue size and whether a job is generating, as the status
    /// action reports them.
    pub fn status(&self) -> (r: (usize, bool))
        ensures
            r.0 == self.pending@.len(),
            r.1 == (self.active is Some),
    {
        (self.pending.len(), self.active.is_some())
    }

    /// The active job's root and threshold, copied out for a worker.
    pub fn current_task(&self) -> (r: Option<(Vec<u8>, Vec<u8>)>)
        ensures
            (r is Some) == (self.active is Some),
            r matches Some(t) ==> (self.active matches Some(a) && t.0@ == a.root@ && t.1@
                == a.threshold@),
    {
        match &self.active {
            Some(a) => Some((copy_bytes(&a.root), copy_bytes(&a.threshold))),
            None => None,
        }
    }
}

/// Byte-vector equality, reflected into the view.
pub fn bytes_eq(a: &Vec<u8>, b: &Vec<u8>) -> (r: bool)
    ensures
        r == (a@ == b@),
{
    if a.len() != b.len() {
        return false;
    }
    let mut i: usize = 0;
    while i < a.len()
        invariant
            a@.len() == b@.len(),
            i <= a@.len(),
            forall|j: int| 0 <= j < i ==> a@[j] == b@[j],
        decreases a@.len() - i,
    {
        if a[i] != b[i] {
            return false;
        }
        i += 1;
    }
    proof {
        assert(a@ =~= b@);
    }
    true
}

/// A fresh copy of a byte vector.
pub fn copy_bytes(v: &Vec<u8>) -> (r: Vec<u8>)
    ensures
        r@ == v@,
{
    let mut r: Vec<u8> = Vec::new();
    let mut i: usize = 0;
    while i < v.len()
        invariant
            i <= v@.len(),
            r@ == v@.take(i as int),
        decreases v@.len() - i,
    {
        r.push(v[i]);
        proof {
            assert(r@ =~= v@.take(i as int + 1));
        }
        i += 1;
    }
    proof {
        assert(v@.take(v@.len() as int) =~= v@);
    }
    r
}

/// Some item of `s` holds the sink `id`.
pub open spec fn sink_in(s: Seq<PendingItem>, id: u64) -> bool {
    exists|j: int| 0 <= j < s.len() && (#[trigger] s[j]).sink == id
}

/// Every sink that `keep_others` keeps or `matching_sinks` cancels was
/// held by some item of `s`.
proof fn lemma_split_membership(s: Seq<PendingItem>, root: Seq<u8>)
    ensures
        forall|k: int|
            0 <= k < matching_sinks(s, root).len() ==> sink_in(
                s,
                #[trigger] matching_sinks(s, root)[k],
            ),
        forall|j: int|
            0 <= j < keep_others(s, root).len() ==> sink_in(
                s,
                (#[trigger] keep_others(s, root)[j]).sink,
            ),
    decreases s.len(),
{
    if s.len() > 0 {
        lemma_split_membership(s.drop_last(), root);
        let m = matching_sinks(s.drop_last(), root);
        let kept = keep_others(s.drop_last(), root);
        assert forall|k: int| 0 <= k < matching_sinks(s, root).len() implies sink_in(
            s,
            #[trigger] matching_sinks(s, root)[k],
        ) by {
            if s.last().root@ == root && k == matching_sinks(s, root).len() - 1 {
                assert(s[s.len() - 1].sink == matching_sinks(s, root)[k]);
            } else {
                assert(matching_sinks(s, root)[k] == m[k]);
                let j = choose|j: int| 0 <= j < s.drop_last().len() && (#[trigger] s.drop_last()[j]).sink == m[k];
                assert(s[j].sink == m[k]);
            }
        }
        assert forall|j: int| 0 <= j < keep_others(s, root).len() implies sink_in(
            s,
            (#[trigger] keep_others(s, root)[j]).sink,
        ) by {
            if s.last().root@ != root && j == keep_others(s, root).len() - 1 {
                assert(s[s.len() - 1].sink == keep_others(s, root)[j].sink);
            } else {
                assert(keep_others(s, root)[j] == kept[j]);
                let j2 = choose|j2: int| 0 <= j2 < s.drop_last().len() && (#[trigger] s.drop_last()[j2]).sink == kept[j].sink;
                assert(s[j2].sink == kept[j].sink);
            }
        }
    }
}

/// Under pairwise-distinct sinks, the cancelled sinks are pairwise
/// distinct and disjoint from everything that stays pending.
proof fn lemma_split_disjoint(s: Seq<PendingItem>, root: Seq<u8>)
    requires
        forall|i: int, j: int| 0 <= i < j < s.len() ==> s[i].sink != s[j].sink,
    ensures
        forall|k: int, l: int|
            0 <= k < l < matching_sinks(s, root).len() ==> matching_sinks(s, root)[k]
                != matching_sinks(s, root)[l],
        forall|k: int, j: int|
            0 <= k < matching_sinks(s, root).len() && 0 <= j < keep_others(s, root).len() ==> (
            #[trigger] keep_others(s, root)[j]).sink != #[trigger] matching_sinks(s, root)[k],
    decreases s.len(),
{
    if s.len() > 0 {
        let d = s.drop_last();
        assert forall|i: int, j: int| 0 <= i < j < d.len() implies d[i].sink != d[j].sink by {
            assert(d[i] == s[i] && d[j] == s[j]);
        }
        lemma_split_disjoint(d, root);
        lemma_split_membership(d, root);
        let m = matching_sinks(d, root);
        let kept = keep_others(d, root);
        // The last item's sink differs from every sink in the prefix.
        assert forall|id: u64| sink_in(d, id) implies id != s.last().sink by {
            let j = choose|j: int| 0 <= j < d.len() && (#[trigger] d[j]).sink == id;
            assert(s[j].sink == id);
            assert(s[j].sink != s[s.len() - 1].sink);
        }
        assert forall|k: int, l: int|
            0 <= k < l < matching_sinks(s, root).len() implies matching_sinks(s, root)[k]
            != matching_sinks(s, root)[l] by {
            if s.last().root@ == root && l == matching_sinks(s, root).len() - 1 {
                assert(matching_sinks(s, root)[k] == m[k]);
                assert(sink_in(d, m[k]));
            } else {
                assert(matching_sinks(s, root)[k] == m[k]);
                assert(matching_sinks(s, root)[l] == m[l]);
            }
        }
        assert forall|k: int, j: int|
            0 <= k < matching_sinks(s, root).len() && 0 <= j < keep_others(s, root).len() implies (
        #[trigger] keep_others(s, root)[j]).sink != #[trigger] matching_sinks(s, root)[k] by {
            if s.last().root@ == root {
                assert(keep_others(s, root)[j] == kept[j]);
                if k == matching_sinks(s, root).len() - 1 {
                    assert(sink_in(d, kept[j].sink));
                } else {
                    assert(matching_sinks(s, root)[k] == m[k]);
                }
            } else {
                assert(matching_sinks(s, root)[k] == m[k]);
                if j == keep_others(s, root).len() - 1 {
                    assert(keep_others(s, root)[j] == s.last());
                    assert(sink_in(d, m[k]));
                } else {
                    assert(keep_others(s, root)[j] == kept[j]);
                }
            }
        }
    }
}

/// Everything `keep_others` keeps has a different root.
proof fn lemma_keep_others_roots(s: Seq<PendingItem>, root: Seq<u8>)
    ensures
        forall|i: int|
            0 <= i < keep_others(s, root).len() ==> (#[trigger] keep_others(s, root)[i]).root@
                != root,
    decreases s.len(),
{
    if s.len() > 0 {
        lemma_keep_others_roots(s.drop_last(), root);
        let rest = keep_others(s.drop_last(), root);
        assert forall|i: int| 0 <= i < keep_others(s, root).len() implies (#[trigger] keep_others(
            s,
            root,
        )[i]).root@ != root by {
            if s.last().root@ == root {
                assert(keep_others(s, root)[i] == rest[i]);
            } else {
                if i < rest.len() {
                    assert(keep_others(s, root)[i] == rest[i]);
                } else {
                    assert(keep_others(s, root)[i] == s.last());
                }
            }
        }
    }
}

/// If no item matches, `keep_others` keeps everything and nothing is
/// cancelled.
proof fn lemma_keep_others_all(s: Seq<PendingItem>, root: Seq<u8>)
    requires
        forall|j: int| 0 <= j < s.len() ==> (#[trigger] s[j]).root@ != root,
    ensures
        keep_others(s, root) == s,
        matching_sinks(s, root) == Seq::<u64>::empty(),
    decreases s.len(),
{
    if s.len() > 0 {
        assert forall|j: int| 0 <= j < s.drop_last().len() implies (#[trigger] s.drop_last()[j]).root@
            != root by {
            assert(s.drop_last()[j] == s[j]);
        }
        lemma_keep_others_all(s.drop_last(), root);
        assert(s.last().root@ != root);
        assert(keep_others(s, root) =~= s);
    } else {
        assert(keep_others(s, root) =~= s);
    }
}

/// A promotion out of items that all avoid the sink `id` yields a state
/// that avoids it too.
proof fn lemma_promoted_excludes(
    pre: Seq<PendingItem>,
    random_mode: bool,
    active: Option<PendingItem>,
    post: Seq<PendingItem>,
    id: u64,
)
    requires
        promoted_from(pre, random_mode, active, post),
        forall|j: int| 0 <= j < pre.len() ==> (#[trigger] pre[j]).sink != id,
    ensures
        active matches Some(a) ==> a.sink != id,
        forall|j: int| 0 <= j < post.len() ==> (#[trigger] post[j]).sink != id,
{
    if pre.len() > 0 {
        let i = choose|i: int|
            0 <= i < pre.len() && active == Some(pre[i]) && post == pre.remove(i) && (!random_mode
                ==> i == 0);
        assert forall|j: int| 0 <= j < post.len() implies (#[trigger] post[j]).sink != id by {
            assert(post[j] == if j < i {
                pre[j]
            } else {
                pre[j + 1]
            });
        }
    }
}

/// A promotion out of a sequence of non-matching items yields a
/// non-matching active job and pending queue.
proof fn promoted_roots_differ(
    pre: Seq<PendingItem>,
    random_mode: bool,
    active: Option<PendingItem>,
    post: Seq<PendingItem>,
    root: Seq<u8>,
)
    requires
        promoted_from(pre, random_mode, active, post),
        forall|i: int| 0 <= i < pre.len() ==> (#[trigger] pre[i]).root@ != root,
    ensures
        forall|i: int| 0 <= i < post.len() ==> (#[trigger] post[i]).root@ != root,
        active matches Some(a) ==> a.root@ != root,
{
    if pre.len() > 0 {
        let i = choose|i: int|
            0 <= i < pre.len() && active == Some(pre[i]) && post == pre.remove(i) && (!random_mode
                ==> i == 0);
        assert forall|j: int| 0 <= j < post.len() implies (#[trigger] post[j]).root@ != root by {
            assert(post[j] == if j < i {
                pre[j]
            } else {
                pre[j + 1]
            });
        }
    }
}

/// Supports the freshness clause of `enqueue`.
proof fn lemma_has_sink_step(
    pre: WorkQueue,
    post: WorkQueue,
    orig: WorkQueue,
    q: Seq<PendingItem>,
    item: PendingItem,
    s: u64,
    id: u64,
)
    requires
        item.sink == id,
        q == orig.pending@.push(item),
        pre.active == orig.active,
        pre.pending@ == q,
        orig.wf(),
        orig.active is Some ==> post.active == orig.active && post.pending@ == q,
        orig.active is None ==> promoted_from(q, orig.random_mode, post.active, post.pending@),
    ensures
        post.has_sink(s) <==> (orig.has_sink(s) || s == id),
{
    if orig.active is Some {
        if post.has_sink(s) {
            if post.active matches Some(a) && a.sink == s {
                assert(orig.has_sink(s));
            } else {
                let i = choose|i: int|
                    0 <= i < post.pending@.len() && (#[trigger] post.pending@[i]).sink == s;
                if i < orig.pending@.len() {
                    assert(orig.pending@[i].sink == s);
                    assert(orig.has_sink(s));
                } else {
                    assert(s == id);
                }
            }
        }
        if orig.has_sink(s) {
            if orig.active matches Some(a) && a.sink == s {
                assert(post.has_sink(s));
            } else {
                let i = choose|i: int|
                    0 <= i < orig.pending@.len() && (#[trigger] orig.pending@[i]).sink == s;
                assert(post.pending@[i].sink == s);
                assert(post.has_sink(s));
            }
        }
        if s == id {
            assert(post.pending@[q.len() - 1].sink == id);
            assert(post.has_sink(s));
        }
    } else {
        assert(orig.pending@.len() == 0);
        assert(q.len() == 1);
        let i = choose|i: int|
            0 <= i < q.len() && post.active == Some(q[i]) && post.pending@ == q.remove(i) && (
            !orig.random_mode ==> i == 0);
        assert(i == 0);
        assert(post.active == Some(item));
        assert(post.pending@.len() == 0);
        if post.has_sink(s) {
            assert(s == id);
        }
        assert(post.has_sink(id));
        if orig.has_sink(s) {
            assert(false);
        }
    }
}

/// First-in, first-out: with random selection off, any promotion moves
/// the oldest pending item into the active slot and leaves the rest in
/// order, so promotion order equals enqueue order.
pub proof fn lemma_fifo_promotion(
    pre: Seq<PendingItem>,
    active: Option<PendingItem>,
    post: Seq<PendingItem>,
)
    requires
        promoted_from(pre, false, active, post),
        pre.len() > 0,
    ensures
        active == Some(pre[0]),
        post == pre.skip(1),
{
    let i = choose|i: int|
        0 <= i < pre.len() && active == Some(pre[i]) && post == pre.remove(i) && (!false ==> i
            == 0);
    assert(i == 0);
    assert(pre.remove(0) =~= pre.skip(1));
}

/// Exactly-once support: every sink identifier in a well-formed queue is
/// below the mint counter, so one that has been signalled and removed can
/// never be minted again — `enqueue` hands out exactly `next_sink`, which
/// only grows.
pub proof fn lemma_sink_never_reissued(q: WorkQueue, signalled: u64, fresh: u64)
    requires
        q.wf(),
        signalled < q.next_sink,
        !q.has_sink(signalled),
        fresh >= q.next_sink,
    ensures
        fresh != signalled,
{
}

} // verus!
