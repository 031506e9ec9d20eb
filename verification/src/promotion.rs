//! Enabling chains automatically: a candidate that proves itself in enough rounds in a row is enabled,
//! and what was enabled is never taken back here.
use crate::autoenable::{AutoEnableConfig, Candidate, ProbeRound};
use crate::chain::ChainView;
use crate::registry::Registry;
use crate::registry_model::{Moment, RegistryView};
use crate::state::AutoChainState;
use crate::table::IdTable;
use vstd::prelude::*;

verus! {

broadcast use crate::table::IdTable::lemma_slots;

/// How a candidate has done so far.
#[derive(Clone, Copy, Debug, PartialEq, Eq, Structural)]
pub struct CandidateProgress {
    /// The rounds in a row in which it qualified, up to the last one.
    pub rounds: usize,
    pub last_qualified: bool,
    /// How many probes of the last round failed.
    pub last_failures: usize,
}

/// What is shown of the automatic choice.
#[derive(Clone, Copy, Debug, PartialEq, Eq, Structural)]
pub struct AutoEnableStatus {
    pub chains: usize,
    pub candidates: usize,
    pub pending: usize,
    pub capped: bool,
    pub last_scan_at: u64,
    pub promotions_total: u64,
}

/// Keeps track of the candidates over the rounds.
pub struct AutoEnableManager {
    limits: AutoEnableConfig,
    cursor: usize,
    progress: IdTable<CandidateProgress>,
    candidates: usize,
    last_scan_at: u64,
    promotions: u64,
}

/// What the manager knows, as contracts speak of it.
pub ghost struct ManagerView {
    pub limits: AutoEnableConfig,
    pub cursor: usize,
    pub progress: Map<u64, CandidateProgress>,
    pub candidates: usize,
    pub last_scan_at: u64,
    pub promotions: u64,
}

pub open spec fn has_candidate(pool: Seq<Candidate>, chain_id: u64) -> bool {
    exists|i: int| 0 <= i < pool.len() && (#[trigger] pool[i]).chain_id == chain_id
}

/// The progress of a candidate after a round: a failed round sets the count back to nothing.
pub open spec fn after_round(before: Option<CandidateProgress>, round: ProbeRound) -> CandidateProgress {
    let had: usize = match before {
        Some(p) => p.rounds,
        None => 0,
    };
    CandidateProgress {
        rounds: if !round.qualified {
            0
        } else if had == usize::MAX {
            usize::MAX
        } else {
            (had + 1) as usize
        },
        last_qualified: round.qualified,
        last_failures: round.failures,
    }
}

impl ManagerView {
    pub open spec fn progress_of(self, chain_id: u64) -> Option<CandidateProgress> {
        if self.progress.contains_key(chain_id) {
            Some(self.progress[chain_id])
        } else {
            None
        }
    }

    /// A candidate that has proved itself.
    pub open spec fn is_ripe(self, chain_id: u64) -> bool {
        self.progress.contains_key(chain_id) && self.progress[chain_id].rounds
            >= self.limits.promote_after_rounds
    }

    /// Where the next batch begins.
    pub open spec fn start(self, size: nat) -> int {
        self.cursor as int % size as int
    }

    /// How many candidates a batch takes.
    pub open spec fn batch_size(self, size: nat) -> nat {
        if size < self.limits.probe_batch {
            size
        } else {
            self.limits.probe_batch as nat
        }
    }

    /// With a round taken note of.
    pub open spec fn with_round(self, round: ProbeRound) -> ManagerView {
        ManagerView {
            progress: self.progress.insert(
                round.chain_id,
                after_round(self.progress_of(round.chain_id), round),
            ),
            ..self
        }
    }

    /// After several rounds.
    pub open spec fn with_rounds(self, rounds: Seq<ProbeRound>) -> ManagerView
        decreases rounds.len(),
    {
        if rounds.len() == 0 {
            self
        } else {
            self.with_rounds(rounds.drop_last()).with_round(rounds.last())
        }
    }
}

/// The chains that are enabled automatically.
pub open spec fn enabled_chains(v: RegistryView) -> Set<u64> {
    v.auto_pinned.dom().filter(|k: u64| v.auto_pinned[k])
}

/// The registry with one more chain enabled automatically; a chain that was unpinned or switched off by
/// hand stays as it is.
pub open spec fn with_enabled(v: RegistryView, chain_id: u64) -> RegistryView {
    if crate::registry_model::is_tombstone(v.chain_override(chain_id)) {
        v
    } else {
        let noted = RegistryView { auto_pinned: v.auto_pinned.insert(chain_id, true), ..v };
        if noted.chains.contains_key(chain_id) {
            noted.with_chain(
                chain_id,
                ChainView { pinned: noted.is_pinned(chain_id), ..noted.chains[chain_id] },
            )
        } else {
            noted
        }
    }
}

/// The registry with all the given chains enabled in turn.
pub open spec fn with_all_enabled(v: RegistryView, ids: Seq<u64>) -> RegistryView
    decreases ids.len(),
{
    if ids.len() == 0 {
        v
    } else {
        with_enabled(with_all_enabled(v, ids.drop_last()), ids.last())
    }
}

pub open spec fn narrowed(n: nat) -> u32 {
    if n > u32::MAX {
        u32::MAX
    } else {
        n as u32
    }
}

fn narrow(n: usize) -> (r: u32)
    ensures
        r == narrowed(n as nat),
{
    if n > 0xffff_ffff {
        0xffff_ffff
    } else {
        n as u32
    }
}

fn in_pool(pool: &Vec<Candidate>, chain_id: u64) -> (r: bool)
    ensures
        r == has_candidate(pool@, chain_id),
{
    let mut i: usize = 0;
    while i < pool.len()
        invariant
            i <= pool@.len(),
            forall|k: int| 0 <= k < i ==> (#[trigger] pool@[k]).chain_id != chain_id,
        decreases pool@.len() - i,
    {
        if pool[i].chain_id == chain_id {
            return true;
        }
        i = i + 1;
    }
    false
}

impl AutoEnableManager {
    pub closed spec fn view(&self) -> ManagerView {
        ManagerView {
            limits: self.limits,
            cursor: self.cursor,
            progress: self.progress@,
            candidates: self.candidates,
            last_scan_at: self.last_scan_at,
            promotions: self.promotions,
        }
    }

    pub closed spec fn wf(&self) -> bool {
        self.progress.wf()
    }

    pub fn new(limits: AutoEnableConfig) -> (m: Self)
        ensures
            m.wf(),
            m@ == (ManagerView {
                limits,
                cursor: 0,
                progress: Map::empty(),
                candidates: 0,
                last_scan_at: 0,
                promotions: 0,
            }),
    {
        AutoEnableManager {
            limits,
            cursor: 0,
            progress: IdTable::new(),
            candidates: 0,
            last_scan_at: 0,
            promotions: 0,
        }
    }

    /// Begins a scan: the candidates to probe now, by their place. Batches follow each other round the
    /// pool. What is known of chains that no longer come into question is dropped.
    pub fn begin_scan(&mut self, pool: &Vec<Candidate>, now: u64) -> (batch: Vec<usize>)
        requires
            old(self).wf(),
        ensures
            final(self).wf(),
            batch@.len() == old(self)@.batch_size(pool@.len()),
            forall|i: int|
                0 <= i < batch@.len() ==> #[trigger] batch@[i] == (old(self)@.start(pool@.len())
                    + i) % pool@.len() as int,
            final(self)@ == (ManagerView {
                cursor: if pool@.len() == 0 {
                    0
                } else {
                    ((old(self)@.start(pool@.len()) + batch@.len()) % pool@.len() as int) as usize
                },
                progress: old(self)@.progress.restrict(
                    Set::new(|k: u64| has_candidate(pool@, k)),
                ),
                candidates: pool@.len() as usize,
                last_scan_at: now,
                ..old(self)@
            }),
    {
        let ghost kept = Set::new(|k: u64| has_candidate(pool@, k));
        let ghost before = self.progress@;
        let ghost order = self.progress.order();
        let mut progress: IdTable<CandidateProgress> = IdTable::new();
        let mut i: usize = 0;
        while i < self.progress.len()
            invariant
                i <= order.len(),
                order == self.progress.order(),
                before == self.progress@,
                self.progress.wf(),
                self@ == old(self)@,
                progress.wf(),
                kept == Set::new(|k: u64| has_candidate(pool@, k)),
                forall|k: u64| #[trigger]
                    progress@.contains_key(k) <==> kept.contains(k) && order.take(
                        i as int,
                    ).contains(k),
                forall|k: u64| #[trigger]
                    progress@.contains_key(k) ==> before.contains_key(k) && progress@[k]
                        == before[k],
            decreases order.len() - i,
        {
            let id: u64 = self.progress.key_at(i);
            let ghost had = progress@;
            assert(order.take(i + 1) =~= order.take(i as int).push(id));
            if in_pool(pool, id) {
                let p: CandidateProgress = *self.progress.value_at(i);
                progress.insert(id, p);
            }
            proof {
                assert forall|k: u64| #[trigger] progress@.contains_key(k) <==> kept.contains(k)
                    && order.take(i + 1).contains(k) by {
                    crate::registry_model::lemma_push_contains(order.take(i as int), id, k);
                    assert(had.contains_key(k) <==> kept.contains(k) && order.take(
                        i as int,
                    ).contains(k));
                }
            }
            i = i + 1;
        }
        proof {
            assert(order.take(order.len() as int) =~= order);
            assert(progress@ =~= before.restrict(kept));
        }
        self.progress = progress;
        self.candidates = pool.len();
        self.last_scan_at = now;
        let size: usize = pool.len();
        let mut batch: Vec<usize> = Vec::new();
        if size == 0 {
            self.cursor = 0;
            return batch;
        }
        let start: usize = self.cursor % size;
        let take: usize = if size < self.limits.probe_batch {
            size
        } else {
            self.limits.probe_batch
        };
        let mut at: usize = start;
        proof {
            vstd::arithmetic::div_mod::lemma_small_mod(start as nat, size as nat);
        }
        while batch.len() < take
            invariant
                0 < size,
                start < size,
                take <= size,
                batch@.len() <= take,
                at == (start + batch@.len()) % size as int,
                forall|i: int|
                    0 <= i < batch@.len() ==> #[trigger] batch@[i] == (start + i) % size as int,
            decreases take - batch@.len(),
        {
            proof {
                let n = start + batch@.len();
                vstd::arithmetic::div_mod::lemma_mod_bound(n, size as int);
                vstd::arithmetic::div_mod::lemma_add_mod_noop_right(1, n, size as int);
                if at + 1 == size {
                    vstd::arithmetic::div_mod::lemma_mod_self_0(size as int);
                } else {
                    vstd::arithmetic::div_mod::lemma_small_mod((at + 1) as nat, size as nat);
                }
            }
            batch.push(at);
            at = if at + 1 == size {
                0
            } else {
                at + 1
            };
        }
        self.cursor = at;
        batch
    }

    /// Takes note of a round of probes. Gives whether the candidate has proved itself.
    pub fn take_round(&mut self, round: &ProbeRound) -> (ripe: bool)
        requires
            old(self).wf(),
        ensures
            final(self).wf(),
            final(self)@ == old(self)@.with_round(*round),
            ripe == final(self)@.is_ripe(round.chain_id),
    {
        let had: usize = match self.progress.get(round.chain_id) {
            Some(p) => p.rounds,
            None => 0,
        };
        let rounds: usize = if round.qualified {
            had.saturating_add(1)
        } else {
            0
        };
        self.progress.insert(
            round.chain_id,
            CandidateProgress {
                rounds,
                last_qualified: round.qualified,
                last_failures: round.failures,
            },
        );
        rounds >= self.limits.promote_after_rounds
    }

    /// How a candidate has done so far.
    pub fn candidate_progress(&self, chain_id: u64) -> (p: Option<CandidateProgress>)
        requires
            self.wf(),
        ensures
            p == self@.progress_of(chain_id),
    {
        match self.progress.get(chain_id) {
            Some(p) => Some(*p),
            None => None,
        }
    }

    /// The candidates that have proved themselves and wait to be enabled.
    pub fn pending(&self) -> (ids: Vec<u64>)
        requires
            self.wf(),
        ensures
            ids@.no_duplicates(),
            forall|k: u64| #[trigger] ids@.contains(k) <==> self@.is_ripe(k),
    {
        let ghost order = self.progress.order();
        let mut ids: Vec<u64> = Vec::new();
        let mut i: usize = 0;
        while i < self.progress.len()
            invariant
                i <= order.len(),
                order == self.progress.order(),
                self.wf(),
                ids@.no_duplicates(),
                forall|k: u64| #[trigger]
                    ids@.contains(k) <==> order.take(i as int).contains(k) && self@.is_ripe(k),
            decreases order.len() - i,
        {
            let id: u64 = self.progress.key_at(i);
            let ghost had = ids@;
            proof {
                assert(order.take(i + 1) =~= order.take(i as int).push(id));
                assert(!order.take(i as int).contains(id)) by {
                    if order.take(i as int).contains(id) {
                        let a = choose|a: int| 0 <= a < i && order.take(i as int)[a] == id;
                        assert(order[a] == order[i as int]);
                    }
                }
                assert(!ids@.contains(id));
            }
            if self.progress.value_at(i).rounds >= self.limits.promote_after_rounds {
                ids.push(id);
            }
            proof {
                assert forall|k: u64| #[trigger] ids@.contains(k) <==> order.take(i + 1).contains(k)
                    && self@.is_ripe(k) by {
                    crate::registry_model::lemma_push_contains(order.take(i as int), id, k);
                    crate::registry_model::lemma_push_contains(had, id, k);
                    assert(had.contains(k) <==> order.take(i as int).contains(k) && self@.is_ripe(
                        k,
                    ));
                }
            }
            i = i + 1;
        }
        assert(order.take(order.len() as int) =~= order);
        ids
    }

    /// Whether a candidate is to be enabled now, and what is to be stored of it first: it has proved
    /// itself, the store takes writes, there is room for another chain, and nobody has unpinned the
    /// chain or switched it off by hand.
    pub fn plan_promotion(
        &self,
        registry: &Registry,
        round: &ProbeRound,
        endpoints: usize,
        writable: bool,
        now: u64,
    ) -> (record: Option<AutoChainState>)
        requires
            self.wf(),
            registry.wf(),
        ensures
            record is Some <==> (writable && self@.is_ripe(round.chain_id) && enabled_chains(
                registry@,
            ).len() < self@.limits.max_chains && !crate::registry_model::is_tombstone(
                registry@.chain_override(round.chain_id),
            )),
            record matches Some(r) ==> r.enabled_at == now && r.endpoints == narrowed(
                endpoints as nat,
            ) && r.active_seen == narrowed(round.active_endpoints as nat) && (if round.heads@.len()
                == 0 {
                r.head == 0
            } else {
                crate::autoenable::is_greatest(round.heads@, r.head)
            }),
    {
        if !writable {
            return None;
        }
        let ripe: bool = match self.progress.get(round.chain_id) {
            Some(p) => p.rounds >= self.limits.promote_after_rounds,
            None => false,
        };
        if !ripe || AutoEnableManager::enabled_count(registry) >= self.limits.max_chains {
            return None;
        }
        let o = registry.runtime_chain_override(round.chain_id);
        if o.pinned == Some(false) || o.disabled == Some(true) {
            return None;
        }
        let head: u64 = match crate::autoenable::greatest(&round.heads) {
            Some(max) => max,
            None => 0,
        };
        Some(
            AutoChainState {
                enabled_at: now,
                endpoints: narrow(endpoints),
                active_seen: narrow(round.active_endpoints),
                head,
            },
        )
    }

    fn enabled_count(registry: &Registry) -> (n: usize)
        requires
            registry.wf(),
        ensures
            n == enabled_chains(registry@).len(),
    {
        let ids = registry.auto_chain_ids();
        proof {
            ids@.unique_seq_to_set();
            assert(ids@.to_set() =~= enabled_chains(registry@));
        }
        ids.len()
    }

    /// Enables a candidate whose record has been stored: the chain is pinned and taken into memory, so
    /// that its endpoints are probed from now on. Gives whether it was enabled.
    pub fn promote(&mut self, registry: &mut Registry, chain_id: u64, at: Moment) -> (r: bool)
        requires
            old(self).wf(),
            old(registry).wf(),
            at.wf(),
        ensures
            final(self).wf(),
            final(registry).wf(),
            r == !crate::registry_model::is_tombstone(old(registry)@.chain_override(chain_id)),
            final(registry)@ == (if r {
                with_enabled(old(registry)@, chain_id).resolved(chain_id, at)
            } else {
                old(registry)@
            }),
            final(self)@ == (if r {
                ManagerView {
                    progress: old(self)@.progress.remove(chain_id),
                    promotions: if old(self)@.promotions == u64::MAX {
                        u64::MAX
                    } else {
                        (old(self)@.promotions + 1) as u64
                    },
                    ..old(self)@
                }
            } else {
                old(self)@
            }),
    {
        if !registry.set_auto_pinned(chain_id, true) {
            return false;
        }
        assert(registry@ == with_enabled(old(registry)@, chain_id));
        let _ = registry.resolve_for_request(chain_id, at);
        let _ = self.progress.remove(chain_id);
        self.promotions = self.promotions.saturating_add(1);
        true
    }

    /// Enables the stored chains again after a start. Gives how many of them were enabled.
    pub fn preheat(registry: &mut Registry, chain_ids: &Vec<u64>) -> (n: usize)
        requires
            old(registry).wf(),
        ensures
            final(registry).wf(),
            final(registry)@ == with_all_enabled(old(registry)@, chain_ids@),
            n == chain_ids@.filter(
                |id: u64|
                    !crate::registry_model::is_tombstone(old(registry)@.chain_override(id)),
            ).len(),
    {
        let ghost start = registry@;
        let ghost welcome = |id: u64|
            !crate::registry_model::is_tombstone(start.chain_override(id));
        let mut n: usize = 0;
        let mut i: usize = 0;
        proof {
            reveal(Seq::filter);
            assert(chain_ids@.take(0) =~= Seq::<u64>::empty());
        }
        while i < chain_ids.len()
            invariant
                i <= chain_ids@.len(),
                n <= i,
                registry.wf(),
                start == old(registry)@,
                registry@ == with_all_enabled(start, chain_ids@.take(i as int)),
                registry@.chain_overrides == start.chain_overrides,
                welcome == (|id: u64|
                    !crate::registry_model::is_tombstone(start.chain_override(id))),
                n == chain_ids@.take(i as int).filter(welcome).len(),
            decreases chain_ids@.len() - i,
        {
            proof {
                reveal(Seq::filter);
                assert(chain_ids@.take(i + 1).drop_last() =~= chain_ids@.take(i as int));
            }
            let ghost before = registry@;
            let id: u64 = chain_ids[i];
            if registry.set_auto_pinned(id, true) {
                n = n + 1;
            }
            assert(registry@ == with_enabled(before, id));
            i = i + 1;
        }
        assert(chain_ids@.take(chain_ids@.len() as int) =~= chain_ids@);
        n
    }

    /// What is shown of the automatic choice.
    pub fn status(&self, registry: &Registry) -> (s: AutoEnableStatus)
        requires
            self.wf(),
            registry.wf(),
        ensures
            s.chains == enabled_chains(registry@).len(),
            s.candidates == self@.candidates,
            s.pending == self@.progress.dom().filter(|k: u64| self@.is_ripe(k)).len(),
            s.capped == (enabled_chains(registry@).len() >= self@.limits.max_chains),
            s.last_scan_at == self@.last_scan_at,
            s.promotions_total == self@.promotions,
    {
        let waiting = self.pending();
        proof {
            waiting@.unique_seq_to_set();
            assert(waiting@.to_set() =~= self@.progress.dom().filter(|k: u64| self@.is_ripe(k)));
        }
        let chains: usize = AutoEnableManager::enabled_count(registry);
        AutoEnableStatus {
            chains,
            candidates: self.candidates,
            pending: waiting.len(),
            capped: chains >= self.limits.max_chains,
            last_scan_at: self.last_scan_at,
            promotions_total: self.promotions,
        }
    }
}

/// No promotion takes a chain back that was enabled before.
pub proof fn lemma_promotion_only_adds(v: RegistryView, chain_id: u64, at: Moment, other: u64)
    requires
        enabled_chains(v).contains(other),
    ensures
        enabled_chains(with_enabled(v, chain_id).resolved(chain_id, at)).contains(other),
{
    let w = with_enabled(v, chain_id);
    assert(enabled_chains(w).contains(other));
    assert(w.resolved(chain_id, at).auto_pinned == w.auto_pinned);
}

/// A start enables every stored chain again that was not unpinned or switched off by hand, and takes
/// none back.
pub proof fn lemma_start_restores_all(v: RegistryView, ids: Seq<u64>, chain_id: u64)
    ensures
        with_all_enabled(v, ids).chain_overrides == v.chain_overrides,
        ids.contains(chain_id) && !crate::registry_model::is_tombstone(v.chain_override(chain_id))
            ==> enabled_chains(with_all_enabled(v, ids)).contains(chain_id),
        enabled_chains(v).contains(chain_id) ==> enabled_chains(
            with_all_enabled(v, ids),
        ).contains(chain_id),
        crate::registry_model::is_tombstone(v.chain_override(chain_id)) && !enabled_chains(
            v,
        ).contains(chain_id) ==> !enabled_chains(with_all_enabled(v, ids)).contains(chain_id),
    decreases ids.len(),
{
    if ids.len() > 0 {
        lemma_start_restores_all(v, ids.drop_last(), chain_id);
        if ids.contains(chain_id) && !ids.drop_last().contains(chain_id) {
            let i = choose|i: int| 0 <= i < ids.len() && ids[i] == chain_id;
            assert(i == ids.len() - 1) by {
                if i < ids.len() - 1 {
                    assert(ids.drop_last()[i] == chain_id);
                }
            }
        }
    }
}

/// A candidate proves itself only by qualifying in as many rounds in a row as are asked for: after a
/// failed round it takes all of them again.
pub proof fn lemma_rounds_must_be_consecutive(
    m: ManagerView,
    failed: ProbeRound,
    rounds: Seq<ProbeRound>,
)
    requires
        !failed.qualified,
        forall|i: int| 0 <= i < rounds.len() ==> (#[trigger] rounds[i]).chain_id == failed.chain_id,
    ensures
        m.with_round(failed).with_rounds(rounds).progress_of(failed.chain_id) is Some,
        m.with_round(failed).with_rounds(rounds).progress_of(failed.chain_id)->Some_0.rounds
            <= rounds.len(),
        m.with_round(failed).with_rounds(rounds).limits == m.limits,
        rounds.len() < m.limits.promote_after_rounds ==> !m.with_round(failed).with_rounds(
            rounds,
        ).is_ripe(failed.chain_id),
    decreases rounds.len(),
{
    if rounds.len() > 0 {
        let most = rounds.drop_last();
        assert forall|i: int| 0 <= i < most.len() implies (#[trigger] most[i]).chain_id
            == failed.chain_id by {
            assert(rounds[i].chain_id == failed.chain_id);
        }
        lemma_rounds_must_be_consecutive(m, failed, most);
        assert(rounds.last().chain_id == failed.chain_id);
    }
}

} // verus!
