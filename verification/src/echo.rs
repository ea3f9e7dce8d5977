//! Echo minimisation: the propagation policy of the fabric.
//!
//! When a register changes, the change ripples through the fabric as an
//! echo: an XOR delta queued at its source and later applied to the
//! registers that depend on it. Propagation is gated by sector bloom
//! filters, damped for cold layers (re-queued for the next rotation) and
//! cancelled when the delta would leave a dependent with nothing set.

use vstd::prelude::*;
use std::collections::VecDeque;
use vstd::string::StringExecFns;
use crate::address::{RegisterAddress, field_of};
use crate::bitslice::{BitslicedLane, words_pop, words_xor};
use crate::bloom::{BloomRegistry, SectorKey, key_word};
use crate::register::{RegisterModel, model_after_delta};
use crate::store::RegisterStore;

verus! {

broadcast use vstd::string::group_string_axioms;

/// Policy for echo propagation.
#[derive(Clone, Copy, Debug, PartialEq, Eq, Structural)]
pub struct EchoPolicy {
    /// Propagate deltas, not full state.
    pub minimal: bool,
    /// Skip dependents whose sector filter rules the source out.
    pub bloom_gated: bool,
    /// Re-queue echoes aimed at cold layers (above 12) for the next cycle.
    pub rotation_damped: bool,
    /// Drop an echo whose delta XOR the dependent's payload has no bit set.
    pub xor_cancel: bool,
    /// Maximum propagation depth (0 = unlimited).
    pub max_depth: u8,
    /// Maximum queue length; further echoes are dropped.
    pub max_queue_size: usize,
}

impl Default for EchoPolicy {
    /// Every mechanism on, unlimited depth, a queue of 1024.
    fn default() -> (r: Self)
        ensures
            r.minimal,
            r.bloom_gated,
            r.rotation_damped,
            r.xor_cancel,
            r.max_depth == 0,
            r.max_queue_size == 1024,
    {
        EchoPolicy {
            minimal: true,
            bloom_gated: true,
            rotation_damped: true,
            xor_cancel: true,
            max_depth: 0,
            max_queue_size: 1024,
        }
    }
}

/// A delta waiting to be propagated.
#[derive(Debug)]
pub struct PendingEcho {
    /// The XOR difference from old to new state.
    pub delta: BitslicedLane,
    /// Where the change originated.
    pub source_address: RegisterAddress,
    /// Current propagation depth.
    pub depth: u8,
    /// Target layer of the echo.
    pub target_layer: u16,
    /// Timestamp, for ordering.
    pub timestamp: u64,
}

/// The abstract value of a pending echo.
pub struct PendingEchoModel {
    pub delta_words: Seq<u64>,
    pub delta_len: nat,
    pub source: RegisterAddress,
    pub depth: u8,
    pub target_layer: u16,
    pub timestamp: u64,
}

impl View for PendingEcho {
    type V = PendingEchoModel;

    open spec fn view(&self) -> PendingEchoModel {
        PendingEchoModel {
            delta_words: self.delta.word_seq(),
            delta_len: self.delta.bit_len(),
            source: self.source_address,
            depth: self.depth,
            target_layer: self.target_layer,
            timestamp: self.timestamp,
        }
    }
}

impl Clone for PendingEcho {
    /// An echo with the same fields and a copy of the delta.
    fn clone(&self) -> (r: Self)
        ensures
            r@ == self@,
    {
        PendingEcho {
            delta: self.delta.clone(),
            source_address: self.source_address,
            depth: self.depth,
            target_layer: self.target_layer,
            timestamp: self.timestamp,
        }
    }
}

/// Counters of what propagation did.
#[derive(Clone, Copy, Debug, PartialEq, Eq, Structural)]
pub struct EchoStats {
    /// Echoes applied to a dependent.
    pub propagated: u64,
    /// Echoes cancelled by XOR.
    pub canceled: u64,
    /// Dependents skipped by bloom gating.
    pub bloom_gated: u64,
    /// Echoes damped for a cold layer.
    pub rotation_damped: u64,
    /// Echoes dropped because the queue was full.
    pub dropped: u64,
    /// Total delta bits propagated.
    pub bytes_propagated: u64,
}

/// All counters zero.
pub open spec fn zero_stats() -> EchoStats {
    EchoStats {
        propagated: 0,
        canceled: 0,
        bloom_gated: 0,
        rotation_damped: 0,
        dropped: 0,
        bytes_propagated: 0,
    }
}

impl Default for EchoStats {
    /// All counters zero.
    fn default() -> (r: Self)
        ensures
            r == zero_stats(),
    {
        EchoStats {
            propagated: 0,
            canceled: 0,
            bloom_gated: 0,
            rotation_damped: 0,
            dropped: 0,
            bytes_propagated: 0,
        }
    }
}

/// `x + 1`, wrapping.
pub open spec fn bump(x: u64) -> u64 {
    vstd::wrapping::u64_specs::wrapping_add(x, 1)
}

/// The sector (spine, layer, ring, sector) of an address.
pub open spec fn sector_of(a: RegisterAddress) -> SectorKey {
    SectorKey {
        spine: field_of(a@, 0),
        layer: field_of(a@, 16),
        ring: field_of(a@, 32),
        sector: field_of(a@, 48),
    }
}

/// The state that propagation transforms: the store, the counters and the
/// echoes re-queued so far.
pub struct PropagationState {
    pub store: Map<u128, RegisterModel>,
    pub stats: EchoStats,
    pub requeued: Seq<PendingEchoModel>,
}

/// Bloom gating turns a dependent away: its sector has a filter, and the
/// filter rules the source out.
pub open spec fn gated_out(gate: BloomRegistry, dep: RegisterAddress, source: RegisterAddress) -> bool {
    gate.blooms().contains_key(key_word(sector_of(dep))) && !gate.blooms()[key_word(
        sector_of(dep),
    )].spec_might_contain(source@)
}

/// The effect of echo `e` on dependent `dep`, with `remaining` echoes
/// still queued behind it; a re-queued echo is kept only while the queue
/// (those `remaining` plus the echoes already re-queued) stays under its
/// limit.
pub open spec fn dependent_step(
    policy: EchoPolicy,
    gate: BloomRegistry,
    e: PendingEchoModel,
    remaining: nat,
    s: PropagationState,
    dep: RegisterAddress,
) -> PropagationState {
    if policy.bloom_gated && gated_out(gate, dep, e.source) {
        PropagationState { stats: EchoStats { bloom_gated: bump(s.stats.bloom_gated), ..s.stats }, ..s }
    } else if !s.store.contains_key(dep@) {
        s
    } else if policy.xor_cancel && words_pop(words_xor(e.delta_words, s.store[dep@].words)) == 0 {
        PropagationState { stats: EchoStats { canceled: bump(s.stats.canceled), ..s.stats }, ..s }
    } else if policy.rotation_damped && e.target_layer > 12 {
        PropagationState {
            stats: EchoStats { rotation_damped: bump(s.stats.rotation_damped), ..s.stats },
            requeued: if remaining + s.requeued.len() < policy.max_queue_size {
                s.requeued.push(
                    PendingEchoModel { depth: vstd::wrapping::u8_specs::wrapping_add(e.depth, 1), ..e },
                )
            } else {
                s.requeued
            },
            ..s
        }
    } else {
        PropagationState {
            store: s.store.insert(dep@, model_after_delta(s.store[dep@], e.delta_words)),
            stats: EchoStats {
                propagated: bump(s.stats.propagated),
                bytes_propagated: vstd::wrapping::u64_specs::wrapping_add(
                    s.stats.bytes_propagated,
                    e.delta_len as u64,
                ),
                ..s.stats
            },
            ..s
        }
    }
}

/// With bloom gating on, a dependent at address `(s, l, r, se, sh, t)` is
/// skipped (only the gated counter moves) exactly when the bloom filter of
/// the dependent's own sector `(s, l, r, se)` exists and rules the echo's
/// source out; otherwise the gated counter is left alone. The filter of the
/// source's sector plays no part.
pub proof fn lemma_gating_by_dependent_sector(
    policy: EchoPolicy,
    gate: BloomRegistry,
    e: PendingEchoModel,
    remaining: nat,
    st: PropagationState,
    dep: RegisterAddress,
    s: u16,
    l: u16,
    r: u16,
    se: u16,
    sh: u16,
    t: u16,
)
    requires
        policy.bloom_gated,
        dep@ == crate::address::pack_fields(s, l, r, se, sh, t),
    ensures
        ({
            let k = key_word(SectorKey { spine: s, layer: l, ring: r, sector: se });
            let excluded = gate.blooms().contains_key(k) && !gate.blooms()[k].spec_might_contain(e.source@);
            &&& excluded ==> dependent_step(policy, gate, e, remaining, st, dep) == (PropagationState {
                stats: EchoStats { bloom_gated: bump(st.stats.bloom_gated), ..st.stats },
                ..st
            })
            &&& !excluded ==> dependent_step(policy, gate, e, remaining, st, dep).stats.bloom_gated
                == st.stats.bloom_gated
        }),
{
    crate::address::lemma_pack_fields(s, l, r, se, sh, t);
    assert(sector_of(dep) == SectorKey { spine: s, layer: l, ring: r, sector: se });
}

/// The effect of echo `e` on its first `k` dependents, in order.
pub open spec fn dependents_fold(
    policy: EchoPolicy,
    gate: BloomRegistry,
    e: PendingEchoModel,
    remaining: nat,
    s: PropagationState,
    deps: Seq<RegisterAddress>,
    k: int,
) -> PropagationState
    decreases k,
{
    if k <= 0 {
        s
    } else {
        dependent_step(
            policy,
            gate,
            e,
            remaining,
            dependents_fold(policy, gate, e, remaining, s, deps, k - 1),
            deps[k - 1],
        )
    }
}

/// An echo at or past the depth limit is dropped unprocessed.
pub open spec fn echo_skipped(policy: EchoPolicy, e: PendingEchoModel) -> bool {
    policy.max_depth > 0 && e.depth >= policy.max_depth
}

/// The effect of the first `k` queued echoes, where `lists[i]` are the
/// dependents reported for echo `i`.
pub open spec fn queue_fold(
    policy: EchoPolicy,
    gate: BloomRegistry,
    q: Seq<PendingEchoModel>,
    lists: Seq<Seq<RegisterAddress>>,
    s0: PropagationState,
    k: int,
) -> PropagationState
    decreases k,
{
    if k <= 0 {
        s0
    } else {
        let prev = queue_fold(policy, gate, q, lists, s0, k - 1);
        let e = q[k - 1];
        if echo_skipped(policy, e) {
            prev
        } else {
            dependents_fold(
                policy,
                gate,
                e,
                (q.len() - k) as nat,
                prev,
                lists[k - 1],
                lists[k - 1].len() as int,
            )
        }
    }
}

/// Propagating queue `q` from `store0` and counters `stats0`, with
/// `lists[i]` the dependents reported for echo `i`, ends in `store1`,
/// `stats1` and the re-queued echoes `pending1`.
pub open spec fn propagated_as<D: Fn(RegisterAddress) -> Vec<RegisterAddress>>(
    policy: EchoPolicy,
    gate: BloomRegistry,
    q: Seq<PendingEchoModel>,
    store0: Map<u128, RegisterModel>,
    stats0: EchoStats,
    get_dependents: D,
    lists: Seq<Vec<RegisterAddress>>,
    store1: Map<u128, RegisterModel>,
    stats1: EchoStats,
    pending1: Seq<PendingEchoModel>,
) -> bool {
    let deps = Seq::new(lists.len(), |i: int| lists[i]@);
    let s0 = PropagationState { store: store0, stats: stats0, requeued: Seq::empty() };
    let fin = queue_fold(policy, gate, q, deps, s0, q.len() as int);
    &&& lists.len() == q.len()
    &&& forall|i: int|
        0 <= i < q.len() && !echo_skipped(policy, q[i]) ==> get_dependents.ensures(
            (q[i].source,),
            #[trigger] lists[i],
        )
    &&& store1 == fin.store
    &&& stats1 == fin.stats
    &&& pending1 == fin.requeued
}

/// Every dependent in `deps` that the store holds has `len` bits.
pub open spec fn lengths_fit(store: Map<u128, RegisterModel>, deps: Seq<RegisterAddress>, len: nat) -> bool {
    forall|j: int|
        0 <= j < deps.len() && store.contains_key((#[trigger] deps[j])@) ==> store[deps[j]@].bit_len
            == len
}

/// Queueing an echo of `delta_words` (`delta_len` bits) from `source`
/// toward `target_layer` took propagator `p0` to `p1` with result `r`: when
/// the queue has room the echo goes last and the counters stay; otherwise
/// the queue is left alone, the drop is counted and "Echo queue full"
/// returned.
pub open spec fn queued(
    p0: EchoPropagator,
    delta_words: Seq<u64>,
    delta_len: nat,
    source: RegisterAddress,
    target_layer: u16,
    p1: EchoPropagator,
    r: Result<(), String>,
) -> bool {
    &&& (r is Ok <==> p0.pending_seq().len() < p0.policy_spec().max_queue_size)
    &&& (r is Ok ==> {
        &&& p1.pending_seq() == p0.pending_seq().push(
            PendingEchoModel { delta_words, delta_len, source, depth: 0, target_layer, timestamp: 0 },
        )
        &&& p1.stats_spec() == p0.stats_spec()
    })
    &&& (r is Err ==> {
        &&& r->Err_0@ == "Echo queue full"@
        &&& p1.pending_seq() == p0.pending_seq()
        &&& p1.stats_spec() == (EchoStats { dropped: bump(p0.stats_spec().dropped), ..p0.stats_spec() })
    })
}

/// Queueing the same echo into propagators in the same state has the same
/// effect: the same outcome, the same queue and the same counters. So
/// `inject_structured` of an echo and `queue_echo` of its delta, source and
/// target layer (whose contracts both state `queued`) agree.
pub proof fn lemma_queued_determined(
    p0: EchoPropagator,
    delta_words: Seq<u64>,
    delta_len: nat,
    source: RegisterAddress,
    target_layer: u16,
    p1: EchoPropagator,
    r1: Result<(), String>,
    p2: EchoPropagator,
    r2: Result<(), String>,
)
    requires
        queued(p0, delta_words, delta_len, source, target_layer, p1, r1),
        queued(p0, delta_words, delta_len, source, target_layer, p2, r2),
    ensures
        r1 is Ok <==> r2 is Ok,
        r1 is Err ==> r1->Err_0@ == r2->Err_0@,
        p1.pending_seq() == p2.pending_seq(),
        p1.stats_spec() == p2.stats_spec(),
{
}

/// Manages pending echoes and propagates them according to the policy.
#[derive(Debug)]
pub struct EchoPropagator {
    policy: EchoPolicy,
    pending: VecDeque<PendingEcho>,
    stats: EchoStats,
    bloom_registry: BloomRegistry,
}

impl EchoPropagator {
    /// The propagation policy.
    pub closed spec fn policy_spec(&self) -> EchoPolicy {
        self.policy
    }

    /// The pending echoes, oldest first.
    pub closed spec fn pending_seq(&self) -> Seq<PendingEchoModel> {
        self.pending@.map_values(|e: PendingEcho| e@)
    }

    /// The counters.
    pub closed spec fn stats_spec(&self) -> EchoStats {
        self.stats
    }

    /// The bloom filters used for gating.
    pub closed spec fn gate(&self) -> BloomRegistry {
        self.bloom_registry
    }

    /// The filters are well formed, every pending delta is a well-formed
    /// lane, and the queue holds at most `max_queue_size` echoes.
    pub closed spec fn wf(&self) -> bool {
        &&& self.bloom_registry.wf()
        &&& forall|i: int| 0 <= i < self.pending@.len() ==> (#[trigger] self.pending@[i]).delta.wf()
        &&& self.pending@.len() <= self.policy.max_queue_size
    }

    /// A well-formed propagator never holds more than `max_queue_size`
    /// pending echoes.
    pub proof fn lemma_queue_bound(&self)
        requires
            self.wf(),
        ensures
            self.pending_seq().len() <= self.policy_spec().max_queue_size,
    {
    }

    /// A propagator with no pending echoes and zero counters.
    pub fn new(policy: EchoPolicy, bloom_registry: BloomRegistry) -> (r: Self)
        requires
            bloom_registry.wf(),
        ensures
            r.wf(),
            r.policy_spec() == policy,
            r.pending_seq() == Seq::<PendingEchoModel>::empty(),
            r.stats_spec() == zero_stats(),
            r.gate() == bloom_registry,
    {
        let r = EchoPropagator {
            policy,
            pending: VecDeque::with_capacity(policy.max_queue_size),
            stats: EchoStats::default(),
            bloom_registry,
        };
        proof {
            assert(r.pending_seq() =~= Seq::<PendingEchoModel>::empty());
        }
        r
    }

    /// Queue a delta for propagation. When the queue already holds
    /// `max_queue_size` echoes the delta is dropped, counted, and
    /// "Echo queue full" returned.
    pub fn queue_echo(
        &mut self,
        delta: BitslicedLane,
        source_address: RegisterAddress,
        target_layer: u16,
    ) -> (r: Result<(), String>)
        requires
            old(self).wf(),
            delta.wf(),
        ensures
            final(self).wf(),
            final(self).policy_spec() == old(self).policy_spec(),
            final(self).gate() == old(self).gate(),
            queued(*old(self), delta.word_seq(), delta.bit_len(), source_address, target_layer, *final(self), r),
    {
        if self.pending.len() >= self.policy.max_queue_size {
            self.stats.dropped = self.stats.dropped.wrapping_add(1);
            proof {
                reveal_strlit("Echo queue full");
            }
            return Err(String::from_str("Echo queue full"));
        }
        let echo = PendingEcho { delta, source_address, depth: 0, target_layer, timestamp: 0 };
        let ghost e = echo@;
        self.pending.push_back(echo);
        proof {
            assert(self.pending_seq() =~= old(self).pending_seq().push(e));
        }
        Ok(())
    }

    /// Process every pending echo in order, where `store` holds the
    /// registers and `get_dependents` names the dependents of an address.
    ///
    /// An echo at or past the depth limit is dropped. Otherwise, for each
    /// dependent in turn: if gating is on and the dependent's sector filter
    /// rules the source out, it is skipped; a dependent the store lacks is
    /// skipped; with XOR cancellation, a delta that XORed with the
    /// dependent's payload leaves no bit set is cancelled; with rotation
    /// damping, an echo aimed at a cold layer (above 12) is counted and
    /// re-queued one level deeper while the echoes still to process plus
    /// those already re-queued are fewer than the queue limit; otherwise the delta is applied to the dependent.
    /// Afterwards the queue holds exactly the re-queued echoes, and the
    /// counters are returned.
    pub fn propagate<D: Fn(RegisterAddress) -> Vec<RegisterAddress>>(
        &mut self,
        store: &mut RegisterStore,
        get_dependents: D,
    ) -> (r: EchoStats)
        requires
            old(self).wf(),
            old(store).wf(),
            forall|a: RegisterAddress| get_dependents.requires((a,)),
            forall|i: int, v: Vec<RegisterAddress>|
                #![trigger get_dependents.ensures((old(self).pending_seq()[i].source,), v)]
                0 <= i < old(self).pending_seq().len() && get_dependents.ensures(
                    (old(self).pending_seq()[i].source,),
                    v,
                ) ==> lengths_fit(old(store)@, v@, old(self).pending_seq()[i].delta_len),
        ensures
            final(self).wf(),
            final(store).wf(),
            final(self).policy_spec() == old(self).policy_spec(),
            final(self).gate() == old(self).gate(),
            r == final(self).stats_spec(),
            exists|lists: Seq<Vec<RegisterAddress>>|
                #[trigger] propagated_as(
                    old(self).policy_spec(),
                    old(self).gate(),
                    old(self).pending_seq(),
                    old(store)@,
                    old(self).stats_spec(),
                    get_dependents,
                    lists,
                    final(store)@,
                    final(self).stats_spec(),
                    final(self).pending_seq(),
                ),
    {
        let ghost q = self.pending_seq();
        let ghost policy = self.policy;
        let ghost gate = self.bloom_registry;
        let ghost s0 = PropagationState { store: store@, stats: self.stats, requeued: Seq::empty() };
        let ghost old_store = store@;
        let ghost mut lists: Seq<Vec<RegisterAddress>> = Seq::empty();
        let mut processed: VecDeque<PendingEcho> = VecDeque::new();
        let n = self.pending.len();
        let mut idx: usize = 0;
        while idx < n
            invariant
                idx <= n,
                n == q.len(),
                self.policy == policy,
                self.bloom_registry == gate,
                gate.wf(),
                store.wf(),
                self.pending@.len() == n - idx,
                forall|i: int|
                    0 <= i < self.pending@.len() ==> (#[trigger] self.pending@[i])@ == q[idx + i]
                        && self.pending@[i].delta.wf(),
                forall|i: int|
                    0 <= i < processed@.len() ==> (#[trigger] processed@[i]).delta.wf(),
                processed@.len() <= policy.max_queue_size,
                lists.len() == idx,
                forall|i: int|
                    0 <= i < idx && !echo_skipped(policy, q[i]) ==> get_dependents.ensures(
                        (q[i].source,),
                        #[trigger] lists[i],
                    ),
                forall|k: u128|
                    #[trigger] store@.contains_key(k) == old_store.contains_key(k),
                forall|k: u128|
                    #[trigger] store@.contains_key(k) ==> store@[k].bit_len == old_store[k].bit_len,
                forall|a: RegisterAddress| get_dependents.requires((a,)),
                forall|i: int, v: Vec<RegisterAddress>|
                    #![trigger get_dependents.ensures((q[i].source,), v)]
                    0 <= i < q.len() && get_dependents.ensures((q[i].source,), v) ==> lengths_fit(
                        old_store,
                        v@,
                        q[i].delta_len,
                    ),
                ({
                    let fin = queue_fold(
                        policy,
                        gate,
                        q,
                        Seq::new(lists.len(), |i: int| lists[i]@),
                        s0,
                        idx as int,
                    );
                    &&& store@ == fin.store
                    &&& self.stats == fin.stats
                    &&& processed@.map_values(|e: PendingEcho| e@) == fin.requeued
                }),
            decreases n - idx,
        {
            let echo = self.pending.pop_front().unwrap();
            assert(echo@ == q[idx as int]);
            let ghost prev_lists = lists;
            if self.policy.max_depth > 0 && echo.depth >= self.policy.max_depth {
                proof {
                    lists = lists.push(vstd::pervasive::arbitrary());
                    assert(Seq::new(lists.len(), |i: int| lists[i]@).take(idx as int) =~= Seq::new(
                        prev_lists.len(),
                        |i: int| prev_lists[i]@,
                    ));
                    lemma_queue_fold_prefix(
                        policy,
                        gate,
                        q,
                        Seq::new(lists.len(), |i: int| lists[i]@),
                        Seq::new(prev_lists.len(), |i: int| prev_lists[i]@),
                        s0,
                        idx as int,
                    );
                }
                idx = idx + 1;
                continue;
            }
            let dependents = get_dependents(echo.source_address);
            let ghost base = queue_fold(
                policy,
                gate,
                q,
                Seq::new(prev_lists.len(), |i: int| prev_lists[i]@),
                s0,
                idx as int,
            );
            let ghost remaining: nat = (q.len() - (idx + 1)) as nat;
            assert(get_dependents.ensures((q[idx as int].source,), dependents));
            assert(lengths_fit(old_store, dependents@, q[idx as int].delta_len));
            let mut j: usize = 0;
            while j < dependents.len()
                invariant
                    j <= dependents.len(),
                    idx < n,
                    n == q.len(),
                    echo@ == q[idx as int],
                    echo.delta.wf(),
                    self.policy == policy,
                    self.bloom_registry == gate,
                    gate.wf(),
                    store.wf(),
                    remaining == q.len() - (idx + 1),
                    self.pending@.len() == n - idx - 1,
                    forall|i: int|
                        0 <= i < self.pending@.len() ==> (#[trigger] self.pending@[i])@ == q[idx
                            + 1 + i] && self.pending@[i].delta.wf(),
                    forall|i: int|
                        0 <= i < processed@.len() ==> (#[trigger] processed@[i]).delta.wf(),
                    processed@.len() <= policy.max_queue_size,
                    lengths_fit(old_store, dependents@, echo.delta.bit_len()),
                    forall|k: u128|
                        #[trigger] store@.contains_key(k) == old_store.contains_key(k),
                    forall|k: u128|
                        #[trigger] store@.contains_key(k) ==> store@[k].bit_len
                            == old_store[k].bit_len,
                    ({
                        let fin = dependents_fold(
                            policy,
                            gate,
                            echo@,
                            remaining,
                            base,
                            dependents@,
                            j as int,
                        );
                        &&& store@ == fin.store
                        &&& self.stats == fin.stats
                        &&& processed@.map_values(|e: PendingEcho| e@) == fin.requeued
                    }),
                decreases dependents.len() - j,
            {
                let dep_addr = dependents[j];
                let ghost before = dependents_fold(
                    policy,
                    gate,
                    echo@,
                    remaining,
                    base,
                    dependents@,
                    j as int,
                );
                let ghost before_processed = processed@;
                assert(before_processed.map_values(|e: PendingEcho| e@) == before.requeued);
                if self.policy.bloom_gated {
                    let dep_sector = SectorKey::new(
                        dep_addr.spine(),
                        dep_addr.layer(),
                        dep_addr.ring(),
                        dep_addr.sector(),
                    );
                    let excluded = match self.bloom_registry.get_bloom(dep_sector) {
                        Some(bloom) => {
                            proof {
                                assert(gate.blooms().contains_key(key_word(dep_sector)));
                            }
                            !bloom.might_contain(dep_addr_source(&echo))
                        },
                        None => false,
                    };
                    assert(dep_sector == sector_of(dep_addr));
                    if excluded {
                        self.stats.bloom_gated = self.stats.bloom_gated.wrapping_add(1);
                        j = j + 1;
                        continue;
                    }
                }
                match store.get(dep_addr) {
                    None => {},
                    Some(dep_reg) => {
                        assert(dependents@[j as int] == dep_addr);
                        let mut handled = false;
                        if self.policy.xor_cancel {
                            let combined = BitslicedLane::xor(&echo.delta, &dep_reg.payload);
                            if combined.none_set() {
                                self.stats.canceled = self.stats.canceled.wrapping_add(1);
                                handled = true;
                            }
                        }
                        if !handled && self.policy.rotation_damped && echo.target_layer > 12 {
                            self.stats.rotation_damped = self.stats.rotation_damped.wrapping_add(1);
                            if processed.len() < self.policy.max_queue_size && self.pending.len()
                                < self.policy.max_queue_size - processed.len() {
                                let requeued = PendingEcho {
                                    delta: echo.delta.clone(),
                                    source_address: echo.source_address,
                                    depth: echo.depth.wrapping_add(1),
                                    target_layer: echo.target_layer,
                                    timestamp: echo.timestamp,
                                };
                                let ghost r = requeued@;
                                processed.push_back(requeued);
                                proof {
                                    assert(processed@.map_values(|e: PendingEcho| e@) =~= before_processed.map_values(|e: PendingEcho| e@).push(r));
                                }
                            }
                            handled = true;
                        }
                        if !handled {
                            store.apply_delta(dep_addr, &echo.delta);
                            self.stats.propagated = self.stats.propagated.wrapping_add(1);
                            self.stats.bytes_propagated = self.stats.bytes_propagated.wrapping_add(
                                echo.delta.len() as u64,
                            );
                        }
                    },
                }
                j = j + 1;
            }
            proof {
                lists = lists.push(dependents);
                assert(Seq::new(lists.len(), |i: int| lists[i]@).take(idx as int) =~= Seq::new(
                    prev_lists.len(),
                    |i: int| prev_lists[i]@,
                ));
                lemma_queue_fold_prefix(
                    policy,
                    gate,
                    q,
                    Seq::new(lists.len(), |i: int| lists[i]@),
                    Seq::new(prev_lists.len(), |i: int| prev_lists[i]@),
                    s0,
                    idx as int,
                );
            }
            idx = idx + 1;
        }
        self.pending = processed;
        proof {
            assert(propagated_as(
                policy,
                gate,
                q,
                old_store,
                s0.stats,
                get_dependents,
                lists,
                store@,
                self.stats,
                self.pending_seq(),
            ));
            assert(policy == old(self).policy_spec());
            assert(gate == old(self).gate());
            assert(q == old(self).pending_seq());
            assert(s0.stats == old(self).stats_spec());
            assert(old_store == old(store)@);
            assert(propagated_as(
                    old(self).policy_spec(),
                    old(self).gate(),
                    old(self).pending_seq(),
                    old(store)@,
                    old(self).stats_spec(),
                    get_dependents,
                    lists,
                    store@,
                    self.stats_spec(),
                    self.pending_seq(),
                ));
            assert(exists|l: Seq<Vec<RegisterAddress>>|
                propagated_as(
                    old(self).policy_spec(),
                    old(self).gate(),
                    old(self).pending_seq(),
                    old(store)@,
                    old(self).stats_spec(),
                    get_dependents,
                    l,
                    store@,
                    self.stats_spec(),
                    self.pending_seq(),
                ));
        }
        self.stats
    }

    /// The current counters.
    pub fn stats(&self) -> (r: EchoStats)
        ensures
            r == self.stats_spec(),
    {
        self.stats
    }

    /// Zero the counters.
    pub fn reset_stats(&mut self)
        requires
            old(self).wf(),
        ensures
            final(self).wf(),
            final(self).stats_spec() == zero_stats(),
            final(self).pending_seq() == old(self).pending_seq(),
            final(self).policy_spec() == old(self).policy_spec(),
            final(self).gate() == old(self).gate(),
    {
        self.stats = EchoStats::default();
    }

    /// Number of pending echoes.
    pub fn pending_count(&self) -> (r: usize)
        ensures
            r == self.pending_seq().len(),
    {
        self.pending.len()
    }

    /// The source and delta length of each pending echo, in queue order.
    pub fn pending_sources(&self) -> (r: Vec<(RegisterAddress, usize)>)
        ensures
            r@.len() == self.pending_seq().len(),
            forall|i: int|
                0 <= i < r@.len() ==> (#[trigger] r@[i]).0 == self.pending_seq()[i].source && r@[i].1
                    == self.pending_seq()[i].delta_len,
    {
        let mut out: Vec<(RegisterAddress, usize)> = Vec::new();
        let mut i: usize = 0;
        while i < self.pending.len()
            invariant
                i <= self.pending@.len(),
                out@.len() == i,
                forall|j: int|
                    0 <= j < i ==> (#[trigger] out@[j]).0 == self.pending_seq()[j].source && out@[j].1
                        == self.pending_seq()[j].delta_len,
            decreases self.pending@.len() - i,
        {
            let e = &self.pending[i];
            out.push((e.source_address, e.delta.len()));
            i = i + 1;
        }
        out
    }

    /// Drop every pending echo.
    pub fn clear(&mut self)
        requires
            old(self).wf(),
        ensures
            final(self).wf(),
            final(self).pending_seq() == Seq::<PendingEchoModel>::empty(),
            final(self).stats_spec() == old(self).stats_spec(),
            final(self).policy_spec() == old(self).policy_spec(),
            final(self).gate() == old(self).gate(),
    {
        self.pending.clear();
        proof {
            assert(self.pending_seq() =~= Seq::<PendingEchoModel>::empty());
        }
    }

    /// The filters used for gating.
    pub fn bloom_registry(&self) -> (r: &BloomRegistry)
        ensures
            *r == self.gate(),
    {
        &self.bloom_registry
    }
}

/// The source address word of an echo.
fn dep_addr_source(echo: &PendingEcho) -> (r: u128)
    ensures
        r == echo.source_address@,
{
    echo.source_address.bits()
}

/// Folding a queue only reads the lists of the echoes folded.
proof fn lemma_queue_fold_prefix(
    policy: EchoPolicy,
    gate: BloomRegistry,
    q: Seq<PendingEchoModel>,
    lists: Seq<Seq<RegisterAddress>>,
    prefix: Seq<Seq<RegisterAddress>>,
    s0: PropagationState,
    k: int,
)
    requires
        0 <= k <= prefix.len(),
        prefix.len() <= lists.len(),
        lists.take(prefix.len() as int) == prefix,
    ensures
        queue_fold(policy, gate, q, lists, s0, k) == queue_fold(policy, gate, q, prefix, s0, k),
    decreases k,
{
    if k > 0 {
        lemma_queue_fold_prefix(policy, gate, q, lists, prefix, s0, k - 1);
        assert(lists[k - 1] == prefix[k - 1]);
    }
}

/// A structured echo: a deliberate, controlled propagation.
#[derive(Clone, Debug)]
pub struct StructuredEcho {
    /// Source address of the echo.
    pub source_address: RegisterAddress,
    /// The delta to propagate.
    pub delta: BitslicedLane,
    /// Target layer.
    pub target_layer: u16,
    /// Maximum propagation depth.
    pub max_depth: u8,
    /// Purpose of the echo.
    pub purpose: EchoPurpose,
}

/// Why an echo was injected.
#[derive(Clone, Debug)]
pub enum EchoPurpose {
    CacheCoherence,
    RoutingRefresh,
    SynchronizationPulse,
    AdaptationPropagate,
    WeightUpdate,
    GradientStep,
    KvCacheEviction,
    RecordUpdate,
    Custom(String),
}

impl EchoPropagator {
    /// Queue a structured echo's delta from its source toward its target
    /// layer, as `queue_echo` does.
    pub fn inject_structured(&mut self, echo: StructuredEcho) -> (r: Result<(), String>)
        requires
            old(self).wf(),
            echo.delta.wf(),
        ensures
            final(self).wf(),
            final(self).policy_spec() == old(self).policy_spec(),
            final(self).gate() == old(self).gate(),
            queued(*old(self), echo.delta.word_seq(), echo.delta.bit_len(), echo.source_address, echo.target_layer, *final(self), r),
    {
        self.queue_echo(echo.delta, echo.source_address, echo.target_layer)
    }
}

} // verus!
