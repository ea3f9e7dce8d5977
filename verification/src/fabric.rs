//! The fabric: registers, bloom filters, echo propagation, models and the
//! native backend, tied together.
//!
//! Reads resolve registers of an attached delta model as base XOR delta;
//! writes queue the XOR difference as an echo and record the address in
//! its sector's bloom filter; adaptation applies a delta to a register and
//! propagates it to the register's dependents.

use vstd::prelude::*;
use std::collections::HashMap;
use vstd::string::StringExecFns;
use crate::address::{RegisterAddress, field_of, spec_child, ranges};
use crate::backend::{ArithmeticOp, BackendId, ComputeOp, ComputeResult, NativeBackend, QuantizationLevel};
use crate::bitslice::{BitslicedLane, words_xor};
use crate::bloom::{BloomRegistry, SectorKey, key_word};
use crate::echo::{
    EchoPolicy, EchoPropagator, EchoStats, EchoPurpose, PendingEchoModel, StructuredEcho, bump,
    sector_of,
};
use crate::network::NetworkRegister;
use crate::register::{Register, RegisterModel, Record, fresh_model};
use crate::rotation::RotationResult;
use crate::store::RegisterStore;
use crate::tiers::{Tier, TierId, first_holding, default_tiers_mac_8gb};

verus! {

broadcast use vstd::std_specs::hash::group_hash_axioms;

/// Policy for self-optimisation (layout adaptation).
#[derive(Clone, Copy, Debug, PartialEq, Eq, Structural)]
pub struct OptimizationPolicy {
    /// Reorganise the layout from access patterns.
    pub self_optimizing: bool,
    /// Observe and log access patterns.
    pub observe_access: bool,
    /// Reorganise during rotation cycles.
    pub reorganize_during_rotation: bool,
    /// Merge similar sectors.
    pub merge_similar_sectors: bool,
    /// Split overloaded sectors.
    pub split_overloaded_sectors: bool,
    /// Create lanes for sequential access patterns.
    pub create_lanes_for_sequential: bool,
    /// Co-locate registers accessed together.
    pub co_locate_frequent_pairs: bool,
    /// Maximum reorganisations per rotation cycle.
    pub max_reorg_per_cycle: usize,
}

impl Default for OptimizationPolicy {
    /// Everything on, at most 100 reorganisations per cycle.
    fn default() -> (r: Self)
        ensures
            r == (OptimizationPolicy {
                self_optimizing: true,
                observe_access: true,
                reorganize_during_rotation: true,
                merge_similar_sectors: true,
                split_overloaded_sectors: true,
                create_lanes_for_sequential: true,
                co_locate_frequent_pairs: true,
                max_reorg_per_cycle: 100,
            }),
    {
        OptimizationPolicy {
            self_optimizing: true,
            observe_access: true,
            reorganize_during_rotation: true,
            merge_similar_sectors: true,
            split_overloaded_sectors: true,
            create_lanes_for_sequential: true,
            co_locate_frequent_pairs: true,
            max_reorg_per_cycle: 100,
        }
    }
}

/// Policy for state integrity (validation, repair).
#[derive(Clone, Copy, Debug, PartialEq, Eq, Structural)]
pub struct IntegrityPolicy {
    /// Validate checksums on read.
    pub validate_on_read: bool,
    /// Validate lineage on read.
    pub validate_lineage: bool,
    /// Repair corrupted registers.
    pub repair_on_corruption: bool,
    /// Log integrity violations.
    pub log_violations: bool,
}

impl Default for IntegrityPolicy {
    /// No validation on read; repair and log violations.
    fn default() -> (r: Self)
        ensures
            r == (IntegrityPolicy {
                validate_on_read: false,
                validate_lineage: false,
                repair_on_corruption: true,
                log_violations: true,
            }),
    {
        IntegrityPolicy {
            validate_on_read: false,
            validate_lineage: false,
            repair_on_corruption: true,
            log_violations: true,
        }
    }
}

/// Configuration of the fabric.
#[derive(Clone, Debug)]
pub struct FabricConfig {
    /// Storage tiers.
    pub tiers: Vec<Tier>,
    /// Echo policy.
    pub echo: EchoPolicy,
    /// Self-optimisation policy.
    pub optimization: OptimizationPolicy,
    /// Integrity policy.
    pub integrity: IntegrityPolicy,
    /// Whether accesses are logged for self-optimisation.
    pub log_access: bool,
}

impl Default for FabricConfig {
    /// The 8 GB Mac tiers, default policies, access logging on.
    fn default() -> (r: Self)
        ensures
            r.tiers@.len() == 4,
            r.echo == (EchoPolicy {
                minimal: true,
                bloom_gated: true,
                rotation_damped: true,
                xor_cancel: true,
                max_depth: 0,
                max_queue_size: 1024,
            }),
            r.log_access,
    {
        FabricConfig {
            tiers: default_tiers_mac_8gb(),
            echo: EchoPolicy::default(),
            optimization: OptimizationPolicy::default(),
            integrity: IntegrityPolicy::default(),
            log_access: true,
        }
    }
}

/// Result of `query_scan`.
#[derive(Clone, Debug)]
pub struct QueryResult {
    /// Number of matching registers.
    pub match_count: usize,
    /// Number of registers examined.
    pub scanned_count: usize,
    /// Time taken, in microseconds.
    pub elapsed_us: u64,
    /// Addresses of the matching registers.
    pub match_addresses: Vec<RegisterAddress>,
}

/// Counters of the fabric.
#[derive(Debug)]
pub struct FabricStats {
    /// Reads per tier number.
    pub register_count_by_tier: HashMap<u8, usize>,
    /// Number of sectors with bloom filters.
    pub sector_count: usize,
    /// Rotations completed.
    pub total_rotations: u64,
    /// Echoes processed during rotations.
    pub total_echoes_processed: u64,
    /// Prefetches during rotations.
    pub total_prefetches: u64,
    /// Adaptation deltas injected.
    pub adaptation_deltas_injected: u64,
    /// Adaptation echoes propagated.
    pub adaptation_echoes_propagated: u64,
    /// Reads.
    pub total_reads: u64,
    /// Writes.
    pub total_writes: u64,
    /// Compute operations.
    pub total_computes: u64,
    /// Compute operations per backend number.
    pub backend_usage: HashMap<u8, u64>,
    /// Corruptions detected.
    pub corruption_detected: u64,
    /// Corruptions repaired.
    pub corruption_repaired: u64,
}

/// A counter map with `key` counted once more (wrapping).
pub open spec fn count_usize(m: Map<u8, usize>, key: u8) -> Map<u8, usize> {
    m.insert(
        key,
        if m.contains_key(key) {
            vstd::wrapping::usize_specs::wrapping_add(m[key], 1)
        } else {
            1
        },
    )
}

/// A counter map with `key` counted once more (wrapping).
pub open spec fn count_u64(m: Map<u8, u64>, key: u8) -> Map<u8, u64> {
    m.insert(key, if m.contains_key(key) { bump(m[key]) } else { 1 })
}

fn count_in_usize(m: &mut HashMap<u8, usize>, key: u8)
    ensures
        final(m)@ == count_usize(old(m)@, key),
{
    let e = m.entry(key).or_insert(0);
    *e = e.wrapping_add(1);
}

fn count_in_u64(m: &mut HashMap<u8, u64>, key: u8)
    ensures
        final(m)@ == count_u64(old(m)@, key),
{
    let e = m.entry(key).or_insert(0);
    *e = e.wrapping_add(1);
}

impl FabricStats {
    /// All counters zero, no per-tier or per-backend entries.
    pub fn new() -> (r: Self)
        ensures
            r.register_count_by_tier@ == Map::<u8, usize>::empty(),
            r.backend_usage@ == Map::<u8, u64>::empty(),
            r.sector_count == 0,
            r.total_rotations == 0,
            r.total_echoes_processed == 0,
            r.total_prefetches == 0,
            r.adaptation_deltas_injected == 0,
            r.adaptation_echoes_propagated == 0,
            r.total_reads == 0,
            r.total_writes == 0,
            r.total_computes == 0,
            r.corruption_detected == 0,
            r.corruption_repaired == 0,
    {
        FabricStats {
            register_count_by_tier: HashMap::new(),
            sector_count: 0,
            total_rotations: 0,
            total_echoes_processed: 0,
            total_prefetches: 0,
            adaptation_deltas_injected: 0,
            adaptation_echoes_propagated: 0,
            total_reads: 0,
            total_writes: 0,
            total_computes: 0,
            backend_usage: HashMap::new(),
            corruption_detected: 0,
            corruption_repaired: 0,
        }
    }
}

/// A model attached to the fabric.
#[derive(Debug)]
pub struct ModelAttachment {
    pub name: String,
    pub base_address: RegisterAddress,
    pub weight_count: usize,
    pub kv_cache_count: usize,
    pub tier: crate::tiers::TierId,
    pub quantization: QuantizationLevel,
    /// Whether this model is a delta from a base model.
    pub is_delta: bool,
    pub base_model_name: Option<String>,
}

impl Clone for ModelAttachment {
    /// A copy of every field.
    fn clone(&self) -> (r: Self)
        ensures
            r == *self,
    {
        ModelAttachment {
            name: self.name.clone(),
            base_address: self.base_address,
            weight_count: self.weight_count,
            kv_cache_count: self.kv_cache_count,
            tier: self.tier,
            quantization: self.quantization,
            is_delta: self.is_delta,
            base_model_name: match &self.base_model_name {
                Some(s) => Some(s.clone()),
                None => None,
            },
        }
    }
}

// ── Delta resolution ────────────────────────────────────────────────────────

/// A model whose registers are read through XOR deltas.
pub open spec fn is_delta_source(m: ModelAttachment) -> bool {
    m.is_delta && m.base_model_name is Some
}

/// `i` is the first delta-source model.
pub open spec fn first_delta_model(models: Seq<ModelAttachment>, i: int) -> bool {
    &&& 0 <= i < models.len()
    &&& is_delta_source(models[i])
    &&& forall|j: int| 0 <= j < i ==> !is_delta_source(#[trigger] models[j])
}

/// The delta register word for `a` under model `m`: for `a` in the
/// model's weight range `[base, base + count)`, the word `count` past it.
pub open spec fn delta_word(m: ModelAttachment, a: u128) -> Option<u128> {
    let base = m.base_address@;
    if base <= a && a < base + m.weight_count && a + m.weight_count <= u128::MAX {
        Some((a + m.weight_count) as u128)
    } else {
        None
    }
}

/// The delta register word that applies to `a`, if any: taken from the
/// first delta-source model.
pub open spec fn delta_for(models: Seq<ModelAttachment>, a: u128) -> Option<u128> {
    if exists|i: int| first_delta_model(models, i) {
        delta_word(models[choose|i: int| first_delta_model(models, i)], a)
    } else {
        None
    }
}

/// A register read with deltas resolved: the stored register, its payload
/// XORed with the delta register's when one applies and is stored.
pub open spec fn resolved_view(
    store: Map<u128, RegisterModel>,
    models: Seq<ModelAttachment>,
    a: u128,
) -> Option<RegisterModel> {
    if !store.contains_key(a) {
        None
    } else {
        match delta_for(models, a) {
            Some(d) => if store.contains_key(d) {
                Some(RegisterModel { words: words_xor(store[a].words, store[d].words), ..store[a] })
            } else {
                Some(store[a])
            },
            None => Some(store[a]),
        }
    }
}

/// Resolution of `a` XORs lanes of equal length.
pub open spec fn resolvable(store: Map<u128, RegisterModel>, models: Seq<ModelAttachment>, a: u128) -> bool {
    match delta_for(models, a) {
        Some(d) => store.contains_key(a) && store.contains_key(d) ==> store[a].bit_len
            == store[d].bit_len,
        None => true,
    }
}

/// The dependents of an address in the fabric: its first child, unless its
/// shard is one of the last two.
pub open spec fn dependent_words(a: u128) -> Seq<u128> {
    if field_of(a, 64) < 0xFFFE {
        seq![spec_child(a, 1)]
    } else {
        Seq::empty()
    }
}

/// Every pending echo's dependents that the store holds have the echo's
/// length.
pub open spec fn echoes_fit(store: Map<u128, RegisterModel>, q: Seq<PendingEchoModel>) -> bool {
    forall|i: int, k: int|
        0 <= i < q.len() && 0 <= k < dependent_words(q[i].source@).len() && store.contains_key(
            #[trigger] dependent_words(q[i].source@)[k],
        ) ==> store[dependent_words(q[i].source@)[k]].bit_len == q[i].delta_len
}

/// The dependents of an address in the fabric.
pub fn fabric_dependents(a: RegisterAddress) -> (r: Vec<RegisterAddress>)
    ensures
        r@.len() == dependent_words(a@).len(),
        forall|k: int| 0 <= k < r@.len() ==> (#[trigger] r@[k])@ == dependent_words(a@)[k],
{
    let mut deps: Vec<RegisterAddress> = Vec::new();
    if a.shard() < 0xFFFE {
        deps.push(a.child(1));
    }
    deps
}

/// The tier number of a layer: the first tier holding it, or cold (3).
pub open spec fn tier_number(tiers: Seq<Tier>, layer: u16) -> u8 {
    if exists|i: int| first_holding(tiers, layer, i) {
        tiers[choose|i: int| first_holding(tiers, layer, i)].id.spec_u8()
    } else {
        3
    }
}

/// Echo `e1` is `e0` after queueing `m`: appended when there is room,
/// otherwise dropped and counted.
pub open spec fn queued(e0: EchoPropagator, e1: EchoPropagator, m: PendingEchoModel) -> bool {
    &&& e1.policy_spec() == e0.policy_spec()
    &&& e1.gate() == e0.gate()
    &&& if e0.pending_seq().len() < e0.policy_spec().max_queue_size {
        e1.pending_seq() == e0.pending_seq().push(m) && e1.stats_spec() == e0.stats_spec()
    } else {
        e1.pending_seq() == e0.pending_seq() && e1.stats_spec() == (EchoStats {
            dropped: bump(e0.stats_spec().dropped),
            ..e0.stats_spec()
        })
    }
}

/// Filters `b1` are `b0` after inserting `address` into sector `key`.
pub open spec fn bloom_inserted(b0: BloomRegistry, b1: BloomRegistry, key: SectorKey, address: u128) -> bool {
    &&& b1.wf()
    &&& b1.spec_sector_might_contain(key, address)
    &&& b1.blooms().dom() == b0.blooms().dom().insert(key_word(key))
    &&& forall|k: u64|
        k != key_word(key) && #[trigger] b0.blooms().contains_key(k) ==> b1.blooms()[k] == b0.blooms()[k]
    &&& forall|a: u128|
        #[trigger] b0.spec_sector_might_contain(key, a) ==> b1.spec_sector_might_contain(key, a)
}

// ── The fabric ──────────────────────────────────────────────────────────────

/// The kind of a logged access.
#[derive(Clone, Copy, Debug, PartialEq, Eq, Structural)]
pub enum AccessOperation {
    Read,
    Write,
    Compute,
    Fold,
    Adapt,
}

/// One entry of the access log: when, where, what, how long, which tier.
#[derive(Clone, Copy, Debug)]
pub struct AccessEntry {
    pub timestamp: u64,
    pub address: RegisterAddress,
    pub operation: AccessOperation,
    pub latency_ms: u64,
    pub tier_id: TierId,
}

/// The fabric.
#[derive(Debug)]
pub struct Fabric {
    config: FabricConfig,
    registers: RegisterStore,
    bloom_registry: BloomRegistry,
    echo_propagator: EchoPropagator,
    native: NativeBackend,
    stats: FabricStats,
    models: Vec<ModelAttachment>,
    networks: Vec<(String, NetworkRegister)>,
    temporal_pool: Vec<Register>,
    initialized: bool,
}

impl Fabric {
    /// The stored registers by address word.
    pub closed spec fn store_view(&self) -> Map<u128, RegisterModel> {
        self.registers@
    }

    /// The attached models, in attachment order.
    pub closed spec fn model_seq(&self) -> Seq<ModelAttachment> {
        self.models@
    }

    /// The counters.
    pub closed spec fn stats_spec(&self) -> FabricStats {
        self.stats
    }

    /// The echo propagator.
    pub closed spec fn echo(&self) -> EchoPropagator {
        self.echo_propagator
    }

    /// The sector bloom filters.
    pub closed spec fn blooms_spec(&self) -> BloomRegistry {
        self.bloom_registry
    }

    /// The configured tiers.
    pub closed spec fn tiers_spec(&self) -> Seq<Tier> {
        self.config.tiers@
    }

    /// The temporal register pool.
    pub closed spec fn temporal_seq(&self) -> Seq<RegisterModel> {
        self.temporal_pool@.map_values(|r: Register| r@)
    }

    /// The attached networks by name, in attachment order.
    pub closed spec fn network_seq(&self) -> Seq<(String, NetworkRegister)> {
        self.networks@
    }

    /// Whether `initialize` has run.
    pub closed spec fn is_initialized(&self) -> bool {
        self.initialized
    }

    /// The echo policy of the configuration.
    pub closed spec fn echo_policy(&self) -> EchoPolicy {
        self.config.echo
    }

    /// The configuration the fabric was made with.
    pub closed spec fn config_spec(&self) -> FabricConfig {
        self.config
    }

    /// The parts are well formed: registers, filters, propagator, pool and
    /// networks; model weight ranges
    /// and their delta ranges fit in an address word; model names are
    /// distinct; the native backend has its identifier.
    pub closed spec fn wf(&self) -> bool {
        &&& self.registers.wf()
        &&& self.bloom_registry.wf()
        &&& self.echo_propagator.wf()
        &&& self.native.spec_id() == BackendId(2)
        &&& forall|i: int|
            0 <= i < self.temporal_pool@.len() ==> (#[trigger] self.temporal_pool@[i]).wf()
        &&& forall|i: int|
            0 <= i < self.models@.len() ==> (#[trigger] self.models@[i]).base_address@ + 2
                * self.models@[i].weight_count <= u128::MAX
        &&& forall|i: int, j: int|
            0 <= i < j < self.models@.len() ==> (#[trigger] self.models@[i]).name@ != (
            #[trigger] self.models@[j]).name@
        &&& forall|i: int| 0 <= i < self.networks@.len() ==> (#[trigger] self.networks@[i]).1.wf()
    }

    /// A fabric with the given configuration: no registers, no models, an
    /// empty echo queue (gated by its own, empty, filters), and a temporal
    /// pool of 1024 registers of 256 zero bits at (0xF000, 0, 0, 0, 0,
    /// slot). Fails when no tier is configured.
    pub fn new(config: FabricConfig) -> (r: Result<Self, String>)
        ensures
            r is Err <==> config.tiers@.len() == 0,
            r is Err ==> r->Err_0@ == "At least one tier is required"@,
            r is Ok ==> {
                let f = r->Ok_0;
                &&& f.wf()
                &&& f.store_view() == Map::<u128, RegisterModel>::empty()
                &&& f.model_seq().len() == 0
                &&& f.network_seq().len() == 0
                &&& f.temporal_seq().len() == 1024
                &&& forall|j: int|
                    0 <= j < 1024 ==> is_blank_register(
                        #[trigger] f.temporal_seq()[j],
                        crate::address::pack_fields(0xF000, 0, 0, 0, 0, j as u16),
                    )
                &&& f.config_spec() == config
                &&& f.tiers_spec() == config.tiers@
                &&& f.echo_policy() == config.echo
                &&& f.echo().pending_seq().len() == 0
                &&& f.echo().policy_spec() == config.echo
                &&& f.blooms_spec().blooms() == Map::<u64, crate::bloom::SectorBloom>::empty()
                &&& f.stats_spec().total_reads == 0
                &&& f.stats_spec().total_writes == 0
                &&& f.stats_spec().total_computes == 0
                &&& f.stats_spec().adaptation_deltas_injected == 0
                &&& f.stats_spec().register_count_by_tier@ == Map::<u8, usize>::empty()
                &&& f.stats_spec().backend_usage@ == Map::<u8, u64>::empty()
                &&& f.stats_spec().sector_count == 0
                &&& f.stats_spec().total_rotations == 0
                &&& f.stats_spec().total_echoes_processed == 0
                &&& f.stats_spec().total_prefetches == 0
                &&& f.stats_spec().adaptation_echoes_propagated == 0
                &&& f.stats_spec().corruption_detected == 0
                &&& f.stats_spec().corruption_repaired == 0
                &&& f.network_seq().len() == 0
                &&& !f.is_initialized()
            },
    {
        if config.tiers.len() == 0 {
            proof {
                reveal_strlit("At least one tier is required");
            }
            return Err(String::from_str("At least one tier is required"));
        }
        let bloom_registry = BloomRegistry::new();
        let echo_propagator = EchoPropagator::new(config.echo, BloomRegistry::new());
        let mut temporal_pool: Vec<Register> = Vec::new();
        let mut i: usize = 0;
        while i < 1024
            invariant
                i <= 1024,
                temporal_pool@.len() == i,
                forall|j: int| 0 <= j < i ==> (#[trigger] temporal_pool@[j]).wf(),
                forall|j: int|
                    0 <= j < i ==> is_blank_register(
                        (#[trigger] temporal_pool@[j])@,
                        crate::address::pack_fields(0xF000, 0, 0, 0, 0, j as u16),
                    ),
            decreases 1024 - i,
        {
            let addr = RegisterAddress::new(0xF000, 0, 0, 0, 0, i as u16);
            let lane = BitslicedLane::with_capacity(256);
            let reg = Register::new(addr, lane);
            proof {
                assert(lane.word_seq() =~= Seq::new(4, |k: int| 0u64));
                assert(reg@ == fresh_model(addr@, lane));
            }
            temporal_pool.push(reg);
            i = i + 1;
        }
        let f = Fabric {
            config,
            registers: RegisterStore::new(),
            bloom_registry,
            echo_propagator,
            native: NativeBackend::new(),
            stats: FabricStats::new(),
            models: Vec::new(),
            networks: Vec::new(),
            temporal_pool,
            initialized: false,
        };
        proof {
            assert(f.model_seq().len() == 0);
            assert forall|j: int| 0 <= j < 1024 implies is_blank_register(
                #[trigger] f.temporal_seq()[j],
                crate::address::pack_fields(0xF000, 0, 0, 0, 0, j as u16),
            ) by {
                assert(f.temporal_seq()[j] == f.temporal_pool@[j]@);
            }
        }
        Ok(f)
    }
}


/// Only one model is the first delta-source model.
proof fn lemma_first_delta_unique(models: Seq<ModelAttachment>, i: int, j: int)
    requires
        first_delta_model(models, i),
        first_delta_model(models, j),
    ensures
        i == j,
{
    if i < j {
        assert(!is_delta_source(models[i]));
    } else if j < i {
        assert(!is_delta_source(models[j]));
    }
}

/// Only one tier is the first tier holding a layer.
proof fn lemma_first_holding_unique(tiers: Seq<Tier>, layer: u16, i: int, j: int)
    requires
        first_holding(tiers, layer, i),
        first_holding(tiers, layer, j),
    ensures
        i == j,
{
    if i < j {
        assert(!crate::tiers::holds_layer(tiers[i], layer));
    } else if j < i {
        assert(!crate::tiers::holds_layer(tiers[j], layer));
    }
}

/// The fabric state apart from its counters.
pub open spec fn same_but_stats(f0: Fabric, f1: Fabric) -> bool {
    &&& f1.store_view() == f0.store_view()
    &&& f1.model_seq() == f0.model_seq()
    &&& f1.echo() == f0.echo()
    &&& f1.blooms_spec() == f0.blooms_spec()
    &&& f1.tiers_spec() == f0.tiers_spec()
    &&& f1.temporal_seq() == f0.temporal_seq()
    &&& f1.network_seq() == f0.network_seq()
    &&& f1.is_initialized() == f0.is_initialized()
    &&& f1.echo_policy() == f0.echo_policy()
}

/// The fabric state apart from its registers and counters.
pub open spec fn same_but_store_and_stats(f0: Fabric, f1: Fabric) -> bool {
    &&& f1.model_seq() == f0.model_seq()
    &&& f1.echo() == f0.echo()
    &&& f1.blooms_spec() == f0.blooms_spec()
    &&& f1.tiers_spec() == f0.tiers_spec()
    &&& f1.temporal_seq() == f0.temporal_seq()
    &&& f1.network_seq() == f0.network_seq()
    &&& f1.is_initialized() == f0.is_initialized()
    &&& f1.echo_policy() == f0.echo_policy()
}

/// Counters `s1` are `s0` with one more read, in tier `tier`.
pub open spec fn counted_read(s0: FabricStats, s1: FabricStats, tier: u8) -> bool {
    &&& s1.total_reads == bump(s0.total_reads)
    &&& s1.register_count_by_tier@ == count_usize(s0.register_count_by_tier@, tier)
    &&& s1.total_writes == s0.total_writes
    &&& s1.total_computes == s0.total_computes
    &&& s1.backend_usage@ == s0.backend_usage@
    &&& s1.adaptation_deltas_injected == s0.adaptation_deltas_injected
}

impl Clone for FabricStats {
    /// A copy of every counter.
    fn clone(&self) -> (r: Self)
        ensures
            r.register_count_by_tier@ == self.register_count_by_tier@,
            r.backend_usage@ == self.backend_usage@,
            r.sector_count == self.sector_count,
            r.total_rotations == self.total_rotations,
            r.total_echoes_processed == self.total_echoes_processed,
            r.total_prefetches == self.total_prefetches,
            r.adaptation_deltas_injected == self.adaptation_deltas_injected,
            r.adaptation_echoes_propagated == self.adaptation_echoes_propagated,
            r.total_reads == self.total_reads,
            r.total_writes == self.total_writes,
            r.total_computes == self.total_computes,
            r.corruption_detected == self.corruption_detected,
            r.corruption_repaired == self.corruption_repaired,
    {
        FabricStats {
            register_count_by_tier: self.register_count_by_tier.clone(),
            sector_count: self.sector_count,
            total_rotations: self.total_rotations,
            total_echoes_processed: self.total_echoes_processed,
            total_prefetches: self.total_prefetches,
            adaptation_deltas_injected: self.adaptation_deltas_injected,
            adaptation_echoes_propagated: self.adaptation_echoes_propagated,
            total_reads: self.total_reads,
            total_writes: self.total_writes,
            total_computes: self.total_computes,
            backend_usage: self.backend_usage.clone(),
            corruption_detected: self.corruption_detected,
            corruption_repaired: self.corruption_repaired,
        }
    }
}

impl Fabric {
    /// The tier number of a layer: the first configured tier holding it, or
    /// cold.
    fn tier_of_layer(&self, layer: u16) -> (r: u8)
        ensures
            r == tier_number(self.tiers_spec(), layer),
    {
        let mut i: usize = 0;
        while i < self.config.tiers.len()
            invariant
                i <= self.config.tiers@.len(),
                forall|j: int|
                    0 <= j < i ==> !crate::tiers::holds_layer(#[trigger] self.config.tiers@[j], layer),
            decreases self.config.tiers@.len() - i,
        {
            if self.config.tiers[i].contains_layer(layer) {
                proof {
                    assert(first_holding(self.config.tiers@, layer, i as int));
                    let c = choose|k: int| first_holding(self.config.tiers@, layer, k);
                    lemma_first_holding_unique(self.config.tiers@, layer, i as int, c);
                }
                return self.config.tiers[i].id.as_u8();
            }
            i = i + 1;
        }
        proof {
            assert(!exists|k: int| first_holding(self.config.tiers@, layer, k));
        }
        3
    }

    /// The index of the first delta-source model, if any.
    fn find_delta_model(&self) -> (r: Option<usize>)
        ensures
            match r {
                Some(i) => first_delta_model(self.model_seq(), i as int),
                None => !exists|i: int| first_delta_model(self.model_seq(), i),
            },
    {
        let mut i: usize = 0;
        while i < self.models.len()
            invariant
                i <= self.models@.len(),
                forall|j: int| 0 <= j < i ==> !is_delta_source(#[trigger] self.models@[j]),
            decreases self.models@.len() - i,
        {
            if self.models[i].is_delta && self.models[i].base_model_name.is_some() {
                proof {
                    assert(first_delta_model(self.models@, i as int));
                }
                return Some(i);
            }
            i = i + 1;
        }
        None
    }

    /// The delta register word that applies to `address`, if any.
    fn delta_address(&self, address: RegisterAddress) -> (r: Option<u128>)
        requires
            self.wf(),
        ensures
            r == delta_for(self.model_seq(), address@),
    {
        match self.find_delta_model() {
            Some(i) => {
                proof {
                    let c = choose|k: int| first_delta_model(self.models@, k);
                    lemma_first_delta_unique(self.models@, i as int, c);
                }
                let base = self.models[i].base_address.bits();
                let count = self.models[i].weight_count as u128;
                let a = address.bits();
                if base <= a && a < base + count {
                    Some(a + count)
                } else {
                    None
                }
            },
            None => None,
        }
    }

    /// A copy of the register at `address` with deltas resolved.
    fn resolve_register(&self, address: RegisterAddress) -> (r: Option<Register>)
        requires
            self.wf(),
            resolvable(self.store_view(), self.model_seq(), address@),
        ensures
            match r {
                Some(reg) => resolved_view(self.store_view(), self.model_seq(), address@) == Some(reg@)
                    && reg.wf(),
                None => resolved_view(self.store_view(), self.model_seq(), address@) is None,
            },
    {
        let reg = match self.registers.get(address) {
            Some(reg) => reg,
            None => return None,
        };
        match self.delta_address(address) {
            Some(d) => {
                let delta_addr = RegisterAddress::from_bits(d);
                match self.registers.get(delta_addr) {
                    Some(delta_reg) => {
                        let resolved_payload = BitslicedLane::xor(&reg.payload, &delta_reg.payload);
                        let mut resolved = reg;
                        resolved.payload = resolved_payload;
                        Some(resolved)
                    },
                    None => Some(reg),
                }
            },
            None => Some(reg),
        }
    }

    /// Read the register at `address`, resolving deltas: when the first
    /// delta-source model's weight range holds the address and the delta
    /// register (the weight count further on) is stored, the payload is the
    /// stored one XOR the delta's. Counts a read in the layer's tier.
    pub fn read(&mut self, address: RegisterAddress) -> (r: Option<Register>)
        requires
            old(self).wf(),
            resolvable(old(self).store_view(), old(self).model_seq(), address@),
        ensures
            final(self).wf(),
            match r {
                Some(reg) => resolved_view(old(self).store_view(), old(self).model_seq(), address@)
                    == Some(reg@) && reg.wf(),
                None => resolved_view(old(self).store_view(), old(self).model_seq(), address@) is None,
            },
            same_but_stats(*old(self), *final(self)),
            counted_read(
                old(self).stats_spec(),
                final(self).stats_spec(),
                tier_number(old(self).tiers_spec(), field_of(address@, 16)),
            ),
    {
        let tier = self.tier_of_layer(address.layer());
        let r = self.resolve_register(address);
        self.stats.total_reads = self.stats.total_reads.wrapping_add(1);
        count_in_usize(&mut self.stats.register_count_by_tier, tier);
        r
    }

    /// Read the stored register at `address` as is, without resolving
    /// deltas. Counts a read in the layer's tier.
    pub fn read_raw(&mut self, address: RegisterAddress) -> (r: Option<Register>)
        requires
            old(self).wf(),
        ensures
            final(self).wf(),
            match r {
                Some(reg) => old(self).store_view().contains_key(address@) && reg@ == old(
                    self,
                ).store_view()[address@] && reg.wf(),
                None => !old(self).store_view().contains_key(address@),
            },
            same_but_stats(*old(self), *final(self)),
            counted_read(
                old(self).stats_spec(),
                final(self).stats_spec(),
                tier_number(old(self).tiers_spec(), field_of(address@, 16)),
            ),
    {
        let tier = self.tier_of_layer(address.layer());
        let r = self.registers.get(address);
        self.stats.total_reads = self.stats.total_reads.wrapping_add(1);
        count_in_usize(&mut self.stats.register_count_by_tier, tier);
        r
    }

    /// The register at `address` with deltas resolved, without counting a
    /// read.
    pub fn resolve(&self, address: RegisterAddress) -> (r: Option<Register>)
        requires
            self.wf(),
            resolvable(self.store_view(), self.model_seq(), address@),
        ensures
            match r {
                Some(reg) => resolved_view(self.store_view(), self.model_seq(), address@) == Some(reg@)
                    && reg.wf(),
                None => resolved_view(self.store_view(), self.model_seq(), address@) is None,
            },
    {
        self.resolve_register(address)
    }

    /// Write `register` at `address`. When a register was there, the XOR of
    /// the old and new payloads is queued as an echo from the address to
    /// its layer. The address is inserted into its sector's filter and a
    /// write is counted. Always succeeds.
    pub fn write(&mut self, address: RegisterAddress, register: Register) -> (r: Result<(), String>)
        requires
            old(self).wf(),
            register.wf(),
            old(self).store_view().contains_key(address@) ==> old(self).store_view()[address@].bit_len
                == register@.bit_len,
        ensures
            final(self).wf(),
            r is Ok,
            final(self).store_view() == old(self).store_view().insert(address@, register@),
            old(self).store_view().contains_key(address@) ==> queued(
                old(self).echo(),
                final(self).echo(),
                PendingEchoModel {
                    delta_words: words_xor(old(self).store_view()[address@].words, register@.words),
                    delta_len: old(self).store_view()[address@].bit_len,
                    source: address,
                    depth: 0,
                    target_layer: field_of(address@, 16),
                    timestamp: 0,
                },
            ),
            !old(self).store_view().contains_key(address@) ==> final(self).echo() == old(self).echo(),
            bloom_inserted(old(self).blooms_spec(), final(self).blooms_spec(), sector_of(address), address@),
            final(self).model_seq() == old(self).model_seq(),
            final(self).tiers_spec() == old(self).tiers_spec(),
            final(self).temporal_seq() == old(self).temporal_seq(),
            final(self).network_seq() == old(self).network_seq(),
            final(self).is_initialized() == old(self).is_initialized(),
            final(self).echo_policy() == old(self).echo_policy(),
            final(self).stats_spec() == (FabricStats {
                total_writes: bump(old(self).stats_spec().total_writes),
                ..old(self).stats_spec()
            }),
    {
        let ghost m = register@;
        let delta = match self.registers.get(address) {
            Some(old_reg) => Some(BitslicedLane::xor(&old_reg.payload, &register.payload)),
            None => None,
        };
        self.registers.insert(address, register);
        match delta {
            Some(d) => {
                let _ = self.echo_propagator.queue_echo(d, address, address.layer());
            },
            None => {},
        }
        let sector_key = SectorKey::new(address.spine(), address.layer(), address.ring(), address.sector());
        self.bloom_registry.insert_into_sector(sector_key, address.bits());
        self.stats.total_writes = self.stats.total_writes.wrapping_add(1);
        Ok(())
    }

    /// A copy of temporal register `slot`, if the pool has one.
    pub fn read_temporal(&self, slot: u16) -> (r: Option<Register>)
        requires
            self.wf(),
        ensures
            match r {
                Some(reg) => slot < self.temporal_seq().len() && reg@ == self.temporal_seq()[slot as int]
                    && reg.wf(),
                None => slot >= self.temporal_seq().len(),
            },
    {
        if (slot as usize) < self.temporal_pool.len() {
            assert(self.temporal_pool@[slot as int].wf());
            Some(self.temporal_pool[slot as usize].clone())
        } else {
            None
        }
    }

    /// Replace temporal register `slot` (ignored past the pool's end).
    pub fn write_temporal(&mut self, slot: u16, register: Register)
        requires
            old(self).wf(),
            register.wf(),
        ensures
            final(self).wf(),
            final(self).temporal_seq() == (if slot < old(self).temporal_seq().len() {
                old(self).temporal_seq().update(slot as int, register@)
            } else {
                old(self).temporal_seq()
            }),
            final(self).store_view() == old(self).store_view(),
            final(self).model_seq() == old(self).model_seq(),
            final(self).echo() == old(self).echo(),
            final(self).blooms_spec() == old(self).blooms_spec(),
            final(self).stats_spec() == old(self).stats_spec(),
            final(self).network_seq() == old(self).network_seq(),
    {
        if (slot as usize) < self.temporal_pool.len() {
            let ghost m = register@;
            self.temporal_pool.set(slot as usize, register);
            proof {
                assert(self.temporal_seq() =~= old(self).temporal_seq().update(slot as int, m));
            }
        }
    }

    /// Number of stored registers.
    pub fn register_count(&self) -> (r: usize)
        ensures
            r == self.store_view().len(),
    {
        self.registers.len()
    }

    /// A copy of the counters.
    pub fn stats(&self) -> (r: FabricStats)
        ensures
            r.total_reads == self.stats_spec().total_reads,
            r.total_writes == self.stats_spec().total_writes,
            r.total_computes == self.stats_spec().total_computes,
            r.adaptation_deltas_injected == self.stats_spec().adaptation_deltas_injected,
            r.register_count_by_tier@ == self.stats_spec().register_count_by_tier@,
            r.backend_usage@ == self.stats_spec().backend_usage@,
            r.sector_count == self.stats_spec().sector_count,
            r.total_rotations == self.stats_spec().total_rotations,
            r.total_echoes_processed == self.stats_spec().total_echoes_processed,
            r.total_prefetches == self.stats_spec().total_prefetches,
            r.adaptation_echoes_propagated == self.stats_spec().adaptation_echoes_propagated,
            r.corruption_detected == self.stats_spec().corruption_detected,
            r.corruption_repaired == self.stats_spec().corruption_repaired,
    {
        self.stats.clone()
    }

    /// The configuration.
    pub fn config(&self) -> (r: &FabricConfig)
        ensures
            *r == self.config_spec(),
            r.tiers@ == self.tiers_spec(),
            r.echo == self.echo_policy(),
    {
        &self.config
    }

    /// The bit length of the register stored at `address`, if any
    /// (nothing is counted).
    pub fn stored_len(&self, address: RegisterAddress) -> (r: Option<usize>)
        requires
            self.wf(),
        ensures
            match r {
                Some(n) => self.store_view().contains_key(address@) && n == self.store_view()[address@].bit_len,
                None => !self.store_view().contains_key(address@),
            },
    {
        match self.registers.get(address) {
            Some(reg) => Some(reg.payload.len()),
            None => None,
        }
    }

    /// Whether reading `address` resolves lanes of equal length.
    pub fn is_resolvable(&self, address: RegisterAddress) -> (r: bool)
        requires
            self.wf(),
        ensures
            r == resolvable(self.store_view(), self.model_seq(), address@),
    {
        match self.delta_address(address) {
            Some(d) => {
                let da = RegisterAddress::from_bits(d);
                match (self.stored_len(address), self.stored_len(da)) {
                    (Some(a), Some(b)) => a == b,
                    _ => true,
                }
            },
            None => true,
        }
    }

    /// Whether the stored dependents of every echo pending in `propagator`
    /// have the echo's length: what propagating them through this fabric
    /// needs.
    pub fn echoes_fit_for(&self, propagator: &EchoPropagator) -> (r: bool)
        requires
            self.wf(),
        ensures
            r == echoes_fit(self.store_view(), propagator.pending_seq()),
    {
        let sources = propagator.pending_sources();
        let mut i: usize = 0;
        while i < sources.len()
            invariant
                self.wf(),
                i <= sources@.len(),
                sources@.len() == propagator.pending_seq().len(),
                forall|j: int|
                    0 <= j < sources@.len() ==> (#[trigger] sources@[j]).0 == propagator.pending_seq()[j].source
                        && sources@[j].1 == propagator.pending_seq()[j].delta_len,
                forall|j: int, k: int|
                    0 <= j < i && 0 <= k < dependent_words(propagator.pending_seq()[j].source@).len()
                        && self.store_view().contains_key(
                        #[trigger] dependent_words(propagator.pending_seq()[j].source@)[k],
                    ) ==> self.store_view()[dependent_words(propagator.pending_seq()[j].source@)[k]].bit_len
                        == propagator.pending_seq()[j].delta_len,
            decreases sources@.len() - i,
        {
            let (src, len) = sources[i];
            if !self.dependents_fit(src, len) {
                proof {
                    assert(!echoes_fit(self.store_view(), propagator.pending_seq()));
                }
                return false;
            }
            i = i + 1;
        }
        true
    }

    /// Whether the stored dependents of every pending echo, and those of
    /// `target` when it is stored, have the matching length: what an
    /// adaptation of `target` needs.
    pub fn can_adapt(&self, target: RegisterAddress) -> (r: bool)
        requires
            self.wf(),
        ensures
            r == adapt_fits(self.store_view(), self.echo().pending_seq(), target@),
    {
        if !self.echoes_fit_for(&self.echo_propagator) {
            return false;
        }
        match self.stored_len(target) {
            Some(n) => self.dependents_fit(target, n),
            None => true,
        }
    }

    /// Whether every stored dependent of `source` has `len` bits.
    fn dependents_fit(&self, source: RegisterAddress, len: usize) -> (r: bool)
        requires
            self.wf(),
        ensures
            r == forall|k: int|
                0 <= k < dependent_words(source@).len() && self.store_view().contains_key(
                    #[trigger] dependent_words(source@)[k],
                ) ==> self.store_view()[dependent_words(source@)[k]].bit_len == len,
    {
        let deps = fabric_dependents(source);
        let mut k: usize = 0;
        while k < deps.len()
            invariant
                self.wf(),
                k <= deps@.len(),
                deps@.len() == dependent_words(source@).len(),
                forall|m: int| 0 <= m < deps@.len() ==> (#[trigger] deps@[m])@ == dependent_words(source@)[m],
                forall|m: int|
                    0 <= m < k && self.store_view().contains_key(#[trigger] dependent_words(source@)[m])
                        ==> self.store_view()[dependent_words(source@)[m]].bit_len == len,
            decreases deps@.len() - k,
        {
            match self.stored_len(deps[k]) {
                Some(n) => {
                    if n != len {
                        proof {
                            assert(deps@[k as int]@ == dependent_words(source@)[k as int]);
                        }
                        return false;
                    }
                },
                None => {},
            }
            k = k + 1;
        }
        true
    }

    /// Whether the native backend can run `op` on the stored operands:
    /// what `compute` needs.
    pub fn can_compute(&self, op: &ComputeOp) -> (r: bool)
        requires
            self.wf(),
        ensures
            r == computable(self.store_view(), *op),
    {
        let native = match op.backend {
            Some(id) => id.0 == 2,
            None => match op.operation {
                ArithmeticOp::Add | ArithmeticOp::Mul | ArithmeticOp::MatMul | ArithmeticOp::SiLU
                | ArithmeticOp::GELU => true,
                _ => false,
            },
        };
        if !native {
            return true;
        }
        let lanes = self.operand_payloads(&op.operands);
        let first_ok = lanes.len() == 0 || (lanes[0].len() as u64) <= 0x7FFF_FFFF_FFFF_FFFFu64;
        let pair_ok = match op.operation {
            ArithmeticOp::Add | ArithmeticOp::Mul => lanes.len() < 2 || lanes[0].len() == lanes[1].len(),
            _ => true,
        };
        first_ok && pair_ok
    }

    /// Count a round of rotation events, one per layer that completed a
    /// rotation: the rotations by the number of events, the echoes processed
    /// and the prefetches by the sums the events report. When a counter
    /// would pass `u64::MAX`, nothing is counted and the result is false.
    pub fn record_rotations(&mut self, results: &[RotationResult]) -> (r: bool)
        ensures
            r == (old(self).stats_spec().total_rotations + results@.len() <= u64::MAX
                && old(self).stats_spec().total_echoes_processed + echoes_sum(results@) <= u64::MAX
                && old(self).stats_spec().total_prefetches + prefetches_sum(results@) <= u64::MAX),
            r ==> final(self).stats_spec() == (FabricStats {
                total_rotations: (old(self).stats_spec().total_rotations + results@.len()) as u64,
                total_echoes_processed: (old(self).stats_spec().total_echoes_processed + echoes_sum(
                    results@,
                )) as u64,
                total_prefetches: (old(self).stats_spec().total_prefetches + prefetches_sum(results@)) as u64,
                ..old(self).stats_spec()
            }),
            !r ==> final(self).stats_spec() == old(self).stats_spec(),
            final(self).store_view() == old(self).store_view(),
            final(self).model_seq() == old(self).model_seq(),
            final(self).echo() == old(self).echo(),
            final(self).blooms_spec() == old(self).blooms_spec(),
            old(self).wf() ==> final(self).wf(),
    {
        let mut echoes: u128 = 0;
        let mut prefetches: u128 = 0;
        let mut i: usize = 0;
        while i < results.len()
            invariant
                i <= results@.len(),
                echoes == echoes_sum(results@.take(i as int)),
                prefetches == prefetches_sum(results@.take(i as int)),
                echoes <= i * 0xFFFF_FFFF_FFFF_FFFF,
                prefetches <= i * 0xFFFF_FFFF_FFFF_FFFF,
            decreases results@.len() - i,
        {
            proof {
                assert(results@.take(i + 1).drop_last() =~= results@.take(i as int));
            }
            echoes = echoes + results[i].echoes_processed as u128;
            prefetches = prefetches + results[i].prefetches as u128;
            i = i + 1;
        }
        proof {
            assert(results@.take(results@.len() as int) =~= results@);
        }
        let n = results.len() as u128;
        let rotations = self.stats.total_rotations as u128 + n;
        let echoes_total = self.stats.total_echoes_processed as u128 + echoes;
        let prefetches_total = self.stats.total_prefetches as u128 + prefetches;
        if rotations > 0xFFFF_FFFF_FFFF_FFFF || echoes_total > 0xFFFF_FFFF_FFFF_FFFF
            || prefetches_total > 0xFFFF_FFFF_FFFF_FFFF {
            return false;
        }
        self.stats.total_rotations = rotations as u64;
        self.stats.total_echoes_processed = echoes_total as u64;
        self.stats.total_prefetches = prefetches_total as u64;
        true
    }

    /// The fabric's echo propagator.
    pub fn echo_propagator(&self) -> (r: &EchoPropagator)
        ensures
            *r == self.echo(),
    {
        &self.echo_propagator
    }

    /// The fabric's bloom filters.
    pub fn bloom_registry(&self) -> (r: &BloomRegistry)
        ensures
            *r == self.blooms_spec(),
    {
        &self.bloom_registry
    }

    /// Initialise the fabric's backends (once). Always succeeds.
    pub fn initialize(&mut self) -> (r: Result<(), String>)
        requires
            old(self).wf(),
        ensures
            final(self).wf(),
            r is Ok,
            final(self).is_initialized(),
            final(self).store_view() == old(self).store_view(),
            final(self).model_seq() == old(self).model_seq(),
            final(self).echo() == old(self).echo(),
            final(self).blooms_spec() == old(self).blooms_spec(),
            final(self).stats_spec() == old(self).stats_spec(),
    {
        if self.initialized {
            return Ok(());
        }
        let r = self.native.init();
        match r {
            Ok(()) => {},
            Err(e) => {
                return Err(e);
            },
        }
        self.initialized = true;
        Ok(())
    }
}


// ── Compute and adaptation ──────────────────────────────────────────────────

/// The stored registers at the first `k` of the addresses that hold one, in
/// order.
pub open spec fn present_payloads(store: Map<u128, RegisterModel>, addrs: Seq<RegisterAddress>, k: int) -> Seq<
    RegisterModel,
>
    decreases k,
{
    if k <= 0 {
        Seq::empty()
    } else {
        let p = present_payloads(store, addrs, k - 1);
        if store.contains_key(addrs[k - 1]@) {
            p.push(store[addrs[k - 1]@])
        } else {
            p
        }
    }
}

/// The lanes carry the models' payloads, in order.
pub open spec fn lanes_of(lanes: Seq<BitslicedLane>, ms: Seq<RegisterModel>) -> bool {
    &&& lanes.len() == ms.len()
    &&& forall|i: int|
        0 <= i < lanes.len() ==> (#[trigger] lanes[i]).word_seq() == ms[i].words && lanes[i].bit_len()
            == ms[i].bit_len && lanes[i].wf()
}

/// The backend the fabric uses for `op`: the one asked for, else the
/// native backend (number 2, the only one the fabric holds) when it
/// supports the operation.
pub open spec fn chosen_backend(op: ComputeOp) -> Option<BackendId> {
    match op.backend {
        Some(id) => Some(id),
        None => if crate::backend::native_supports(op.operation) {
            Some(BackendId(2))
        } else {
            None
        },
    }
}

/// The native backend can run `op` on the stored operands.
pub open spec fn computable(store: Map<u128, RegisterModel>, op: ComputeOp) -> bool {
    chosen_backend(op) == Some(BackendId(2)) ==> {
        let p = present_payloads(store, op.operands@, op.operands@.len() as int);
        &&& p.len() >= 1 ==> p[0].bit_len <= 0x7FFF_FFFF_FFFF_FFFF
        &&& (op.operation == ArithmeticOp::Add || op.operation == ArithmeticOp::Mul) && p.len() >= 2
            ==> p[0].bit_len == p[1].bit_len
    }
}

/// The fabric's dependents of an address, as addresses.
pub open spec fn fabric_deps_of(a: RegisterAddress) -> Seq<RegisterAddress> {
    dependent_words(a@).map_values(|w: u128| crate::address::address_of_word(w))
}

/// The fabric's dependents of an address.
fn dependents_of(a: RegisterAddress) -> (r: Vec<RegisterAddress>)
    ensures
        r@ == fabric_deps_of(a),
{
    let v = fabric_dependents(a);
    proof {
        assert forall|k: int| 0 <= k < v@.len() implies v@[k] == fabric_deps_of(a)[k] by {
            crate::address::lemma_address_of_word(v@[k], dependent_words(a@)[k]);
        }
        assert(v@ =~= fabric_deps_of(a));
    }
    v
}

/// Propagating queue `q` from `store0` and counters `stats0`, with
/// `lists[i]` the fabric's dependents of each processed echo's source,
/// ends in `store1`, `stats1` and the re-queued echoes `pending1`.
pub open spec fn fabric_propagated_with(
    policy: EchoPolicy,
    gate: BloomRegistry,
    q: Seq<PendingEchoModel>,
    store0: Map<u128, RegisterModel>,
    stats0: EchoStats,
    store1: Map<u128, RegisterModel>,
    stats1: EchoStats,
    pending1: Seq<PendingEchoModel>,
    lists: Seq<Seq<RegisterAddress>>,
) -> bool {
    let fin = crate::echo::queue_fold(
        policy,
        gate,
        q,
        lists,
        crate::echo::PropagationState { store: store0, stats: stats0, requeued: Seq::empty() },
        q.len() as int,
    );
    &&& lists.len() == q.len()
    &&& forall|i: int|
        0 <= i < q.len() && !crate::echo::echo_skipped(policy, q[i]) ==> #[trigger] lists[i]
            == fabric_deps_of(q[i].source)
    &&& store1 == fin.store
    &&& stats1 == fin.stats
    &&& pending1 == fin.requeued
}

/// Propagating queue `q` with the fabric's dependents ends as given.
pub open spec fn fabric_propagated(
    policy: EchoPolicy,
    gate: BloomRegistry,
    q: Seq<PendingEchoModel>,
    store0: Map<u128, RegisterModel>,
    stats0: EchoStats,
    store1: Map<u128, RegisterModel>,
    stats1: EchoStats,
    pending1: Seq<PendingEchoModel>,
) -> bool {
    exists|lists: Seq<Seq<RegisterAddress>>|
        #[trigger] fabric_propagated_with(policy, gate, q, store0, stats0, store1, stats1, pending1, lists)
}

/// The store and the pending echoes of an adaptation of `t` leave every
/// dependent length-compatible: pending echoes fit, and the dependents of
/// `t` that the store holds have `t`'s length.
pub open spec fn adapt_fits(store: Map<u128, RegisterModel>, q: Seq<PendingEchoModel>, t: u128) -> bool {
    &&& echoes_fit(store, q)
    &&& store.contains_key(t) ==> forall|k: int|
        0 <= k < dependent_words(t).len() && store.contains_key(#[trigger] dependent_words(t)[k])
            ==> store[dependent_words(t)[k]].bit_len == store[t].bit_len
}

/// The echo that an adaptation of `t` by `delta` queues after its write.
pub open spec fn adaptation_echo(target: RegisterAddress, delta: Seq<u64>, len: nat) -> PendingEchoModel {
    PendingEchoModel {
        delta_words: delta,
        delta_len: len,
        source: target,
        depth: 0,
        target_layer: field_of(target@, 16),
        timestamp: 0,
    }
}

impl Fabric {
    /// Copies of the payloads stored at the addresses that hold one.
    fn operand_payloads(&self, addrs: &Vec<RegisterAddress>) -> (r: Vec<BitslicedLane>)
        requires
            self.wf(),
        ensures
            lanes_of(r@, present_payloads(self.store_view(), addrs@, addrs@.len() as int)),
    {
        let mut out: Vec<BitslicedLane> = Vec::new();
        let mut k: usize = 0;
        while k < addrs.len()
            invariant
                k <= addrs@.len(),
                self.wf(),
                lanes_of(out@, present_payloads(self.store_view(), addrs@, k as int)),
            decreases addrs@.len() - k,
        {
            match self.registers.get(addrs[k]) {
                Some(reg) => {
                    let ghost before = out@;
                    out.push(reg.payload);
                    proof {
                        assert forall|i: int| 0 <= i < out@.len() implies (#[trigger] out@[i]).word_seq()
                            == present_payloads(self.store_view(), addrs@, k + 1)[i].words && out@[i].bit_len()
                            == present_payloads(self.store_view(), addrs@, k + 1)[i].bit_len && out@[i].wf() by {
                            if i < before.len() {
                                assert(out@[i] == before[i]);
                            }
                        }
                    }
                },
                None => {},
            }
            k = k + 1;
        }
        out
    }

    /// Execute a compute operation. The backend is the one `op` asks for,
    /// else the native backend when it supports the operation; with none,
    /// the result fails with "No suitable backend found". The native
    /// backend runs on the payloads of the operands that are stored, and a
    /// successful result is stored as a new register at the result address.
    /// A compute is counted, and so is the chosen backend's use.
    pub fn compute(&mut self, op: ComputeOp) -> (r: ComputeResult)
        requires
            old(self).wf(),
            computable(old(self).store_view(), op),
        ensures
            final(self).wf(),
            chosen_backend(op) is None ==> {
                &&& !r.success
                &&& r.backend_used is None
                &&& r.error_message matches Some(m) && m@ == "No suitable backend found"@
                &&& r.payload is None
            },
            chosen_backend(op) matches Some(id) && id != BackendId(2) ==> {
                &&& !r.success
                &&& r.backend_used is None
                &&& r.error_message is None
                &&& r.payload is None
            },
            chosen_backend(op) == Some(BackendId(2)) ==> exists|lanes: Seq<BitslicedLane>|
                lanes_of(lanes, present_payloads(old(self).store_view(), op.operands@, op.operands@.len() as int))
                    && #[trigger] crate::backend::native_outcome(op.operation, lanes, r),
            r.success ==> final(self).store_view() == old(self).store_view().insert(
                op.result_address@,
                fresh_model(op.result_address@, r.payload->0),
            ),
            !r.success ==> final(self).store_view() == old(self).store_view(),
            final(self).model_seq() == old(self).model_seq(),
            final(self).echo() == old(self).echo(),
            final(self).blooms_spec() == old(self).blooms_spec(),
            final(self).tiers_spec() == old(self).tiers_spec(),
            final(self).temporal_seq() == old(self).temporal_seq(),
            final(self).network_seq() == old(self).network_seq(),
            final(self).is_initialized() == old(self).is_initialized(),
            final(self).echo_policy() == old(self).echo_policy(),
            final(self).stats_spec().total_computes == bump(old(self).stats_spec().total_computes),
            final(self).stats_spec().backend_usage@ == (match chosen_backend(op) {
                Some(id) => count_u64(old(self).stats_spec().backend_usage@, id.0),
                None => old(self).stats_spec().backend_usage@,
            }),
            final(self).stats_spec().total_reads == old(self).stats_spec().total_reads,
            final(self).stats_spec().total_writes == old(self).stats_spec().total_writes,
            final(self).stats_spec().register_count_by_tier@ == old(self).stats_spec().register_count_by_tier@,
            final(self).stats_spec().adaptation_deltas_injected == old(self).stats_spec().adaptation_deltas_injected,
    {
        let no_tiers: Vec<crate::tiers::TierId> = Vec::new();
        let backend_id: Option<BackendId> = match op.backend {
            Some(id) => Some(id),
            None => if self.native.can_handle(&op, no_tiers.as_slice()) {
                Some(self.native.id())
            } else {
                None
            },
        };
        let mut result = ComputeResult::default();
        match backend_id {
            Some(id) => {
                let operands = self.operand_payloads(&op.operands);
                if id.0 == self.native.id().0 {
                    result = self.native.execute(&op, operands.as_slice());
                }
                if result.success {
                    let payload = match &result.payload {
                        Some(p) => p.clone(),
                        None => BitslicedLane::default(),
                    };
                    let reg = Register::new(op.result_address, payload);
                    self.registers.insert(op.result_address, reg);
                }
            },
            None => {
                result.success = false;
                proof {
                    reveal_strlit("No suitable backend found");
                }
                result.error_message = Some(String::from_str("No suitable backend found"));
            },
        }
        self.stats.total_computes = self.stats.total_computes.wrapping_add(1);
        match backend_id {
            Some(id) => {
                count_in_u64(&mut self.stats.backend_usage, id.0);
            },
            None => {},
        }
        result
    }

    /// The payloads of the operands of `op` that are stored, in order:
    /// what a backend of the caller's choosing runs on.
    pub fn operands_of(&self, op: &ComputeOp) -> (r: Vec<BitslicedLane>)
        requires
            self.wf(),
        ensures
            lanes_of(r@, present_payloads(self.store_view(), op.operands@, op.operands@.len() as int)),
    {
        self.operand_payloads(&op.operands)
    }

    /// Finish a compute that a backend chosen by the caller ran: with no
    /// backend the result fails with "No suitable backend found"; otherwise
    /// the backend's outcome is the result, and a successful one is stored
    /// as a new register at the result address (an empty lane when it has
    /// no payload). A compute is counted, and so is the backend's use.
    pub fn record_compute(&mut self, op: &ComputeOp, backend_id: Option<BackendId>, outcome: ComputeResult) -> (r:
        ComputeResult)
        requires
            old(self).wf(),
            outcome.payload matches Some(p) ==> p.wf(),
        ensures
            final(self).wf(),
            backend_id is None ==> {
                &&& !r.success
                &&& r.backend_used is None
                &&& r.error_message matches Some(m) && m@ == "No suitable backend found"@
                &&& r.payload is None
            },
            backend_id is Some ==> r == outcome,
            r.success ==> exists|p: BitslicedLane|
                {
                    &&& p.wf()
                    &&& (r.payload matches Some(q) ==> p.word_seq() == q.word_seq() && p.bit_len()
                        == q.bit_len())
                    &&& (r.payload is None ==> p.bit_len() == 0)
                    &&& final(self).store_view() == old(self).store_view().insert(
                        op.result_address@,
                        #[trigger] fresh_model(op.result_address@, p),
                    )
                },
            !r.success ==> final(self).store_view() == old(self).store_view(),
            final(self).model_seq() == old(self).model_seq(),
            final(self).echo() == old(self).echo(),
            final(self).blooms_spec() == old(self).blooms_spec(),
            final(self).tiers_spec() == old(self).tiers_spec(),
            final(self).temporal_seq() == old(self).temporal_seq(),
            final(self).network_seq() == old(self).network_seq(),
            final(self).is_initialized() == old(self).is_initialized(),
            final(self).echo_policy() == old(self).echo_policy(),
            final(self).stats_spec().total_computes == bump(old(self).stats_spec().total_computes),
            final(self).stats_spec().backend_usage@ == (match backend_id {
                Some(id) => count_u64(old(self).stats_spec().backend_usage@, id.0),
                None => old(self).stats_spec().backend_usage@,
            }),
            final(self).stats_spec().total_reads == old(self).stats_spec().total_reads,
            final(self).stats_spec().total_writes == old(self).stats_spec().total_writes,
            final(self).stats_spec().register_count_by_tier@ == old(self).stats_spec().register_count_by_tier@,
            final(self).stats_spec().adaptation_deltas_injected == old(self).stats_spec().adaptation_deltas_injected,
    {
        let mut result = ComputeResult::default();
        match backend_id {
            Some(id) => {
                if outcome.success {
                    let payload = match &outcome.payload {
                        Some(p) => p.clone(),
                        None => BitslicedLane::default(),
                    };
                    let ghost pv = payload;
                    let reg = Register::new(op.result_address, payload);
                    self.registers.insert(op.result_address, reg);
                    proof {
                        assert(pv.wf());
                        assert(self.store_view() == old(self).store_view().insert(
                            op.result_address@,
                            fresh_model(op.result_address@, pv),
                        ));
                    }
                }
                count_in_u64(&mut self.stats.backend_usage, id.0);
                result = outcome;
            },
            None => {
                proof {
                    reveal_strlit("No suitable backend found");
                }
                result.error_message = Some(String::from_str("No suitable backend found"));
            },
        }
        self.stats.total_computes = self.stats.total_computes.wrapping_add(1);
        result
    }

    /// Matrix-multiply the registers at `a_address` and `b_address` into
    /// `result_address`, choosing the backend as `compute` does.
    pub fn matmul(
        &mut self,
        a_address: RegisterAddress,
        b_address: RegisterAddress,
        result_address: RegisterAddress,
    ) -> (r: ComputeResult)
        requires
            old(self).wf(),
            ({
                let p = present_payloads(old(self).store_view(), seq![a_address, b_address], 2);
                p.len() >= 1 ==> p[0].bit_len <= 0x7FFF_FFFF_FFFF_FFFF
            }),
        ensures
            final(self).wf(),
            exists|lanes: Seq<BitslicedLane>|
                lanes_of(lanes, present_payloads(old(self).store_view(), seq![a_address, b_address], 2))
                    && #[trigger] crate::backend::native_outcome(ArithmeticOp::MatMul, lanes, r),
            r.success ==> final(self).store_view() == old(self).store_view().insert(
                result_address@,
                fresh_model(result_address@, r.payload->0),
            ),
            !r.success ==> final(self).store_view() == old(self).store_view(),
            final(self).model_seq() == old(self).model_seq(),
            final(self).echo() == old(self).echo(),
            final(self).blooms_spec() == old(self).blooms_spec(),
    {
        let mut operands: Vec<RegisterAddress> = Vec::new();
        operands.push(a_address);
        operands.push(b_address);
        let op = ComputeOp::new(ArithmeticOp::MatMul, operands, result_address);
        assert(op.operands@ =~= seq![a_address, b_address]);
        self.compute(op)
    }
}


/// A propagation with a dependents function that reports the fabric's
/// dependents is a fabric propagation.
proof fn lemma_fabric_propagation<D: Fn(RegisterAddress) -> Vec<RegisterAddress>>(
    policy: EchoPolicy,
    gate: BloomRegistry,
    q: Seq<PendingEchoModel>,
    store0: Map<u128, RegisterModel>,
    stats0: EchoStats,
    d: D,
    vecs: Seq<Vec<RegisterAddress>>,
    store1: Map<u128, RegisterModel>,
    stats1: EchoStats,
    pending1: Seq<PendingEchoModel>,
)
    requires
        crate::echo::propagated_as(policy, gate, q, store0, stats0, d, vecs, store1, stats1, pending1),
        forall|a: RegisterAddress, v: Vec<RegisterAddress>|
            #[trigger] d.ensures((a,), v) ==> v@ == fabric_deps_of(a),
    ensures
        fabric_propagated(policy, gate, q, store0, stats0, store1, stats1, pending1),
{
    let lists = Seq::new(vecs.len(), |i: int| vecs[i]@);
    assert forall|i: int|
        0 <= i < q.len() && !crate::echo::echo_skipped(policy, q[i]) implies #[trigger] lists[i]
            == fabric_deps_of(q[i].source) by {
        assert(d.ensures((q[i].source,), vecs[i]));
    }
    assert(fabric_propagated_with(policy, gate, q, store0, stats0, store1, stats1, pending1, lists));
}

/// Pending echoes that fit the store fit each dependents list the fabric
/// reports for them.
proof fn lemma_fits_lengths<D: Fn(RegisterAddress) -> Vec<RegisterAddress>>(
    store: Map<u128, RegisterModel>,
    q: Seq<PendingEchoModel>,
    d: D,
)
    requires
        echoes_fit(store, q),
        forall|a: RegisterAddress, v: Vec<RegisterAddress>|
            #[trigger] d.ensures((a,), v) ==> v@ == fabric_deps_of(a),
    ensures
        forall|i: int, v: Vec<RegisterAddress>|
            #![trigger d.ensures((q[i].source,), v)]
            0 <= i < q.len() && d.ensures((q[i].source,), v) ==> crate::echo::lengths_fit(
                store,
                v@,
                q[i].delta_len,
            ),
{
    assert forall|i: int, v: Vec<RegisterAddress>|
        #![trigger d.ensures((q[i].source,), v)]
        0 <= i < q.len() && d.ensures((q[i].source,), v) implies crate::echo::lengths_fit(
            store,
            v@,
            q[i].delta_len,
        ) by {
        assert(v@ == fabric_deps_of(q[i].source));
        assert forall|j: int|
            0 <= j < v@.len() && store.contains_key((#[trigger] v@[j])@) implies store[v@[j]@].bit_len
                == q[i].delta_len by {
            crate::address::lemma_address_of_word(v@[j], dependent_words(q[i].source@)[j]);
            assert(v@[j]@ == dependent_words(q[i].source@)[j]);
        }
    }
}

/// The result of adapting register `target` of `f0` by a delta of words
/// `dw` and length `dl`, ending in `f1` and returning `r`: the register is
/// rewritten with the delta applied (queueing the write's echo and marking
/// the sector's filter), then the delta itself is queued as an echo from
/// the target; when it fits in the queue, all pending echoes are
/// propagated to the fabric's dependents and the adaptation is counted,
/// otherwise "Echo queue full" is returned.
pub open spec fn adapt_outcome(
    f0: Fabric,
    f1: Fabric,
    target: RegisterAddress,
    dw: Seq<u64>,
    dl: nat,
    r: Result<(), String>,
) -> bool {
    let t = target@;
    let m0 = f0.store_view()[t];
    let m1 = crate::register::model_after_delta(m0, dw);
    let store1 = f0.store_view().insert(t, m1);
    let ea = adaptation_echo(target, words_xor(m0.words, m1.words), m0.bit_len);
    let eb = adaptation_echo(target, dw, dl);
    &&& bloom_inserted(f0.blooms_spec(), f1.blooms_spec(), sector_of(target), t)
    &&& f1.model_seq() == f0.model_seq()
    &&& f1.tiers_spec() == f0.tiers_spec()
    &&& f1.temporal_seq() == f0.temporal_seq()
    &&& f1.network_seq() == f0.network_seq()
    &&& f1.echo().policy_spec() == f0.echo().policy_spec()
    &&& f1.echo().gate() == f0.echo().gate()
    &&& exists|e1: EchoPropagator|
        #[trigger] queued(f0.echo(), e1, ea) && if e1.pending_seq().len() < e1.policy_spec().max_queue_size {
            &&& r is Ok
            &&& fabric_propagated(
                e1.policy_spec(),
                e1.gate(),
                e1.pending_seq().push(eb),
                store1,
                e1.stats_spec(),
                f1.store_view(),
                f1.echo().stats_spec(),
                f1.echo().pending_seq(),
            )
            &&& f1.stats_spec() == (FabricStats {
                total_writes: bump(f0.stats_spec().total_writes),
                adaptation_deltas_injected: bump(f0.stats_spec().adaptation_deltas_injected),
                ..f0.stats_spec()
            })
        } else {
            &&& r matches Err(e) && e@ == "Echo queue full"@
            &&& f1.store_view() == store1
            &&& f1.echo().pending_seq() == e1.pending_seq()
            &&& f1.echo().stats_spec() == (EchoStats {
                dropped: bump(e1.stats_spec().dropped),
                ..e1.stats_spec()
            })
            &&& f1.stats_spec() == (FabricStats {
                total_writes: bump(f0.stats_spec().total_writes),
                ..f0.stats_spec()
            })
        }
}

impl Fabric {
    /// Propagate the echoes pending in `propagator` through the fabric's
    /// registers, with the fabric's dependents (each address's first
    /// child, unless its shard is one of the last two).
    pub fn propagate_echoes(&mut self, propagator: &mut EchoPropagator) -> (r: EchoStats)
        requires
            old(self).wf(),
            old(propagator).wf(),
            echoes_fit(old(self).store_view(), old(propagator).pending_seq()),
        ensures
            final(self).wf(),
            final(propagator).wf(),
            final(propagator).policy_spec() == old(propagator).policy_spec(),
            final(propagator).gate() == old(propagator).gate(),
            r == final(propagator).stats_spec(),
            fabric_propagated(
                old(propagator).policy_spec(),
                old(propagator).gate(),
                old(propagator).pending_seq(),
                old(self).store_view(),
                old(propagator).stats_spec(),
                final(self).store_view(),
                final(propagator).stats_spec(),
                final(propagator).pending_seq(),
            ),
            final(self).model_seq() == old(self).model_seq(),
            final(self).echo() == old(self).echo(),
            final(self).blooms_spec() == old(self).blooms_spec(),
            final(self).stats_spec() == old(self).stats_spec(),
    {
        let deps = |a: RegisterAddress| -> (v: Vec<RegisterAddress>)
            ensures
                v@ == fabric_deps_of(a),
            { dependents_of(a) };
        let ghost dg = deps;
        proof {
            lemma_fits_lengths(self.registers@, propagator.pending_seq(), dg);
        }
        let r = propagator.propagate(&mut self.registers, deps);
        proof {
            let vecs = choose|vecs: Seq<Vec<RegisterAddress>>|
                crate::echo::propagated_as(
                    old(propagator).policy_spec(),
                    old(propagator).gate(),
                    old(propagator).pending_seq(),
                    old(self).store_view(),
                    old(propagator).stats_spec(),
                    dg,
                    vecs,
                    self.registers@,
                    propagator.stats_spec(),
                    propagator.pending_seq(),
                );
            lemma_fabric_propagation(
                old(propagator).policy_spec(),
                old(propagator).gate(),
                old(propagator).pending_seq(),
                old(self).store_view(),
                old(propagator).stats_spec(),
                dg,
                vecs,
                self.registers@,
                propagator.stats_spec(),
                propagator.pending_seq(),
            );
        }
        r
    }

    /// Apply `delta` to register `target_address` directly in the store,
    /// with `Register::update_with_delta`: no echo, no filter, no counter.
    /// Fails with "Target register not found" when nothing is stored there.
    pub fn inject_adapt_raw(&mut self, target_address: RegisterAddress, delta: BitslicedLane) -> (r: Result<(), String>)
        requires
            old(self).wf(),
            delta.wf(),
            old(self).store_view().contains_key(target_address@) ==> old(self).store_view()[target_address@].bit_len
                == delta.bit_len(),
        ensures
            final(self).wf(),
            r is Ok <==> old(self).store_view().contains_key(target_address@),
            r matches Err(e) ==> e@ == "Target register not found"@,
            final(self).store_view() == (if r is Ok {
                old(self).store_view().insert(
                    target_address@,
                    crate::register::model_after_delta(
                        old(self).store_view()[target_address@],
                        delta.word_seq(),
                    ),
                )
            } else {
                old(self).store_view()
            }),
            same_but_store_and_stats(*old(self), *final(self)),
            final(self).stats_spec() == old(self).stats_spec(),
    {
        let found = self.registers.apply_delta(target_address, &delta);
        if found {
            Ok(())
        } else {
            proof {
                reveal_strlit("Target register not found");
            }
            Err(String::from_str("Target register not found"))
        }
    }

    /// Adapt register `target_address` by `delta`: the register with the
    /// delta applied is written back (so the write's echo is queued and the
    /// sector's filter marked), the delta is queued as a structured echo
    /// for `purpose`, and, when it fits, the pending echoes are propagated
    /// to the fabric's dependents and the adaptation is counted. Fails with
    /// "Target register not found" (and no change) when nothing is stored
    /// at the target.
    pub fn inject_adapt(
        &mut self,
        target_address: RegisterAddress,
        delta: BitslicedLane,
        purpose: EchoPurpose,
    ) -> (r: Result<(), String>)
        requires
            old(self).wf(),
            delta.wf(),
            old(self).store_view().contains_key(target_address@) ==> old(self).store_view()[target_address@].bit_len
                == delta.bit_len(),
            adapt_fits(old(self).store_view(), old(self).echo().pending_seq(), target_address@),
        ensures
            final(self).wf(),
            !old(self).store_view().contains_key(target_address@) ==> {
                &&& r matches Err(e) && e@ == "Target register not found"@
                &&& same_but_stats(*old(self), *final(self))
                &&& final(self).stats_spec() == old(self).stats_spec()
            },
            old(self).store_view().contains_key(target_address@) ==> adapt_outcome(
                *old(self),
                *final(self),
                target_address,
                delta.word_seq(),
                delta.bit_len(),
                r,
            ),
    {
        let reg = match self.registers.get(target_address) {
            Some(reg) => reg,
            None => {
                proof {
                    reveal_strlit("Target register not found");
                }
                return Err(String::from_str("Target register not found"));
            },
        };
        let ghost f0 = *self;
        let ghost dw = delta.word_seq();
        let ghost dl = delta.bit_len();
        let mut updated = reg;
        updated.update_with_delta(&delta);
        let _ = self.write(target_address, updated);
        let ghost e1 = self.echo_propagator;
        let ghost store1 = self.registers@;
        let structured = StructuredEcho {
            source_address: target_address,
            delta,
            target_layer: target_address.layer(),
            max_depth: 5,
            purpose,
        };
        match self.echo_propagator.inject_structured(structured) {
            Ok(()) => {},
            Err(e) => {
                proof {
                    assert(queued(f0.echo(), e1, adaptation_echo(
                        target_address,
                        words_xor(f0.store_view()[target_address@].words, store1[target_address@].words),
                        f0.store_view()[target_address@].bit_len,
                    )));
                }
                return Err(e);
            },
        }
        let ghost e2 = self.echo_propagator;
        proof {
            let t = target_address@;
            assert forall|k: u128| #[trigger] store1.contains_key(k) implies store1[k].bit_len
                == f0.store_view()[k].bit_len by {
                if k != t {
                    assert(f0.store_view().contains_key(k));
                }
            }
            assert(echoes_fit(store1, e2.pending_seq())) by {
                assert forall|i: int, k: int|
                    0 <= i < e2.pending_seq().len() && 0 <= k < dependent_words(
                        e2.pending_seq()[i].source@,
                    ).len() && store1.contains_key(
                        #[trigger] dependent_words(e2.pending_seq()[i].source@)[k],
                    ) implies store1[dependent_words(e2.pending_seq()[i].source@)[k]].bit_len
                    == e2.pending_seq()[i].delta_len by {
                    let w = dependent_words(e2.pending_seq()[i].source@)[k];
                    if i < f0.echo().pending_seq().len() {
                        assert(e2.pending_seq()[i] == f0.echo().pending_seq()[i]);
                    }
                    assert(store1.contains_key(w) ==> f0.store_view().contains_key(w) || w == t);
                }
            }
        }
        let deps = |a: RegisterAddress| -> (v: Vec<RegisterAddress>)
            ensures
                v@ == fabric_deps_of(a),
            { dependents_of(a) };
        let ghost dg = deps;
        proof {
            lemma_fits_lengths(self.registers@, self.echo_propagator.pending_seq(), dg);
        }
        let _ = self.echo_propagator.propagate(&mut self.registers, deps);
        proof {
            let vecs = choose|vecs: Seq<Vec<RegisterAddress>>|
                crate::echo::propagated_as(
                    e2.policy_spec(),
                    e2.gate(),
                    e2.pending_seq(),
                    store1,
                    e2.stats_spec(),
                    dg,
                    vecs,
                    self.registers@,
                    self.echo_propagator.stats_spec(),
                    self.echo_propagator.pending_seq(),
                );
            lemma_fabric_propagation(
                e2.policy_spec(),
                e2.gate(),
                e2.pending_seq(),
                store1,
                e2.stats_spec(),
                dg,
                vecs,
                self.registers@,
                self.echo_propagator.stats_spec(),
                self.echo_propagator.pending_seq(),
            );
        }
        self.stats.adaptation_deltas_injected = self.stats.adaptation_deltas_injected.wrapping_add(1);
        proof {
            assert(queued(f0.echo(), e1, adaptation_echo(
                target_address,
                words_xor(f0.store_view()[target_address@].words, store1[target_address@].words),
                f0.store_view()[target_address@].bit_len,
            )));
        }
        Ok(())
    }
}


// ── Models, networks, queries, records ─────────────────────────────────────

/// Entry `i` is a model named `name`.
pub open spec fn model_index(ms: Seq<ModelAttachment>, name: Seq<char>, i: int) -> bool {
    0 <= i < ms.len() && ms[i].name@ == name
}

/// Some model is named `name`.
pub open spec fn has_model(ms: Seq<ModelAttachment>, name: Seq<char>) -> bool {
    exists|i: int| model_index(ms, name, i)
}

/// `ms` with `m` stored under its name: the model of that name replaced in
/// place, or `m` appended.
pub open spec fn models_with(ms: Seq<ModelAttachment>, m: ModelAttachment) -> Seq<ModelAttachment> {
    if has_model(ms, m.name@) {
        ms.update(choose|i: int| model_index(ms, m.name@, i), m)
    } else {
        ms.push(m)
    }
}

/// Entry `i` is the first network named `name`.
pub open spec fn network_index(ns: Seq<(String, NetworkRegister)>, name: Seq<char>, i: int) -> bool {
    &&& 0 <= i < ns.len()
    &&& ns[i].0@ == name
    &&& forall|j: int| 0 <= j < i ==> (#[trigger] ns[j]).0@ != name
}

/// A sector that a scan skips: its filter has at most two bits set, that
/// is, the filter's element estimate −(m/k)·ln(1 − X/m) is below one for
/// the registry's 256-bit, 3-hash filters.
pub open spec fn sector_skipped(b: BloomRegistry, key: SectorKey) -> bool {
    b.blooms().contains_key(key_word(key)) && crate::bitslice::words_pop(
        b.blooms()[key_word(key)].word_seq(),
    ) <= 2
}

/// Address word `w` is examined by a scan of sectors `s0..=s1` of
/// (`spine`, `layer`): its spine, layer and sector match, and its sector
/// (taken at ring 0) is not skipped.
pub open spec fn in_scan(b: BloomRegistry, spine: u16, layer: u16, s0: u16, s1: u16, w: u128) -> bool {
    &&& field_of(w, 0) == spine
    &&& field_of(w, 16) == layer
    &&& s0 <= field_of(w, 48) <= s1
    &&& !sector_skipped(b, SectorKey { spine, layer, ring: 0, sector: field_of(w, 48) })
}

impl Fabric {
    /// Index of the model named `name`, if any.
    fn find_model(&self, name: &str) -> (r: Option<usize>)
        ensures
            match r {
                Some(i) => model_index(self.model_seq(), name@, i as int),
                None => !has_model(self.model_seq(), name@),
            },
    {
        let key = name.to_owned();
        let mut i: usize = 0;
        while i < self.models.len()
            invariant
                i <= self.models@.len(),
                key@ == name@,
                forall|j: int| 0 <= j < i ==> (#[trigger] self.models@[j]).name@ != name@,
            decreases self.models@.len() - i,
        {
            if self.models[i].name == key {
                return Some(i);
            }
            i = i + 1;
        }
        None
    }

    /// Store `m` under its name.
    fn store_model(&mut self, m: ModelAttachment)
        requires
            old(self).wf(),
            m.base_address@ + 2 * m.weight_count <= u128::MAX,
        ensures
            final(self).wf(),
            final(self).model_seq() == models_with(old(self).model_seq(), m),
            same_but_models(*old(self), *final(self)),
    {
        let ghost mm = m;
        let name = m.name.clone();
        match self.find_model(name.as_str()) {
            Some(i) => {
                proof {
                    let c = choose|k: int| model_index(old(self).models@, mm.name@, k);
                    if c != i as int {
                        if c < i {
                            assert(old(self).models@[c].name@ != old(self).models@[i as int].name@);
                        } else {
                            assert(old(self).models@[i as int].name@ != old(self).models@[c].name@);
                        }
                    }
                }
                self.models.set(i, m);
                proof {
                    assert forall|a: int, b: int|
                        0 <= a < b < self.models@.len() implies (#[trigger] self.models@[a]).name@
                            != (#[trigger] self.models@[b]).name@ by {
                        if a != i as int && b != i as int {
                            assert(old(self).models@[a].name@ != old(self).models@[b].name@);
                        } else if a == i as int {
                            assert(old(self).models@[i as int].name@ != old(self).models@[b].name@);
                        } else {
                            assert(old(self).models@[a].name@ != old(self).models@[i as int].name@);
                        }
                    }
                    assert forall|k: int| 0 <= k < self.models@.len() implies (#[trigger] self.models@[k]).base_address@
                        + 2 * self.models@[k].weight_count <= u128::MAX by {
                        if k != i as int {
                            assert(old(self).models@[k] == self.models@[k]);
                        }
                    }
                }
            },
            None => {
                self.models.push(m);
                proof {
                    assert forall|a: int, b: int|
                        0 <= a < b < self.models@.len() implies (#[trigger] self.models@[a]).name@
                            != (#[trigger] self.models@[b]).name@ by {
                        if b < old(self).models@.len() {
                            assert(old(self).models@[a].name@ != old(self).models@[b].name@);
                        } else {
                            assert(!model_index(old(self).models@, mm.name@, a));
                        }
                    }
                    assert forall|k: int| 0 <= k < self.models@.len() implies (#[trigger] self.models@[k]).base_address@
                        + 2 * self.models@[k].weight_count <= u128::MAX by {
                        if k < old(self).models@.len() {
                            assert(old(self).models@[k] == self.models@[k]);
                        }
                    }
                }
            },
        }
    }

    /// Attach a model: 1000 weights from the weight address (0xD000, 0, 0,
    /// 0, 0, 0), 100 KV-cache entries, cold tier. A model of the same name
    /// is replaced. Always succeeds and returns the model.
    pub fn attach_model(
        &mut self,
        name: &str,
        _weight_source: &str,
        quantization: QuantizationLevel,
        is_delta: bool,
        base_model_name: Option<&str>,
    ) -> (r: Result<ModelAttachment, String>)
        requires
            old(self).wf(),
        ensures
            final(self).wf(),
            r is Ok,
            ({
                let m = r->Ok_0;
                &&& m.name@ == name@
                &&& m.base_address@ == crate::address::pack_fields(0xD000, 0, 0, 0, 0, 0)
                &&& m.weight_count == 1000
                &&& m.kv_cache_count == 100
                &&& m.tier.spec_u8() == 3
                &&& m.quantization == quantization
                &&& m.is_delta == is_delta
                &&& match base_model_name {
                    Some(b) => m.base_model_name matches Some(s) && s@ == b@,
                    None => m.base_model_name is None,
                }
                &&& final(self).model_seq() == models_with(old(self).model_seq(), m)
            }),
            same_but_models(*old(self), *final(self)),
    {
        let base_address = ranges::weight_address(0, 0, 0);
        proof {
            assert(crate::address::pack_fields(0xD000, 0, 0, 0, 0, 0) == 0xD000u128) by (bit_vector);
        }
        let model = ModelAttachment {
            name: name.to_owned(),
            base_address,
            weight_count: 1000,
            kv_cache_count: 100,
            tier: crate::tiers::TierId::COLD(),
            quantization,
            is_delta,
            base_model_name: match base_model_name {
                Some(b) => Some(b.to_owned()),
                None => None,
            },
        };
        self.store_model(model.clone());
        Ok(model)
    }

    /// Attach `name` as an XOR delta of the model `base_model_name`: the
    /// base's address, sizes, tier and quantisation, marked as a delta of
    /// the base. Fails with "Base model '<base>' not found" when there is
    /// no such model.
    pub fn attach_delta_model(&mut self, name: &str, base_model_name: &str) -> (r: Result<
        ModelAttachment,
        String,
    >)
        requires
            old(self).wf(),
        ensures
            final(self).wf(),
            r is Ok <==> has_model(old(self).model_seq(), base_model_name@),
            r matches Err(e) ==> e@ == "Base model '"@ + base_model_name@ + "' not found"@
                && final(self).model_seq() == old(self).model_seq(),
            r matches Ok(m) ==> exists|i: int|
                model_index(old(self).model_seq(), base_model_name@, i) && {
                    let b = old(self).model_seq()[i];
                    &&& m.name@ == name@
                    &&& m.base_address == b.base_address
                    &&& m.weight_count == b.weight_count
                    &&& m.kv_cache_count == b.kv_cache_count
                    &&& m.tier == b.tier
                    &&& m.quantization == b.quantization
                    &&& m.is_delta
                    &&& m.base_model_name matches Some(s) && s@ == base_model_name@
                    &&& final(self).model_seq() == models_with(old(self).model_seq(), m)
                },
            same_but_models(*old(self), *final(self)),
    {
        match self.find_model(base_model_name) {
            None => {
                proof {
                    reveal_strlit("Base model '");
                    reveal_strlit("' not found");
                }
                let mut msg = String::from_str("Base model '");
                msg.append(base_model_name);
                msg.append("' not found");
                Err(msg)
            },
            Some(i) => {
                let model = ModelAttachment {
                    name: name.to_owned(),
                    base_address: self.models[i].base_address,
                    weight_count: self.models[i].weight_count,
                    kv_cache_count: self.models[i].kv_cache_count,
                    tier: self.models[i].tier,
                    quantization: self.models[i].quantization,
                    is_delta: true,
                    base_model_name: Some(base_model_name.to_owned()),
                };
                assert(self.models@[i as int].base_address@ + 2 * self.models@[i as int].weight_count <= u128::MAX);
                self.store_model(model.clone());
                Ok(model)
            },
        }
    }

    /// A copy of the model named `name`, if any.
    pub fn get_model(&self, name: &str) -> (r: Option<ModelAttachment>)
        ensures
            match r {
                Some(m) => exists|i: int| model_index(self.model_seq(), name@, i) && m == self.model_seq()[i],
                None => !has_model(self.model_seq(), name@),
            },
    {
        match self.find_model(name) {
            Some(i) => Some(self.models[i].clone()),
            None => None,
        }
    }

    /// The attached models, in attachment order.
    pub fn models(&self) -> (r: &[ModelAttachment])
        ensures
            r@ == self.model_seq(),
    {
        self.models.as_slice()
    }

    /// Detach the model named `name`, returning it (`None` when there is
    /// none).
    pub fn remove_model(&mut self, name: &str) -> (r: Option<ModelAttachment>)
        requires
            old(self).wf(),
        ensures
            final(self).wf(),
            match r {
                Some(m) => exists|i: int|
                    model_index(old(self).model_seq(), name@, i) && m == old(self).model_seq()[i]
                        && final(self).model_seq() == old(self).model_seq().remove(i),
                None => !has_model(old(self).model_seq(), name@) && final(self).model_seq()
                    == old(self).model_seq(),
            },
            same_but_models(*old(self), *final(self)),
    {
        match self.find_model(name) {
            Some(i) => {
                let m = self.models.remove(i);
                proof {
                    assert forall|a: int, b: int|
                        0 <= a < b < self.models@.len() implies (#[trigger] self.models@[a]).name@
                            != (#[trigger] self.models@[b]).name@ by {
                        let a0 = if a < i { a } else { a + 1 };
                        let b0 = if b < i { b } else { b + 1 };
                        assert(old(self).models@[a0].name@ != old(self).models@[b0].name@);
                    }
                    assert forall|k: int| 0 <= k < self.models@.len() implies (#[trigger] self.models@[k]).base_address@
                        + 2 * self.models@[k].weight_count <= u128::MAX by {
                        let k0 = if k < i { k } else { k + 1 };
                        assert(old(self).models@[k0] == self.models@[k]);
                    }
                }
                Some(m)
            },
            None => None,
        }
    }

    /// Attach a network register `name` at `address` with `num_nodes`
    /// bits, replacing a network of that name, and return it.
    pub fn attach_network(&mut self, name: &str, address: RegisterAddress, num_nodes: usize) -> (r: NetworkRegister)
        requires
            old(self).wf(),
            num_nodes + 63 <= usize::MAX,
        ensures
            final(self).wf(),
            r.wf(),
            r.address == address,
            r.depth == 0,
            r.children@.len() == 0,
            r.lane.spatial.bit_len() == num_nodes,
            exists|i: int|
                network_index(final(self).network_seq(), name@, i) && final(self).network_seq()[i].1.lane.spatial.word_seq()
                    == r.lane.spatial.word_seq() && final(self).network_seq()[i].1.lane.spatial.bit_len()
                    == num_nodes,
            final(self).store_view() == old(self).store_view(),
            final(self).model_seq() == old(self).model_seq(),
            final(self).echo() == old(self).echo(),
            final(self).blooms_spec() == old(self).blooms_spec(),
            final(self).stats_spec() == old(self).stats_spec(),
    {
        let network = NetworkRegister::new(address, num_nodes);
        let copy = network.clone();
        let key = name.to_owned();
        let mut i: usize = 0;
        while i < self.networks.len()
            invariant
                i <= self.networks@.len(),
                key@ == name@,
                self.networks@ == old(self).networks@,
                self.registers == old(self).registers,
                self.bloom_registry == old(self).bloom_registry,
                self.echo_propagator == old(self).echo_propagator,
                self.stats == old(self).stats,
                self.models == old(self).models,
                self.temporal_pool == old(self).temporal_pool,
                self.initialized == old(self).initialized,
                self.config == old(self).config,
                self.native == old(self).native,
                old(self).wf(),
                copy.wf(),
                copy.lane.spatial.word_seq() == network.lane.spatial.word_seq(),
                copy.lane.spatial.bit_len() == num_nodes,
                network.wf(),
                network.address == address,
                network.depth == 0,
                network.children@.len() == 0,
                network.lane.spatial.bit_len() == num_nodes,
                forall|j: int| 0 <= j < i ==> (#[trigger] self.networks@[j]).0@ != name@,
            decreases self.networks@.len() - i,
        {
            if self.networks[i].0 == key {
                assert(copy.lane.wf());
                self.networks.set(i, (key, copy));
                proof {
                    assert(network_index(self.network_seq(), name@, i as int)
                        && self.network_seq()[i as int].1.lane.spatial.word_seq() == network.lane.spatial.word_seq()
                        && self.network_seq()[i as int].1.lane.spatial.bit_len() == num_nodes);
                    assert forall|j: int| 0 <= j < self.networks@.len() implies (#[trigger] self.networks@[j]).1.wf() by {
                        if j != i as int {
                            assert(old(self).networks@[j] == self.networks@[j]);
                        }
                    }
                }
                return network;
            }
            i = i + 1;
        }
        let ghost cw = copy.lane.spatial.word_seq();
        self.networks.push((key, copy));
        proof {
            let n = old(self).networks@.len() as int;
            assert(network_index(self.networks@, name@, n));
            assert(network_index(self.network_seq(), name@, n)
                && self.network_seq()[n].1.lane.spatial.word_seq() == network.lane.spatial.word_seq()
                && self.network_seq()[n].1.lane.spatial.bit_len() == num_nodes);
            assert forall|j: int| 0 <= j < self.networks@.len() implies (#[trigger] self.networks@[j]).1.wf() by {
                if j < old(self).networks@.len() {
                    assert(old(self).networks@[j] == self.networks@[j]);
                }
            }
        }
        network
    }

    /// Index of the first network named `name`, if any.
    fn find_network(&self, name: &str) -> (r: Option<usize>)
        ensures
            match r {
                Some(i) => network_index(self.network_seq(), name@, i as int),
                None => forall|i: int| 0 <= i < self.network_seq().len() ==> (#[trigger] self.network_seq()[i]).0@ != name@,
            },
    {
        let key = name.to_owned();
        let mut i: usize = 0;
        while i < self.networks.len()
            invariant
                i <= self.networks@.len(),
                key@ == name@,
                forall|j: int| 0 <= j < i ==> (#[trigger] self.networks@[j]).0@ != name@,
            decreases self.networks@.len() - i,
        {
            if self.networks[i].0 == key {
                return Some(i);
            }
            i = i + 1;
        }
        None
    }

    /// A copy of the first network named `name`, if any.
    pub fn get_network(&self, name: &str) -> (r: Option<NetworkRegister>)
        ensures
            match r {
                Some(n) => exists|i: int|
                    network_index(self.network_seq(), name@, i) && n.address == self.network_seq()[i].1.address
                        && n.lane.spatial.word_seq() == self.network_seq()[i].1.lane.spatial.word_seq()
                        && n.lane.temporal.word_seq() == self.network_seq()[i].1.lane.temporal.word_seq()
                        && n.lane.spatial.bit_len() == self.network_seq()[i].1.lane.spatial.bit_len(),
                None => forall|i: int| 0 <= i < self.network_seq().len() ==> (#[trigger] self.network_seq()[i]).0@ != name@,
            },
    {
        match self.find_network(name) {
            Some(i) => Some(self.networks[i].1.clone()),
            None => None,
        }
    }

    /// The active connections of the first network named `name`, if any.
    pub fn eval_network(&self, name: &str) -> (r: Option<BitslicedLane>)
        requires
            self.wf(),
        ensures
            match r {
                Some(l) => exists|i: int|
                    network_index(self.network_seq(), name@, i) && l.word_seq() == crate::bitslice::words_and(
                        self.network_seq()[i].1.lane.spatial.word_seq(),
                        self.network_seq()[i].1.lane.temporal.word_seq(),
                    ),
                None => forall|i: int| 0 <= i < self.network_seq().len() ==> (#[trigger] self.network_seq()[i]).0@ != name@,
            },
    {
        match self.find_network(name) {
            Some(i) => {
                assert(self.networks@[i as int].1.wf());
                Some(self.networks[i].1.evaluate())
            },
            None => None,
        }
    }
}

/// The fabric state apart from its models.
pub open spec fn same_but_models(f0: Fabric, f1: Fabric) -> bool {
    &&& f1.store_view() == f0.store_view()
    &&& f1.echo() == f0.echo()
    &&& f1.blooms_spec() == f0.blooms_spec()
    &&& f1.tiers_spec() == f0.tiers_spec()
    &&& f1.temporal_seq() == f0.temporal_seq()
    &&& f1.network_seq() == f0.network_seq()
    &&& f1.is_initialized() == f0.is_initialized()
    &&& f1.stats_spec() == f0.stats_spec()
    &&& f1.echo_policy() == f0.echo_policy()
}


/// The filter returned `b` for the register with value `m` at `a`.
pub open spec fn filter_gave<F: Fn(RegisterAddress, &Register) -> bool>(
    filter: F,
    a: RegisterAddress,
    m: RegisterModel,
    b: bool,
) -> bool {
    exists|reg: Register| reg@ == m && #[trigger] filter.ensures((a, &reg), b)
}

/// Address word `w` matches (`spine`, `layer`) and has its sector in
/// `s0..s1` (exclusive), that sector not being skipped.
pub open spec fn scanned_before(b: BloomRegistry, spine: u16, layer: u16, s0: u16, s1: int, w: u128) -> bool {
    &&& field_of(w, 0) == spine
    &&& field_of(w, 16) == layer
    &&& s0 <= field_of(w, 48) < s1
    &&& !sector_skipped(b, SectorKey { spine, layer, ring: 0, sector: field_of(w, 48) })
}

/// What a sequence with one more element contains.
proof fn lemma_push_contains<T>(s: Seq<T>, v: T)
    ensures
        forall|x: T| #[trigger] s.push(v).contains(x) <==> s.contains(x) || x == v,
{
    assert forall|x: T| #[trigger] s.push(v).contains(x) <==> s.contains(x) || x == v by {
        if s.contains(x) {
            let k = choose|k: int| 0 <= k < s.len() && s[k] == x;
            assert(s.push(v)[k] == x);
        }
        if x == v {
            assert(s.push(v)[s.len() as int] == x);
        }
        if s.push(v).contains(x) && x != v {
            let k = choose|k: int| 0 <= k < s.push(v).len() && s.push(v)[k] == x;
            assert(s[k] == x);
        }
    }
}

/// A sequence without duplicates whose elements all lie in a sequence
/// without duplicates is no longer than it.
proof fn lemma_distinct_subseq_len(sub: Seq<u128>, sup: Seq<u128>)
    requires
        sub.no_duplicates(),
        sup.no_duplicates(),
        forall|x: u128| #[trigger] sub.contains(x) ==> sup.contains(x),
    ensures
        sub.len() <= sup.len(),
{
    sub.unique_seq_to_set();
    sup.unique_seq_to_set();
    assert(sub.to_set().subset_of(sup.to_set()));
    vstd::set_lib::lemma_len_subset(sub.to_set(), sup.to_set());
}

impl Fabric {
    /// Scan the registers of sectors `sector_start..=sector_end` of
    /// (`spine`, `layer`) — ring ignored — with `filter`. A sector whose
    /// filter holds at most two set bits (an element estimate below one)
    /// is skipped. Every other register in range is counted as scanned and
    /// kept when the filter accepts it. The elapsed time is left at 0 for
    /// the caller to fill in.
    pub fn query_scan<F: Fn(RegisterAddress, &Register) -> bool>(
        &self,
        spine: u16,
        layer: u16,
        sector_start: u16,
        sector_end: u16,
        filter: F,
        _output_address: RegisterAddress,
    ) -> (r: QueryResult)
        requires
            self.wf(),
            forall|a: RegisterAddress, reg: &Register| filter.requires((a, reg)),
        ensures
            r.match_count == r.match_addresses@.len(),
            r.elapsed_us == 0,
            r.scanned_count == self.store_view().dom().filter(
                |w: u128| in_scan(self.blooms_spec(), spine, layer, sector_start, sector_end, w),
            ).len(),
            forall|i: int|
                0 <= i < r.match_addresses@.len() ==> {
                    let w = (#[trigger] r.match_addresses@[i])@;
                    &&& self.store_view().contains_key(w)
                    &&& in_scan(self.blooms_spec(), spine, layer, sector_start, sector_end, w)
                    &&& filter_gave(filter, r.match_addresses@[i], self.store_view()[w], true)
                },
            forall|w: u128|
                #[trigger] self.store_view().contains_key(w) && in_scan(
                    self.blooms_spec(),
                    spine,
                    layer,
                    sector_start,
                    sector_end,
                    w,
                ) ==> (exists|i: int|
                    0 <= i < r.match_addresses@.len() && (#[trigger] r.match_addresses@[i])@ == w)
                    || filter_gave(filter, crate::address::address_of_word(w), self.store_view()[w], false),
    {
        let keys = self.registers.keys();
        let ghost dom = self.store_view().dom();
        let ghost b = self.bloom_registry;
        let mut matches: Vec<RegisterAddress> = Vec::new();
        let mut scanned: usize = 0;
        let ghost mut visited: Seq<u128> = Seq::empty();
        let mut sec: u32 = sector_start as u32;
        while sec <= sector_end as u32
            invariant
                sector_start <= sec,
                sec <= sector_end as int + 1 || sec == sector_start,
                self.wf(),
                b == self.blooms_spec(),
                dom == self.store_view().dom(),
                keys@.no_duplicates(),
                keys@.to_set() == dom,
                visited.no_duplicates(),
                scanned == visited.len(),
                forall|x: u128|
                    #[trigger] visited.contains(x) <==> dom.contains(x) && scanned_before(
                        b,
                        spine,
                        layer,
                        sector_start,
                        sec as int,
                        x,
                    ),
                forall|i: int|
                    0 <= i < matches@.len() ==> {
                        let w = (#[trigger] matches@[i])@;
                        &&& visited.contains(w)
                        &&& filter_gave(filter, matches@[i], self.store_view()[w], true)
                    },
                forall|x: u128|
                    #[trigger] visited.contains(x) ==> (exists|i: int|
                        0 <= i < matches@.len() && (#[trigger] matches@[i])@ == x) || filter_gave(
                        filter,
                        crate::address::address_of_word(x),
                        self.store_view()[x],
                        false,
                    ),
                forall|a: RegisterAddress, reg: &Register| filter.requires((a, reg)),
            decreases sector_end as int + 1 - sec,
        {
            let sector = sec as u16;
            let key = SectorKey::new(spine, layer, 0, sector);
            let skip = match self.bloom_registry.get_bloom(key) {
                Some(bl) => {
                    proof {
                        assert(b.blooms().contains_key(key_word(key)));
                    }
                    bl.bit_count() <= 2
                },
                None => false,
            };
            assert(skip == sector_skipped(b, key));
            if !skip {
                let mut j: usize = 0;
                while j < keys.len()
                    invariant
                        j <= keys@.len(),
                        sector_start <= sec <= sector_end,
                        sector == sec,
                        !sector_skipped(b, SectorKey { spine, layer, ring: 0, sector }),
                        self.wf(),
                        b == self.blooms_spec(),
                        dom == self.store_view().dom(),
                        keys@.no_duplicates(),
                        keys@.to_set() == dom,
                        visited.no_duplicates(),
                        scanned == visited.len(),
                        forall|x: u128|
                            #[trigger] visited.contains(x) <==> dom.contains(x) && (scanned_before(
                                b,
                                spine,
                                layer,
                                sector_start,
                                sec as int,
                                x,
                            ) || (field_of(x, 0) == spine && field_of(x, 16) == layer && field_of(x, 48)
                                == sector && keys@.take(j as int).contains(x))),
                        forall|i: int|
                            0 <= i < matches@.len() ==> {
                                let w = (#[trigger] matches@[i])@;
                                &&& visited.contains(w)
                                &&& filter_gave(filter, matches@[i], self.store_view()[w], true)
                            },
                        forall|x: u128|
                            #[trigger] visited.contains(x) ==> (exists|i: int|
                                0 <= i < matches@.len() && (#[trigger] matches@[i])@ == x) || filter_gave(
                                filter,
                                crate::address::address_of_word(x),
                                self.store_view()[x],
                                false,
                            ),
                        forall|a: RegisterAddress, reg: &Register| filter.requires((a, reg)),
                    decreases keys@.len() - j,
                {
                    let w = keys[j];
                    let addr = RegisterAddress::from_bits(w);
                    proof {
                        assert(keys@.to_set().contains(w));
                        assert(keys@.take(j as int + 1) =~= keys@.take(j as int).push(w));
                        lemma_push_contains(keys@.take(j as int), w);
                        assert(!keys@.take(j as int).contains(w)) by {
                            if keys@.take(j as int).contains(w) {
                                let k = choose|k: int| 0 <= k < j && keys@.take(j as int)[k] == w;
                                assert(keys@[k] == keys@[j as int]);
                            }
                        }
                        crate::address::lemma_address_of_word(addr, w);
                    }
                    if addr.spine() == spine && addr.layer() == layer && addr.sector() == sector {
                        proof {
                            assert(!visited.contains(w));
                            lemma_distinct_subseq_len(visited, keys@);
                            assert(visited.len() < keys@.len()) by {
                                assert(forall|x: u128| #[trigger] visited.push(w).contains(x) ==> keys@.contains(x)) by {
                                    assert forall|x: u128| #[trigger] visited.push(w).contains(x) implies keys@.contains(x) by {
                                        if x != w {
                                            assert(visited.contains(x));
                                            assert(dom.contains(x));
                                            assert(keys@.to_set().contains(x));
                                        }
                                    }
                                }
                                lemma_distinct_subseq_len(visited.push(w), keys@);
                            }
                        }
                        scanned = scanned + 1;
                        let ghost before_matches = matches@;
                        match self.registers.get(addr) {
                            Some(reg) => {
                                if filter(addr, &reg) {
                                    matches.push(addr);
                                    proof {
                                        assert(filter_gave(filter, addr, self.store_view()[w], true));
                                        assert(matches@[matches@.len() - 1]@ == w);
                                    }
                                } else {
                                    proof {
                                        assert(filter_gave(filter, addr, self.store_view()[w], false));
                                    }
                                }
                            },
                            None => {
                                proof {
                                    assert(false);
                                }
                            },
                        }
                        proof {
                            let ghost old_visited = visited;
                            lemma_push_contains(visited, w);
                            lemma_push_contains(before_matches, addr);
                            visited = visited.push(w);
                            assert forall|x: u128| #[trigger] visited.contains(x) implies (exists|i: int|
                                0 <= i < matches@.len() && (#[trigger] matches@[i])@ == x) || filter_gave(
                                filter,
                                crate::address::address_of_word(x),
                                self.store_view()[x],
                                false,
                            ) by {
                                if x != w {
                                    assert(old_visited.contains(x));
                                    if exists|i: int| 0 <= i < before_matches.len() && (#[trigger] before_matches[i])@ == x {
                                        let i = choose|i: int| 0 <= i < before_matches.len() && (#[trigger] before_matches[i])@ == x;
                                        assert(matches@[i] == before_matches[i]);
                                    }
                                }
                            }
                            assert forall|i: int| 0 <= i < matches@.len() implies {
                                let ww = (#[trigger] matches@[i])@;
                                &&& visited.contains(ww)
                                &&& filter_gave(filter, matches@[i], self.store_view()[ww], true)
                            } by {
                                if i < before_matches.len() {
                                    assert(matches@[i] == before_matches[i]);
                                    assert(old_visited.contains(before_matches[i]@));
                                } else {
                                    assert(matches@[i] == addr);
                                }
                            }
                        }
                    }
                    proof {
                        assert forall|x: u128|
                            #[trigger] visited.contains(x) <==> dom.contains(x) && (scanned_before(
                                b,
                                spine,
                                layer,
                                sector_start,
                                sec as int,
                                x,
                            ) || (field_of(x, 0) == spine && field_of(x, 16) == layer && field_of(x, 48)
                                == sector && keys@.take(j + 1).contains(x))) by {
                            if x == w {
                                assert(keys@.take(j + 1).contains(w));
                            }
                        }
                    }
                    j = j + 1;
                }
                proof {
                    assert(keys@.take(keys@.len() as int) =~= keys@);
                    assert forall|x: u128| #[trigger] visited.contains(x) <==> dom.contains(x) && scanned_before(
                        b,
                        spine,
                        layer,
                        sector_start,
                        sec as int + 1,
                        x,
                    ) by {
                        if dom.contains(x) && field_of(x, 48) == sector {
                            assert(keys@.to_set().contains(x));
                        }
                    }
                }
            } else {
                proof {
                    assert forall|x: u128| #[trigger] visited.contains(x) <==> dom.contains(x) && scanned_before(
                        b,
                        spine,
                        layer,
                        sector_start,
                        sec as int + 1,
                        x,
                    ) by {
                        if scanned_before(b, spine, layer, sector_start, sec as int + 1, x) {
                            assert(field_of(x, 48) != sector);
                        }
                    }
                }
            }
            sec = sec + 1;
        }
        proof {
            let target = self.store_view().dom().filter(
                |w: u128| in_scan(self.blooms_spec(), spine, layer, sector_start, sector_end, w),
            );
            assert(visited.to_set() =~= target) by {
                assert forall|x: u128| visited.to_set().contains(x) <==> target.contains(x) by {
                    if target.contains(x) {
                        assert(scanned_before(b, spine, layer, sector_start, sec as int, x));
                    }
                }
            }
            visited.unique_seq_to_set();
            assert forall|w: u128|
                #[trigger] self.store_view().contains_key(w) && in_scan(
                    self.blooms_spec(),
                    spine,
                    layer,
                    sector_start,
                    sector_end,
                    w,
                ) implies (exists|i: int|
                    0 <= i < matches@.len() && (#[trigger] matches@[i])@ == w)
                    || filter_gave(filter, crate::address::address_of_word(w), self.store_view()[w], false) by {
                assert(scanned_before(b, spine, layer, sector_start, sec as int, w));
                assert(visited.contains(w));
            }
        }
        let n = matches.len();
        let ghost ms = matches@;
        let r = QueryResult { match_count: n, scanned_count: scanned, elapsed_us: 0, match_addresses: matches };
        proof {
            assert(r.match_addresses@ == ms);
            assert forall|w: u128|
                #[trigger] self.store_view().contains_key(w) && in_scan(
                    self.blooms_spec(),
                    spine,
                    layer,
                    sector_start,
                    sector_end,
                    w,
                ) implies (exists|i: int|
                    0 <= i < r.match_addresses@.len() && (#[trigger] r.match_addresses@[i])@ == w)
                    || filter_gave(filter, crate::address::address_of_word(w), self.store_view()[w], false) by {
                if exists|i: int| 0 <= i < ms.len() && (#[trigger] ms[i])@ == w {
                    let i = choose|i: int| 0 <= i < ms.len() && (#[trigger] ms[i])@ == w;
                    assert(r.match_addresses@[i]@ == w);
                }
            }
        }
        r
    }
}


/// The address word of field `i` of an entity of type `entity_type`:
/// (entity_type, layer 5, ring 0, sector i, shard entity_type, temporal 0).
pub open spec fn record_field_word(entity_type: u16, i: int) -> u128 {
    crate::address::pack_fields(entity_type, 5, 0, (i % 0x1_0000) as u16, entity_type, 0)
}

/// A counter bumped `n` times (wrapping).
pub open spec fn bumped(x: u64, n: nat) -> u64
    decreases n,
{
    if n == 0 {
        x
    } else {
        bump(bumped(x, (n - 1) as nat))
    }
}

/// The address word of a record field's register: (entity_type, layer 5,
/// ring 0, sector `sector`, shard entity_id, temporal 0).
pub open spec fn record_word(entity_type: u16, sector: u16, entity_id: u16) -> u128 {
    crate::address::pack_fields(entity_type, 5, 0, sector, entity_id, 0)
}

/// A register value holding 256 zero bits, freshly made at `w`.
pub open spec fn is_blank_register(m: RegisterModel, w: u128) -> bool {
    exists|lane: BitslicedLane|
        lane.word_seq() == Seq::new(4, |k: int| 0u64) && lane.bit_len() == 256 && m
            == #[trigger] fresh_model(w, lane)
}

/// The echoes processed over a round of rotation events.
pub open spec fn echoes_sum(rs: Seq<RotationResult>) -> nat
    decreases rs.len(),
{
    if rs.len() == 0 {
        0
    } else {
        echoes_sum(rs.drop_last()) + (rs.last().echoes_processed as nat)
    }
}

/// The prefetches over a round of rotation events.
pub open spec fn prefetches_sum(rs: Seq<RotationResult>) -> nat
    decreases rs.len(),
{
    if rs.len() == 0 {
        0
    } else {
        prefetches_sum(rs.drop_last()) + (rs.last().prefetches as nat)
    }
}

/// The "record not found" message.
pub open spec fn record_not_found(entity_type: u16, entity_id: u16) -> Seq<char> {
    "Record not found: entity_type="@ + crate::text::decimal(entity_type as nat) + ", entity_id="@
        + crate::text::decimal(entity_id as nat)
}

impl Fabric {
    /// Insert a record: for each schema field `i`, write a register of 256
    /// zero bits at (entity type, layer 5, ring 0, sector `i`, shard entity
    /// type). Always succeeds.
    pub fn db_insert_record(&mut self, record: &Record) -> (r: Result<(), String>)
        requires
            old(self).wf(),
            forall|i: int|
                0 <= i < record.schema@.len() && #[trigger] old(self).store_view().contains_key(
                    record_field_word(record.metadata.entity_type, i),
                ) ==> old(self).store_view()[record_field_word(record.metadata.entity_type, i)].bit_len
                    == 256,
        ensures
            final(self).wf(),
            r is Ok,
            forall|w: u128|
                #[trigger] final(self).store_view().contains_key(w) <==> old(self).store_view().contains_key(w)
                    || exists|i: int|
                    0 <= i < record.schema@.len() && w == #[trigger] record_field_word(
                        record.metadata.entity_type,
                        i,
                    ),
            forall|i: int|
                0 <= i < record.schema@.len() ==> is_blank_register(
                    final(self).store_view()[#[trigger] record_field_word(record.metadata.entity_type, i)],
                    record_field_word(record.metadata.entity_type, i),
                ),
            forall|w: u128|
                #[trigger] old(self).store_view().contains_key(w) && (forall|i: int|
                    0 <= i < record.schema@.len() ==> w != #[trigger] record_field_word(
                        record.metadata.entity_type,
                        i,
                    )) ==> final(self).store_view()[w] == old(self).store_view()[w],
            forall|i: int|
                0 <= i < record.schema@.len() ==> #[trigger] final(self).blooms_spec().spec_sector_might_contain(
                    sector_of(crate::address::address_of_word(record_field_word(record.metadata.entity_type, i))),
                    record_field_word(record.metadata.entity_type, i),
                ),
            final(self).model_seq() == old(self).model_seq(),
            final(self).echo().policy_spec() == old(self).echo().policy_spec(),
            final(self).echo().gate() == old(self).echo().gate(),
            final(self).stats_spec() == (FabricStats {
                total_writes: bumped(old(self).stats_spec().total_writes, record.schema@.len()),
                ..old(self).stats_spec()
            }),
    {
        let entity_type = record.metadata.entity_type;
        let n = record.schema.len();
        let mut i: usize = 0;
        while i < n
            invariant
                i <= n,
                n == record.schema@.len(),
                entity_type == record.metadata.entity_type,
                self.wf(),
                forall|j: int|
                    0 <= j < n && #[trigger] self.store_view().contains_key(record_field_word(entity_type, j))
                        ==> self.store_view()[record_field_word(entity_type, j)].bit_len == 256,
                forall|w: u128|
                    #[trigger] self.store_view().contains_key(w) <==> old(self).store_view().contains_key(w)
                        || exists|j: int| 0 <= j < i && w == #[trigger] record_field_word(entity_type, j),
                forall|j: int|
                    0 <= j < i ==> is_blank_register(
                        self.store_view()[#[trigger] record_field_word(entity_type, j)],
                        record_field_word(entity_type, j),
                    ),
                forall|w: u128|
                    #[trigger] old(self).store_view().contains_key(w) && (forall|j: int|
                        0 <= j < i ==> w != #[trigger] record_field_word(entity_type, j)) ==> self.store_view()[w]
                        == old(self).store_view()[w],
                forall|j: int|
                    0 <= j < i ==> #[trigger] self.blooms_spec().spec_sector_might_contain(
                        sector_of(crate::address::address_of_word(record_field_word(entity_type, j))),
                        record_field_word(entity_type, j),
                    ),
                self.model_seq() == old(self).model_seq(),
                self.echo().policy_spec() == old(self).echo().policy_spec(),
                self.echo().gate() == old(self).echo().gate(),
                self.stats_spec() == (FabricStats {
                    total_writes: bumped(old(self).stats_spec().total_writes, i as nat),
                    ..old(self).stats_spec()
                }),
            decreases n - i,
        {
            let addr = RegisterAddress::new(entity_type, 5, 0, (i % 0x1_0000) as u16, entity_type, 0);
            let lane = BitslicedLane::with_capacity(256);
            let ghost gl = lane;
            let reg = Register::new(addr, lane);
            let ghost b0 = self.blooms_spec();
            let ghost s0 = self.store_view();
            proof {
                assert(addr@ == record_field_word(entity_type, i as int));
                crate::address::lemma_address_of_word(addr, addr@);
            }
            let _ = self.write(addr, reg);
            proof {
                assert(is_blank_register(self.store_view()[addr@], addr@)) by {
                    assert(gl.word_seq() =~= Seq::new(4, |k: int| 0u64));
                }
                assert forall|w: u128|
                    #[trigger] self.store_view().contains_key(w) <==> old(self).store_view().contains_key(w)
                        || exists|j: int| 0 <= j < i + 1 && w == #[trigger] record_field_word(entity_type, j) by {
                    if w == addr@ {
                        assert(record_field_word(entity_type, i as int) == w);
                    }
                    if exists|j: int| 0 <= j < i + 1 && w == #[trigger] record_field_word(entity_type, j) {
                        let j = choose|j: int| 0 <= j < i + 1 && w == #[trigger] record_field_word(entity_type, j);
                        if j < i {
                            assert(s0.contains_key(w));
                        }
                    }
                }
                assert forall|j: int| 0 <= j < i + 1 implies is_blank_register(
                    self.store_view()[#[trigger] record_field_word(entity_type, j)],
                    record_field_word(entity_type, j),
                ) by {
                    if record_field_word(entity_type, j) != addr@ {
                        assert(j != i);
                    }
                }
                assert forall|j: int| 0 <= j < i + 1 implies #[trigger] self.blooms_spec().spec_sector_might_contain(
                    sector_of(crate::address::address_of_word(record_field_word(entity_type, j))),
                    record_field_word(entity_type, j),
                ) by {
                    let w = record_field_word(entity_type, j);
                    let k = sector_of(crate::address::address_of_word(w));
                    if j < i {
                        assert(b0.spec_sector_might_contain(k, w));
                        if key_word(k) != key_word(sector_of(addr)) {
                            assert(b0.blooms().contains_key(key_word(k)));
                        } else {
                            crate::bloom::lemma_key_word_injective(k, sector_of(addr));
                        }
                    }
                }
                assert forall|w: u128|
                    #[trigger] old(self).store_view().contains_key(w) && (forall|j: int|
                        0 <= j < i + 1 ==> w != #[trigger] record_field_word(entity_type, j)) implies self.store_view()[w]
                        == old(self).store_view()[w] by {
                    assert(w != record_field_word(entity_type, i as int));
                }
            }
            i = i + 1;
        }
        Ok(())
    }

    /// Update a record field: XOR the resolved register at (entity type,
    /// layer 5, ring 0, sector 0, shard entity id) with `new_value` and
    /// inject the difference as an adaptation for a record update. Fails
    /// with "Record not found: entity_type=…, entity_id=…" when nothing is
    /// stored there (the read is still counted).
    pub fn db_update_record_field(
        &mut self,
        entity_type: u16,
        entity_id: u16,
        _field_name: &str,
        new_value: BitslicedLane,
    ) -> (r: Result<(), String>)
        requires
            old(self).wf(),
            new_value.wf(),
            resolvable(old(self).store_view(), old(self).model_seq(), record_word(entity_type, 0, entity_id)),
            old(self).store_view().contains_key(record_word(entity_type, 0, entity_id)) ==> old(
                self,
            ).store_view()[record_word(entity_type, 0, entity_id)].bit_len == new_value.bit_len(),
            adapt_fits(
                old(self).store_view(),
                old(self).echo().pending_seq(),
                record_word(entity_type, 0, entity_id),
            ),
        ensures
            final(self).wf(),
            ({
                let w = record_word(entity_type, 0, entity_id);
                let tier = tier_number(old(self).tiers_spec(), 5);
                exists|f1: Fabric|
                    #[trigger] same_but_stats(*old(self), f1) && counted_read(
                        old(self).stats_spec(),
                        f1.stats_spec(),
                        tier,
                    ) && f1.wf() && if old(self).store_view().contains_key(w) {
                        adapt_outcome(
                            f1,
                            *final(self),
                            crate::address::address_of_word(w),
                            words_xor(
                                resolved_view(old(self).store_view(), old(self).model_seq(), w)->0.words,
                                new_value.word_seq(),
                            ),
                            old(self).store_view()[w].bit_len,
                            r,
                        )
                    } else {
                        &&& r matches Err(e) && e@ == record_not_found(entity_type, entity_id)
                        &&& *final(self) == f1
                    }
            }),
    {
        let addr = RegisterAddress::new(entity_type, 0x5, 0, 0, entity_id, 0);
        proof {
            crate::address::lemma_address_of_word(addr, addr@);
            crate::address::lemma_pack_fields(entity_type, 5, 0, 0, entity_id, 0);
        }
        let found = self.read(addr);
        let ghost f1 = *self;
        let ghost w = addr@;
        let ghost tier = tier_number(old(self).tiers_spec(), 5);
        match found {
            Some(existing) => {
                let delta = BitslicedLane::xor(&existing.payload, &new_value);
                let r = self.inject_adapt(addr, delta, EchoPurpose::RecordUpdate);
                proof {
                    assert(same_but_stats(*old(self), f1) && counted_read(old(self).stats_spec(), f1.stats_spec(), tier)
                        && f1.wf() && adapt_outcome(
                        f1,
                        *self,
                        crate::address::address_of_word(w),
                        words_xor(
                            resolved_view(old(self).store_view(), old(self).model_seq(), w)->0.words,
                            new_value.word_seq(),
                        ),
                        old(self).store_view()[w].bit_len,
                        r,
                    ));
                }
                match r {
                    Ok(()) => Ok(()),
                    Err(e) => Err(e),
                }
            },
            None => {
                proof {
                    reveal_strlit("Record not found: entity_type=");
                    reveal_strlit(", entity_id=");
                }
                let mut msg = String::from_str("Record not found: entity_type=");
                let et = crate::text::decimal_string(entity_type as u64);
                msg.append(et.as_str());
                msg.append(", entity_id=");
                let ei = crate::text::decimal_string(entity_id as u64);
                msg.append(ei.as_str());
                proof {
                    assert(msg@ =~= record_not_found(entity_type, entity_id));
                    assert(same_but_stats(*old(self), f1) && counted_read(old(self).stats_spec(), f1.stats_spec(), tier)
                        && f1.wf());
                }
                Err(msg)
            },
        }
    }

    /// Delete a record: write a one-bit tombstone (bit set) at (entity
    /// type, layer 5, ring 0, sector 0xFFFF, shard entity id). Always
    /// succeeds.
    pub fn db_delete_record(&mut self, entity_type: u16, entity_id: u16) -> (r: Result<(), String>)
        requires
            old(self).wf(),
            old(self).store_view().contains_key(record_word(entity_type, 0xFFFF, entity_id)) ==> old(
                self,
            ).store_view()[record_word(entity_type, 0xFFFF, entity_id)].bit_len == 1,
        ensures
            final(self).wf(),
            r is Ok,
            exists|lane: BitslicedLane|
                lane.bits() == seq![true] && lane.word_seq().len() == 1 && lane.wf()
                    && final(self).store_view() == old(self).store_view().insert(
                    record_word(entity_type, 0xFFFF, entity_id),
                    #[trigger] fresh_model(record_word(entity_type, 0xFFFF, entity_id), lane),
                ),
            bloom_inserted(
                old(self).blooms_spec(),
                final(self).blooms_spec(),
                sector_of(crate::address::address_of_word(record_word(entity_type, 0xFFFF, entity_id))),
                record_word(entity_type, 0xFFFF, entity_id),
            ),
            final(self).model_seq() == old(self).model_seq(),
            final(self).echo().policy_spec() == old(self).echo().policy_spec(),
            final(self).echo().gate() == old(self).echo().gate(),
            final(self).stats_spec() == (FabricStats {
                total_writes: bump(old(self).stats_spec().total_writes),
                ..old(self).stats_spec()
            }),
    {
        let addr = RegisterAddress::new(entity_type, 5, 0, 0xFFFF, entity_id, 0);
        proof {
            crate::address::lemma_address_of_word(addr, addr@);
        }
        let mut bits: Vec<bool> = Vec::new();
        bits.push(true);
        let lane = BitslicedLane::from_bits(bits.as_slice());
        let ghost gl = lane;
        let tombstone = Register::new(addr, lane);
        let _ = self.write(addr, tombstone);
        proof {
            assert(gl.bits() =~= seq![true]);
        }
        Ok(())
    }
}

impl Default for Fabric {
    /// The fabric of the default configuration.
    fn default() -> (r: Self)
        ensures
            r.wf(),
            r.store_view() == Map::<u128, RegisterModel>::empty(),
            r.model_seq().len() == 0,
    {
        Fabric::new(FabricConfig::default()).unwrap()
    }
}


// ── Laws ────────────────────────────────────────────────────────────────────

/// A read after a write returns what was written, unless a delta model
/// covers the address and its delta register is stored.
pub proof fn lemma_read_after_write(
    store: Map<u128, RegisterModel>,
    models: Seq<ModelAttachment>,
    a: u128,
    m: RegisterModel,
)
    requires
        forall|d: u128| delta_for(models, a) == Some(d) ==> !store.contains_key(d),
    ensures
        resolved_view(store.insert(a, m), models, a) == Some(m),
{
    match delta_for(models, a) {
        Some(d) => {
            let i = choose|i: int| first_delta_model(models, i);
            assert(delta_word(models[i], a) == Some(d));
            assert(d != a);
            assert(!store.insert(a, m).contains_key(d));
        },
        None => {},
    }
}

/// A read of a register covered by a delta model whose delta register is
/// stored returns the register with its payload XORed with the delta's.
pub proof fn lemma_delta_read(store: Map<u128, RegisterModel>, models: Seq<ModelAttachment>, a: u128, d: u128)
    requires
        delta_for(models, a) == Some(d),
        store.contains_key(a),
        store.contains_key(d),
    ensures
        resolved_view(store, models, a) == Some(
            RegisterModel { words: words_xor(store[a].words, store[d].words), ..store[a] },
        ),
{
}

/// Under the first delta-source model, with weights at `[base, base +
/// count)`, the delta register of a weight is the one `count` past it, so
/// each weight has its own delta at the same offset from the deltas' start
/// as the weight has from `base`; an address outside the weight range has
/// none. Reading a weight whose delta is stored gives its payload XOR that
/// delta's payload.
pub proof fn lemma_delta_register_of_weight(
    store: Map<u128, RegisterModel>,
    models: Seq<ModelAttachment>,
    i: int,
    a: u128,
)
    requires
        first_delta_model(models, i),
        a + models[i].weight_count <= u128::MAX,
    ensures
        ({
            let base = models[i].base_address@;
            let count = models[i].weight_count;
            &&& base <= a < base + count ==> delta_for(models, a) == Some((a + count) as u128)
            &&& !(base <= a < base + count) ==> delta_for(models, a) is None
            &&& base <= a < base + count && store.contains_key(a) && store.contains_key((a + count) as u128)
                ==> resolved_view(store, models, a) == Some(
                RegisterModel { words: words_xor(store[a].words, store[(a + count) as u128].words), ..store[a] },
            )
        }),
{
    let c = choose|k: int| first_delta_model(models, k);
    lemma_first_delta_unique(models, i, c);
}

/// Without delta models, a read returns the stored register as is.
pub proof fn lemma_read_without_deltas(store: Map<u128, RegisterModel>, models: Seq<ModelAttachment>, a: u128)
    requires
        forall|i: int| 0 <= i < models.len() ==> !is_delta_source(#[trigger] models[i]),
    ensures
        resolved_view(store, models, a) == (if store.contains_key(a) {
            Some(store[a])
        } else {
            None
        }),
{
    assert(!exists|i: int| first_delta_model(models, i));
}

} // verus!
