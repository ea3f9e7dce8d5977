//! User authority over mutations, the trajectory of actions taken, and the
//! history of the user's intents.
//!
//! The search proposes mutations; the user approves them. A mutation is
//! approved only when the hash of its delta matches the intent the user
//! signed, every proposal is logged in an audit trail, and registers can be
//! checkpointed and restored. Messages are parsed into intents, and the
//! intents are kept in the order expressed, with the latest confirmed one
//! and the drift between them.

use vstd::prelude::*;
use vstd::string::StringExecFns;
use crate::address::RegisterAddress;
use crate::bitslice::{BitslicedLane, words_xor};
use crate::register::{Register, RegisterModel};
use crate::text::{chars_of, decimal, decimal_string};

verus! {

broadcast use vstd::string::group_string_axioms;

/// Errors of the intent engine.
#[derive(Debug)]
pub enum IntentError {
    /// The input carries no recognisable intent.
    NoIntentDetected(String),
    /// The gap between two states could not be computed.
    GapComputationFailed(String),
    /// Evolution failed.
    EvolutionFailed(String),
    /// Meta-learning failed.
    MetaLearningFailed(String),
}

/// The hash of a delta's words: starting from 0, each word in turn is
/// folded in as `h * 31 + word`, wrapping at 64 bits.
pub open spec fn intent_hash_of(ws: Seq<u64>) -> u64
    decreases ws.len(),
{
    if ws.len() == 0 {
        0
    } else {
        vstd::wrapping::u64_specs::wrapping_add(
            vstd::wrapping::u64_specs::wrapping_mul(intent_hash_of(ws.drop_last()), 31),
            ws.last(),
        )
    }
}

/// Hash a delta the way intents are signed.
pub fn hash_bitslice(bits: &BitslicedLane) -> (r: u64)
    ensures
        r == intent_hash_of(bits.word_seq()),
{
    let words = bits.words();
    let mut hash: u64 = 0;
    let mut i: usize = 0;
    while i < words.len()
        invariant
            i <= words@.len(),
            words@ == bits.word_seq(),
            hash == intent_hash_of(words@.subrange(0, i as int)),
        decreases words@.len() - i,
    {
        proof {
            assert(words@.subrange(0, i + 1).drop_last() =~= words@.subrange(0, i as int));
        }
        hash = hash.wrapping_mul(31).wrapping_add(words[i]);
        i = i + 1;
    }
    proof {
        assert(words@.subrange(0, i as int) =~= words@);
    }
    hash
}

/// One entry of the audit trail.
#[derive(Debug)]
pub struct MutationRecord {
    /// Address of the register the mutation targets.
    pub address: RegisterAddress,
    /// The delta proposed.
    pub delta: BitslicedLane,
    /// The intent hash in force when it was proposed.
    pub intent_hash: u64,
    /// Whether it was approved.
    pub approved: bool,
}

/// What an audit entry records: the address, the delta's words and length,
/// the intent hash and the verdict.
pub struct MutationModel {
    pub address: u128,
    pub delta_words: Seq<u64>,
    pub delta_len: nat,
    pub intent_hash: u64,
    pub approved: bool,
}

impl View for MutationRecord {
    type V = MutationModel;

    open spec fn view(&self) -> MutationModel {
        MutationModel {
            address: self.address@,
            delta_words: self.delta.word_seq(),
            delta_len: self.delta.bit_len(),
            intent_hash: self.intent_hash,
            approved: self.approved,
        }
    }
}

impl Clone for MutationRecord {
    /// A record with the same fields and a copy of the delta.
    fn clone(&self) -> (r: Self)
        ensures
            r@ == self@,
    {
        MutationRecord {
            address: self.address,
            delta: self.delta.clone(),
            intent_hash: self.intent_hash,
            approved: self.approved,
        }
    }
}

/// The audit view of a sequence of records.
pub open spec fn trail_view(records: Seq<MutationRecord>) -> Seq<MutationModel> {
    records.map_values(|r: MutationRecord| r@)
}

/// Whether every entry of an audit trail was approved.
pub open spec fn trail_all_approved(t: Seq<MutationModel>) -> bool {
    forall|i: int| 0 <= i < t.len() ==> #[trigger] t[i].approved
}

/// The checkpoint most recently saved for `address`, if any.
pub open spec fn last_checkpoint(saved: Seq<(u128, RegisterModel)>, address: u128) -> Option<
    RegisterModel,
>
    decreases saved.len(),
{
    if saved.len() == 0 {
        None
    } else if saved.last().0 == address {
        Some(saved.last().1)
    } else {
        last_checkpoint(saved.drop_last(), address)
    }
}

/// Guards the user's final say over every mutation: an approval gate keyed
/// by the signed intent hash, an audit trail, and rollback checkpoints.
#[derive(Debug)]
pub struct UserAuthority {
    intent_hash: u64,
    audit_trail: Vec<MutationRecord>,
    checkpoints: Vec<(RegisterAddress, Register)>,
}

impl UserAuthority {
    /// The signed intent hash.
    pub closed spec fn signed_hash(&self) -> u64 {
        self.intent_hash
    }

    /// The audit trail, oldest first.
    pub closed spec fn trail(&self) -> Seq<MutationModel> {
        trail_view(self.audit_trail@)
    }

    /// The saved checkpoints, oldest first.
    pub closed spec fn saved(&self) -> Seq<(u128, RegisterModel)> {
        self.checkpoints@.map_values(|c: (RegisterAddress, Register)| (c.0@, c.1@))
    }

    /// Whether a delta of words `ws` matches the signed intent.
    pub open spec fn matches_intent(&self, ws: Seq<u64>) -> bool {
        intent_hash_of(ws) == self.signed_hash()
    }

    /// Whether every mutation in the trail was approved.
    pub open spec fn all_approved(&self) -> bool {
        trail_all_approved(self.trail())
    }

    /// A guard for the given intent hash, with an empty trail and no
    /// checkpoints.
    pub fn new(intent_hash: u64) -> (r: Self)
        ensures
            r.signed_hash() == intent_hash,
            r.trail() == Seq::<MutationModel>::empty(),
            r.saved() == Seq::<(u128, RegisterModel)>::empty(),
    {
        let r = UserAuthority { intent_hash, audit_trail: Vec::new(), checkpoints: Vec::new() };
        proof {
            assert(r.trail() =~= Seq::<MutationModel>::empty());
            assert(r.saved() =~= Seq::<(u128, RegisterModel)>::empty());
        }
        r
    }

    /// Whether a proposed delta matches the signed intent: its hash equals
    /// the intent hash.
    pub fn verify_intent(&self, delta: &BitslicedLane) -> (r: bool)
        ensures
            r == self.matches_intent(delta.word_seq()),
    {
        let delta_hash = hash_bitslice(delta);
        delta_hash == self.intent_hash
    }

    /// Decide on a proposed mutation and log it: approved exactly when the
    /// delta matches the signed intent.
    pub fn approve(&mut self, address: RegisterAddress, delta: &BitslicedLane) -> (r: bool)
        ensures
            r == old(self).matches_intent(delta.word_seq()),
            final(self).signed_hash() == old(self).signed_hash(),
            final(self).saved() == old(self).saved(),
            final(self).trail() == old(self).trail().push(
                MutationModel {
                    address: address@,
                    delta_words: delta.word_seq(),
                    delta_len: delta.bit_len(),
                    intent_hash: old(self).signed_hash(),
                    approved: r,
                },
            ),
    {
        let verified = self.verify_intent(delta);
        let record = MutationRecord {
            address,
            delta: delta.clone(),
            intent_hash: self.intent_hash,
            approved: verified,
        };
        self.audit_trail.push(record);
        proof {
            assert(self.trail() =~= old(self).trail().push(record@));
            assert(self.saved() =~= old(self).saved());
        }
        verified
    }

    /// Save a register's state for rollback.
    pub fn checkpoint(&mut self, address: RegisterAddress, register: &Register)
        ensures
            final(self).signed_hash() == old(self).signed_hash(),
            final(self).trail() == old(self).trail(),
            final(self).saved() == old(self).saved().push((address@, register@)),
    {
        let copy = register.clone();
        self.checkpoints.push((address, copy));
        proof {
            assert(self.trail() =~= old(self).trail());
            assert(self.saved() =~= old(self).saved().push((address@, register@)));
        }
    }

    /// The state most recently saved for `address`, if any.
    pub fn rollback(&self, address: RegisterAddress) -> (r: Option<Register>)
        ensures
            match r {
                Some(reg) => last_checkpoint(self.saved(), address@) == Some(reg@),
                None => last_checkpoint(self.saved(), address@) is None,
            },
    {
        let mut i: usize = self.checkpoints.len();
        proof {
            assert(self.saved().subrange(0, i as int) =~= self.saved());
        }
        while i > 0
            invariant
                i <= self.checkpoints@.len(),
                last_checkpoint(self.saved(), address@) == last_checkpoint(
                    self.saved().subrange(0, i as int),
                    address@,
                ),
            decreases i,
        {
            let entry = &self.checkpoints[i - 1];
            proof {
                assert(self.saved().subrange(0, i as int).last() == (entry.0@, entry.1@));
            }
            if entry.0.bits() == address.bits() {
                return Some(entry.1.clone());
            }
            proof {
                assert(entry.0@ != address@);
                assert(self.saved().subrange(0, i as int).drop_last() =~= self.saved().subrange(
                    0,
                    i - 1,
                ));
            }
            i = i - 1;
        }
        None
    }

    /// The audit trail, oldest first.
    pub fn audit_trail(&self) -> (r: &[MutationRecord])
        ensures
            trail_view(r@) == self.trail(),
    {
        self.audit_trail.as_slice()
    }

    /// Whether every mutation in the trail was approved.
    pub fn verify_all_approved(&self) -> (r: bool)
        ensures
            r == self.all_approved(),
    {
        let mut i: usize = 0;
        while i < self.audit_trail.len()
            invariant
                i <= self.audit_trail@.len(),
                forall|j: int| 0 <= j < i ==> #[trigger] self.trail()[j].approved,
            decreases self.audit_trail@.len() - i,
        {
            if !self.audit_trail[i].approved {
                proof {
                    assert(!self.trail()[i as int].approved);
                }
                return false;
            }
            i = i + 1;
        }
        true
    }
}

/// How an action of the trajectory ended.
#[derive(Clone, Copy, Debug, PartialEq, Eq, Structural)]
pub enum TrajectoryOutcome {
    Success,
    Rejected,
    Pending,
}

/// One action of the trajectory.
#[derive(Debug)]
pub struct TrajectoryNode {
    /// What was done (read, write, inject, adapt).
    pub action: String,
    /// The register it touched.
    pub address: RegisterAddress,
    /// Hash of the delta involved.
    pub delta_hash: u64,
    /// How it ended.
    pub outcome: TrajectoryOutcome,
    /// When it happened, in milliseconds.
    pub timestamp_ms: u64,
}

/// What a trajectory node records.
pub struct TrajectoryNodeModel {
    pub action: Seq<char>,
    pub address: u128,
    pub delta_hash: u64,
    pub outcome: TrajectoryOutcome,
    pub timestamp_ms: u64,
}

impl View for TrajectoryNode {
    type V = TrajectoryNodeModel;

    open spec fn view(&self) -> TrajectoryNodeModel {
        TrajectoryNodeModel {
            action: self.action@,
            address: self.address@,
            delta_hash: self.delta_hash,
            outcome: self.outcome,
            timestamp_ms: self.timestamp_ms,
        }
    }
}

impl Clone for TrajectoryNode {
    /// A node with the same fields.
    fn clone(&self) -> (r: Self)
        ensures
            r@ == self@,
    {
        TrajectoryNode {
            action: self.action.clone(),
            address: self.address,
            delta_hash: self.delta_hash,
            outcome: self.outcome,
            timestamp_ms: self.timestamp_ms,
        }
    }
}

/// The views of a sequence of nodes.
pub open spec fn nodes_view(nodes: Seq<TrajectoryNode>) -> Seq<TrajectoryNodeModel> {
    nodes.map_values(|n: TrajectoryNode| n@)
}

/// Number of nodes that ended in success.
pub open spec fn success_count(ns: Seq<TrajectoryNodeModel>) -> nat
    decreases ns.len(),
{
    if ns.len() == 0 {
        0
    } else {
        success_count(ns.drop_last()) + (if ns.last().outcome == TrajectoryOutcome::Success {
            1nat
        } else {
            0nat
        })
    }
}

/// Number of nodes that have ended (are not pending).
pub open spec fn completed_count(ns: Seq<TrajectoryNodeModel>) -> nat
    decreases ns.len(),
{
    if ns.len() == 0 {
        0
    } else {
        completed_count(ns.drop_last()) + (if ns.last().outcome != TrajectoryOutcome::Pending {
            1nat
        } else {
            0nat
        })
    }
}

/// The edges of a trajectory of `n` nodes: each node to the next.
pub open spec fn chain_edges(n: nat) -> Seq<(usize, usize)> {
    Seq::new(
        if n == 0 {
            0
        } else {
            (n - 1) as nat
        },
        |i: int| (i as usize, (i + 1) as usize),
    )
}

/// The sequence of actions taken and their outcomes. Edges give the
/// temporal order: each action to the one after it.
#[derive(Debug)]
pub struct TrajectoryGraph {
    nodes: Vec<TrajectoryNode>,
    edges: Vec<(usize, usize)>,
}

impl TrajectoryGraph {
    /// The nodes, in the order they were added.
    pub closed spec fn node_seq(&self) -> Seq<TrajectoryNodeModel> {
        nodes_view(self.nodes@)
    }

    /// The edges.
    pub closed spec fn edge_seq(&self) -> Seq<(usize, usize)> {
        self.edges@
    }

    /// The edges link each node to the next, and no others.
    pub open spec fn wf(&self) -> bool {
        self.edge_seq() == chain_edges(self.node_seq().len())
    }

    /// An empty trajectory.
    pub fn new() -> (r: Self)
        ensures
            r.wf(),
            r.node_seq() == Seq::<TrajectoryNodeModel>::empty(),
    {
        let r = TrajectoryGraph { nodes: Vec::new(), edges: Vec::new() };
        proof {
            assert(r.node_seq() =~= Seq::<TrajectoryNodeModel>::empty());
            assert(r.edge_seq() =~= chain_edges(0));
        }
        r
    }

    /// Append a pending action (timestamp 0), linked after the previous
    /// one; returns its index.
    pub fn add_node(&mut self, action: String, address: RegisterAddress, delta_hash: u64) -> (r:
        usize)
        requires
            old(self).wf(),
            old(self).node_seq().len() < usize::MAX,
        ensures
            final(self).wf(),
            r == old(self).node_seq().len(),
            final(self).node_seq() == old(self).node_seq().push(
                TrajectoryNodeModel {
                    action: action@,
                    address: address@,
                    delta_hash,
                    outcome: TrajectoryOutcome::Pending,
                    timestamp_ms: 0,
                },
            ),
    {
        let idx = self.nodes.len();
        let ghost action_view = action@;
        let node = TrajectoryNode {
            action,
            address,
            delta_hash,
            outcome: TrajectoryOutcome::Pending,
            timestamp_ms: 0,
        };
        self.nodes.push(node);
        if idx > 0 {
            self.edges.push((idx - 1, idx));
        }
        proof {
            assert(self.node_seq() =~= old(self).node_seq().push(node@));
            assert(self.edge_seq() =~= chain_edges(self.node_seq().len()));
        }
        idx
    }

    /// Set the outcome of action `idx`; an index out of range changes
    /// nothing.
    pub fn set_outcome(&mut self, idx: usize, outcome: TrajectoryOutcome)
        requires
            old(self).wf(),
        ensures
            final(self).wf(),
            final(self).node_seq() == (if idx < old(self).node_seq().len() {
                old(self).node_seq().update(
                    idx as int,
                    TrajectoryNodeModel { outcome, ..old(self).node_seq()[idx as int] },
                )
            } else {
                old(self).node_seq()
            }),
    {
        if idx < self.nodes.len() {
            self.nodes[idx].outcome = outcome;
            proof {
                assert(self.node_seq() =~= old(self).node_seq().update(
                    idx as int,
                    TrajectoryNodeModel { outcome, ..old(self).node_seq()[idx as int] },
                ));
            }
        }
    }

    /// The nodes, in the order they were added.
    pub fn nodes(&self) -> (r: &[TrajectoryNode])
        ensures
            nodes_view(r@) == self.node_seq(),
    {
        self.nodes.as_slice()
    }

    /// The edges, each from a node to the one added after it.
    pub fn edges(&self) -> (r: &[(usize, usize)])
        ensures
            r@ == self.edge_seq(),
    {
        self.edges.as_slice()
    }

    /// How many actions succeeded, and how many have ended: the success
    /// rate is the first over the second (0 when none has ended).
    pub fn outcome_counts(&self) -> (r: (usize, usize))
        ensures
            r.0 == success_count(self.node_seq()),
            r.1 == completed_count(self.node_seq()),
    {
        let mut successes: usize = 0;
        let mut completed: usize = 0;
        let mut i: usize = 0;
        while i < self.nodes.len()
            invariant
                i <= self.nodes@.len(),
                successes == success_count(self.node_seq().subrange(0, i as int)),
                completed == completed_count(self.node_seq().subrange(0, i as int)),
                successes <= completed <= i,
            decreases self.nodes@.len() - i,
        {
            proof {
                assert(self.node_seq().subrange(0, i + 1).drop_last() =~= self.node_seq().subrange(
                    0,
                    i as int,
                ));
                assert(self.node_seq().subrange(0, i + 1).last() == self.nodes@[i as int]@);
            }
            let o = self.nodes[i].outcome;
            if o != TrajectoryOutcome::Pending {
                completed = completed + 1;
            }
            if o == TrajectoryOutcome::Success {
                successes = successes + 1;
            }
            i = i + 1;
        }
        proof {
            assert(self.node_seq().subrange(0, i as int) =~= self.node_seq());
        }
        (successes, completed)
    }
}

/// One intent the user expressed.
#[derive(Debug)]
pub struct IntentNode {
    /// Hash of the intent.
    pub intent_hash: u64,
    /// The user's words.
    pub description: String,
    /// The priority, as the bit pattern of its IEEE-754 double.
    pub priority_bits: u64,
    /// Whether the user confirmed it.
    pub confirmed: bool,
}

/// What an intent node records.
pub struct IntentNodeModel {
    pub intent_hash: u64,
    pub description: Seq<char>,
    pub priority_bits: u64,
    pub confirmed: bool,
}

impl View for IntentNode {
    type V = IntentNodeModel;

    open spec fn view(&self) -> IntentNodeModel {
        IntentNodeModel {
            intent_hash: self.intent_hash,
            description: self.description@,
            priority_bits: self.priority_bits,
            confirmed: self.confirmed,
        }
    }
}

impl Clone for IntentNode {
    /// A node with the same fields.
    fn clone(&self) -> (r: Self)
        ensures
            r@ == self@,
    {
        IntentNode {
            intent_hash: self.intent_hash,
            description: self.description.clone(),
            priority_bits: self.priority_bits,
            confirmed: self.confirmed,
        }
    }
}

/// The views of a sequence of intent nodes.
pub open spec fn intent_nodes_view(nodes: Seq<IntentNode>) -> Seq<IntentNodeModel> {
    nodes.map_values(|n: IntentNode| n@)
}

/// The index of the last confirmed intent, if any.
pub open spec fn last_confirmed_index(ns: Seq<IntentNodeModel>) -> Option<int>
    decreases ns.len(),
{
    if ns.len() == 0 {
        None
    } else if ns.last().confirmed {
        Some(ns.len() - 1)
    } else {
        last_confirmed_index(ns.drop_last())
    }
}

/// The total drift of a history of intents: the sum, over each intent and
/// the one after it, of the XOR of their hashes.
pub open spec fn drift_sum(ns: Seq<IntentNodeModel>) -> nat
    decreases ns.len(),
{
    if ns.len() < 2 {
        0
    } else {
        drift_sum(ns.drop_last()) + ((ns[ns.len() - 2].intent_hash ^ ns.last().intent_hash) as nat)
    }
}

/// How the user's intent evolved over time: the intents in the order they
/// were expressed, each linked to the next.
#[derive(Debug)]
pub struct IntentGraph {
    nodes: Vec<IntentNode>,
    edges: Vec<(usize, usize)>,
}

impl IntentGraph {
    /// The intents, in the order they were added.
    pub closed spec fn node_seq(&self) -> Seq<IntentNodeModel> {
        intent_nodes_view(self.nodes@)
    }

    /// The edges.
    pub closed spec fn edge_seq(&self) -> Seq<(usize, usize)> {
        self.edges@
    }

    /// The edges link each intent to the next, and no others.
    pub open spec fn wf(&self) -> bool {
        self.edge_seq() == chain_edges(self.node_seq().len())
    }

    /// An empty graph.
    pub fn new() -> (r: Self)
        ensures
            r.wf(),
            r.node_seq() == Seq::<IntentNodeModel>::empty(),
    {
        let r = IntentGraph { nodes: Vec::new(), edges: Vec::new() };
        proof {
            assert(r.node_seq() =~= Seq::<IntentNodeModel>::empty());
            assert(r.edge_seq() =~= chain_edges(0));
        }
        r
    }

    /// Append an unconfirmed intent, linked after the previous one; returns
    /// its index.
    pub fn add_intent(&mut self, intent_hash: u64, description: String, priority_bits: u64) -> (r:
        usize)
        requires
            old(self).wf(),
            old(self).node_seq().len() < usize::MAX,
        ensures
            final(self).wf(),
            r == old(self).node_seq().len(),
            final(self).node_seq() == old(self).node_seq().push(
                IntentNodeModel {
                    intent_hash,
                    description: description@,
                    priority_bits,
                    confirmed: false,
                },
            ),
    {
        let idx = self.nodes.len();
        let node = IntentNode { intent_hash, description, priority_bits, confirmed: false };
        self.nodes.push(node);
        if idx > 0 {
            self.edges.push((idx - 1, idx));
        }
        proof {
            assert(self.node_seq() =~= old(self).node_seq().push(node@));
            assert(self.edge_seq() =~= chain_edges(self.node_seq().len()));
        }
        idx
    }

    /// Mark intent `idx` confirmed; an index out of range changes nothing.
    pub fn confirm(&mut self, idx: usize)
        requires
            old(self).wf(),
        ensures
            final(self).wf(),
            final(self).node_seq() == (if idx < old(self).node_seq().len() {
                old(self).node_seq().update(
                    idx as int,
                    IntentNodeModel { confirmed: true, ..old(self).node_seq()[idx as int] },
                )
            } else {
                old(self).node_seq()
            }),
    {
        if idx < self.nodes.len() {
            self.nodes[idx].confirmed = true;
            proof {
                assert(self.node_seq() =~= old(self).node_seq().update(
                    idx as int,
                    IntentNodeModel { confirmed: true, ..old(self).node_seq()[idx as int] },
                ));
            }
        }
    }

    /// The most recently added intent that is confirmed.
    pub fn latest_confirmed(&self) -> (r: Option<&IntentNode>)
        ensures
            match r {
                None => last_confirmed_index(self.node_seq()) is None,
                Some(n) => last_confirmed_index(self.node_seq()) matches Some(i) && n@
                    == self.node_seq()[i],
            },
    {
        let ghost ns = self.node_seq();
        let mut i: usize = self.nodes.len();
        proof {
            assert(ns.take(i as int) =~= ns);
        }
        while i > 0
            invariant
                i <= self.nodes@.len(),
                ns == self.node_seq(),
                last_confirmed_index(ns) == last_confirmed_index(ns.take(i as int)),
            decreases i,
        {
            proof {
                assert(ns.take(i as int).drop_last() =~= ns.take(i - 1));
                assert(ns.take(i as int).last() == self.nodes@[i - 1]@);
            }
            if self.nodes[i - 1].confirmed {
                return Some(&self.nodes[i - 1]);
            }
            i = i - 1;
        }
        None
    }

    /// The total drift of the intents (see `drift_sum`), or `None` when it
    /// does not fit in 64 bits.
    pub fn drift_total(&self) -> (r: Option<u64>)
        ensures
            r == (if drift_sum(self.node_seq()) <= u64::MAX {
                Some(drift_sum(self.node_seq()) as u64)
            } else {
                None
            }),
    {
        let ghost ns = self.node_seq();
        let n = self.nodes.len();
        let mut total: u128 = 0;
        let mut i: usize = 1;
        if n < 2 {
            proof {
                assert(drift_sum(ns) == 0);
            }
            return Some(0);
        }
        proof {
            assert(ns.take(1).len() == 1);
        }
        while i < n
            invariant
                1 <= i <= n,
                n == self.nodes@.len(),
                n <= usize::MAX,
                ns == self.node_seq(),
                total == drift_sum(ns.take(i as int)),
                total < i * 0x1_0000_0000_0000_0000,
            decreases n - i,
        {
            proof {
                let t = ns.take(i + 1);
                assert(t.drop_last() =~= ns.take(i as int));
                assert(t[t.len() - 2] == self.nodes@[i - 1]@);
                assert(t.last() == self.nodes@[i as int]@);
            }
            let x = self.nodes[i - 1].intent_hash ^ self.nodes[i].intent_hash;
            total = total + x as u128;
            i = i + 1;
        }
        proof {
            assert(ns.take(n as int) =~= ns);
        }
        if total <= 0xFFFF_FFFF_FFFF_FFFF {
            Some(total as u64)
        } else {
            None
        }
    }

    /// The intents, in the order they were added.
    pub fn nodes(&self) -> (r: &[IntentNode])
        ensures
            intent_nodes_view(r@) == self.node_seq(),
    {
        self.nodes.as_slice()
    }

    /// The edges, each from an intent to the one added after it.
    pub fn edges(&self) -> (r: &[(usize, usize)])
        ensures
            r@ == self.edge_seq(),
    {
        self.edges.as_slice()
    }
}

/// The number of bits needed to write `x` in binary (0 for 0).
pub open spec fn bit_length(x: nat) -> nat
    decreases x,
{
    if x == 0 {
        0
    } else {
        1 + bit_length(x / 2)
    }
}

/// `64` less the leading zeros of a 64-bit value is its bit length.
proof fn lemma_leading_zeros_bit_length(x: u64)
    ensures
        64 - vstd::std_specs::bits::u64_leading_zeros(x) == bit_length(x as nat),
    decreases x,
{
    reveal(vstd::std_specs::bits::u64_leading_zeros);
    if x != 0 {
        lemma_leading_zeros_bit_length(x / 2);
    }
}

/// The alignment the verifier reads between a delta and an intent: 64 less
/// the leading zeros of the XOR of their hashes, which is the bit length of
/// that XOR (0 when the hashes are equal).
pub fn matching_bits(delta_hash: u64, intent_hash: u64) -> (r: u32)
    ensures
        r == bit_length((delta_hash ^ intent_hash) as nat),
        r <= 64,
{
    let x = delta_hash ^ intent_hash;
    let lz = x.leading_zeros();
    proof {
        vstd::std_specs::bits::axiom_u64_leading_zeros(x);
        lemma_leading_zeros_bit_length(x);
    }
    64 - lz
}

/// The operation an intent asks for.
#[derive(Clone, Copy, Debug, PartialEq, Eq, Structural)]
pub enum GateOp {
    /// Sine (trigonometric) gates.
    Sin,
    /// Cosine gates.
    Cos,
    /// Exclusive-or gates.
    XorGate,
    /// And gates.
    AndGate,
    /// Or gates.
    OrGate,
    /// Not (inverting) gates.
    NotGate,
    /// Hadamard (correlation) gates.
    Hadamard,
}

/// Whether `w` occurs in `s` as a contiguous run.
pub open spec fn has_substring(s: Seq<char>, w: Seq<char>) -> bool {
    exists|i: int| 0 <= i && i + w.len() <= s.len() && #[trigger] s.subrange(i, i + w.len()) == w
}

/// The operation a lower-cased message asks for, by the first rule that
/// matches.
pub open spec fn intent_op_of(l: Seq<char>) -> Option<GateOp> {
    if has_substring(l, "sin"@) || has_substring(l, "trig"@) || has_substring(l, "trigonometric"@) {
        Some(GateOp::Sin)
    } else if has_substring(l, "cos"@) {
        Some(GateOp::Cos)
    } else if has_substring(l, "xor"@) || has_substring(l, "exclusive"@) {
        Some(GateOp::XorGate)
    } else if has_substring(l, "and"@) && !has_substring(l, "random"@) {
        Some(GateOp::AndGate)
    } else if has_substring(l, "or"@) && !has_substring(l, "color"@) && !has_substring(
        l,
        "more"@,
    ) {
        Some(GateOp::OrGate)
    } else if has_substring(l, "not"@) || has_substring(l, "invert"@) || has_substring(
        l,
        "negate"@,
    ) {
        Some(GateOp::NotGate)
    } else if has_substring(l, "hadamard"@) || has_substring(l, "correlation"@) || has_substring(
        l,
        "same"@,
    ) {
        Some(GateOp::Hadamard)
    } else {
        None
    }
}

/// The priority of a lower-cased message: 3 to learn, 2 to correct, 1
/// otherwise.
pub open spec fn intent_priority_of(l: Seq<char>) -> u8 {
    if has_substring(l, "learn"@) || has_substring(l, "adapt"@) || has_substring(l, "evolve"@) {
        3
    } else if has_substring(l, "fix"@) || has_substring(l, "correct"@) || has_substring(
        l,
        "change"@,
    ) {
        2
    } else {
        1
    }
}

/// The lower-case form of a text, character by character as Unicode
/// defines it.
pub uninterp spec fn lowercase_of(s: Seq<char>) -> Seq<char>;

/// `str::to_lowercase`, as characters: the result is the lower-case form
/// of `s`, a function of `s` alone.
#[verifier::external_body]
fn lowercase_chars(s: &str) -> (r: Vec<char>)
    ensures
        r@ == lowercase_of(s@),
{
    s.to_lowercase().chars().collect()
}

/// Whether `w` occurs in `s` as a contiguous run.
pub fn contains_chars(s: &[char], w: &[char]) -> (r: bool)
    ensures
        r == has_substring(s@, w@),
{
    let n = s.len();
    let m = w.len();
    if m > n {
        proof {
            assert forall|i: int| 0 <= i && i + w@.len() <= s@.len() implies #[trigger] s@.subrange(
                i,
                i + w@.len(),
            ) != w@ by {}
        }
        return false;
    }
    if m == 0 {
        proof {
            assert(s@.subrange(0int, 0int + w@.len()) =~= w@);
        }
        return true;
    }
    let mut i: usize = 0;
    while i <= n - m
        invariant
            m >= 1,
            m <= n,
            n == s@.len(),
            m == w@.len(),
            i <= n - m + 1,
            forall|k: int| 0 <= k < i ==> #[trigger] s@.subrange(k, k + m) != w@,
        decreases n - m + 1 - i,
    {
        let mut j: usize = 0;
        let mut same = true;
        while j < m
            invariant
                j <= m,
                m == w@.len(),
                i + m <= n,
                n == s@.len(),
                same ==> forall|t: int| 0 <= t < j ==> s@[i + t] == w@[t],
                !same ==> s@.subrange(i as int, i + m) != w@,
            decreases m - j,
        {
            if s[i + j] != w[j] {
                proof {
                    assert(s@.subrange(i as int, i + m)[j as int] != w@[j as int]);
                }
                same = false;
            }
            j = j + 1;
        }
        if same {
            proof {
                assert(s@.subrange(i as int, i + m) =~= w@);
            }
            return true;
        }
        i = i + 1;
    }
    false
}

/// Whether the characters of `word` occur in `s` as a contiguous run.
fn has_word(s: &[char], word: &str) -> (r: bool)
    ensures
        r == has_substring(s@, word@),
{
    let w = chars_of(word);
    contains_chars(s, w.as_slice())
}

/// The operation and priority level a lower-cased message asks for.
pub fn classify_lowered(l: &[char]) -> (r: (Option<GateOp>, u8))
    ensures
        r.0 == intent_op_of(l@),
        r.1 == intent_priority_of(l@),
{
    let op = if has_word(l, "sin") || has_word(l, "trig") || has_word(l, "trigonometric") {
        Some(GateOp::Sin)
    } else if has_word(l, "cos") {
        Some(GateOp::Cos)
    } else if has_word(l, "xor") || has_word(l, "exclusive") {
        Some(GateOp::XorGate)
    } else if has_word(l, "and") && !has_word(l, "random") {
        Some(GateOp::AndGate)
    } else if has_word(l, "or") && !has_word(l, "color") && !has_word(l, "more") {
        Some(GateOp::OrGate)
    } else if has_word(l, "not") || has_word(l, "invert") || has_word(l, "negate") {
        Some(GateOp::NotGate)
    } else if has_word(l, "hadamard") || has_word(l, "correlation") || has_word(l, "same") {
        Some(GateOp::Hadamard)
    } else {
        None
    };
    let priority: u8 = if has_word(l, "learn") || has_word(l, "adapt") || has_word(l, "evolve") {
        3
    } else if has_word(l, "fix") || has_word(l, "correct") || has_word(l, "change") {
        2
    } else {
        1
    };
    (op, priority)
}

/// What a message asks for: an operation, a priority level (1 plain, 2
/// a correction, 3 learning) and the message itself.
#[derive(Debug)]
pub struct DetectedIntent {
    pub target_op: Option<GateOp>,
    pub priority_level: u8,
    pub description: String,
}

/// Detect the intent of a message, matched in lower case: it fails with
/// `NoIntentDetected` when the message names no operation and is neither a
/// correction nor a request to learn.
pub fn detect_intent(message: &str) -> (r: Result<DetectedIntent, IntentError>)
    ensures
        ({
            let l = lowercase_of(message@);
            match r {
                Ok(d) => {
                    &&& d.target_op == intent_op_of(l)
                    &&& d.priority_level == intent_priority_of(l)
                    &&& d.description@ == message@
                    &&& (intent_op_of(l) is Some || intent_priority_of(l) >= 2)
                },
                Err(e) => {
                    &&& intent_op_of(l) is None
                    &&& intent_priority_of(l) < 2
                    &&& e matches IntentError::NoIntentDetected(m)
                    &&& m@ == "No recognizable intent in message"@
                },
            }
        }),
{
    let lower = lowercase_chars(message);
    let (op, priority) = classify_lowered(lower.as_slice());
    if op.is_none() && priority < 2 {
        proof {
            reveal_strlit("No recognizable intent in message");
        }
        return Err(
            IntentError::NoIntentDetected(String::from_str("No recognizable intent in message")),
        );
    }
    Ok(DetectedIntent { target_op: op, priority_level: priority, description: message.to_owned() })
}

/// The message for lanes of different lengths.
pub open spec fn size_mismatch_message(current: nat, target: nat) -> Seq<char> {
    "Size mismatch: current="@ + decimal(current) + " target="@ + decimal(target)
}

/// The gap between two states: the XOR delta that turns one into the
/// other. Lanes of different lengths fail with `GapComputationFailed`.
pub fn compute_gap(current: &BitslicedLane, target: &BitslicedLane) -> (r: Result<
    BitslicedLane,
    IntentError,
>)
    requires
        current.wf(),
        target.wf(),
    ensures
        current.bit_len() == target.bit_len() <==> r is Ok,
        r matches Ok(g) ==> {
            &&& g.wf()
            &&& g.bit_len() == current.bit_len()
            &&& g.word_seq() == words_xor(current.word_seq(), target.word_seq())
        },
        r matches Err(e) ==> (e matches IntentError::GapComputationFailed(m) && m@
            == size_mismatch_message(current.bit_len(), target.bit_len())),
{
    if current.len() != target.len() {
        let mut m = String::from_str("Size mismatch: current=");
        let c = decimal_string(current.len() as u64);
        m.append(c.as_str());
        m.append(" target=");
        let t = decimal_string(target.len() as u64);
        m.append(t.as_str());
        proof {
            reveal_strlit("Size mismatch: current=");
            reveal_strlit(" target=");
        }
        return Err(IntentError::GapComputationFailed(m));
    }
    Ok(BitslicedLane::xor(current, target))
}

/// Bit `i` of the target state an operation stands for.
pub open spec fn op_pattern_bit(op: Option<GateOp>, i: int) -> bool {
    match op {
        Some(GateOp::Sin) => i % 2 == 0,
        Some(GateOp::XorGate) => i % 2 == 0,
        Some(GateOp::Cos) => i % 2 != 0,
        Some(GateOp::NotGate) => i % 2 != 0,
        Some(GateOp::AndGate) => i % 4 == 0,
        Some(GateOp::OrGate) => i % 2 == 0 || i % 3 == 0,
        Some(GateOp::Hadamard) => i % 4 < 2,
        None => false,
    }
}

/// The 256-bit target state an operation stands for when the intent gives
/// none: alternating bits for sine and XOR, their inverse for cosine and
/// NOT, every fourth bit for AND, multiples of 2 or 3 for OR, pairs for
/// Hadamard, all zero otherwise.
pub fn target_state_from_op(op: Option<GateOp>) -> (r: BitslicedLane)
    ensures
        r.wf(),
        r.bit_len() == 256,
        forall|i: int| 0 <= i < 256 ==> #[trigger] r.bit_at(i) == op_pattern_bit(op, i),
{
    let mut lane = BitslicedLane::with_capacity(256);
    proof {
        assert forall|j: int| 0 <= j < 256 implies !lane.bit_at(j) by {
            crate::bitslice::lemma_word_bits(0, 0, 0, (j % 64) as u64);
        }
    }
    let mut i: usize = 0;
    while i < 256
        invariant
            i <= 256,
            lane.wf(),
            lane.bit_len() == 256,
            forall|j: int| 0 <= j < 256 ==> #[trigger] lane.bit_at(j) == (j < i && op_pattern_bit(op, j)),
        decreases 256 - i,
    {
        let b = match op {
            Some(GateOp::Sin) => i % 2 == 0,
            Some(GateOp::XorGate) => i % 2 == 0,
            Some(GateOp::Cos) => i % 2 != 0,
            Some(GateOp::NotGate) => i % 2 != 0,
            Some(GateOp::AndGate) => i % 4 == 0,
            Some(GateOp::OrGate) => i % 2 == 0 || i % 3 == 0,
            Some(GateOp::Hadamard) => i % 4 < 2,
            None => false,
        };
        let ghost before = lane.bits();
        lane.set_bit(i, b);
        proof {
            assert forall|j: int| 0 <= j < 256 implies #[trigger] lane.bit_at(j) == (j < i + 1
                && op_pattern_bit(op, j)) by {
                assert(lane.bits()[j] == lane.bit_at(j));
                assert(before[j] == (j < i && op_pattern_bit(op, j)));
            }
        }
        i = i + 1;
    }
    lane
}

/// A state with bit `i` flipped wherever `flips[i]` is set (indices past
/// the state's length are ignored).
pub fn apply_flips(state: &BitslicedLane, flips: &[bool]) -> (r: BitslicedLane)
    requires
        state.wf(),
    ensures
        r.wf(),
        r.bit_len() == state.bit_len(),
        forall|i: int| 0 <= i < state.bit_len() ==> #[trigger] r.bit_at(i) == (state.bit_at(i) != (i
            < flips@.len() && flips@[i])),
{
    let mut result = state.clone();
    let mut i: usize = 0;
    while i < flips.len() && i < state.len()
        invariant
            i <= flips@.len(),
            result.wf(),
            result.bit_len() == state.bit_len(),
            state.wf(),
            forall|j: int| 0 <= j < state.bit_len() ==> #[trigger] result.bit_at(j) == (state.bit_at(j)
                != (j < i && j < flips@.len() && flips@[j])),
        decreases flips@.len() - i,
    {
        if flips[i] {
            let current = result.get_bit(i);
            let ghost before = result.bits();
            result.set_bit(i, !current);
            proof {
                assert forall|j: int| 0 <= j < state.bit_len() implies #[trigger] result.bit_at(j)
                    == (state.bit_at(j) != (j < i + 1 && j < flips@.len() && flips@[j])) by {
                    assert(result.bits()[j] == result.bit_at(j));
                    assert(before[j] == result.bit_at(j) || j == i);
                }
            }
        }
        i = i + 1;
    }
    result
}

/// What the intent engine needs of a fabric, for its users to provide
/// (a live fabric, or a stand-in for testing). Nothing is assumed of what
/// an implementation does.
pub trait FabricAdapter: Send + Sync {
    /// The register stored at `addr`, without resolving deltas.
    fn read_raw(&self, addr: RegisterAddress) -> Option<Register>;

    /// Store a register at `addr`.
    fn write(&self, addr: RegisterAddress, reg: Register) -> Result<(), String>;

    /// XOR a delta into the register stored at `addr`.
    fn inject_adapt_raw(&self, addr: RegisterAddress, delta: BitslicedLane) -> Result<(), String>;
}

/// The operation a lower-cased message asks for, rule by rule: a keyword
/// of a rule selects its operation whenever no keyword of an earlier rule
/// occurs. Sine for "sin" or "trig"; cosine for "cos"; XOR for "xor" or
/// "exclusive"; AND for "and" (without "random"); OR for "or"; NOT for
/// "not", "invert" or "negate"; Hadamard for "hadamard", "correlation" or
/// "same"; and no operation when none of these occurs.
pub proof fn lemma_intent_keywords(l: Seq<char>)
    ensures
        has_substring(l, "sin"@) || has_substring(l, "trig"@) ==> intent_op_of(l) == Some(GateOp::Sin),
        ({
            let earlier = has_substring(l, "sin"@) || has_substring(l, "trig"@) || has_substring(
                l,
                "trigonometric"@,
            );
            !earlier && has_substring(l, "cos"@) ==> intent_op_of(l) == Some(GateOp::Cos)
        }),
        ({
            let earlier = has_substring(l, "sin"@) || has_substring(l, "trig"@) || has_substring(
                l,
                "trigonometric"@,
            ) || has_substring(l, "cos"@);
            !earlier && (has_substring(l, "xor"@) || has_substring(l, "exclusive"@)) ==> intent_op_of(l)
                == Some(GateOp::XorGate)
        }),
        ({
            let earlier = has_substring(l, "sin"@) || has_substring(l, "trig"@) || has_substring(
                l,
                "trigonometric"@,
            ) || has_substring(l, "cos"@) || has_substring(l, "xor"@) || has_substring(l, "exclusive"@);
            !earlier && has_substring(l, "and"@) && !has_substring(l, "random"@) ==> intent_op_of(l)
                == Some(GateOp::AndGate)
        }),
        ({
            let earlier = has_substring(l, "sin"@) || has_substring(l, "trig"@) || has_substring(
                l,
                "trigonometric"@,
            ) || has_substring(l, "cos"@) || has_substring(l, "xor"@) || has_substring(l, "exclusive"@)
                || has_substring(l, "and"@);
            !earlier && has_substring(l, "or"@) && !has_substring(l, "color"@) && !has_substring(l, "more"@)
                ==> intent_op_of(l) == Some(GateOp::OrGate)
        }),
        ({
            let earlier = has_substring(l, "sin"@) || has_substring(l, "trig"@) || has_substring(
                l,
                "trigonometric"@,
            ) || has_substring(l, "cos"@) || has_substring(l, "xor"@) || has_substring(l, "exclusive"@)
                || has_substring(l, "and"@) || has_substring(l, "or"@);
            !earlier && (has_substring(l, "not"@) || has_substring(l, "invert"@) || has_substring(
                l,
                "negate"@,
            )) ==> intent_op_of(l) == Some(GateOp::NotGate)
        }),
        ({
            let earlier = has_substring(l, "sin"@) || has_substring(l, "trig"@) || has_substring(
                l,
                "trigonometric"@,
            ) || has_substring(l, "cos"@) || has_substring(l, "xor"@) || has_substring(l, "exclusive"@)
                || has_substring(l, "and"@) || has_substring(l, "or"@) || has_substring(l, "not"@)
                || has_substring(l, "invert"@) || has_substring(l, "negate"@);
            !earlier && (has_substring(l, "hadamard"@) || has_substring(l, "correlation"@)
                || has_substring(l, "same"@)) ==> intent_op_of(l) == Some(GateOp::Hadamard)
        }),
        ({
            let any = has_substring(l, "sin"@) || has_substring(l, "trig"@) || has_substring(
                l,
                "trigonometric"@,
            ) || has_substring(l, "cos"@) || has_substring(l, "xor"@) || has_substring(l, "exclusive"@)
                || has_substring(l, "and"@) || has_substring(l, "or"@) || has_substring(l, "not"@)
                || has_substring(l, "invert"@) || has_substring(l, "negate"@) || has_substring(
                l,
                "hadamard"@,
            ) || has_substring(l, "correlation"@) || has_substring(l, "same"@);
            !any ==> intent_op_of(l) is None
        }),
{
}

/// The priority of a lower-cased message: 3 when it asks to learn, adapt
/// or evolve; otherwise 2 when it asks to fix, correct or change; 1 for
/// anything else.
pub proof fn lemma_intent_priority(l: Seq<char>)
    ensures
        has_substring(l, "learn"@) || has_substring(l, "adapt"@) || has_substring(l, "evolve"@)
            ==> intent_priority_of(l) == 3,
        !(has_substring(l, "learn"@) || has_substring(l, "adapt"@) || has_substring(l, "evolve"@))
            && (has_substring(l, "fix"@) || has_substring(l, "correct"@) || has_substring(l, "change"@))
            ==> intent_priority_of(l) == 2,
        !(has_substring(l, "learn"@) || has_substring(l, "adapt"@) || has_substring(l, "evolve"@)
            || has_substring(l, "fix"@) || has_substring(l, "correct"@) || has_substring(l, "change"@))
            ==> intent_priority_of(l) == 1,
{
}

/// Logging a rejected mutation leaves the trail not all approved; logging
/// an approved one leaves the verdict on the whole trail as it was.
pub proof fn lemma_trail_approval(t: Seq<MutationModel>, m: MutationModel)
    ensures
        !m.approved ==> !trail_all_approved(t.push(m)),
        m.approved ==> trail_all_approved(t.push(m)) == trail_all_approved(t),
{
    if !m.approved {
        assert(!t.push(m)[t.len() as int].approved);
    } else {
        if trail_all_approved(t) {
            assert forall|i: int| 0 <= i < t.push(m).len() implies #[trigger] t.push(m)[i].approved by {
                if i < t.len() {
                    assert(t.push(m)[i] == t[i]);
                }
            }
        }
        if trail_all_approved(t.push(m)) {
            assert forall|i: int| 0 <= i < t.len() implies #[trigger] t[i].approved by {
                assert(t.push(m)[i] == t[i]);
            }
        }
    }
}

/// A rollback right after a checkpoint of `address` gives back that
/// checkpoint, whatever was saved before.
pub proof fn lemma_rollback_restores_checkpoint(
    saved: Seq<(u128, RegisterModel)>,
    address: u128,
    state: RegisterModel,
)
    ensures
        last_checkpoint(saved.push((address, state)), address) == Some(state),
{
    assert(saved.push((address, state)).last() == (address, state));
}

/// A checkpoint of one address leaves the rollback of every other address
/// as it was.
pub proof fn lemma_checkpoint_keeps_other_rollbacks(
    saved: Seq<(u128, RegisterModel)>,
    address: u128,
    state: RegisterModel,
    other: u128,
)
    requires
        other != address,
    ensures
        last_checkpoint(saved.push((address, state)), other) == last_checkpoint(saved, other),
{
    assert(saved.push((address, state)).drop_last() =~= saved);
}


/// Confirming the most recently added intent makes it the latest confirmed
/// one.
pub proof fn lemma_confirm_last_is_latest(ns: Seq<IntentNodeModel>)
    requires
        ns.len() > 0,
    ensures
        last_confirmed_index(ns.update(ns.len() - 1, IntentNodeModel { confirmed: true, ..ns.last() }))
            == Some(ns.len() - 1),
{
}

/// Confirming an intent leaves the drift of the history unchanged: drift
/// depends on the hashes alone.
pub proof fn lemma_confirm_keeps_drift(ns: Seq<IntentNodeModel>, idx: int)
    requires
        0 <= idx < ns.len(),
    ensures
        drift_sum(ns.update(idx, IntentNodeModel { confirmed: true, ..ns[idx] })) == drift_sum(ns),
    decreases ns.len(),
{
    let us = ns.update(idx, IntentNodeModel { confirmed: true, ..ns[idx] });
    if ns.len() >= 2 {
        if idx < ns.len() - 1 {
            assert(us.drop_last() =~= ns.drop_last().update(
                idx,
                IntentNodeModel { confirmed: true, ..ns.drop_last()[idx] },
            ));
            lemma_confirm_keeps_drift(ns.drop_last(), idx);
        } else {
            assert(us.drop_last() =~= ns.drop_last());
        }
    }
}

} // verus!
