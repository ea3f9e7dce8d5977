//! Network registers: a network held as a register that grows recursively.
//!
//! A network register keeps its topology in a bisliced lane (spatial and
//! temporal planes) and may hold child network registers. Evaluating a
//! level is one word-wise AND of its two planes, whatever the network's
//! size or depth.

use vstd::prelude::*;
use crate::address::RegisterAddress;
use crate::bitslice::{BislicedLane, BitslicedLane, words_and, words_for, words_pop, words_resized};

verus! {

/// No identifier occurs twice among the children.
pub open spec fn ids_unique(children: Seq<(u8, NetworkRegister)>) -> bool {
    forall|i: int, j: int|
        0 <= i < j < children.len() ==> (#[trigger] children[i]).0 != (#[trigger] children[j]).0
}

/// Sum of the active connections of the first `k` children.
pub open spec fn children_active(children: Seq<(u8, NetworkRegister)>, k: int) -> int
    decreases k,
{
    if k <= 0 {
        0
    } else {
        children_active(children, k - 1) + words_pop(
            words_and(children[k - 1].1.lane.spatial.word_seq(), children[k - 1].1.lane.temporal.word_seq()),
        )
    }
}

/// The active connections of a register's own lane.
pub open spec fn own_active(n: NetworkRegister) -> nat {
    words_pop(words_and(n.lane.spatial.word_seq(), n.lane.temporal.word_seq()))
}

/// A network register: topology in a bisliced lane, plus children.
#[derive(Debug)]
pub struct NetworkRegister {
    /// Address of this register in the fabric.
    pub address: RegisterAddress,
    /// Spatial and temporal planes of the topology.
    pub lane: BislicedLane,
    /// Child registers by identifier, in insertion order.
    pub children: Vec<(u8, NetworkRegister)>,
    /// Depth in the hierarchy (0 = root).
    pub depth: u8,
    /// Number of nodes the register covers.
    pub node_count: usize,
}

impl NetworkRegister {
    /// The lane is well formed, child identifiers are distinct, and every
    /// child's lane is well formed.
    pub open spec fn wf(&self) -> bool {
        &&& self.lane.wf()
        &&& ids_unique(self.children@)
        &&& forall|i: int|
            0 <= i < self.children@.len() ==> #[trigger] is_wf_child(self.children@[i])
    }

    /// Index of the child with identifier `id`.
    pub open spec fn child_index(&self, id: u8, i: int) -> bool {
        0 <= i < self.children@.len() && self.children@[i].0 == id
    }

    /// Whether a child has identifier `id`.
    pub open spec fn has_child(&self, id: u8) -> bool {
        exists|i: int| self.child_index(id, i)
    }

    /// A root register at `address` with an all-zero lane of `num_nodes`
    /// bits and no children.
    pub fn new(address: RegisterAddress, num_nodes: usize) -> (r: Self)
        requires
            num_nodes + 63 <= usize::MAX,
        ensures
            r.wf(),
            r.address == address,
            r.lane.spatial.bit_len() == num_nodes,
            r.lane.spatial.word_seq() == Seq::new(words_for(num_nodes as nat), |i: int| 0u64),
            r.lane.temporal.word_seq() == Seq::new(words_for(num_nodes as nat), |i: int| 0u64),
            r.children@.len() == 0,
            r.depth == 0,
            r.node_count == num_nodes,
            deep_wf(r),
    {
        let r = NetworkRegister {
            address,
            lane: BislicedLane::with_capacity(num_nodes),
            children: Vec::new(),
            depth: 0,
            node_count: num_nodes,
        };
        proof {
            assert(r.children@.len() == 0);
            assert(deep_wf(r));
        }
        r
    }

    /// Set the spatial connection from node `from` to node `to`: bit
    /// `from * len + to` of the spatial plane (ignored past its end).
    pub fn set_spatial(&mut self, from: usize, to: usize, value: bool)
        requires
            old(self).wf(),
            from * old(self).lane.spatial.bit_len() + to <= usize::MAX,
        ensures
            deep_wf(*old(self)) ==> deep_wf(*final(self)),
            final(self).wf(),
            final(self).address == old(self).address,
            final(self).depth == old(self).depth,
            final(self).children@ == old(self).children@,
            final(self).lane.temporal == old(self).lane.temporal,
            final(self).lane.spatial.bit_len() == old(self).lane.spatial.bit_len(),
            final(self).lane.spatial.bits() == (if from * old(self).lane.spatial.bit_len() + to
                < old(self).lane.spatial.bit_len() {
                old(self).lane.spatial.bits().update(
                    from * old(self).lane.spatial.bit_len() + to,
                    value,
                )
            } else {
                old(self).lane.spatial.bits()
            }),
    {
        let n = self.lane.len();
        assert(from * n + to <= usize::MAX);
        let idx = from * n + to;
        self.lane.spatial.set_bit(idx, value);
        proof {
            assert(forall|i: int|
                0 <= i < self.children@.len() ==> #[trigger] is_wf_child(self.children@[i]));
        }
    }

    /// Set the temporal activity from node `from` to node `to`: bit
    /// `from * len + to` of the temporal plane (ignored past its end).
    pub fn set_temporal(&mut self, from: usize, to: usize, value: bool)
        requires
            old(self).wf(),
            from * old(self).lane.spatial.bit_len() + to <= usize::MAX,
        ensures
            deep_wf(*old(self)) ==> deep_wf(*final(self)),
            final(self).wf(),
            final(self).address == old(self).address,
            final(self).depth == old(self).depth,
            final(self).children@ == old(self).children@,
            final(self).lane.spatial == old(self).lane.spatial,
            final(self).lane.temporal.bit_len() == old(self).lane.temporal.bit_len(),
            final(self).lane.temporal.bits() == (if from * old(self).lane.spatial.bit_len() + to
                < old(self).lane.temporal.bit_len() {
                old(self).lane.temporal.bits().update(
                    from * old(self).lane.spatial.bit_len() + to,
                    value,
                )
            } else {
                old(self).lane.temporal.bits()
            }),
    {
        let n = self.lane.len();
        assert(from * n + to <= usize::MAX);
        let idx = from * n + to;
        self.lane.temporal.set_bit(idx, value);
    }

    /// Active connections: the AND of the two planes.
    pub fn evaluate(&self) -> (r: BitslicedLane)
        requires
            self.wf(),
        ensures
            r.wf(),
            r.bit_len() == self.lane.spatial.bit_len(),
            r.word_seq() == words_and(self.lane.spatial.word_seq(), self.lane.temporal.word_seq()),
    {
        self.lane.active_connections()
    }

    /// Number of nodes the register covers: the count it was created with,
    /// or the last one it was resized to.
    pub fn num_nodes(&self) -> (r: usize)
        ensures
            r == self.node_count,
    {
        self.node_count
    }

    /// Cover `num_nodes` nodes: the lane is resized to `num_nodes *
    /// num_nodes` bits (one per ordered pair of nodes).
    pub fn resize(&mut self, num_nodes: usize)
        requires
            old(self).wf(),
            num_nodes * num_nodes + 63 <= usize::MAX,
        ensures
            deep_wf(*old(self)) ==> deep_wf(*final(self)),
            final(self).wf(),
            final(self).address == old(self).address,
            final(self).depth == old(self).depth,
            final(self).children@ == old(self).children@,
            final(self).lane.spatial.bit_len() == num_nodes * num_nodes,
            final(self).lane.spatial.word_seq() == words_resized(
                old(self).lane.spatial.word_seq(),
                (num_nodes * num_nodes) as nat,
            ),
            final(self).lane.temporal.word_seq() == words_resized(
                old(self).lane.temporal.word_seq(),
                (num_nodes * num_nodes) as nat,
            ),
            final(self).node_count == num_nodes,
    {
        assert(num_nodes * num_nodes + 63 <= usize::MAX);
        let bits = num_nodes * num_nodes;
        self.lane.resize(bits);
        self.node_count = num_nodes;
    }

    /// Add (or replace) child `id`: a new register at `address` with
    /// `num_nodes` bits, one level deeper. A replaced child keeps its
    /// position; a new one goes last.
    pub fn add_child(&mut self, id: u8, address: RegisterAddress, num_nodes: usize)
        requires
            old(self).wf(),
            old(self).depth < 255,
            num_nodes + 63 <= usize::MAX,
        ensures
            deep_wf(*old(self)) ==> deep_wf(*final(self)),
            final(self).wf(),
            final(self).address == old(self).address,
            final(self).depth == old(self).depth,
            final(self).lane == old(self).lane,
            final(self).has_child(id),
            final(self).children@.len() == old(self).children@.len() + (if old(self).has_child(id) { 0int } else { 1int }),
            forall|i: int|
                0 <= i < old(self).children@.len() && old(self).children@[i].0 != id
                    ==> final(self).children@[i] == old(self).children@[i],
            forall|i: int|
                final(self).child_index(id, i) ==> {
                    let c = final(self).children@[i].1;
                    &&& c.address == address
                    &&& c.depth == old(self).depth + 1
                    &&& c.children@.len() == 0
                    &&& c.lane.spatial.bit_len() == num_nodes
                    &&& c.node_count == num_nodes
                    &&& c.lane.spatial.word_seq() == Seq::new(words_for(num_nodes as nat), |k: int| 0u64)
                    &&& c.lane.temporal.word_seq() == Seq::new(words_for(num_nodes as nat), |k: int| 0u64)
                },
    {
        let mut child = NetworkRegister::new(address, num_nodes);
        child.depth = self.depth + 1;
        proof {
            assert(deep_wf(child));
        }
        let ghost cm = child;
        let mut i: usize = 0;
        while i < self.children.len()
            invariant
                i <= self.children@.len(),
                self.children@ == old(self).children@,
                self.address == old(self).address,
                self.depth == old(self).depth,
                self.lane == old(self).lane,
                old(self).wf(),
                child == cm,
                deep_wf(child),
                child.address == address,
                child.depth == old(self).depth + 1,
                child.children@.len() == 0,
                child.lane.wf(),
                child.lane.spatial.bit_len() == num_nodes,
                child.node_count == num_nodes,
                child.lane.spatial.word_seq() == Seq::new(words_for(num_nodes as nat), |k: int| 0u64),
                child.lane.temporal.word_seq() == Seq::new(words_for(num_nodes as nat), |k: int| 0u64),
                forall|j: int| 0 <= j < i ==> (#[trigger] self.children@[j]).0 != id,
            decreases self.children@.len() - i,
        {
            if self.children[i].0 == id {
                proof {
                    assert(old(self).child_index(id, i as int));
                }
                self.children.set(i, (id, child));
                proof {
                    assert(old(self).has_child(id));
                    assert forall|a: int, b: int|
                        0 <= a < b < self.children@.len() implies (#[trigger] self.children@[a]).0
                            != (#[trigger] self.children@[b]).0 by {
                        assert(old(self).children@[a].0 != old(self).children@[b].0);
                    }
                    assert forall|j: int|
                        0 <= j < self.children@.len() implies #[trigger] is_wf_child(self.children@[j]) by {
                        if j != i {
                            assert(is_wf_child(old(self).children@[j]));
                        }
                    }
                    assert(self.child_index(id, i as int));
                    if deep_wf(*old(self)) {
                        assert forall|j: int| 0 <= j < self.children@.len() implies deep_wf(
                            #[trigger] self.children@[j].1,
                        ) by {
                            if j != i {
                                assert(deep_wf(old(self).children@[j].1));
                            }
                        }
                    }
                    assert forall|j: int| self.child_index(id, j) implies j == i by {
                        if j != i {
                            if j < i {
                            } else {
                                assert(old(self).children@[i as int].0 != old(self).children@[j].0);
                            }
                        }
                    }
                }
                return;
            }
            i = i + 1;
        }
        self.children.push((id, child));
        proof {
            assert forall|j: int| !old(self).child_index(id, j) by {
                if 0 <= j < old(self).children@.len() {
                    assert(old(self).children@[j].0 != id);
                }
            }
            assert(!old(self).has_child(id));
            assert forall|a: int, b: int|
                0 <= a < b < self.children@.len() implies (#[trigger] self.children@[a]).0
                    != (#[trigger] self.children@[b]).0 by {
                if b < old(self).children@.len() {
                    assert(old(self).children@[a].0 != old(self).children@[b].0);
                }
            }
            assert forall|j: int|
                0 <= j < self.children@.len() implies #[trigger] is_wf_child(self.children@[j]) by {
                if j < old(self).children@.len() {
                    assert(is_wf_child(old(self).children@[j]));
                }
            }
            assert(self.child_index(id, old(self).children@.len() as int));
            if deep_wf(*old(self)) {
                assert forall|j: int| 0 <= j < self.children@.len() implies deep_wf(
                    #[trigger] self.children@[j].1,
                ) by {
                    if j < old(self).children@.len() {
                        assert(deep_wf(old(self).children@[j].1));
                    }
                }
            }
        }
    }

    /// The child with identifier `id`, if any.
    pub fn child(&self, id: u8) -> (r: Option<&NetworkRegister>)
        requires
            self.wf(),
        ensures
            match r {
                Some(c) => exists|i: int| self.child_index(id, i) && *c == self.children@[i].1,
                None => !self.has_child(id),
            },
    {
        let mut i: usize = 0;
        while i < self.children.len()
            invariant
                i <= self.children@.len(),
                forall|j: int| 0 <= j < i ==> (#[trigger] self.children@[j]).0 != id,
            decreases self.children@.len() - i,
        {
            if self.children[i].0 == id {
                proof {
                    assert(self.child_index(id, i as int));
                }
                return Some(&self.children[i].1);
            }
            i = i + 1;
        }
        None
    }

    /// The child with identifier `id`, if any, for modification.
    pub fn child_mut(&mut self, id: u8) -> (r: Option<&mut NetworkRegister>)
        ensures
            match r {
                Some(c) => exists|i: int|
                    old(self).child_index(id, i) && *c == old(self).children@[i].1
                        && final(self).children@ == old(self).children@.update(i, (id, *final(c)))
                        && final(self).address == old(self).address
                        && final(self).lane == old(self).lane
                        && final(self).depth == old(self).depth
                        && (deep_wf(*old(self)) ==> deep_wf(*c))
                        && (deep_wf(*old(self)) && deep_wf(*final(c)) ==> deep_wf(*final(self))),
                None => !old(self).has_child(id) && *final(self) == *old(self),
            },
    {
        let mut i: usize = 0;
        while i < self.children.len()
            invariant
                i <= self.children@.len(),
                *self == *old(self),
                forall|j: int| 0 <= j < i ==> (#[trigger] self.children@[j]).0 != id,
            decreases self.children@.len() - i,
        {
            if self.children[i].0 == id {
                proof {
                    assert(old(self).child_index(id, i as int));
                }
                return Some(&mut self.children[i].1);
            }
            i = i + 1;
        }
        None
    }

    /// Active connections of this register and of all its descendants:
    /// `(depth, evaluation)` for this register first, then, for each child
    /// in order, `(id, evaluation)` for the child followed by the entries of
    /// the child's own descendants.
    pub fn evaluate_recursive(&self) -> (r: Vec<(u8, BitslicedLane)>)
        requires
            deep_wf(*self),
        ensures
            evals_view(r@) == seq![eval_entry(self.depth, *self)] + descendant_evals(*self),
            r@.len() == 1 + descendant_evals(*self).len(),
            forall|i: int| 0 <= i < r@.len() ==> (#[trigger] r@[i]).1.wf(),
    {
        let mut results: Vec<(u8, BitslicedLane)> = Vec::new();
        let e = self.lane.active_connections();
        results.push((self.depth, e));
        proof {
            assert(evals_view(results@) =~= seq![eval_entry(self.depth, *self)]);
        }
        push_descendants(self, &mut results);
        proof {
            assert(evals_view(results@).len() == results@.len());
        }
        results
    }

    /// Active connections of this register plus those of its children.
    pub fn total_active_connections(&self) -> (r: usize)
        requires
            self.wf(),
            own_active(*self) + children_active(self.children@, self.children@.len() as int)
                <= usize::MAX,
        ensures
            r == own_active(*self) + children_active(self.children@, self.children@.len() as int),
    {
        let mut count = self.lane.active_connections().popcount();
        let mut i: usize = 0;
        while i < self.children.len()
            invariant
                i <= self.children@.len(),
                self.wf(),
                count == own_active(*self) + children_active(self.children@, i as int),
                own_active(*self) + children_active(self.children@, self.children@.len() as int)
                    <= usize::MAX,
            decreases self.children@.len() - i,
        {
            assert(is_wf_child(self.children@[i as int]));
            proof {
                lemma_children_active_monotone(self.children@, i + 1, self.children@.len() as int);
            }
            let c = self.children[i].1.lane.active_connections().popcount();
            count = count + c;
            i = i + 1;
        }
        count
    }
}

/// A child entry whose register is well formed.
pub open spec fn is_wf_child(c: (u8, NetworkRegister)) -> bool {
    c.1.lane.wf()
}

/// Partial sums of children's active connections never shrink.
proof fn lemma_children_active_monotone(children: Seq<(u8, NetworkRegister)>, i: int, k: int)
    requires
        0 <= i <= k <= children.len(),
    ensures
        children_active(children, i) <= children_active(children, k),
    decreases k - i,
{
    if i < k {
        lemma_children_active_monotone(children, i, k - 1);
    }
}

/// A register and, recursively, every descendant are well formed.
pub open spec fn deep_wf(n: NetworkRegister) -> bool
    decreases n,
{
    &&& n.wf()
    &&& forall|i: int|
        0 <= i < n.children@.len() ==> {
            proof {
                assert(decreases_to!(n => n.children));
                assert(decreases_to!(n.children => n.children@));
                assert(decreases_to!(n.children@ => n.children@[i]));
                assert(decreases_to!(n.children@[i] => n.children@[i].1));
            }
            deep_wf(#[trigger] n.children@[i].1)
        }
}

/// The entry of an evaluation: a label, and the words and length of the
/// AND of a register's two planes.
pub open spec fn eval_entry(label: u8, n: NetworkRegister) -> (u8, Seq<u64>, nat) {
    (label, words_and(n.lane.spatial.word_seq(), n.lane.temporal.word_seq()), n.lane.spatial.bit_len())
}

/// The entries of a list of evaluations.
pub open spec fn evals_view(es: Seq<(u8, BitslicedLane)>) -> Seq<(u8, Seq<u64>, nat)> {
    es.map_values(|e: (u8, BitslicedLane)| (e.0, e.1.word_seq(), e.1.bit_len()))
}

/// The entries of the descendants of `n`: for each child in order, the
/// child's entry under its identifier, then the entries of its own
/// descendants.
pub open spec fn descendant_evals(n: NetworkRegister) -> Seq<(u8, Seq<u64>, nat)>
    decreases n, n.children@.len() + 1,
{
    children_evals(n, n.children@.len() as int)
}

/// The entries of the first `k` children of `n` and their descendants.
pub open spec fn children_evals(n: NetworkRegister, k: int) -> Seq<(u8, Seq<u64>, nat)>
    decreases n, if k <= 0 { 0nat } else { k as nat },
{
    if k <= 0 || k > n.children@.len() {
        Seq::empty()
    } else {
        proof {
            assert(decreases_to!(n => n.children));
            assert(decreases_to!(n.children => n.children@));
            assert(decreases_to!(n.children@ => n.children@[k - 1]));
            assert(decreases_to!(n.children@[k - 1] => n.children@[k - 1].1));
        }
        children_evals(n, k - 1) + seq![eval_entry(n.children@[k - 1].0, n.children@[k - 1].1)]
            + descendant_evals(n.children@[k - 1].1)
    }
}

/// Append the entries of the descendants of `n` to `out`.
fn push_descendants(n: &NetworkRegister, out: &mut Vec<(u8, BitslicedLane)>)
    requires
        deep_wf(*n),
        forall|i: int| 0 <= i < old(out)@.len() ==> (#[trigger] old(out)@[i]).1.wf(),
    ensures
        evals_view(final(out)@) == evals_view(old(out)@) + descendant_evals(*n),
        forall|i: int| 0 <= i < final(out)@.len() ==> (#[trigger] final(out)@[i]).1.wf(),
    decreases *n,
{
    let mut i: usize = 0;
    proof {
        assert(evals_view(out@) =~= evals_view(old(out)@) + children_evals(*n, 0));
    }
    while i < n.children.len()
        invariant
            i <= n.children@.len(),
            deep_wf(*n),
            evals_view(out@) == evals_view(old(out)@) + children_evals(*n, i as int),
            forall|j: int| 0 <= j < out@.len() ==> (#[trigger] out@[j]).1.wf(),
        decreases n.children@.len() - i,
    {
        let id = n.children[i].0;
        let child = &n.children[i].1;
        proof {
            assert(deep_wf(n.children@[i as int].1));
            assert(decreases_to!(*n => n.children));
            assert(decreases_to!(n.children => n.children@));
            assert(decreases_to!(n.children@ => n.children@[i as int]));
            assert(decreases_to!(n.children@[i as int] => n.children@[i as int].1));
        }
        let e = child.lane.active_connections();
        let ghost mid = out@;
        out.push((id, e));
        proof {
            assert(evals_view(out@) =~= evals_view(mid) + seq![eval_entry(id, *child)]);
        }
        let ghost mid2 = out@;
        push_descendants(child, out);
        proof {
            assert(evals_view(out@) =~= evals_view(old(out)@) + children_evals(*n, i + 1));
        }
        i = i + 1;
    }
    proof {
        assert(children_evals(*n, n.children@.len() as int) == descendant_evals(*n));
    }
}

impl Clone for NetworkRegister {
    /// A copy of the register and, recursively, of its children.
    fn clone(&self) -> (r: Self)
        ensures
            r.address == self.address,
            r.depth == self.depth,
            r.lane.spatial.word_seq() == self.lane.spatial.word_seq(),
            r.lane.spatial.bit_len() == self.lane.spatial.bit_len(),
            r.lane.temporal.word_seq() == self.lane.temporal.word_seq(),
            r.lane.temporal.bit_len() == self.lane.temporal.bit_len(),
            r.children@.len() == self.children@.len(),
            r.node_count == self.node_count,
            forall|i: int| 0 <= i < r.children@.len() ==> (#[trigger] r.children@[i]).0 == self.children@[i].0,
        decreases self,
    {
        let mut children: Vec<(u8, NetworkRegister)> = Vec::new();
        let mut i: usize = 0;
        while i < self.children.len()
            invariant
                i <= self.children@.len(),
                children@.len() == i,
                forall|j: int| 0 <= j < i ==> (#[trigger] children@[j]).0 == self.children@[j].0,
            decreases self.children@.len() - i,
        {
            let id = self.children[i].0;
            proof {
                assert(decreases_to!(self => self.children));
                assert(decreases_to!(self.children => self.children@));
                assert(decreases_to!(self.children@ => self.children@[i as int]));
                assert(decreases_to!(self.children@[i as int] => self.children@[i as int].1));
            }
            let c = self.children[i].1.clone();
            children.push((id, c));
            i = i + 1;
        }
        NetworkRegister {
            address: self.address,
            lane: self.lane.clone(),
            children,
            depth: self.depth,
            node_count: self.node_count,
        }
    }
}


} // verus!
