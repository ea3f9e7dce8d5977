//! The register store: the fabric's registers, keyed by address.

use vstd::prelude::*;
use std::collections::HashMap;
use vstd::std_specs::iter::IteratorSpec;
use crate::address::RegisterAddress;
use crate::bitslice::BitslicedLane;
use crate::register::{Register, RegisterModel, model_after_delta};

verus! {

broadcast use vstd::std_specs::hash::group_hash_axioms;

/// Registers keyed by their address word.
#[derive(Debug)]
pub struct RegisterStore {
    regs: HashMap<u128, Register>,
}

impl View for RegisterStore {
    type V = Map<u128, RegisterModel>;

    /// The abstract value of each stored register, by address word.
    closed spec fn view(&self) -> Map<u128, RegisterModel> {
        self.regs@.map_values(|r: Register| r@)
    }
}

impl RegisterStore {
    /// Every stored register has a well-formed payload.
    pub closed spec fn wf(&self) -> bool {
        forall|k: u128| #[trigger] self.regs@.contains_key(k) ==> self.regs@[k].wf()
    }

    /// The view's domain is the set of stored keys, and each entry is the
    /// stored register's value.
    proof fn lemma_view(&self, k: u128)
        ensures
            self@.contains_key(k) == self.regs@.contains_key(k),
            self.regs@.contains_key(k) ==> self@[k] == self.regs@[k]@,
    {
    }

    /// An empty store.
    pub fn new() -> (r: Self)
        ensures
            r.wf(),
            r@ == Map::<u128, RegisterModel>::empty(),
    {
        let r = RegisterStore { regs: HashMap::new() };
        proof {
            assert(r@ =~= Map::<u128, RegisterModel>::empty());
        }
        r
    }

    /// Number of stored registers.
    pub fn len(&self) -> (r: usize)
        ensures
            r == self@.len(),
    {
        proof {
            assert(self@.dom() =~= self.regs@.dom());
        }
        self.regs.len()
    }

    /// Whether a register is stored at `address`.
    pub fn contains(&self, address: RegisterAddress) -> (r: bool)
        ensures
            r == self@.contains_key(address@),
    {
        let k = address.bits();
        proof {
            self.lemma_view(k);
        }
        self.regs.contains_key(&k)
    }

    /// A copy of the register stored at `address`, if any.
    pub fn get(&self, address: RegisterAddress) -> (r: Option<Register>)
        requires
            self.wf(),
        ensures
            match r {
                Some(reg) => self@.contains_key(address@) && reg@ == self@[address@] && reg.wf(),
                None => !self@.contains_key(address@),
            },
    {
        let k = address.bits();
        proof {
            self.lemma_view(k);
        }
        match self.regs.get(&k) {
            Some(reg) => {
                proof {
                    assert(self.regs@.contains_key(k));
                }
                Some(reg.clone())
            },
            None => None,
        }
    }

    /// Store `register` at `address`, replacing what was there.
    pub fn insert(&mut self, address: RegisterAddress, register: Register)
        requires
            old(self).wf(),
            register.wf(),
        ensures
            final(self).wf(),
            final(self)@ == old(self)@.insert(address@, register@),
    {
        let ghost g = register@;
        self.regs.insert(address.bits(), register);
        proof {
            assert forall|k: u128| #[trigger] self.regs@.contains_key(k) implies self.regs@[k].wf() by {
                if k != address@ {
                    assert(old(self).regs@.contains_key(k));
                }
            }
            assert(self@ =~= old(self)@.insert(address@, g));
        }
    }

    /// Apply `delta` to the register stored at `address` with
    /// `Register::update_with_delta`; false (and no change) when nothing is
    /// stored there.
    pub fn apply_delta(&mut self, address: RegisterAddress, delta: &BitslicedLane) -> (r: bool)
        requires
            old(self).wf(),
            old(self)@.contains_key(address@) ==> old(self)@[address@].bit_len == delta.bit_len(),
            delta.wf(),
        ensures
            final(self).wf(),
            r == old(self)@.contains_key(address@),
            final(self)@ == (if r {
                old(self)@.insert(
                    address@,
                    model_after_delta(old(self)@[address@], delta.word_seq()),
                )
            } else {
                old(self)@
            }),
    {
        match self.get(address) {
            Some(reg) => {
                let mut updated = reg;
                updated.update_with_delta(delta);
                self.insert(address, updated);
                true
            },
            None => false,
        }
    }

    /// The address words of all stored registers, each once, in no
    /// particular order.
    pub fn keys(&self) -> (r: Vec<u128>)
        ensures
            r@.no_duplicates(),
            r@.to_set() == self@.dom(),
    {
        let mut out: Vec<u128> = Vec::new();
        let keys = self.regs.keys();
        proof {
            vstd::std_specs::hash::axiom_spec_keys_iter(&self.regs);
        }
        let ghost rem = vstd::std_specs::hash::spec_keys_iter(&self.regs).remaining();
        for k in it: keys
            invariant
                it.seq() == rem,
                out@ == rem.take(it.index() as int).unref(),
                out@.len() == it.index(),
        {
            out.push(*k);
            proof {
                assert(out@ =~= rem.take(it.index() as int + 1).unref());
            }
        }
        proof {
            assert(self@.dom() =~= self.regs@.dom());
            assert(out@ =~= rem.take(out@.len() as int).unref());
            assert(rem.take(rem.len() as int) =~= rem);
        }
        out
    }
}

} // verus!
