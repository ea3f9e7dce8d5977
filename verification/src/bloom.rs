//! Bloom filters per sector.
//!
//! Each sector keeps a bloom filter that answers "might address X be in this
//! sector?". An address sets `num_hashes` bit positions; an address whose
//! positions are all set might be present, any other address is certainly
//! absent.

use vstd::prelude::*;
use std::collections::HashMap;
use std::collections::hash_map::DefaultHasher;
use std::hash::Hasher;
use crate::bitslice::{word_bit, words_pop, words_for, lemma_word_bits};
use crate::hashing::{hash_u16, u16_hash_chunks};
use vstd::std_specs::hash::DefaultHasherAdditionalSpecFns;
use crate::popcount::{count_ones_u64, lemma_pop64_bound};

verus! {

broadcast use vstd::std_specs::hash::group_hash_axioms;

/// Seed of the bloom filter's position hashes.
pub const BLOOM_HASH_SEED: u64 = 0x9E37_79B9_7F4A_7C15;

/// The multiplicative mixing step of the position hash.
#[verifier::opaque]
pub open spec fn mix(h: u64) -> u64 {
    let h1 = h ^ (h >> 33u64);
    let h2 = vstd::wrapping::u64_specs::wrapping_mul(h1, 0xff51afd7ed558ccd);
    let h3 = h2 ^ (h2 >> 33u64);
    let h4 = vstd::wrapping::u64_specs::wrapping_mul(h3, 0xc4ceb9fe1a85ec53);
    h4 ^ (h4 >> 33u64)
}

/// Hash number `i` of an address: the low 64 bits of the address XOR the
/// seed times `i + 1`, then mixed.
pub open spec fn bloom_hash(address_bits: u128, i: int) -> u64 {
    mix((address_bits as u64) ^ vstd::wrapping::u64_specs::wrapping_mul(BLOOM_HASH_SEED, (i + 1) as u64))
}

/// Bit position of hash number `i` of an address in a filter of `m` bits.
pub open spec fn bloom_pos(address_bits: u128, i: int, m: usize) -> int {
    ((bloom_hash(address_bits, i) as usize) % m) as int
}

/// Whether one of the first `n` positions of `address_bits` is `j`.
pub open spec fn covered(address_bits: u128, m: usize, n: int, j: int) -> bool {
    exists|t: int| 0 <= t < n && #[trigger] bloom_pos(address_bits, t, m) == j
}

/// Whether one of the first `n` addresses of `addrs` has `j` among its
/// first `k` positions.
pub open spec fn covered_by(addrs: Seq<u128>, m: usize, k: int, n: int, j: int) -> bool {
    exists|u: int| 0 <= u < n && #[trigger] covered(addrs[u], m, k, j)
}

proof fn lemma_covered_by_step(addrs: Seq<u128>, m: usize, k: int, n: int, j: int)
    requires
        0 <= n,
    ensures
        covered_by(addrs, m, k, n + 1, j) == (covered_by(addrs, m, k, n, j) || covered(addrs[n], m, k, j)),
{
    if covered_by(addrs, m, k, n + 1, j) {
        let u = choose|u: int| 0 <= u < n + 1 && #[trigger] covered(addrs[u], m, k, j);
        if u < n {
            assert(covered_by(addrs, m, k, n, j));
        }
    }
    if covered(addrs[n], m, k, j) {
        assert(covered_by(addrs, m, k, n + 1, j));
    }
}

/// Bit `j` of a word sequence.
pub open spec fn seq_bit(ws: Seq<u64>, j: int) -> bool {
    word_bit(ws[j / 64], j % 64)
}

/// Setting bit `idx` of a word sequence sets exactly that bit.
proof fn lemma_set_bit_in_words(ws: Seq<u64>, idx: int, j: int)
    requires
        0 <= idx,
        0 <= j,
        idx / 64 < ws.len(),
        j / 64 < ws.len(),
    ensures
        word_bit(ws.update(idx / 64, ws[idx / 64] | (1u64 << ((idx % 64) as u64)))[j / 64], j % 64)
            == (word_bit(ws[j / 64], j % 64) || j == idx),
{
    let nws = ws.update(idx / 64, ws[idx / 64] | (1u64 << ((idx % 64) as u64)));
    lemma_word_bits(ws[idx / 64], 0, (idx % 64) as u64, (j % 64) as u64);
    if j / 64 == idx / 64 && j != idx {
        assert(j % 64 != idx % 64);
    }
}

/// One more position covers what the earlier ones did plus its own bit.
proof fn lemma_covered_step(address_bits: u128, m: usize, n: int, j: int)
    requires
        0 <= n,
    ensures
        covered(address_bits, m, n + 1, j) == (covered(address_bits, m, n, j) || bloom_pos(address_bits, n, m) == j),
{
    if covered(address_bits, m, n + 1, j) {
        let t = choose|t: int| 0 <= t < n + 1 && #[trigger] bloom_pos(address_bits, t, m) == j;
        if t < n {
            assert(covered(address_bits, m, n, j));
        }
    }
    if bloom_pos(address_bits, n, m) == j {
        assert(covered(address_bits, m, n + 1, j));
    }
}

/// Hash number `hash_index` of an address (XOR-shift mixing).
fn position_hash(address_bits: u128, hash_index: usize) -> (r: u64)
    requires
        hash_index < usize::MAX,
    ensures
        r == bloom_hash(address_bits, hash_index as int),
{
    let mut h = (address_bits as u64) ^ BLOOM_HASH_SEED.wrapping_mul(hash_index as u64 + 1);
    h = h ^ (h >> 33u64);
    h = h.wrapping_mul(0xff51afd7ed558ccd_u64);
    h = h ^ (h >> 33u64);
    h = h.wrapping_mul(0xc4ceb9fe1a85ec53_u64);
    h = h ^ (h >> 33u64);
    proof {
        reveal(mix);
    }
    h
}

/// Set the first `k` positions of `address_bits` in the words of a filter
/// of `m` bits.
fn set_positions(bits: &mut Vec<u64>, address_bits: u128, m: usize, k: usize)
    requires
        old(bits)@.len() == words_for(m as nat),
        m + 63 <= usize::MAX,
        k < usize::MAX,
        k > 0 ==> m > 0,
    ensures
        final(bits)@.len() == old(bits)@.len(),
        forall|j: int|
            0 <= j < old(bits)@.len() * 64 ==> #[trigger] seq_bit(final(bits)@, j) == (seq_bit(old(bits)@, j)
                || covered(address_bits, m, k as int, j)),
{
    let mut i: usize = 0;
    while i < k
        invariant
            bits@.len() == old(bits)@.len(),
            old(bits)@.len() == words_for(m as nat),
            m + 63 <= usize::MAX,
            k < usize::MAX,
            k > 0 ==> m > 0,
            i <= k,
            forall|j: int|
                0 <= j < old(bits)@.len() * 64 ==> #[trigger] seq_bit(bits@, j) == (seq_bit(old(bits)@, j)
                    || covered(address_bits, m, i as int, j)),
        decreases k - i,
    {
        let h = position_hash(address_bits, i);
        let bit_idx = (h as usize) % m;
        let word_idx = bit_idx / 64;
        let bit_in_word = (bit_idx % 64) as u64;
        let w = bits[word_idx];
        let nw = w | (1u64 << bit_in_word);
        let ghost ws = bits@;
        bits.set(word_idx, nw);
        proof {
            assert(bit_idx == bloom_pos(address_bits, i as int, m));
            assert(bits@ == ws.update(bit_idx as int / 64, ws[bit_idx as int / 64] | (1u64 << ((bit_idx as int % 64) as u64))));
            assert forall|j: int| 0 <= j < old(bits)@.len() * 64 implies #[trigger] seq_bit(bits@, j)
                == (seq_bit(old(bits)@, j) || covered(address_bits, m, i + 1, j)) by {
                lemma_set_bit_in_words(ws, bit_idx as int, j);
                lemma_covered_step(address_bits, m, i as int, j);
                assert(seq_bit(ws, j) == (seq_bit(old(bits)@, j) || covered(address_bits, m, i as int, j)));
            }
        }
        i = i + 1;
    }
}

/// OR the words of `other` into `bits` over the words they share.
fn or_words(bits: &mut Vec<u64>, other: &Vec<u64>)
    requires
        old(bits)@.len() == other@.len(),
    ensures
        final(bits)@.len() == old(bits)@.len(),
        forall|j: int|
            0 <= j < old(bits)@.len() * 64 ==> #[trigger] seq_bit(final(bits)@, j) == (seq_bit(old(bits)@, j)
                || seq_bit(other@, j)),
{
    let n = bits.len();
    let mut i: usize = 0;
    while i < n
        invariant
            n == bits@.len(),
            n == old(bits)@.len(),
            n == other@.len(),
            i <= n,
            forall|t: int| 0 <= t < n ==> #[trigger] bits@[t] == (if t < i { old(bits)@[t] | other@[t] } else { old(bits)@[t] }),
        decreases n - i,
    {
        let w = bits[i] | other[i];
        bits.set(i, w);
        i = i + 1;
    }
    proof {
        assert forall|j: int| 0 <= j < old(bits)@.len() * 64 implies #[trigger] seq_bit(bits@, j) == (seq_bit(old(bits)@, j)
            || seq_bit(other@, j)) by {
            let a = old(bits)@[j / 64];
            let b = other@[j / 64];
            let k = (j % 64) as u64;
            assert(bits@[j / 64] == a | b);
            assert(((a | b) >> k) & 1 == 1 <==> ((a >> k) & 1 == 1 || (b >> k) & 1 == 1)) by (bit_vector)
                requires
                    k < 64,
            ;
        }
    }
}

/// A bloom filter attached to a sector.
#[derive(Debug)]
pub struct SectorBloom {
    bits: Vec<u64>,
    num_bits: usize,
    num_hashes: usize,
    generation: u8,
    anchor: u64,
}

impl SectorBloom {
    /// The filter's words.
    pub closed spec fn word_seq(&self) -> Seq<u64> {
        self.bits@
    }

    /// Number of bits in the filter.
    pub closed spec fn bit_count_spec(&self) -> usize {
        self.num_bits
    }

    /// Number of hash functions.
    pub closed spec fn hash_count(&self) -> usize {
        self.num_hashes
    }

    /// Generation counter.
    pub closed spec fn generation_spec(&self) -> u8 {
        self.generation
    }

    /// The sector anchor.
    pub closed spec fn anchor_spec(&self) -> u64 {
        self.anchor
    }

    /// The words hold exactly the filter's bits.
    pub open spec fn wf(&self) -> bool {
        &&& self.word_seq().len() == words_for(self.bit_count_spec() as nat)
        &&& self.bit_count_spec() + 63 <= usize::MAX
        &&& self.hash_count() < usize::MAX
    }

    /// An address can be probed: a filter with positions to probe has bits
    /// to take them modulo.
    pub open spec fn can_probe(&self) -> bool {
        self.hash_count() > 0 ==> self.bit_count_spec() > 0
    }

    /// Bit `j` of the filter.
    pub open spec fn bit(&self, j: int) -> bool {
        seq_bit(self.word_seq(), j)
    }

    /// Whether every position of `address_bits` is set.
    pub open spec fn spec_might_contain(&self, address_bits: u128) -> bool {
        forall|i: int|
            0 <= i < self.hash_count() ==> #[trigger] self.bit(
                bloom_pos(address_bits, i, self.bit_count_spec()),
            )
    }

    /// Whether bit `j` is one of the positions of `address_bits`.
    pub open spec fn is_position_of(&self, address_bits: u128, j: int) -> bool {
        covered(address_bits, self.bit_count_spec(), self.hash_count() as int, j)
    }

    /// A filter of `num_bits` zero bits using `num_hashes` positions per
    /// address.
    pub fn new(num_bits: usize, num_hashes: usize, anchor: u64) -> (r: Self)
        requires
            num_bits + 63 <= usize::MAX,
            num_hashes < usize::MAX,
        ensures
            r.wf(),
            r.word_seq() == Seq::new(words_for(num_bits as nat), |i: int| 0u64),
            r.bit_count_spec() == num_bits,
            r.hash_count() == num_hashes,
            r.generation_spec() == 0,
            r.anchor_spec() == anchor,
    {
        let num_words = (num_bits + 63) / 64;
        let mut bits: Vec<u64> = Vec::new();
        let mut i: usize = 0;
        while i < num_words
            invariant
                i <= num_words,
                num_words == words_for(num_bits as nat),
                bits@ == Seq::new(i as nat, |j: int| 0u64),
            decreases num_words - i,
        {
            bits.push(0u64);
            i = i + 1;
        }
        SectorBloom { bits, num_bits, num_hashes, generation: 0, anchor }
    }

    /// Whether this is an empty 256-bit, 3-hash filter of generation 0
    /// with the given anchor.
    pub open spec fn is_fresh(&self, anchor: u64) -> bool {
        &&& self.wf()
        &&& self.word_seq() == Seq::new(4, |i: int| 0u64)
        &&& self.bit_count_spec() == 256
        &&& self.hash_count() == 3
        &&& self.generation_spec() == 0
        &&& self.anchor_spec() == anchor
    }

    /// A filter of 256 bits with 3 positions per address.
    pub fn default_with_anchor(anchor: u64) -> (r: Self)
        ensures
            r.wf(),
            r.word_seq() == Seq::new(4, |i: int| 0u64),
            r.bit_count_spec() == 256,
            r.hash_count() == 3,
            r.generation_spec() == 0,
            r.anchor_spec() == anchor,
    {
        Self::new(256, 3, anchor)
    }

    /// The sector anchor.
    pub fn anchor(&self) -> (r: u64)
        ensures
            r == self.anchor_spec(),
    {
        self.anchor
    }

    /// The generation counter (incremented by every insert and merge).
    pub fn generation(&self) -> (r: u8)
        ensures
            r == self.generation_spec(),
    {
        self.generation
    }

    /// Number of bits in the filter.
    pub fn num_bits(&self) -> (r: usize)
        ensures
            r == self.bit_count_spec(),
    {
        self.num_bits
    }

    /// Number of positions per address.
    pub fn num_hashes(&self) -> (r: usize)
        ensures
            r == self.hash_count(),
    {
        self.num_hashes
    }

    /// Insert an address: set each of its positions.
    pub fn insert(&mut self, address_bits: u128)
        requires
            old(self).wf(),
            old(self).can_probe(),
        ensures
            final(self).wf(),
            final(self).bit_count_spec() == old(self).bit_count_spec(),
            final(self).hash_count() == old(self).hash_count(),
            final(self).anchor_spec() == old(self).anchor_spec(),
            final(self).generation_spec() == vstd::wrapping::u8_specs::wrapping_add(old(self).generation_spec(), 1),
            final(self).word_seq().len() == old(self).word_seq().len(),
            forall|j: int|
                0 <= j < old(self).word_seq().len() * 64 ==> #[trigger] final(self).bit(j) == (old(self).bit(j)
                    || old(self).is_position_of(address_bits, j)),
            final(self).spec_might_contain(address_bits),
            forall|a: u128| old(self).spec_might_contain(a) ==> #[trigger] final(self).spec_might_contain(a),
    {
        self.generation = self.generation.wrapping_add(1);
        set_positions(&mut self.bits, address_bits, self.num_bits, self.num_hashes);
        proof {
            assert forall|i: int| 0 <= i < self.hash_count() implies #[trigger] self.bit(
                bloom_pos(address_bits, i, self.bit_count_spec())) by {
                let j = bloom_pos(address_bits, i, self.bit_count_spec());
                assert(0 <= j < self.num_bits);
                assert(covered(address_bits, self.num_bits, self.num_hashes as int, j));
            }
            assert forall|a: u128| old(self).spec_might_contain(a) implies #[trigger] self.spec_might_contain(a) by {
                assert forall|i: int| 0 <= i < self.hash_count() implies #[trigger] self.bit(
                    bloom_pos(a, i, self.bit_count_spec())) by {
                    let j = bloom_pos(a, i, self.bit_count_spec());
                    assert(old(self).bit(j));
                }
            }
        }
    }

    /// Whether an address might be in the filter: true exactly when each of
    /// its positions is set.
    pub fn might_contain(&self, address_bits: u128) -> (r: bool)
        requires
            self.wf(),
            self.can_probe(),
        ensures
            r == self.spec_might_contain(address_bits),
    {
        let k = self.num_hashes;
        let mut i: usize = 0;
        while i < k
            invariant
                k == self.num_hashes,
                self.wf(),
                self.can_probe(),
                i <= k,
                forall|t: int| 0 <= t < i ==> #[trigger] self.bit(bloom_pos(address_bits, t, self.num_bits)),
            decreases k - i,
        {
            let hash = position_hash(address_bits, i);
            let bit_idx = (hash as usize) % self.num_bits;
            let word_idx = bit_idx / 64;
            let bit_in_word = (bit_idx % 64) as u64;
            let w = self.bits[word_idx];
            proof {
                assert(bit_idx == bloom_pos(address_bits, i as int, self.num_bits));
                assert((w & (1u64 << bit_in_word)) == 0 <==> !((w >> bit_in_word) & 1 == 1)) by (bit_vector)
                    requires
                        bit_in_word < 64,
                ;
            }
            if w & (1u64 << bit_in_word) == 0 {
                proof {
                    assert(!self.bit(bloom_pos(address_bits, i as int, self.num_bits)));
                }
                return false;
            }
            i = i + 1;
        }
        true
    }

    /// Merge another filter into this one (union of their bits).
    pub fn merge(&mut self, other: &Self)
        requires
            old(self).wf(),
            other.wf(),
            old(self).bit_count_spec() == other.bit_count_spec(),
            old(self).hash_count() == other.hash_count(),
        ensures
            final(self).wf(),
            final(self).bit_count_spec() == old(self).bit_count_spec(),
            final(self).hash_count() == old(self).hash_count(),
            final(self).anchor_spec() == old(self).anchor_spec(),
            final(self).generation_spec() == vstd::wrapping::u8_specs::wrapping_add(old(self).generation_spec(), 1),
            final(self).word_seq().len() == old(self).word_seq().len(),
            forall|j: int|
                0 <= j < old(self).word_seq().len() * 64 ==> #[trigger] final(self).bit(j) == (old(self).bit(j)
                    || other.bit(j)),
            forall|a: u128|
                old(self).spec_might_contain(a) || other.spec_might_contain(a) ==> #[trigger] final(self).spec_might_contain(a),
    {
        self.generation = self.generation.wrapping_add(1);
        or_words(&mut self.bits, &other.bits);
        proof {
            if self.num_bits == 0 {
                assert(self.word_seq() =~= old(self).word_seq());
                assert(other.word_seq() =~= old(self).word_seq());
            }
            assert forall|a: u128| old(self).spec_might_contain(a) || other.spec_might_contain(a) implies #[trigger] self.spec_might_contain(a) by {
                assert forall|i: int| 0 <= i < self.hash_count() implies #[trigger] self.bit(
                    bloom_pos(a, i, self.bit_count_spec())) by {
                    let j = bloom_pos(a, i, self.bit_count_spec());
                    if old(self).spec_might_contain(a) {
                        assert(old(self).bit(j));
                    } else {
                        assert(other.bit(j));
                    }
                }
            }
        }
    }

    /// Whether the two filters share a set bit in the words they both have.
    pub fn might_intersect(&self, other: &Self) -> (r: bool)
        ensures
            r == exists|i: int|
                0 <= i < self.word_seq().len() && i < other.word_seq().len() && #[trigger] (self.word_seq()[i]
                    & other.word_seq()[i]) != 0,
    {
        let n = if self.bits.len() < other.bits.len() {
            self.bits.len()
        } else {
            other.bits.len()
        };
        let mut i: usize = 0;
        while i < n
            invariant
                i <= n,
                n <= self.word_seq().len(),
                n <= other.word_seq().len(),
                n == self.word_seq().len() || n == other.word_seq().len(),
                forall|t: int| 0 <= t < i ==> #[trigger] (self.word_seq()[t] & other.word_seq()[t]) == 0,
            decreases n - i,
        {
            if self.bits[i] & other.bits[i] != 0 {
                return true;
            }
            i = i + 1;
        }
        false
    }

    /// Clear the filter and insert every address of `addresses` in order;
    /// the generation goes up by one (wrapping) for the rebuild as a whole.
    pub fn rebuild(&mut self, addresses: &[u128])
        requires
            old(self).wf(),
            addresses.len() > 0 ==> old(self).can_probe(),
        ensures
            final(self).wf(),
            final(self).bit_count_spec() == old(self).bit_count_spec(),
            final(self).hash_count() == old(self).hash_count(),
            final(self).anchor_spec() == old(self).anchor_spec(),
            final(self).generation_spec() == vstd::wrapping::u8_specs::wrapping_add(old(self).generation_spec(), 1),
            final(self).word_seq().len() == old(self).word_seq().len(),
            forall|j: int|
                0 <= j < old(self).word_seq().len() * 64 ==> #[trigger] final(self).bit(j) == covered_by(
                    addresses@,
                    old(self).bit_count_spec(),
                    old(self).hash_count() as int,
                    addresses.len() as int,
                    j,
                ),
            forall|t: int| 0 <= t < addresses.len() ==> final(self).spec_might_contain(#[trigger] addresses@[t]),
    {
        let g0 = self.generation;
        let len = self.bits.len();
        let mut w: usize = 0;
        while w < len
            invariant
                len == self.bits@.len(),
                len == old(self).word_seq().len(),
                self.num_bits == old(self).bit_count_spec(),
                self.num_hashes == old(self).hash_count(),
                self.anchor == old(self).anchor_spec(),
                g0 == old(self).generation_spec(),
                self.generation == old(self).generation_spec(),
                w <= len,
                forall|t: int| 0 <= t < w ==> self.bits@[t] == 0,
            decreases len - w,
        {
            self.bits.set(w, 0);
            w = w + 1;
        }
        proof {
            assert forall|j: int| 0 <= j < len * 64 implies #[trigger] self.bit(j) == covered_by(
                addresses@,
                self.num_bits,
                self.num_hashes as int,
                0,
                j,
            ) by {
                assert(self.bits@[j / 64] == 0);
                lemma_word_bits(0, 0, 0, (j % 64) as u64);
            }
        }
        let n = addresses.len();
        let mut t: usize = 0;
        while t < n
            invariant
                n == addresses.len(),
                t <= n,
                self.wf(),
                self.word_seq().len() == len,
                len == old(self).word_seq().len(),
                self.num_bits == old(self).bit_count_spec(),
                self.num_hashes == old(self).hash_count(),
                self.anchor == old(self).anchor_spec(),
                g0 == old(self).generation_spec(),
                n > 0 ==> old(self).can_probe(),
                self.generation == ((old(self).generation_spec() + t) % 256) as u8,
                forall|j: int|
                    0 <= j < len * 64 ==> #[trigger] self.bit(j) == covered_by(
                        addresses@,
                        self.num_bits,
                        self.num_hashes as int,
                        t as int,
                        j,
                    ),
                forall|u: int| 0 <= u < t ==> self.spec_might_contain(#[trigger] addresses@[u]),
            decreases n - t,
        {
            let ghost before = *self;
            self.insert(addresses[t]);
            proof {
                assert forall|j: int| 0 <= j < len * 64 implies #[trigger] self.bit(j) == covered_by(
                    addresses@,
                    self.num_bits,
                    self.num_hashes as int,
                    t + 1,
                    j,
                ) by {
                    assert(self.bit(j) == (before.bit(j) || before.is_position_of(addresses@[t as int], j)));
                    lemma_covered_by_step(addresses@, self.num_bits, self.num_hashes as int, t as int, j);
                }
                assert forall|u: int| 0 <= u < t + 1 implies self.spec_might_contain(#[trigger] addresses@[u]) by {
                    if u < t {
                        assert(before.spec_might_contain(addresses@[u]));
                    }
                }
            }
            t = t + 1;
        }
        let g = g0.wrapping_add(1);
        let ghost pre = *self;
        self.generation = g;
        proof {
            assert(self.word_seq() == pre.word_seq());
            assert forall|j: int| 0 <= j < len * 64 implies #[trigger] self.bit(j) == pre.bit(j) by {}
            assert forall|t: int| 0 <= t < addresses.len() implies self.spec_might_contain(
                #[trigger] addresses@[t],
            ) by {
                assert(pre.spec_might_contain(addresses@[t]));
                assert forall|i: int| 0 <= i < self.hash_count() implies #[trigger] self.bit(
                    bloom_pos(addresses@[t], i, self.bit_count_spec()),
                ) by {
                    assert(pre.bit(bloom_pos(addresses@[t], i, pre.bit_count_spec())));
                }
            }
        }
    }

    /// Number of set bits in the filter.
    pub fn bit_count(&self) -> (r: usize)
        requires
            self.wf(),
        ensures
            r == words_pop(self.word_seq()),
    {
        let len = self.bits.len();
        proof {
            assert(len * 64 <= self.num_bits + 63) by (nonlinear_arith)
                requires
                    len == (self.num_bits + 63) / 64,
            ;
        }
        let mut sum: usize = 0;
        let mut i: usize = 0;
        while i < len
            invariant
                i <= len,
                len == self.word_seq().len(),
                len * 64 <= usize::MAX,
                sum == words_pop(self.word_seq().take(i as int)),
                sum <= 64 * i,
            decreases len - i,
        {
            let c = count_ones_u64(self.bits[i]);
            proof {
                lemma_pop64_bound(self.bits@[i as int]);
                assert(self.word_seq().take(i + 1).drop_last() =~= self.word_seq().take(i as int));
            }
            sum = sum + c as usize;
            i = i + 1;
        }
        proof {
            assert(self.word_seq().take(len as int) =~= self.word_seq());
        }
        sum
    }

    /// Whether an address is certainly not in the filter.
    pub fn does_not_contain(&self, address_bits: u128) -> (r: bool)
        requires
            self.wf(),
            self.can_probe(),
        ensures
            r == !self.spec_might_contain(address_bits),
    {
        !self.might_contain(address_bits)
    }
}

} // verus!

verus! {

impl Clone for SectorBloom {
    /// A filter with the same bits, parameters, generation and anchor.
    fn clone(&self) -> (r: Self)
        ensures
            r.word_seq() == self.word_seq(),
            r.bit_count_spec() == self.bit_count_spec(),
            r.hash_count() == self.hash_count(),
            r.generation_spec() == self.generation_spec(),
            r.anchor_spec() == self.anchor_spec(),
    {
        let bits = self.bits.clone();
        proof {
            assert forall|i: int| 0 <= i < bits@.len() implies bits@[i] == self.bits@[i] by {
                assert(cloned::<u64>(self.bits[i], bits[i]));
            }
            assert(bits@ =~= self.bits@);
        }
        SectorBloom {
            bits,
            num_bits: self.num_bits,
            num_hashes: self.num_hashes,
            generation: self.generation,
            anchor: self.anchor,
        }
    }
}

impl Default for SectorBloom {
    /// The empty filter: no bits, no hash functions, anchor 0.
    fn default() -> (r: Self)
        ensures
            r.wf(),
            r.word_seq() == Seq::<u64>::empty(),
            r.bit_count_spec() == 0,
            r.hash_count() == 0,
            r.generation_spec() == 0,
            r.anchor_spec() == 0,
    {
        SectorBloom { bits: Vec::new(), num_bits: 0, num_hashes: 0, generation: 0, anchor: 0 }
    }
}

} // verus!

verus! {

/// Identifies a sector: (spine, layer, ring, sector).
#[derive(Clone, Copy, Debug, PartialEq, Eq, Structural, Hash)]
pub struct SectorKey {
    pub spine: u16,
    pub layer: u16,
    pub ring: u16,
    pub sector: u16,
}

/// The sector key packed into one word: spine in the low 16 bits, then
/// layer, ring and sector.
pub open spec fn key_word(key: SectorKey) -> u64 {
    (key.spine as u64 + key.layer as u64 * 0x1_0000 + key.ring as u64 * 0x1_0000_0000 + key.sector as u64
        * 0x1_0000_0000_0000) as u64
}

/// The anchor of a sector's bloom filter: std's `DefaultHasher` result over
/// the four fields of the key, in order.
pub open spec fn sector_anchor(key: SectorKey) -> u64 {
    DefaultHasher::spec_finish(
        Seq::<Seq<u8>>::empty() + u16_hash_chunks(key.spine) + u16_hash_chunks(key.layer)
            + u16_hash_chunks(key.ring) + u16_hash_chunks(key.sector),
    )
}

impl SectorKey {
    /// A sector key from its four fields.
    pub fn new(spine: u16, layer: u16, ring: u16, sector: u16) -> (r: Self)
        ensures
            r == (SectorKey { spine, layer, ring, sector }),
    {
        SectorKey { spine, layer, ring, sector }
    }
}

/// Distinct sector keys pack to distinct words.
pub proof fn lemma_key_word_injective(a: SectorKey, b: SectorKey)
    ensures
        key_word(a) == key_word(b) <==> a == b,
{
}

/// Rebuilding a filter from `addrs` leaves it answering `might_contain`
/// exactly like a filter of the same shape filled from empty by inserting
/// `addrs` in order. `states[0]` is that empty filter and `states[t + 1]`
/// is `states[t]` after inserting `addrs[t]` (as `insert` states); the
/// rebuilt filter's bits are those `rebuild` states.
pub proof fn lemma_rebuild_matches_fresh(rebuilt: SectorBloom, states: Seq<SectorBloom>, addrs: Seq<u128>)
    requires
        rebuilt.wf(),
        rebuilt.can_probe(),
        states.len() == addrs.len() + 1,
        forall|t: int|
            0 <= t < states.len() ==> {
                &&& (#[trigger] states[t]).bit_count_spec() == rebuilt.bit_count_spec()
                &&& states[t].hash_count() == rebuilt.hash_count()
                &&& states[t].word_seq().len() == rebuilt.word_seq().len()
            },
        forall|j: int| 0 <= j < rebuilt.word_seq().len() * 64 ==> !#[trigger] states[0].bit(j),
        forall|t: int, j: int|
            0 <= t < addrs.len() && 0 <= j < rebuilt.word_seq().len() * 64 ==> #[trigger] states[t + 1].bit(j)
                == (states[t].bit(j) || states[t].is_position_of(addrs[t], j)),
        forall|j: int|
            0 <= j < rebuilt.word_seq().len() * 64 ==> #[trigger] rebuilt.bit(j) == covered_by(
                addrs,
                rebuilt.bit_count_spec(),
                rebuilt.hash_count() as int,
                addrs.len() as int,
                j,
            ),
    ensures
        forall|y: u128| #[trigger] rebuilt.spec_might_contain(y) == states.last().spec_might_contain(y),
{
    let m = rebuilt.bit_count_spec();
    let k = rebuilt.hash_count() as int;
    let len = rebuilt.word_seq().len();
    lemma_states_cover(states, addrs, m, k, len, addrs.len() as int);
    assert forall|y: u128| #[trigger] rebuilt.spec_might_contain(y) == states.last().spec_might_contain(y) by {
        assert forall|i: int| 0 <= i < k implies #[trigger] rebuilt.bit(bloom_pos(y, i, m)) == states.last().bit(
            bloom_pos(y, i, m),
        ) by {
            let j = bloom_pos(y, i, m);
            assert(0 <= j < m);
            assert(m <= len * 64);
        }
        if rebuilt.spec_might_contain(y) {
            assert forall|i: int| 0 <= i < states.last().hash_count() implies #[trigger] states.last().bit(
                bloom_pos(y, i, states.last().bit_count_spec()),
            ) by {
                assert(rebuilt.bit(bloom_pos(y, i, m)));
            }
        }
        if states.last().spec_might_contain(y) {
            assert forall|i: int| 0 <= i < rebuilt.hash_count() implies #[trigger] rebuilt.bit(
                bloom_pos(y, i, rebuilt.bit_count_spec()),
            ) by {
                assert(states.last().bit(bloom_pos(y, i, m)));
            }
        }
    }
}

/// After the first `t` insertions of `addrs` into an empty filter, bit `j`
/// is set exactly when one of those addresses covers it.
proof fn lemma_states_cover(states: Seq<SectorBloom>, addrs: Seq<u128>, m: usize, k: int, len: nat, t: int)
    requires
        0 <= t <= addrs.len(),
        states.len() == addrs.len() + 1,
        forall|u: int|
            0 <= u < states.len() ==> (#[trigger] states[u]).bit_count_spec() == m && states[u].hash_count()
                == k,
        forall|j: int| 0 <= j < len * 64 ==> !#[trigger] states[0].bit(j),
        forall|u: int, j: int|
            0 <= u < addrs.len() && 0 <= j < len * 64 ==> #[trigger] states[u + 1].bit(j) == (states[u].bit(j)
                || states[u].is_position_of(addrs[u], j)),
    ensures
        forall|j: int| 0 <= j < len * 64 ==> #[trigger] states[t].bit(j) == covered_by(addrs, m, k, t, j),
    decreases t,
{
    if t > 0 {
        lemma_states_cover(states, addrs, m, k, len, t - 1);
        assert forall|j: int| 0 <= j < len * 64 implies #[trigger] states[t].bit(j) == covered_by(
            addrs,
            m,
            k,
            t,
            j,
        ) by {
            assert(states[(t - 1) + 1].bit(j) == (states[t - 1].bit(j) || states[t - 1].is_position_of(addrs[t - 1], j)));
            assert(states[t - 1].bit_count_spec() == m && states[t - 1].hash_count() == k);
            lemma_covered_by_step(addrs, m, k, t - 1, j);
        }
    }
}

/// A registry of bloom filters, one per sector.
#[derive(Debug)]
pub struct BloomRegistry {
    sectors: HashMap<u64, SectorBloom>,
}

impl BloomRegistry {
    /// The filters by packed sector key.
    pub closed spec fn blooms(&self) -> Map<u64, SectorBloom> {
        self.sectors@
    }

    /// Finitely many sectors have a filter, and every filter is a
    /// well-formed 256-bit, 3-hash filter.
    pub open spec fn wf(&self) -> bool {
        &&& self.blooms().dom().finite()
        &&& forall|k: u64|
            #[trigger] self.blooms().contains_key(k) ==> {
                &&& self.blooms()[k].wf()
                &&& self.blooms()[k].bit_count_spec() == 256
                &&& self.blooms()[k].hash_count() == 3
            }
    }

    /// Whether the sector has a filter that might contain the address.
    pub open spec fn spec_sector_might_contain(&self, key: SectorKey, address_bits: u128) -> bool {
        self.blooms().contains_key(key_word(key)) && self.blooms()[key_word(key)].spec_might_contain(
            address_bits,
        )
    }

    /// An empty registry.
    pub fn new() -> (r: Self)
        ensures
            r.wf(),
            r.blooms() == Map::<u64, SectorBloom>::empty(),
    {
        BloomRegistry { sectors: HashMap::new() }
    }

    fn key_of(key: SectorKey) -> (r: u64)
        ensures
            r == key_word(key),
    {
        key.spine as u64 + key.layer as u64 * 0x1_0000 + key.ring as u64 * 0x1_0000_0000 + key.sector as u64
            * 0x1_0000_0000_0000
    }

    /// The anchor of a sector's filter.
    fn bloom_anchor_for_sector(&self, key: SectorKey) -> (r: u64)
        ensures
            r == sector_anchor(key),
    {
        let mut h = DefaultHasher::new();
        hash_u16(&mut h, key.spine);
        hash_u16(&mut h, key.layer);
        hash_u16(&mut h, key.ring);
        hash_u16(&mut h, key.sector);
        h.finish()
    }

    /// The filter of a sector, created empty (256 bits, 3 hashes, the
    /// sector's anchor) if the sector has none yet.
    pub fn bloom_for_sector(&mut self, key: SectorKey) -> (r: &mut SectorBloom)
        requires
            old(self).wf(),
        ensures
            old(self).blooms().contains_key(key_word(key)) ==> *r == old(self).blooms()[key_word(key)],
            !old(self).blooms().contains_key(key_word(key)) ==> r.is_fresh(sector_anchor(key)),
            final(self).blooms() == old(self).blooms().insert(key_word(key), *final(r)),
    {
        let anchor = self.bloom_anchor_for_sector(key);
        let k = Self::key_of(key);
        self.sectors.entry(k).or_insert(SectorBloom::default_with_anchor(anchor))
    }

    /// The filter of a sector, if it has one.
    pub fn get_bloom(&self, key: SectorKey) -> (r: Option<&SectorBloom>)
        ensures
            match r {
                Some(b) => self.blooms().contains_key(key_word(key)) && *b == self.blooms()[key_word(key)],
                None => !self.blooms().contains_key(key_word(key)),
            },
    {
        let k = Self::key_of(key);
        self.sectors.get(&k)
    }

    /// Whether an address might be in a sector: false when the sector has
    /// no filter.
    pub fn sector_might_contain(&self, key: SectorKey, address_bits: u128) -> (r: bool)
        requires
            self.wf(),
        ensures
            r == self.spec_sector_might_contain(key, address_bits),
    {
        let k = Self::key_of(key);
        match self.sectors.get(&k) {
            Some(b) => {
                proof {
                    assert(self.blooms().contains_key(k));
                }
                b.might_contain(address_bits)
            },
            None => false,
        }
    }

    /// Insert an address into a sector's filter, creating the filter if
    /// needed. Afterwards the sector might contain the address, and every
    /// other sector is unchanged.
    pub fn insert_into_sector(&mut self, key: SectorKey, address_bits: u128)
        requires
            old(self).wf(),
        ensures
            final(self).wf(),
            final(self).spec_sector_might_contain(key, address_bits),
            final(self).blooms().dom() == old(self).blooms().dom().insert(key_word(key)),
            forall|k: u64| k != key_word(key) && #[trigger] old(self).blooms().contains_key(k) ==> final(self).blooms()[k] == old(self).blooms()[k],
            forall|a: u128| #[trigger] old(self).spec_sector_might_contain(key, a) ==> final(self).spec_sector_might_contain(key, a),
    {
        let b = self.bloom_for_sector(key);
        b.insert(address_bits);
        proof {
            assert(self.blooms().contains_key(key_word(key)));
            assert forall|k: u64| #[trigger] self.blooms().contains_key(k) implies {
                &&& self.blooms()[k].wf()
                &&& self.blooms()[k].bit_count_spec() == 256
                &&& self.blooms()[k].hash_count() == 3
            } by {
                if k != key_word(key) {
                    assert(old(self).blooms().contains_key(k));
                }
            }
            assert(self.blooms().dom() =~= old(self).blooms().dom().insert(key_word(key)));
        }
    }

    /// A filter for a parent sector: an empty filter with the parent's
    /// anchor, merged with the filter of each listed child that has one.
    pub fn aggregate_to_parent(&self, parent_key: SectorKey, child_keys: &[SectorKey]) -> (r: SectorBloom)
        requires
            self.wf(),
        ensures
            r.wf(),
            r.bit_count_spec() == 256,
            r.hash_count() == 3,
            r.anchor_spec() == sector_anchor(parent_key),
            r.word_seq().len() == 4,
            forall|j: int|
                0 <= j < 256 ==> #[trigger] r.bit(j) == exists|c: int|
                    0 <= c < child_keys.len() && self.blooms().contains_key(key_word(#[trigger] child_keys@[c]))
                        && self.blooms()[key_word(child_keys@[c])].bit(j),
            forall|c: int, a: u128|
                0 <= c < child_keys.len() && self.spec_sector_might_contain(#[trigger] child_keys@[c], a)
                    ==> #[trigger] r.spec_might_contain(a),
    {
        let anchor = self.bloom_anchor_for_sector(parent_key);
        let mut parent = SectorBloom::default_with_anchor(anchor);
        proof {
            assert forall|j: int| 0 <= j < 256 implies !#[trigger] parent.bit(j) by {
                lemma_word_bits(0, 0, 0, (j % 64) as u64);
            }
        }
        let n = child_keys.len();
        let mut i: usize = 0;
        while i < n
            invariant
                self.wf(),
                n == child_keys.len(),
                i <= n,
                parent.wf(),
                parent.bit_count_spec() == 256,
                parent.hash_count() == 3,
                parent.anchor_spec() == anchor,
                anchor == sector_anchor(parent_key),
                parent.word_seq().len() == 4,
                forall|j: int|
                    0 <= j < 256 ==> #[trigger] parent.bit(j) == exists|c: int|
                        0 <= c < i && self.blooms().contains_key(key_word(#[trigger] child_keys@[c]))
                            && self.blooms()[key_word(child_keys@[c])].bit(j),
            decreases n - i,
        {
            let k = Self::key_of(child_keys[i]);
            let ghost before = parent;
            match self.sectors.get(&k) {
                Some(child) => {
                    proof {
                        assert(self.blooms().contains_key(k));
                    }
                    parent.merge(child);
                },
                None => {},
            }
            proof {
                assert forall|j: int| 0 <= j < 256 implies #[trigger] parent.bit(j) == exists|c: int|
                    0 <= c < i + 1 && self.blooms().contains_key(key_word(#[trigger] child_keys@[c]))
                        && self.blooms()[key_word(child_keys@[c])].bit(j) by {
                    let ex_new = exists|c: int|
                        0 <= c < i + 1 && self.blooms().contains_key(key_word(#[trigger] child_keys@[c]))
                            && self.blooms()[key_word(child_keys@[c])].bit(j);
                    if ex_new {
                        let c = choose|c: int|
                            0 <= c < i + 1 && self.blooms().contains_key(key_word(#[trigger] child_keys@[c]))
                                && self.blooms()[key_word(child_keys@[c])].bit(j);
                        if c < i {
                            assert(before.bit(j));
                        }
                    }
                    if before.bit(j) {
                        let c = choose|c: int|
                            0 <= c < i && self.blooms().contains_key(key_word(#[trigger] child_keys@[c]))
                                && self.blooms()[key_word(child_keys@[c])].bit(j);
                        assert(0 <= c < i + 1);
                    }
                }
            }
            i = i + 1;
        }
        proof {
            assert forall|c: int, a: u128|
                0 <= c < child_keys.len() && self.spec_sector_might_contain(#[trigger] child_keys@[c], a)
                    implies #[trigger] parent.spec_might_contain(a) by {
                let child = self.blooms()[key_word(child_keys@[c])];
                assert forall|t: int| 0 <= t < parent.hash_count() implies #[trigger] parent.bit(
                    bloom_pos(a, t, parent.bit_count_spec())) by {
                    let j = bloom_pos(a, t, 256);
                    assert(child.bit(j));
                }
            }
        }
        parent
    }

    /// Remove every filter.
    pub fn clear(&mut self)
        ensures
            final(self).wf(),
            final(self).blooms() == Map::<u64, SectorBloom>::empty(),
    {
        self.sectors.clear();
    }

    /// Number of sectors that have a filter.
    pub fn sector_count(&self) -> (r: usize)
        ensures
            r == self.blooms().len(),
    {
        self.sectors.len()
    }
}

impl Default for BloomRegistry {
    /// An empty registry.
    fn default() -> (r: Self)
        ensures
            r.wf(),
            r.blooms() == Map::<u64, SectorBloom>::empty(),
    {
        Self::new()
    }
}

impl Clone for BloomRegistry {
    /// A registry with the same filters.
    fn clone(&self) -> (r: Self)
        ensures
            r.blooms() == self.blooms(),
    {
        BloomRegistry { sectors: self.sectors.clone() }
    }
}

} // verus!
