//! Bitsliced lanes.
//!
//! Values are stored as bit planes: N values of B bits become B lanes of N
//! bits each. A lane keeps its bits in 64-bit words; bit `i` lives in word
//! `i / 64` at position `i % 64`.

use vstd::prelude::*;
use crate::popcount::{count_ones_u64, pop64, lemma_pop64_bound};
use crate::text::{decimal, decimal_string};
use vstd::string::StringExecFns;

verus! {

/// Bit `k` of a word.
pub open spec fn word_bit(w: u64, k: int) -> bool {
    (w >> (k as u64)) & 1 == 1
}

/// Total number of one bits in a sequence of words.
pub open spec fn words_pop(ws: Seq<u64>) -> nat
    decreases ws.len(),
{
    if ws.len() == 0 {
        0
    } else {
        words_pop(ws.drop_last()) + pop64(ws.last())
    }
}

/// Pointwise XOR of two word sequences over the words they share; words of
/// `a` past the end of `b` are kept.
pub open spec fn words_xor(a: Seq<u64>, b: Seq<u64>) -> Seq<u64> {
    Seq::new(a.len(), |i: int| if i < b.len() { a[i] ^ b[i] } else { a[i] })
}

/// Pointwise AND of two word sequences over the words they share; words of
/// `a` past the end of `b` are kept.
pub open spec fn words_and(a: Seq<u64>, b: Seq<u64>) -> Seq<u64> {
    Seq::new(a.len(), |i: int| if i < b.len() { a[i] & b[i] } else { a[i] })
}

/// The first `n` bits stored in a word sequence.
pub open spec fn bits_of(ws: Seq<u64>, n: nat) -> Seq<bool> {
    Seq::new(n, |i: int| word_bit(ws[i / 64], i % 64))
}

/// Mask of the `r` low bits of a word.
pub open spec fn low_mask(r: nat) -> u64 {
    (((1u64 << (r as u64)) as int) - 1) as u64
}

/// Number of words that hold `n` bits.
pub open spec fn words_for(n: nat) -> nat {
    ((n + 63) / 64) as nat
}

/// Words of a lane after `not_inplace`: every word negated, then the last
/// word masked to the `n % 64` low bits when that remainder is not zero.
pub open spec fn words_not(ws: Seq<u64>, n: nat) -> Seq<u64> {
    let neg = Seq::new(ws.len(), |i: int| !ws[i]);
    if n % 64 > 0 && ws.len() > 0 {
        neg.update(neg.len() - 1, neg.last() & low_mask(n % 64))
    } else {
        neg
    }
}

/// Words of a lane after `resize(n)`: exactly `words_for(n)` words, the
/// old ones kept (zeros past their end), and the last word masked to the
/// `n % 64` low bits when that remainder is not zero.
pub open spec fn words_resized(ws: Seq<u64>, n: nat) -> Seq<u64> {
    Seq::new(
        words_for(n),
        |i: int|
            {
                let w = if i < ws.len() {
                    ws[i]
                } else {
                    0u64
                };
                if n % 64 > 0 && i == words_for(n) - 1 {
                    w & low_mask(n % 64)
                } else {
                    w
                }
            },
    )
}

/// Bits of a masked word: below the mask width they are the word's own,
/// at or above it they are clear.
pub proof fn lemma_mask_bits(w: u64, r: u64, k: u64)
    requires
        0 < r < 64,
        k < 64,
    ensures
        k < r ==> (((w & (((1u64 << r) as int - 1) as u64)) >> k) & 1 == 1 <==> (w >> k) & 1 == 1),
        k >= r ==> ((w & (((1u64 << r) as int - 1) as u64)) >> k) & 1 != 1,
{
    assert(k < r ==> (((w & (((1u64 << r) as int - 1) as u64)) >> k) & 1 == 1 <==> (w >> k) & 1
        == 1)) by (bit_vector)
        requires
            0 < r < 64,
            k < 64,
    ;
    assert(k >= r ==> ((w & (((1u64 << r) as int - 1) as u64)) >> k) & 1 != 1) by (bit_vector)
        requires
            0 < r < 64,
            k < 64,
    ;
}

/// Number of `true` entries of a sequence of bits.
pub open spec fn count_true(bs: Seq<bool>) -> nat
    decreases bs.len(),
{
    if bs.len() == 0 {
        0
    } else {
        count_true(bs.drop_last()) + (if bs.last() {
            1nat
        } else {
            0nat
        })
    }
}

/// The first `m` bits of a word.
pub open spec fn word_low_bits(w: u64, m: nat) -> Seq<bool> {
    Seq::new(m, |k: int| word_bit(w, k))
}

/// Counting the bits of a concatenation adds the counts.
pub proof fn lemma_count_true_append(a: Seq<bool>, b: Seq<bool>)
    ensures
        count_true(a + b) == count_true(a) + count_true(b),
    decreases b.len(),
{
    if b.len() > 0 {
        assert((a + b).drop_last() =~= a + b.drop_last());
        lemma_count_true_append(a, b.drop_last());
    } else {
        assert(a + b =~= a);
    }
}

/// A sequence with no `true` entry counts zero.
pub proof fn lemma_count_true_none(bs: Seq<bool>)
    requires
        forall|i: int| 0 <= i < bs.len() ==> !#[trigger] bs[i],
    ensures
        count_true(bs) == 0,
    decreases bs.len(),
{
    if bs.len() > 0 {
        lemma_count_true_none(bs.drop_last());
    }
}

/// The count of a sequence equals its length exactly when every entry is
/// `true`.
pub proof fn lemma_count_true_all(bs: Seq<bool>)
    ensures
        count_true(bs) <= bs.len(),
        count_true(bs) == bs.len() <==> forall|i: int| 0 <= i < bs.len() ==> #[trigger] bs[i],
    decreases bs.len(),
{
    if bs.len() > 0 {
        lemma_count_true_all(bs.drop_last());
        if count_true(bs) == bs.len() {
            assert forall|i: int| 0 <= i < bs.len() implies #[trigger] bs[i] by {
                if i < bs.len() - 1 {
                    assert(bs.drop_last()[i] == bs[i]);
                }
            }
        }
        if forall|i: int| 0 <= i < bs.len() ==> #[trigger] bs[i] {
            assert forall|i: int| 0 <= i < bs.drop_last().len() implies #[trigger] bs.drop_last()[i] by {
                assert(bs[i]);
            }
        }
    }
}

/// The one bits of a word below position `m`, plus those of the word
/// shifted right by `m`, are all its one bits.
proof fn lemma_pop64_split(x: u64, m: u64)
    requires
        m <= 63,
    ensures
        count_true(word_low_bits(x, m as nat)) + pop64(x >> m) == pop64(x),
    decreases m,
{
    if m == 0 {
        assert(x >> 0u64 == x) by (bit_vector);
        assert(word_low_bits(x, 0) =~= Seq::<bool>::empty());
    } else {
        let p = (m - 1) as u64;
        lemma_pop64_split(x, p);
        let y = x >> p;
        assert(y / 2 == x >> m && (y % 2 == 1 <==> (x >> p) & 1 == 1)) by (bit_vector)
            requires
                p < 63,
                m == p + 1,
                y == x >> p,
        ;
        assert(word_low_bits(x, m as nat).drop_last() =~= word_low_bits(x, p as nat));
        if y == 0 {
            assert(x >> m == 0) by (bit_vector)
                requires
                    y == x >> p,
                    y == 0,
                    m == p + 1,
                    p < 63,
            ;
        }
    }
}

/// The one bits of a word are counted by its 64 bits.
pub proof fn lemma_pop64_bits(x: u64)
    ensures
        pop64(x) == count_true(word_low_bits(x, 64)),
{
    lemma_pop64_split(x, 63);
    let y = x >> 63u64;
    assert(y <= 1 && (y == 1 <==> (x >> 63u64) & 1 == 1)) by (bit_vector)
        requires
            y == x >> 63u64,
    ;
    assert(word_low_bits(x, 64).drop_last() =~= word_low_bits(x, 63));
    if y == 1 {
        assert(pop64(0) == 0);
        assert(pop64(1) == 1);
    }
}

/// The one bits of a sequence of words are counted by all their bits.
pub proof fn lemma_words_pop_bits(ws: Seq<u64>)
    ensures
        words_pop(ws) == count_true(bits_of(ws, ws.len() * 64)),
    decreases ws.len(),
{
    if ws.len() > 0 {
        let d = ws.drop_last();
        lemma_words_pop_bits(d);
        lemma_pop64_bits(ws.last());
        assert(bits_of(ws, ws.len() * 64) =~= bits_of(d, d.len() * 64) + word_low_bits(ws.last(), 64))
            by {
            assert forall|i: int| 0 <= i < d.len() * 64 implies #[trigger] bits_of(ws, ws.len() * 64)[i]
                == bits_of(d, d.len() * 64)[i] by {
                assert(i / 64 < d.len()) by (nonlinear_arith)
                    requires
                        0 <= i < d.len() * 64,
                ;
            }
            assert forall|i: int| d.len() * 64 <= i < ws.len() * 64 implies #[trigger] bits_of(ws, ws.len()
                * 64)[i] == word_low_bits(ws.last(), 64)[i - d.len() * 64] by {
                assert(i / 64 == d.len() && i % 64 == i - d.len() * 64) by (nonlinear_arith)
                    requires
                        d.len() * 64 <= i < ws.len() * 64,
                        ws.len() == d.len() + 1,
                ;
            }
        }
        lemma_count_true_append(bits_of(d, d.len() * 64), word_low_bits(ws.last(), 64));
    } else {
        assert(bits_of(ws, 0) =~= Seq::<bool>::empty());
    }
}

/// Facts about single bits of words.
pub proof fn lemma_word_bits(w: u64, v: u64, k: u64, j: u64)
    requires
        k < 64,
        j < 64,
    ensures
        ((w ^ v) >> j) & 1 == 1 <==> (((w >> j) & 1 == 1) != ((v >> j) & 1 == 1)),
        ((w & v) >> j) & 1 == 1 <==> ((w >> j) & 1 == 1 && (v >> j) & 1 == 1),
        ((!w) >> j) & 1 == 1 <==> !((w >> j) & 1 == 1),
        ((w | (1u64 << k)) >> j) & 1 == 1 <==> (j == k || (w >> j) & 1 == 1),
        ((w & !(1u64 << k)) >> j) & 1 == 1 <==> (j != k && (w >> j) & 1 == 1),
        (0u64 >> j) & 1 != 1,
        j < k ==> (((w & (((1u64 << k) as int - 1) as u64)) >> j) & 1 == 1 <==> (w >> j) & 1
            == 1),
{
    assert(((w ^ v) >> j) & 1 == 1 <==> (((w >> j) & 1 == 1) != ((v >> j) & 1 == 1)))
        by (bit_vector)
        requires
            j < 64,
    ;
    assert(((w & v) >> j) & 1 == 1 <==> ((w >> j) & 1 == 1 && (v >> j) & 1 == 1))
        by (bit_vector)
        requires
            j < 64,
    ;
    assert(((!w) >> j) & 1 == 1 <==> !((w >> j) & 1 == 1)) by (bit_vector)
        requires
            j < 64,
    ;
    assert(((w | (1u64 << k)) >> j) & 1 == 1 <==> (j == k || (w >> j) & 1 == 1))
        by (bit_vector)
        requires
            j < 64,
            k < 64,
    ;
    assert(((w & !(1u64 << k)) >> j) & 1 == 1 <==> (j != k && (w >> j) & 1 == 1))
        by (bit_vector)
        requires
            j < 64,
            k < 64,
    ;
    assert((0u64 >> j) & 1 != 1) by (bit_vector);
    assert(j < k ==> (((w & (((1u64 << k) as int - 1) as u64)) >> j) & 1 == 1 <==> (w >> j) & 1
        == 1)) by (bit_vector)
        requires
            j < 64,
            k < 64,
    ;
}

/// A bitsliced lane: a bit vector representing one bit plane across many
/// values, stored as 64-bit words.
#[derive(Debug, PartialEq, Eq, PartialOrd, Ord, Hash)]
pub struct BitslicedLane {
    words: Vec<u64>,
    num_bits: usize,
}

impl BitslicedLane {
    /// The words that store the lane.
    pub closed spec fn word_seq(&self) -> Seq<u64> {
        self.words@
    }

    /// Number of bits (values) in the lane.
    pub closed spec fn bit_len(&self) -> nat {
        self.num_bits as nat
    }

    /// The lane has exactly the words that `bit_len` bits need, their bit
    /// count fits a `usize`, and no bit at or past `bit_len` is set.
    pub open spec fn wf(&self) -> bool {
        &&& self.word_seq().len() == words_for(self.bit_len())
        &&& self.bit_len() <= self.word_seq().len() * 64 <= usize::MAX
        &&& self.is_clean()
    }

    /// Bit `i` of the lane (false outside `0..bit_len`).
    pub open spec fn bit_at(&self, i: int) -> bool {
        0 <= i < self.bit_len() && word_bit(self.word_seq()[i / 64], i % 64)
    }

    /// The lane as a sequence of bits.
    pub open spec fn bits(&self) -> Seq<bool> {
        Seq::new(self.bit_len(), |i: int| self.bit_at(i))
    }

    /// A lane's bits are the first `bit_len` bits of its words.
    pub proof fn lemma_bits_of(&self)
        ensures
            self.bits() == bits_of(self.word_seq(), self.bit_len()),
    {
        assert(self.bits() =~= bits_of(self.word_seq(), self.bit_len()));
    }

    /// A lane holding the bits `b` (as `from_bits` leaves it) reads them
    /// back: `to_bits` gives `b`, its length is `b`'s, and `get_bit(i)` is
    /// `b[i]` within range and false past it.
    pub proof fn lemma_reads_back(&self, b: Seq<bool>)
        requires
            self.bits() == b,
        ensures
            self.bit_len() == b.len(),
            forall|i: int| #[trigger] self.bit_at(i) == (0 <= i < b.len() && b[i]),
    {
        assert forall|i: int| #[trigger] self.bit_at(i) == (0 <= i < b.len() && b[i]) by {
            if 0 <= i < b.len() {
                assert(self.bits()[i] == self.bit_at(i));
            }
        }
    }

    /// In a well-formed lane the stored one bits are exactly the lane's set
    /// bits.
    pub proof fn lemma_pop_counts_bits(&self)
        requires
            self.wf(),
        ensures
            self.pop() == count_true(self.bits()),
            self.pop() <= self.bit_len(),
            self.pop() == self.bit_len() <==> forall|i: int| 0 <= i < self.bit_len() ==> #[trigger] self.bit_at(i),
            self.pop() == 0 <==> forall|i: int| 0 <= i < self.bit_len() ==> !#[trigger] self.bit_at(i),
    {
        let ws = self.word_seq();
        let n = self.bit_len();
        let total = ws.len() * 64;
        lemma_words_pop_bits(ws);
        let tail = Seq::new((total - n) as nat, |j: int| bits_of(ws, total)[n + j]);
        assert(bits_of(ws, total) =~= self.bits() + tail);
        assert forall|j: int| 0 <= j < tail.len() implies !#[trigger] tail[j] by {
            let i = n + j;
            assert(0 <= i / 64 < ws.len() && 0 <= i % 64 < 64 && i == (i / 64) * 64 + i % 64)
                by (nonlinear_arith)
                requires
                    0 <= i < total,
                    total == ws.len() * 64,
            ;
            assert(!word_bit(ws[i / 64], i % 64));
        }
        lemma_count_true_none(tail);
        lemma_count_true_append(self.bits(), tail);
        lemma_count_true_all(self.bits());
        if count_true(self.bits()) == n {
            assert forall|i: int| 0 <= i < n implies #[trigger] self.bit_at(i) by {
                assert(self.bits()[i]);
            }
        }
        if forall|i: int| 0 <= i < n ==> #[trigger] self.bit_at(i) {
            assert forall|i: int| 0 <= i < self.bits().len() implies #[trigger] self.bits()[i] by {
                assert(self.bit_at(i));
            }
        }
        if count_true(self.bits()) == 0 {
            assert forall|i: int| 0 <= i < n implies !#[trigger] self.bit_at(i) by {
                if self.bit_at(i) {
                    let a = self.bits().take(i);
                    let b = self.bits().skip(i);
                    assert(self.bits() =~= a + b);
                    lemma_count_true_append(a, b);
                    assert(b =~= seq![true] + b.skip(1));
                    lemma_count_true_append(seq![true], b.skip(1));
                    assert(seq![true].drop_last() =~= Seq::<bool>::empty());
                }
            }
        }
        if forall|i: int| 0 <= i < n ==> !#[trigger] self.bit_at(i) {
            assert forall|i: int| 0 <= i < self.bits().len() implies !#[trigger] self.bits()[i] by {
                assert(!self.bit_at(i));
            }
            lemma_count_true_none(self.bits());
        }
    }

    /// No bit is set in the stored words past `bit_len`.
    pub open spec fn is_clean(&self) -> bool {
        forall|w: int, k: int|
            0 <= w < self.word_seq().len() && 0 <= k < 64 && self.bit_len() <= w * 64 + k
                ==> !#[trigger] word_bit(self.word_seq()[w], k)
    }

    /// Number of one bits stored in the words; in a well-formed lane these
    /// are exactly its set bits (`lemma_pop_counts_bits`).
    pub open spec fn pop(&self) -> nat {
        words_pop(self.word_seq())
    }

    /// An empty lane with room for `num_bits` bits, all zero.
    pub fn with_capacity(num_bits: usize) -> (r: Self)
        requires
            num_bits + 63 <= usize::MAX,
        ensures
            r.wf(),
            r.bit_len() == num_bits,
            r.word_seq() == Seq::new(words_for(num_bits as nat), |i: int| 0u64),
            r.is_clean(),
            r.bits() == Seq::new(num_bits as nat, |i: int| false),
    {
        let num_words = (num_bits + 63) / 64;
        let mut words: Vec<u64> = Vec::new();
        let mut i: usize = 0;
        while i < num_words
            invariant
                i <= num_words,
                num_words == words_for(num_bits as nat),
                words@ == Seq::new(i as nat, |j: int| 0u64),
            decreases num_words - i,
        {
            words.push(0u64);
            i = i + 1;
        }
        let r = BitslicedLane { words, num_bits };
        proof {
            assert forall|w: int, k: int|
                0 <= w < r.word_seq().len() && 0 <= k < 64 && r.bit_len() <= w * 64 + k
                implies !#[trigger] word_bit(r.word_seq()[w], k) by {
                lemma_word_bits(0, 0, 0, k as u64);
            }
            assert forall|k: int| 0 <= k < num_bits implies !#[trigger] r.bit_at(k) by {
                lemma_word_bits(0, 0, 0, (k % 64) as u64);
            }
            assert(r.bits() =~= Seq::new(num_bits as nat, |i: int| false));
        }
        r
    }

    /// Number of bits in the lane.
    pub fn len(&self) -> (r: usize)
        ensures
            r == self.bit_len(),
    {
        self.num_bits
    }

    /// Whether the lane has no bits.
    pub fn is_empty(&self) -> (r: bool)
        ensures
            r == (self.bit_len() == 0),
    {
        self.num_bits == 0
    }

    /// The underlying words.
    pub fn words(&self) -> (r: &[u64])
        ensures
            r@ == self.word_seq(),
    {
        self.words.as_slice()
    }

    /// Read a single bit; out-of-range indices read as false.
    pub fn get_bit(&self, index: usize) -> (r: bool)
        requires
            self.wf(),
        ensures
            r == self.bit_at(index as int),
    {
        if index >= self.num_bits {
            return false;
        }
        let word_idx = index / 64;
        let bit_idx = index % 64;
        let w = self.words[word_idx];
        let b = bit_idx as u64;
        assert((w >> b) & 1 != 0 <==> (w >> b) & 1 == 1) by (bit_vector);
        (w >> b) & 1 != 0
    }

    /// Set a single bit; out-of-range indices leave the lane unchanged.
    pub fn set_bit(&mut self, index: usize, value: bool)
        requires
            old(self).wf(),
        ensures
            final(self).wf(),
            final(self).bit_len() == old(self).bit_len(),
            final(self).word_seq() == (if index < old(self).bit_len() {
                old(self).word_seq().update(
                    index as int / 64,
                    if value {
                        old(self).word_seq()[index as int / 64] | (1u64 << ((index % 64) as u64))
                    } else {
                        old(self).word_seq()[index as int / 64] & !(1u64 << ((index % 64) as u64))
                    },
                )
            } else {
                old(self).word_seq()
            }),
            final(self).bits() == (if index < old(self).bit_len() {
                old(self).bits().update(index as int, value)
            } else {
                old(self).bits()
            }),
            old(self).is_clean() ==> final(self).is_clean(),
    {
        if index >= self.num_bits {
            return;
        }
        let word_idx = index / 64;
        let bit_idx = (index % 64) as u64;
        let w = self.words[word_idx];
        let nw = if value {
            w | (1u64 << bit_idx)
        } else {
            w & !(1u64 << bit_idx)
        };
        self.words.set(word_idx, nw);
        proof {
            assert forall|i: int| 0 <= i < self.bit_len() implies self.bit_at(i) == (if i
                == index {
                value
            } else {
                old(self).bit_at(i)
            }) by {
                lemma_word_bits(w, 0, bit_idx, (i % 64) as u64);
                if i / 64 == word_idx as int {
                    if i != index as int {
                        assert(i % 64 != bit_idx as int);
                    }
                }
            }
            assert(self.bits() =~= old(self).bits().update(index as int, value));
            if old(self).is_clean() {
                assert forall|wi: int, k: int|
                    0 <= wi < self.word_seq().len() && 0 <= k < 64 && self.bit_len() <= wi * 64 + k
                    implies !#[trigger] word_bit(self.word_seq()[wi], k) by {
                    if wi == word_idx as int {
                        lemma_word_bits(w, 0, bit_idx, k as u64);
                        assert(k != bit_idx as int);
                        assert(!word_bit(old(self).word_seq()[wi], k));
                    } else {
                        assert(!word_bit(old(self).word_seq()[wi], k));
                    }
                }
            }
        }
    }

    /// A lane of `data.len()` bits whose bit `i` is the most significant bit
    /// of `data[i]`.
    pub fn from_bytes(data: &[u8]) -> (r: Self)
        requires
            data.len() + 63 <= usize::MAX,
        ensures
            r.wf(),
            r.bit_len() == data.len(),
            r.bits() == Seq::new(data.len() as nat, |i: int| data@[i] & 0x80 != 0),
            r.word_seq().len() == words_for(data.len() as nat),
    {
        let num_bits = data.len();
        let mut lane = Self::with_capacity(num_bits);
        let mut i: usize = 0;
        proof {
            assert forall|j: int| 0 <= j < lane.bit_len() implies !lane.bit_at(j) by {
                lemma_word_bits(0, 0, 0, (j % 64) as u64);
            }
        }
        while i < num_bits
            invariant
                i <= num_bits,
                num_bits == data.len(),
                lane.wf(),
                lane.bit_len() == num_bits,
                lane.word_seq().len() == words_for(num_bits as nat),
                forall|j: int|
                    0 <= j < num_bits ==> lane.bit_at(j) == (j < i && data@[j] & 0x80 != 0),
            decreases num_bits - i,
        {
            if data[i] & 0x80 != 0 {
                lane.set_bit(i, true);
            }
            proof {
                assert forall|j: int| 0 <= j < num_bits implies lane.bit_at(j) == (j < i + 1
                    && data@[j] & 0x80 != 0) by {
                    assert(lane.bits()[j] == lane.bit_at(j));
                }
            }
            i = i + 1;
        }
        proof {
            assert(lane.bits() =~= Seq::new(data.len() as nat, |i: int| data@[i] & 0x80 != 0));
        }
        lane
    }

    /// A lane holding the given bits.
    pub fn from_bits(bits: &[bool]) -> (r: Self)
        requires
            bits.len() + 63 <= usize::MAX,
        ensures
            r.wf(),
            r.bits() == bits@,
            r.word_seq().len() == words_for(bits.len() as nat),
    {
        let num_bits = bits.len();
        let mut lane = Self::with_capacity(num_bits);
        let mut i: usize = 0;
        proof {
            assert forall|j: int| 0 <= j < lane.bit_len() implies !lane.bit_at(j) by {
                lemma_word_bits(0, 0, 0, (j % 64) as u64);
            }
        }
        while i < num_bits
            invariant
                i <= num_bits,
                num_bits == bits.len(),
                lane.wf(),
                lane.bit_len() == num_bits,
                lane.word_seq().len() == words_for(num_bits as nat),
                forall|j: int| 0 <= j < num_bits ==> lane.bit_at(j) == (j < i && bits@[j]),
            decreases num_bits - i,
        {
            lane.set_bit(i, bits[i]);
            proof {
                assert forall|j: int| 0 <= j < num_bits implies lane.bit_at(j) == (j < i + 1
                    && bits@[j]) by {
                    assert(lane.bits()[j] == lane.bit_at(j));
                }
            }
            i = i + 1;
        }
        proof {
            assert(lane.bits() =~= bits@);
        }
        lane
    }

    /// The lane as one byte per bit: 0x80 for a set bit, 0x00 otherwise.
    pub fn as_bytes(&self) -> (r: Vec<u8>)
        requires
            self.wf(),
        ensures
            r@ == Seq::new(self.bit_len(), |i: int| if self.bit_at(i) { 0x80u8 } else { 0x00u8 }),
    {
        let n = self.num_bits;
        let mut result: Vec<u8> = Vec::new();
        let mut i: usize = 0;
        while i < n
            invariant
                i <= n,
                n == self.bit_len(),
                self.wf(),
                result@ == Seq::new(i as nat, |j: int| if self.bit_at(j) { 0x80u8 } else { 0x00u8 }),
            decreases n - i,
        {
            let bit = self.get_bit(i);
            result.push(if bit { 0x80u8 } else { 0x00u8 });
            proof {
                assert(result@ =~= Seq::new((i + 1) as nat, |j: int| if self.bit_at(j) { 0x80u8 } else { 0x00u8 }));
            }
            i = i + 1;
        }
        result
    }

    /// XOR another lane into this one, word by word.
    pub fn xor_merge(&mut self, other: &Self)
        requires
            old(self).bit_len() == other.bit_len(),
            old(self).wf(),
            other.wf(),
        ensures
            final(self).bit_len() == old(self).bit_len(),
            final(self).word_seq() == words_xor(old(self).word_seq(), other.word_seq()),
            final(self).wf(),
            final(self).bits() == Seq::new(
                old(self).bit_len(),
                |i: int| old(self).bit_at(i) != other.bit_at(i),
            ),
    {
        let n = if self.words.len() < other.words.len() {
            self.words.len()
        } else {
            other.words.len()
        };
        let mut i: usize = 0;
        while i < n
            invariant
                i <= n,
                n <= self.words@.len(),
                n <= other.word_seq().len(),
                n == self.words@.len() || n == other.word_seq().len(),
                self.num_bits == old(self).bit_len(),
                self.words@ == Seq::new(old(self).word_seq().len(), |j: int| if j < i && j < other.word_seq().len() {
                    old(self).word_seq()[j] ^ other.word_seq()[j]
                } else {
                    old(self).word_seq()[j]
                }),
            decreases n - i,
        {
            let w = self.words[i] ^ other.words[i];
            self.words.set(i, w);
            i = i + 1;
        }
        proof {
            assert(self.words@ =~= words_xor(old(self).word_seq(), other.word_seq()));
            assert forall|wi: int, k: int|
                0 <= wi < self.word_seq().len() && 0 <= k < 64 && self.bit_len() <= wi * 64 + k
                implies !#[trigger] word_bit(self.word_seq()[wi], k) by {
                lemma_word_bits(old(self).word_seq()[wi], other.word_seq()[wi], 0, k as u64);
                assert(!word_bit(old(self).word_seq()[wi], k));
                assert(!word_bit(other.word_seq()[wi], k));
            }
            lemma_xor_bits(old(self).word_seq(), other.word_seq(), old(self).bit_len());
            old(self).lemma_bits_of();
            other.lemma_bits_of();
            self.lemma_bits_of();
            assert(self.bits() =~= Seq::new(
                old(self).bit_len(),
                |i: int| old(self).bit_at(i) != other.bit_at(i),
            ));
        }
    }

    /// AND another lane into this one, word by word.
    pub fn and_merge(&mut self, other: &Self)
        requires
            old(self).bit_len() == other.bit_len(),
            old(self).wf(),
            other.wf(),
        ensures
            final(self).bit_len() == old(self).bit_len(),
            final(self).word_seq() == words_and(old(self).word_seq(), other.word_seq()),
            final(self).wf(),
            final(self).bits() == Seq::new(
                old(self).bit_len(),
                |i: int| old(self).bit_at(i) && other.bit_at(i),
            ),
    {
        let n = if self.words.len() < other.words.len() {
            self.words.len()
        } else {
            other.words.len()
        };
        let mut i: usize = 0;
        while i < n
            invariant
                i <= n,
                n <= self.words@.len(),
                n <= other.word_seq().len(),
                n == self.words@.len() || n == other.word_seq().len(),
                self.num_bits == old(self).bit_len(),
                self.words@ == Seq::new(old(self).word_seq().len(), |j: int| if j < i && j < other.word_seq().len() {
                    old(self).word_seq()[j] & other.word_seq()[j]
                } else {
                    old(self).word_seq()[j]
                }),
            decreases n - i,
        {
            let w = self.words[i] & other.words[i];
            self.words.set(i, w);
            i = i + 1;
        }
        proof {
            assert(self.words@ =~= words_and(old(self).word_seq(), other.word_seq()));
            assert forall|wi: int, k: int|
                0 <= wi < self.word_seq().len() && 0 <= k < 64 && self.bit_len() <= wi * 64 + k
                implies !#[trigger] word_bit(self.word_seq()[wi], k) by {
                if wi < other.word_seq().len() {
                    lemma_word_bits(old(self).word_seq()[wi], other.word_seq()[wi], 0, k as u64);
                }
                assert(!word_bit(old(self).word_seq()[wi], k));
            }
            lemma_and_bits(old(self).word_seq(), other.word_seq(), old(self).bit_len());
            old(self).lemma_bits_of();
            other.lemma_bits_of();
            self.lemma_bits_of();
            assert(self.bits() =~= Seq::new(
                old(self).bit_len(),
                |i: int| old(self).bit_at(i) && other.bit_at(i),
            ));
        }
    }

    /// XOR two lanes of equal length into a new lane.
    pub fn xor(lhs: &Self, rhs: &Self) -> (r: Self)
        requires
            lhs.bit_len() == rhs.bit_len(),
            lhs.wf(),
            rhs.wf(),
        ensures
            r.bit_len() == lhs.bit_len(),
            r.word_seq() == words_xor(lhs.word_seq(), rhs.word_seq()),
            r.wf(),
            r.bits() == Seq::new(lhs.bit_len(), |i: int| lhs.bit_at(i) != rhs.bit_at(i)),
    {
        let mut result = lhs.clone();
        result.xor_merge(rhs);
        result
    }

    /// Negate every bit in place, then clear the bits of the last word past
    /// `len() % 64` when that remainder is not zero.
    pub fn not_inplace(&mut self)
        requires
            old(self).wf(),
        ensures
            final(self).bit_len() == old(self).bit_len(),
            final(self).word_seq() == words_not(old(self).word_seq(), old(self).bit_len()),
            final(self).wf(),
            final(self).bits() == Seq::new(old(self).bit_len(), |i: int| !old(self).bit_at(i)),
            final(self).pop() == old(self).bit_len() - old(self).pop(),
            words_not(final(self).word_seq(), final(self).bit_len()) == old(self).word_seq(),
    {
        let len = self.words.len();
        let mut i: usize = 0;
        while i < len
            invariant
                i <= len,
                len == self.words@.len(),
                len == old(self).word_seq().len(),
                self.num_bits == old(self).bit_len(),
                self.words@ == Seq::new(len as nat, |j: int| if j < i { !old(self).word_seq()[j] } else { old(self).word_seq()[j] }),
            decreases len - i,
        {
            let w = !self.words[i];
            self.words.set(i, w);
            i = i + 1;
        }
        let remaining = self.num_bits % 64;
        proof {
            assert(self.words@ =~= Seq::new(len as nat, |j: int| !old(self).word_seq()[j]));
        }
        if remaining > 0 {
            let last = self.words.len() - 1;
            let r = remaining as u64;
            assert(1u64 << r >= 1) by (bit_vector)
                requires
                    r < 64,
            ;
            let mask = (1u64 << r) - 1;
            let w = self.words[last] & mask;
            self.words.set(last, w);
        }
        proof {
            assert(self.words@ =~= words_not(old(self).word_seq(), old(self).bit_len()));
            let n = self.bit_len();
            assert forall|wi: int, k: int|
                0 <= wi < self.word_seq().len() && 0 <= k < 64 && self.bit_len() <= wi * 64 + k
                implies !#[trigger] word_bit(self.word_seq()[wi], k) by {
                assert(n % 64 > 0 && wi == self.word_seq().len() - 1);
                lemma_mask_bits(!old(self).word_seq()[wi], (n % 64) as u64, k as u64);
            }
            lemma_not_bits(old(self).word_seq(), n);
            old(self).lemma_bits_of();
            self.lemma_bits_of();
            assert(self.bits() =~= Seq::new(old(self).bit_len(), |i: int| !old(self).bit_at(i)));
            lemma_not_law(*old(self), *self);
        }
    }

    /// Number of one bits in the words.
    pub fn popcount(&self) -> (r: usize)
        requires
            self.wf(),
        ensures
            r == self.pop(),
            r == count_true(self.bits()),
    {
        proof {
            self.lemma_pop_counts_bits();
        }
        let len = self.words.len();
        let mut sum: usize = 0;
        let mut i: usize = 0;
        while i < len
            invariant
                i <= len,
                len == self.word_seq().len(),
                len * 64 <= usize::MAX,
                sum == words_pop(self.word_seq().take(i as int)),
                sum <= 64 * i,
            decreases len - i,
        {
            let c = count_ones_u64(self.words[i]);
            proof {
                lemma_pop64_bound(self.words@[i as int]);
                assert(self.word_seq().take(i + 1).drop_last() =~= self.word_seq().take(i as int));
            }
            sum = sum + c as usize;
            i = i + 1;
        }
        proof {
            assert(self.word_seq().take(len as int) =~= self.word_seq());
        }
        sum
    }

    /// The lane's display form: `BitslicedLane(bits=… words=… popcount=…)`,
    /// in decimal.
    pub fn to_display_string(&self) -> (r: String)
        requires
            self.wf(),
        ensures
            r@ == "BitslicedLane(bits="@ + decimal(self.bit_len()) + " words="@ + decimal(
                self.word_seq().len(),
            ) + " popcount="@ + decimal(self.pop()) + ")"@,
    {
        let mut s = String::from_str("BitslicedLane(bits=");
        s.append(decimal_string(self.num_bits as u64).as_str());
        s.append(" words=");
        s.append(decimal_string(self.words.len() as u64).as_str());
        s.append(" popcount=");
        s.append(decimal_string(self.popcount() as u64).as_str());
        s.append(")");
        s
    }

    /// Whether the number of one bits equals the length.
    pub fn all_set(&self) -> (r: bool)
        requires
            self.wf(),
        ensures
            r == (self.pop() == self.bit_len()),
            r == (forall|i: int| 0 <= i < self.bit_len() ==> #[trigger] self.bit_at(i)),
    {
        proof {
            self.lemma_pop_counts_bits();
        }
        self.popcount() == self.num_bits
    }

    /// Whether no bit is set.
    pub fn none_set(&self) -> (r: bool)
        requires
            self.wf(),
        ensures
            r == (self.pop() == 0),
            r == (forall|i: int| 0 <= i < self.bit_len() ==> !#[trigger] self.bit_at(i)),
    {
        proof {
            self.lemma_pop_counts_bits();
        }
        self.popcount() == 0
    }

    /// Whether some bit is set.
    pub fn any_set(&self) -> (r: bool)
        requires
            self.wf(),
        ensures
            r == (self.pop() > 0),
            r == (exists|i: int| 0 <= i < self.bit_len() && #[trigger] self.bit_at(i)),
    {
        proof {
            self.lemma_pop_counts_bits();
        }
        self.popcount() > 0
    }

    /// Hamming distance to another lane: the popcount of their XOR.
    pub fn hamming_distance(&self, other: &Self) -> (r: usize)
        requires
            self.wf(),
            other.wf(),
            self.bit_len() == other.bit_len(),
        ensures
            r == words_pop(words_xor(self.word_seq(), other.word_seq())),
    {
        let x = Self::xor(self, other);
        x.popcount()
    }

    /// Change the number of bits. Words are added (as zeros) or dropped so
    /// that exactly the words the new length needs remain, and the last
    /// word is masked to `new_num_bits % 64` low bits when that remainder is
    /// not zero: the first bits are kept and every bit past the old length
    /// reads as clear.
    pub fn resize(&mut self, new_num_bits: usize)
        requires
            old(self).wf(),
            new_num_bits + 63 <= usize::MAX,
        ensures
            final(self).bit_len() == new_num_bits,
            final(self).word_seq() == words_resized(old(self).word_seq(), new_num_bits as nat),
            final(self).bits() == Seq::new(
                new_num_bits as nat,
                |i: int| i < old(self).bit_len() && old(self).bit_at(i),
            ),
            final(self).wf(),
    {
        let new_num_words = (new_num_bits + 63) / 64;
        let old_len = self.words.len();
        if new_num_words > self.words.len() {
            while self.words.len() < new_num_words
                invariant
                    old_len <= self.words@.len() <= new_num_words,
                    self.words@ == old(self).word_seq() + Seq::new((self.words@.len() - old_len) as nat, |i: int| 0u64),
                    old_len == old(self).word_seq().len(),
                decreases new_num_words - self.words@.len(),
            {
                self.words.push(0u64);
                proof {
                    assert(self.words@ =~= old(self).word_seq() + Seq::new((self.words@.len() - old_len) as nat, |i: int| 0u64));
                }
            }
        } else {
            self.words.truncate(new_num_words);
        }
        let ghost n = new_num_bits as nat;
        let ghost ows = old(self).word_seq();
        proof {
            assert forall|i: int| 0 <= i < new_num_words implies self.words@[i] == (if i < ows.len() {
                ows[i]
            } else {
                0u64
            }) by {}
        }
        self.num_bits = new_num_bits;
        let remaining = new_num_bits % 64;
        if remaining > 0 {
            let last = self.words.len() - 1;
            let r = remaining as u64;
            assert(1u64 << r >= 1) by (bit_vector)
                requires
                    r < 64,
            ;
            let mask = (1u64 << r) - 1;
            let w = self.words[last] & mask;
            self.words.set(last, w);
        }
        proof {
            assert(self.words@ =~= words_resized(ows, n));
            assert forall|i: int| 0 <= i < n implies #[trigger] self.bit_at(i) == (i < old(self).bit_len()
                && old(self).bit_at(i)) by {
                let wi = i / 64;
                let k = (i % 64) as u64;
                let w = if wi < ows.len() { ows[wi] } else { 0u64 };
                lemma_word_bits(w, 0, 0, k);
                if n % 64 > 0 && wi == words_for(n) - 1 {
                    lemma_mask_bits(w, (n % 64) as u64, k);
                    assert(i % 64 < n % 64);
                }
                if wi < ows.len() && i >= old(self).bit_len() {
                    assert(!word_bit(ows[wi], i % 64));
                }
            }
            assert(self.bits() =~= Seq::new(n, |i: int| i < old(self).bit_len() && old(self).bit_at(i)));
            assert forall|wi: int, k: int|
                0 <= wi < self.word_seq().len() && 0 <= k < 64 && self.bit_len() <= wi * 64 + k
                implies !#[trigger] word_bit(self.word_seq()[wi], k) by {
                let w = if wi < ows.len() { ows[wi] } else { 0u64 };
                lemma_word_bits(w, 0, 0, k as u64);
                assert(n % 64 > 0 && wi == words_for(n) - 1);
                lemma_mask_bits(w, (n % 64) as u64, k as u64);
            }
        }
    }

    /// The lane as a vector of booleans.
    pub fn to_bits(&self) -> (r: Vec<bool>)
        requires
            self.wf(),
        ensures
            r@ == self.bits(),
    {
        let n = self.num_bits;
        let mut result: Vec<bool> = Vec::new();
        let mut i: usize = 0;
        while i < n
            invariant
                i <= n,
                n == self.bit_len(),
                self.wf(),
                result@ == self.bits().take(i as int),
            decreases n - i,
        {
            let bit = self.get_bit(i);
            result.push(bit);
            proof {
                assert(result@ =~= self.bits().take(i + 1));
            }
            i = i + 1;
        }
        proof {
            assert(self.bits().take(n as int) =~= self.bits());
        }
        result
    }
}

// ── Laws ────────────────────────────────────────────────────────────────────

/// Bit `i` of a lane's words, for every index that the lane holds.
proof fn lemma_bit_of_words(ws: Seq<u64>, n: nat, i: int)
    requires
        n <= ws.len() * 64,
        0 <= i < n,
    ensures
        0 <= i / 64 < ws.len(),
        0 <= i % 64 < 64,
{
}

/// The bits of an XOR of lanes of equal length are the pointwise XOR of
/// their bits.
pub proof fn lemma_xor_bits(a: Seq<u64>, b: Seq<u64>, n: nat)
    requires
        n <= a.len() * 64,
        n <= b.len() * 64,
    ensures
        bits_of(words_xor(a, b), n) == Seq::new(n, |i: int| bits_of(a, n)[i] != bits_of(b, n)[i]),
{
    assert forall|i: int| 0 <= i < n implies bits_of(words_xor(a, b), n)[i] == (bits_of(a, n)[i]
        != bits_of(b, n)[i]) by {
        lemma_bit_of_words(a, n, i);
        lemma_bit_of_words(b, n, i);
        lemma_word_bits(a[i / 64], b[i / 64], 0, (i % 64) as u64);
    }
    assert(bits_of(words_xor(a, b), n) =~= Seq::new(n, |i: int| bits_of(a, n)[i] != bits_of(b, n)[i]));
}

/// The bits of an AND of lanes of equal length are the pointwise AND of
/// their bits.
pub proof fn lemma_and_bits(a: Seq<u64>, b: Seq<u64>, n: nat)
    requires
        n <= a.len() * 64,
        n <= b.len() * 64,
    ensures
        bits_of(words_and(a, b), n) == Seq::new(n, |i: int| bits_of(a, n)[i] && bits_of(b, n)[i]),
{
    assert forall|i: int| 0 <= i < n implies bits_of(words_and(a, b), n)[i] == (bits_of(a, n)[i]
        && bits_of(b, n)[i]) by {
        lemma_bit_of_words(a, n, i);
        lemma_bit_of_words(b, n, i);
        lemma_word_bits(a[i / 64], b[i / 64], 0, (i % 64) as u64);
    }
    assert(bits_of(words_and(a, b), n) =~= Seq::new(n, |i: int| bits_of(a, n)[i] && bits_of(b, n)[i]));
}

/// Negating a lane negates each of its bits.
pub proof fn lemma_not_bits(a: Seq<u64>, n: nat)
    requires
        n <= a.len() * 64,
    ensures
        bits_of(words_not(a, n), n) == Seq::new(n, |i: int| !bits_of(a, n)[i]),
{
    assert forall|i: int| 0 <= i < n implies bits_of(words_not(a, n), n)[i] == !bits_of(a, n)[i] by {
        lemma_bit_of_words(a, n, i);
        let k = (i % 64) as u64;
        lemma_word_bits(a[i / 64], 0, (n % 64) as u64, k);
        lemma_word_bits(!a[i / 64], 0, (n % 64) as u64, k);
        if n % 64 > 0 && i / 64 == a.len() - 1 {
            assert(i % 64 < n % 64);
        }
    }
    assert(bits_of(words_not(a, n), n) =~= Seq::new(n, |i: int| !bits_of(a, n)[i]));
}

/// Negating every entry of a sequence of bits turns its count into the
/// length less the count.
pub proof fn lemma_count_true_negate(bs: Seq<bool>)
    ensures
        count_true(Seq::new(bs.len(), |i: int| !bs[i])) == bs.len() - count_true(bs),
    decreases bs.len(),
{
    let ns = Seq::new(bs.len(), |i: int| !bs[i]);
    lemma_count_true_all(bs);
    if bs.len() > 0 {
        lemma_count_true_negate(bs.drop_last());
        assert(ns.drop_last() =~= Seq::new(bs.drop_last().len(), |i: int| !bs.drop_last()[i]));
    }
}

/// Two words whose bits agree at every position from `m` up agree once
/// shifted right by `m`.
proof fn lemma_u64_high_bits(a: u64, b: u64, m: u64)
    requires
        m <= 63,
        forall|k: int| m <= k < 64 ==> #[trigger] word_bit(a, k) == word_bit(b, k),
    ensures
        a >> m == b >> m,
    decreases 63 - m,
{
    assert(word_bit(a, m as int) == word_bit(b, m as int));
    if m == 63 {
        assert(((a >> 63u64) & 1 == 1) == ((b >> 63u64) & 1 == 1) ==> a >> 63u64 == b >> 63u64)
            by (bit_vector);
    } else {
        let m1 = (m + 1) as u64;
        lemma_u64_high_bits(a, b, m1);
        assert(a >> m == b >> m) by (bit_vector)
            requires
                m < 63,
                m1 == m + 1,
                a >> m1 == b >> m1,
                ((a >> m) & 1 == 1) == ((b >> m) & 1 == 1),
        ;
    }
}

/// A word is determined by its 64 bits.
pub proof fn lemma_u64_bits_ext(a: u64, b: u64)
    requires
        forall|k: int| 0 <= k < 64 ==> #[trigger] word_bit(a, k) == word_bit(b, k),
    ensures
        a == b,
{
    lemma_u64_high_bits(a, b, 0);
    assert(a >> 0u64 == a && b >> 0u64 == b) by (bit_vector);
}

/// Negating a well-formed lane turns its popcount into its length less the
/// old popcount and negates each bit, and negating twice gives back the
/// original words.
pub proof fn lemma_not_law(l: BitslicedLane, m: BitslicedLane)
    requires
        l.wf(),
        m.wf(),
        m.bit_len() == l.bit_len(),
        m.word_seq() == words_not(l.word_seq(), l.bit_len()),
    ensures
        m.bits() == Seq::new(l.bit_len(), |i: int| !l.bit_at(i)),
        m.pop() == l.bit_len() - l.pop(),
        words_not(m.word_seq(), m.bit_len()) == l.word_seq(),
{
    let n = l.bit_len();
    let ws = l.word_seq();
    lemma_not_bits(ws, n);
    l.lemma_bits_of();
    m.lemma_bits_of();
    assert(m.bits() =~= Seq::new(n, |i: int| !l.bit_at(i)));
    l.lemma_pop_counts_bits();
    m.lemma_pop_counts_bits();
    assert(m.bits() =~= Seq::new(l.bits().len(), |i: int| !l.bits()[i]));
    lemma_count_true_negate(l.bits());
    let back = words_not(m.word_seq(), n);
    assert forall|i: int| 0 <= i < ws.len() implies #[trigger] back[i] == ws[i] by {
        let w = ws[i];
        assert forall|k: int| 0 <= k < 64 implies #[trigger] word_bit(back[i], k) == word_bit(w, k) by {
            lemma_word_bits(w, 0, 0, k as u64);
            lemma_word_bits(!w, 0, 0, k as u64);
            if n % 64 > 0 && i == ws.len() - 1 {
                let r = (n % 64) as u64;
                let mw = !w & (((1u64 << r) as int - 1) as u64);
                lemma_mask_bits(!w, r, k as u64);
                lemma_mask_bits(!mw, r, k as u64);
                lemma_word_bits(mw, 0, 0, k as u64);
                if k >= r {
                    assert(i * 64 + k >= n);
                    assert(!word_bit(ws[i], k));
                }
            }
        }
        lemma_u64_bits_ext(back[i], w);
    }
    assert(back =~= ws);
}

/// A lane whose planes each have just bit `t` set (as `set_spatial` and
/// `set_temporal` leave a fresh lane of an array) has exactly one active
/// connection, at `t`.
pub proof fn lemma_single_connection(n: nat, t: int, sp: Seq<bool>, tp: Seq<bool>)
    requires
        0 <= t < n,
        sp == Seq::new(n, |j: int| false).update(t, true),
        tp == Seq::new(n, |j: int| false).update(t, true),
    ensures
        Seq::new(n, |j: int| sp[j] && tp[j]) == Seq::new(n, |j: int| j == t),
        count_true(Seq::new(n, |j: int| j == t)) == 1,
{
    assert(Seq::new(n, |j: int| sp[j] && tp[j]) =~= Seq::new(n, |j: int| j == t));
    let one = Seq::new(n, |j: int| j == t);
    let a = one.take(t);
    let b = one.skip(t + 1);
    assert(one =~= a + seq![true] + b);
    lemma_count_true_none(a);
    lemma_count_true_none(b);
    lemma_count_true_append(a, seq![true]);
    lemma_count_true_append(a + seq![true], b);
    assert(seq![true].drop_last() =~= Seq::<bool>::empty());
    assert(count_true(Seq::<bool>::empty()) == 0);
    assert(count_true(seq![true]) == 1);
}

/// A lane whose planes have no bit set has no active connection.
pub proof fn lemma_no_connection(n: nat)
    ensures
        count_true(Seq::new(n, |j: int| false)) == 0,
{
    lemma_count_true_none(Seq::new(n, |j: int| false));
}

/// XOR-merging the same lane twice restores the original words exactly:
/// a delta applied twice cancels.
pub proof fn lemma_xor_involution(a: Seq<u64>, b: Seq<u64>)
    ensures
        words_xor(words_xor(a, b), b) == a,
{
    assert forall|i: int| 0 <= i < a.len() && i < b.len() implies (a[i] ^ b[i]) ^ b[i] == a[i] by {
        let x = a[i];
        let y = b[i];
        assert((x ^ y) ^ y == x) by (bit_vector);
    }
    assert(words_xor(words_xor(a, b), b) =~= a);
}

/// XOR of lanes with the same number of words is commutative and
/// associative, and XOR with itself gives zero words.
pub proof fn lemma_xor_algebra(a: Seq<u64>, b: Seq<u64>, c: Seq<u64>)
    requires
        a.len() == b.len(),
        b.len() == c.len(),
    ensures
        words_xor(a, b) == words_xor(b, a),
        words_xor(words_xor(a, b), c) == words_xor(a, words_xor(b, c)),
        words_xor(a, a) == Seq::new(a.len(), |i: int| 0u64),
{
    assert forall|i: int| 0 <= i < a.len() implies a[i] ^ b[i] == b[i] ^ a[i] && (a[i] ^ b[i])
        ^ c[i] == a[i] ^ (b[i] ^ c[i]) && a[i] ^ a[i] == 0 by {
        let x = a[i];
        let y = b[i];
        let z = c[i];
        assert(x ^ y == y ^ x && (x ^ y) ^ z == x ^ (y ^ z) && x ^ x == 0) by (bit_vector);
    }
    assert(words_xor(a, b) =~= words_xor(b, a));
    assert(words_xor(words_xor(a, b), c) =~= words_xor(a, words_xor(b, c)));
    assert(words_xor(a, a) =~= Seq::new(a.len(), |i: int| 0u64));
}

/// Zero words hold no one bit.
pub proof fn lemma_words_pop_zero(n: nat)
    ensures
        words_pop(Seq::new(n, |i: int| 0u64)) == 0,
    decreases n,
{
    if n > 0 {
        assert(Seq::new(n, |i: int| 0u64).drop_last() =~= Seq::new((n - 1) as nat, |i: int| 0u64));
        lemma_words_pop_zero((n - 1) as nat);
    }
}

/// The Hamming distance of a lane to itself is zero, and Hamming distance
/// is symmetric for lanes with the same number of words.
pub proof fn lemma_hamming(a: Seq<u64>, b: Seq<u64>)
    requires
        a.len() == b.len(),
    ensures
        words_pop(words_xor(a, a)) == 0,
        words_pop(words_xor(a, b)) == words_pop(words_xor(b, a)),
{
    lemma_xor_algebra(a, b, b);
    lemma_words_pop_zero(a.len());
}

impl Clone for BitslicedLane {
    /// A lane with the same words and length.
    fn clone(&self) -> (r: Self)
        ensures
            r.word_seq() == self.word_seq(),
            r.bit_len() == self.bit_len(),
    {
        let words = self.words.clone();
        proof {
            assert forall|i: int| 0 <= i < words@.len() implies words@[i] == self.words@[i] by {
                assert(cloned::<u64>(self.words[i], words[i]));
            }
            assert(words@ =~= self.words@);
        }
        BitslicedLane { words, num_bits: self.num_bits }
    }
}

impl Default for BitslicedLane {
    /// The empty lane.
    fn default() -> (r: Self)
        ensures
            r.bit_len() == 0,
            r.word_seq() == Seq::<u64>::empty(),
    {
        BitslicedLane { words: Vec::new(), num_bits: 0 }
    }
}

} // verus!

verus! {

/// A bisliced lane: two bit planes, spatial (which nodes are connected) and
/// temporal (when connections are active).
#[derive(Debug, PartialEq, Eq)]
pub struct BislicedLane {
    /// Spatial plane: which nodes are connected.
    pub spatial: BitslicedLane,
    /// Temporal plane: when connections are active.
    pub temporal: BitslicedLane,
}

impl BislicedLane {
    /// Both planes are well formed and of equal length.
    pub open spec fn wf(&self) -> bool {
        self.spatial.wf() && self.temporal.wf() && self.spatial.bit_len() == self.temporal.bit_len()
    }

    /// An empty bisliced lane with room for `num_bits` bits in each plane.
    pub fn with_capacity(num_bits: usize) -> (r: Self)
        requires
            num_bits + 63 <= usize::MAX,
        ensures
            r.wf(),
            r.spatial.bit_len() == num_bits,
            r.spatial.word_seq() == Seq::new(words_for(num_bits as nat), |i: int| 0u64),
            r.temporal.word_seq() == Seq::new(words_for(num_bits as nat), |i: int| 0u64),
            r.spatial.bits() == Seq::new(num_bits as nat, |i: int| false),
            r.temporal.bits() == Seq::new(num_bits as nat, |i: int| false),
    {
        BislicedLane {
            spatial: BitslicedLane::with_capacity(num_bits),
            temporal: BitslicedLane::with_capacity(num_bits),
        }
    }

    /// A bisliced lane from spatial and temporal bits of equal length.
    pub fn from_spatial_temporal(spatial: &[bool], temporal: &[bool]) -> (r: Self)
        requires
            spatial.len() == temporal.len(),
            spatial.len() + 63 <= usize::MAX,
        ensures
            r.wf(),
            r.spatial.bits() == spatial@,
            r.temporal.bits() == temporal@,
            r.spatial.word_seq().len() == words_for(spatial.len() as nat),
            r.temporal.word_seq().len() == words_for(spatial.len() as nat),
    {
        BislicedLane {
            spatial: BitslicedLane::from_bits(spatial),
            temporal: BitslicedLane::from_bits(temporal),
        }
    }

    /// Evaluate the lane: its active connections, the AND of the two
    /// planes.
    pub fn evaluate(&self) -> (r: BitslicedLane)
        requires
            self.wf(),
        ensures
            r.wf(),
            r.bit_len() == self.spatial.bit_len(),
            r.word_seq() == words_and(self.spatial.word_seq(), self.temporal.word_seq()),
    {
        self.active_connections()
    }

    /// Active connections: the AND of the two planes.
    pub fn active_connections(&self) -> (r: BitslicedLane)
        requires
            self.wf(),
        ensures
            r.wf(),
            r.bit_len() == self.spatial.bit_len(),
            r.word_seq() == words_and(self.spatial.word_seq(), self.temporal.word_seq()),
            r.bits() == Seq::new(
                self.spatial.bit_len(),
                |j: int| self.spatial.bit_at(j) && self.temporal.bit_at(j),
            ),
    {
        let mut result = self.spatial.clone();
        result.and_merge(&self.temporal);
        result
    }

    /// Number of bits in the lane (the spatial plane's length).
    pub fn len(&self) -> (r: usize)
        ensures
            r == self.spatial.bit_len(),
    {
        self.spatial.len()
    }

    /// Resize both planes.
    pub fn resize(&mut self, new_num_bits: usize)
        requires
            old(self).wf(),
            new_num_bits + 63 <= usize::MAX,
        ensures
            final(self).wf(),
            final(self).spatial.bit_len() == new_num_bits,
            final(self).spatial.word_seq() == words_resized(old(self).spatial.word_seq(), new_num_bits as nat),
            final(self).temporal.word_seq() == words_resized(old(self).temporal.word_seq(), new_num_bits as nat),
    {
        self.spatial.resize(new_num_bits);
        self.temporal.resize(new_num_bits);
    }

    /// Number of active connections.
    pub fn active_count(&self) -> (r: usize)
        requires
            self.wf(),
        ensures
            r == words_pop(words_and(self.spatial.word_seq(), self.temporal.word_seq())),
    {
        self.active_connections().popcount()
    }
}

impl Clone for BislicedLane {
    /// A bisliced lane with the same planes.
    fn clone(&self) -> (r: Self)
        ensures
            r.spatial.word_seq() == self.spatial.word_seq(),
            r.spatial.bit_len() == self.spatial.bit_len(),
            r.temporal.word_seq() == self.temporal.word_seq(),
            r.temporal.bit_len() == self.temporal.bit_len(),
    {
        BislicedLane { spatial: self.spatial.clone(), temporal: self.temporal.clone() }
    }
}

impl Default for BislicedLane {
    /// The empty bisliced lane.
    fn default() -> (r: Self)
        ensures
            r.wf(),
            r.spatial.bit_len() == 0,
            r.spatial.word_seq() == Seq::<u64>::empty(),
            r.temporal.word_seq() == Seq::<u64>::empty(),
    {
        BislicedLane { spatial: BitslicedLane::default(), temporal: BitslicedLane::default() }
    }
}

/// A collection of bisliced lanes, one per network node.
pub struct BislicedArray {
    lanes: Vec<BislicedLane>,
    num_nodes: usize,
}

impl BislicedArray {
    /// The lanes, one per node.
    pub closed spec fn lane_seq(&self) -> Seq<BislicedLane> {
        self.lanes@
    }

    /// Number of nodes the array was made for.
    pub closed spec fn node_count(&self) -> nat {
        self.num_nodes as nat
    }

    /// One well-formed lane per node.
    pub open spec fn wf(&self) -> bool {
        &&& self.lane_seq().len() == self.node_count()
        &&& forall|i: int| 0 <= i < self.lane_seq().len() ==> #[trigger] self.lane_seq()[i].wf()
    }

    /// An array for `num_nodes` nodes, each lane with room for `num_nodes`
    /// bits per plane, all zero.
    pub fn new(num_nodes: usize) -> (r: Self)
        requires
            num_nodes + 63 <= usize::MAX,
        ensures
            r.wf(),
            r.node_count() == num_nodes,
            forall|i: int|
                0 <= i < num_nodes ==> {
                    &&& (#[trigger] r.lane_seq()[i]).spatial.bit_len() == num_nodes
                    &&& r.lane_seq()[i].spatial.word_seq() == Seq::new(words_for(num_nodes as nat), |j: int| 0u64)
                    &&& r.lane_seq()[i].temporal.word_seq() == Seq::new(words_for(num_nodes as nat), |j: int| 0u64)
                    &&& r.lane_seq()[i].spatial.bits() == Seq::new(num_nodes as nat, |j: int| false)
                    &&& r.lane_seq()[i].temporal.bits() == Seq::new(num_nodes as nat, |j: int| false)
                },
    {
        let mut lanes: Vec<BislicedLane> = Vec::new();
        let mut i: usize = 0;
        while i < num_nodes
            invariant
                i <= num_nodes,
                num_nodes + 63 <= usize::MAX,
                lanes@.len() == i,
                forall|k: int|
                    0 <= k < i ==> {
                        &&& (#[trigger] lanes@[k]).wf()
                        &&& lanes@[k].spatial.bit_len() == num_nodes
                        &&& lanes@[k].spatial.word_seq() == Seq::new(words_for(num_nodes as nat), |j: int| 0u64)
                        &&& lanes@[k].temporal.word_seq() == Seq::new(words_for(num_nodes as nat), |j: int| 0u64)
                        &&& lanes@[k].spatial.bits() == Seq::new(num_nodes as nat, |j: int| false)
                        &&& lanes@[k].temporal.bits() == Seq::new(num_nodes as nat, |j: int| false)
                    },
            decreases num_nodes - i,
        {
            lanes.push(BislicedLane::with_capacity(num_nodes));
            i = i + 1;
        }
        BislicedArray { lanes, num_nodes }
    }

    /// Set the spatial connection from node `from` to node `to`.
    pub fn set_spatial(&mut self, from: usize, to: usize, value: bool)
        requires
            old(self).wf(),
            from < old(self).node_count(),
        ensures
            final(self).wf(),
            final(self).node_count() == old(self).node_count(),
            final(self).lane_seq().len() == old(self).lane_seq().len(),
            forall|i: int| 0 <= i < final(self).lane_seq().len() && i != from ==> #[trigger] final(self).lane_seq()[i] == old(self).lane_seq()[i],
            final(self).lane_seq()[from as int].temporal.word_seq() == old(self).lane_seq()[from as int].temporal.word_seq(),
            final(self).lane_seq()[from as int].temporal.bit_len() == old(self).lane_seq()[from as int].temporal.bit_len(),
            final(self).lane_seq()[from as int].spatial.bit_len() == old(self).lane_seq()[from as int].spatial.bit_len(),
            final(self).lane_seq()[from as int].spatial.bits() == (if to < old(self).lane_seq()[from as int].spatial.bit_len() {
                old(self).lane_seq()[from as int].spatial.bits().update(to as int, value)
            } else {
                old(self).lane_seq()[from as int].spatial.bits()
            }),
    {
        let mut lane = self.lanes[from].clone();
        proof {
            assert(self.lanes@[from as int].wf());
        }
        lane.spatial.set_bit(to, value);
        self.lanes.set(from, lane);
    }

    /// Set the temporal activity from node `from` to node `to`.
    pub fn set_temporal(&mut self, from: usize, to: usize, value: bool)
        requires
            old(self).wf(),
            from < old(self).node_count(),
        ensures
            final(self).wf(),
            final(self).node_count() == old(self).node_count(),
            final(self).lane_seq().len() == old(self).lane_seq().len(),
            forall|i: int| 0 <= i < final(self).lane_seq().len() && i != from ==> #[trigger] final(self).lane_seq()[i] == old(self).lane_seq()[i],
            final(self).lane_seq()[from as int].spatial.word_seq() == old(self).lane_seq()[from as int].spatial.word_seq(),
            final(self).lane_seq()[from as int].spatial.bit_len() == old(self).lane_seq()[from as int].spatial.bit_len(),
            final(self).lane_seq()[from as int].temporal.bit_len() == old(self).lane_seq()[from as int].temporal.bit_len(),
            final(self).lane_seq()[from as int].temporal.bits() == (if to < old(self).lane_seq()[from as int].temporal.bit_len() {
                old(self).lane_seq()[from as int].temporal.bits().update(to as int, value)
            } else {
                old(self).lane_seq()[from as int].temporal.bits()
            }),
    {
        let mut lane = self.lanes[from].clone();
        proof {
            assert(self.lanes@[from as int].wf());
        }
        lane.temporal.set_bit(to, value);
        self.lanes.set(from, lane);
    }

    /// The lane of a node.
    pub fn lane(&self, node: usize) -> (r: &BislicedLane)
        requires
            node < self.lane_seq().len(),
        ensures
            *r == self.lane_seq()[node as int],
    {
        &self.lanes[node]
    }

    /// The lane of a node, for modification.
    pub fn lane_mut(&mut self, node: usize) -> (r: &mut BislicedLane)
        requires
            node < old(self).lane_seq().len(),
        ensures
            *r == old(self).lane_seq()[node as int],
            final(self).lane_seq() == old(self).lane_seq().update(node as int, *final(r)),
            final(self).node_count() == old(self).node_count(),
    {
        &mut self.lanes[node]
    }

    /// Active connections of every lane.
    pub fn evaluate_all(&self) -> (r: Vec<BitslicedLane>)
        requires
            self.wf(),
        ensures
            r@.len() == self.lane_seq().len(),
            forall|i: int|
                0 <= i < r@.len() ==> {
                    &&& (#[trigger] r@[i]).wf()
                    &&& r@[i].bit_len() == self.lane_seq()[i].spatial.bit_len()
                    &&& r@[i].word_seq() == words_and(
                        self.lane_seq()[i].spatial.word_seq(),
                        self.lane_seq()[i].temporal.word_seq(),
                    )
                    &&& r@[i].bits() == Seq::new(
                        self.lane_seq()[i].spatial.bit_len(),
                        |j: int| self.lane_seq()[i].spatial.bit_at(j) && self.lane_seq()[i].temporal.bit_at(j),
                    )
                },
    {
        let mut result: Vec<BitslicedLane> = Vec::new();
        let mut i: usize = 0;
        while i < self.lanes.len()
            invariant
                self.wf(),
                i <= self.lane_seq().len(),
                result@.len() == i,
                forall|k: int|
                    0 <= k < i ==> {
                        &&& (#[trigger] result@[k]).wf()
                        &&& result@[k].bit_len() == self.lane_seq()[k].spatial.bit_len()
                        &&& result@[k].word_seq() == words_and(
                            self.lane_seq()[k].spatial.word_seq(),
                            self.lane_seq()[k].temporal.word_seq(),
                        )
                        &&& result@[k].bits() == Seq::new(
                            self.lane_seq()[k].spatial.bit_len(),
                            |j: int| self.lane_seq()[k].spatial.bit_at(j) && self.lane_seq()[k].temporal.bit_at(j),
                        )
                    },
            decreases self.lane_seq().len() - i,
        {
            proof {
                assert(self.lane_seq()[i as int].wf());
            }
            result.push(self.lanes[i].active_connections());
            i = i + 1;
        }
        result
    }
}

} // verus!

verus! {

/// The value read MSB-first from the first `k` lanes at position `index`:
/// each lane contributes one bit, lane 0 the most significant.
pub open spec fn value_bits(lanes: Seq<BitslicedLane>, index: int, k: nat) -> u64
    decreases k,
{
    if k == 0 {
        0
    } else {
        (value_bits(lanes, index, (k - 1) as nat) << 1u64) | (if lanes[k - 1].bit_at(index) {
            1u64
        } else {
            0u64
        })
    }
}

/// Reading the lanes whose bit `p` is bit `width - 1 - p` of `value` gives
/// back the top `k` of the `width` bits of `value`.
proof fn lemma_value_bits_of(lanes: Seq<BitslicedLane>, index: int, value: u64, width: nat, k: nat)
    requires
        width < 64,
        k <= width,
        value >> (width as u64) == 0,
        forall|p: int|
            0 <= p < k ==> (#[trigger] lanes[p].bit_at(index)) == ((value >> ((width - 1 - p) as u64))
                & 1 != 0),
    ensures
        value_bits(lanes, index, k) == value >> ((width - k) as u64),
    decreases k,
{
    if k > 0 {
        lemma_value_bits_of(lanes, index, value, width, (k - 1) as nat);
        let s = (width - k) as u64;
        let s1 = (width - k + 1) as u64;
        assert(lanes[k - 1].bit_at(index) == ((value >> s) & 1 != 0));
        assert(((value >> s1) << 1u64) | (if (value >> s) & 1 != 0 { 1u64 } else { 0u64 }) == value
            >> s) by (bit_vector)
            requires
                s1 == s + 1,
                s < 64,
        ;
    } else {
        assert(value >> (width as u64) == 0);
    }
}

/// Lanes that agree at two positions give the same value there.
proof fn lemma_value_bits_same(a: Seq<BitslicedLane>, b: Seq<BitslicedLane>, i: int, j: int, k: nat)
    requires
        forall|p: int| 0 <= p < k ==> (#[trigger] a[p].bit_at(i)) == b[p].bit_at(j),
    ensures
        value_bits(a, i, k) == value_bits(b, j, k),
    decreases k,
{
    if k > 0 {
        lemma_value_bits_same(a, b, i, j, (k - 1) as nat);
    }
}

/// Lanes whose bits are the XOR of two families of lanes hold the XOR of
/// their values.
proof fn lemma_value_bits_xor(a: Seq<BitslicedLane>, b: Seq<BitslicedLane>, c: Seq<BitslicedLane>, i: int, k: nat)
    requires
        forall|p: int| 0 <= p < k ==> (#[trigger] c[p].bit_at(i)) == (a[p].bit_at(i) != b[p].bit_at(i)),
    ensures
        value_bits(c, i, k) == value_bits(a, i, k) ^ value_bits(b, i, k),
    decreases k,
{
    if k > 0 {
        lemma_value_bits_xor(a, b, c, i, (k - 1) as nat);
        let x = value_bits(a, i, (k - 1) as nat);
        let y = value_bits(b, i, (k - 1) as nat);
        let ba: u64 = if a[k - 1].bit_at(i) { 1 } else { 0 };
        let bb: u64 = if b[k - 1].bit_at(i) { 1 } else { 0 };
        let bc: u64 = if c[k - 1].bit_at(i) { 1 } else { 0 };
        assert(((x << 1u64) | ba) ^ ((y << 1u64) | bb) == ((x ^ y) << 1u64) | bc) by (bit_vector)
            requires
                ba == 0 || ba == 1,
                bb == 0 || bb == 1,
                bc == (if ba != bb { 1u64 } else { 0u64 }),
        ;
        assert(value_bits(c, i, k) == ((x ^ y) << 1u64) | bc);
    } else {
        assert(0u64 ^ 0u64 == 0u64) by (bit_vector);
    }
}

/// A bitsliced array: `bits_per_value` lanes of `num_values` bits, lane 0
/// holding the most significant bit of every value.
pub struct BitslicedArray {
    lanes: Vec<BitslicedLane>,
    num_values: usize,
    bits_per_value: usize,
}

impl BitslicedArray {
    /// The lanes, most significant first.
    pub closed spec fn lane_seq(&self) -> Seq<BitslicedLane> {
        self.lanes@
    }

    /// Number of values the array holds.
    pub closed spec fn value_count(&self) -> nat {
        self.num_values as nat
    }

    /// Number of bits per value.
    pub closed spec fn value_width(&self) -> nat {
        self.bits_per_value as nat
    }

    /// One well-formed lane per bit, each as long as the number of values.
    pub open spec fn wf(&self) -> bool {
        &&& self.lane_seq().len() == self.value_width()
        &&& forall|i: int|
            0 <= i < self.lane_seq().len() ==> (#[trigger] self.lane_seq()[i]).wf()
                && self.lane_seq()[i].bit_len() == self.value_count()
    }

    /// The value stored at `index`.
    pub open spec fn value_at(&self, index: int) -> u64 {
        value_bits(self.lane_seq(), index, self.value_width())
    }

    /// An array of `num_values` zero values of `bits_per_value` bits.
    pub fn new(bits_per_value: usize, num_values: usize) -> (r: Self)
        requires
            num_values + 63 <= usize::MAX,
        ensures
            r.wf(),
            r.value_count() == num_values,
            r.value_width() == bits_per_value,
            forall|i: int|
                0 <= i < bits_per_value ==> (#[trigger] r.lane_seq()[i]).word_seq() == Seq::new(
                    words_for(num_values as nat),
                    |j: int| 0u64,
                ),
    {
        let mut lanes: Vec<BitslicedLane> = Vec::new();
        let mut i: usize = 0;
        while i < bits_per_value
            invariant
                i <= bits_per_value,
                num_values + 63 <= usize::MAX,
                lanes@.len() == i,
                forall|k: int|
                    0 <= k < i ==> (#[trigger] lanes@[k]).wf() && lanes@[k].bit_len() == num_values
                        && lanes@[k].word_seq() == Seq::new(words_for(num_values as nat), |j: int| 0u64),
            decreases bits_per_value - i,
        {
            lanes.push(BitslicedLane::with_capacity(num_values));
            i = i + 1;
        }
        BitslicedArray { lanes, num_values, bits_per_value }
    }

    /// Store `value` at `index`: lane `p` gets bit `bits_per_value - 1 - p`
    /// of the value.
    pub fn set_value(&mut self, index: usize, value: u64)
        requires
            old(self).wf(),
            index < old(self).value_count(),
            old(self).value_width() < 64,
            value < (1u64 << (old(self).value_width() as u64)),
        ensures
            final(self).wf(),
            final(self).value_count() == old(self).value_count(),
            final(self).value_width() == old(self).value_width(),
            forall|p: int|
                0 <= p < old(self).value_width() ==> (#[trigger] final(self).lane_seq()[p]).bits()
                    == old(self).lane_seq()[p].bits().update(
                    index as int,
                    (value >> ((old(self).value_width() - 1 - p) as u64)) & 1 != 0,
                ),
            final(self).value_at(index as int) == value,
            forall|j: int|
                0 <= j < old(self).value_count() && j != index ==> #[trigger] final(self).value_at(j)
                    == old(self).value_at(j),
    {
        let bpv = self.bits_per_value;
        let mut bit_pos: usize = 0;
        while bit_pos < bpv
            invariant
                bpv == self.bits_per_value,
                bpv == old(self).value_width(),
                bpv < 64,
                index < self.num_values,
                self.num_values == old(self).value_count(),
                self.wf(),
                bit_pos <= bpv,
                forall|p: int|
                    0 <= p < bpv ==> (#[trigger] self.lane_seq()[p]).bits() == (if p < bit_pos {
                        old(self).lane_seq()[p].bits().update(
                            index as int,
                            (value >> ((bpv - 1 - p) as u64)) & 1 != 0,
                        )
                    } else {
                        old(self).lane_seq()[p].bits()
                    }),
            decreases bpv - bit_pos,
        {
            let bit = (value >> ((bpv - 1 - bit_pos) as u64)) & 1 != 0;
            let mut lane = self.lanes[bit_pos].clone();
            proof {
                assert(self.lane_seq()[bit_pos as int].wf());
            }
            lane.set_bit(index, bit);
            self.lanes.set(bit_pos, lane);
            bit_pos = bit_pos + 1;
        }
        proof {
            let w = bpv as u64;
            assert(value >> w == 0) by (bit_vector)
                requires
                    value < (1u64 << w),
                    w < 64,
            ;
            assert forall|p: int| 0 <= p < bpv implies (#[trigger] self.lane_seq()[p].bit_at(index as int))
                == ((value >> ((bpv - 1 - p) as u64)) & 1 != 0) by {
                assert(self.lane_seq()[p].bits()[index as int] == self.lane_seq()[p].bit_at(index as int));
            }
            lemma_value_bits_of(self.lane_seq(), index as int, value, bpv as nat, bpv as nat);
            assert(value >> 0u64 == value) by (bit_vector);
            assert forall|j: int| 0 <= j < old(self).value_count() && j != index implies #[trigger] self.value_at(j)
                == old(self).value_at(j) by {
                assert forall|p: int| 0 <= p < bpv implies (#[trigger] self.lane_seq()[p].bit_at(j))
                    == old(self).lane_seq()[p].bit_at(j) by {
                    assert(self.lane_seq()[p].bits()[j] == self.lane_seq()[p].bit_at(j));
                    assert(old(self).lane_seq()[p].bits()[j] == old(self).lane_seq()[p].bit_at(j));
                }
                lemma_value_bits_same(self.lane_seq(), old(self).lane_seq(), j, j, bpv as nat);
            }
        }
    }

    /// XOR another array of the same shape into this one, lane by lane.
    pub fn xor_merge(&mut self, other: &Self)
        requires
            old(self).wf(),
            other.wf(),
            old(self).value_count() == other.value_count(),
            old(self).value_width() == other.value_width(),
        ensures
            final(self).wf(),
            final(self).value_count() == old(self).value_count(),
            final(self).value_width() == old(self).value_width(),
            forall|p: int|
                0 <= p < old(self).value_width() ==> (#[trigger] final(self).lane_seq()[p]).word_seq()
                    == words_xor(old(self).lane_seq()[p].word_seq(), other.lane_seq()[p].word_seq()),
            forall|j: int| #[trigger] final(self).value_at(j) == old(self).value_at(j) ^ other.value_at(j),
    {
        let n = self.lanes.len();
        let mut i: usize = 0;
        while i < n
            invariant
                n == self.lane_seq().len(),
                n == old(self).value_width(),
                self.wf(),
                other.wf(),
                self.num_values == old(self).value_count(),
                self.bits_per_value == old(self).value_width(),
                self.num_values == other.value_count(),
                self.bits_per_value == other.value_width(),
                i <= n,
                forall|p: int|
                    0 <= p < n ==> (#[trigger] self.lane_seq()[p]).word_seq() == (if p < i {
                        words_xor(old(self).lane_seq()[p].word_seq(), other.lane_seq()[p].word_seq())
                    } else {
                        old(self).lane_seq()[p].word_seq()
                    }),
                forall|p: int| 0 <= p < n ==> (#[trigger] self.lane_seq()[p]).bit_len() == old(self).lane_seq()[p].bit_len(),
            decreases n - i,
        {
            let mut lane = self.lanes[i].clone();
            proof {
                assert(self.lane_seq()[i as int].wf());
                assert(other.lane_seq()[i as int].wf());
            }
            lane.xor_merge(&other.lanes[i]);
            self.lanes.set(i, lane);
            i = i + 1;
        }
        proof {
            assert forall|j: int| #[trigger] self.value_at(j) == old(self).value_at(j) ^ other.value_at(j) by {
                assert forall|p: int| 0 <= p < n implies (#[trigger] self.lane_seq()[p].bit_at(j))
                    == (old(self).lane_seq()[p].bit_at(j) != other.lane_seq()[p].bit_at(j)) by {
                    let a = old(self).lane_seq()[p];
                    let b = other.lane_seq()[p];
                    let nb = a.bit_len();
                    assert(a.wf() && b.wf());
                    if 0 <= j < nb {
                        lemma_xor_bits(a.word_seq(), b.word_seq(), nb);
                        assert(bits_of(words_xor(a.word_seq(), b.word_seq()), nb)[j] == self.lane_seq()[p].bit_at(j));
                        assert(bits_of(a.word_seq(), nb)[j] == a.bit_at(j));
                        assert(bits_of(b.word_seq(), nb)[j] == b.bit_at(j));
                    }
                }
                lemma_value_bits_xor(old(self).lane_seq(), other.lane_seq(), self.lane_seq(), j, n as nat);
            }
        }
    }

    /// A lane by bit position (0 is the most significant).
    pub fn lane(&self, bit_pos: usize) -> (r: &BitslicedLane)
        requires
            bit_pos < self.lane_seq().len(),
        ensures
            *r == self.lane_seq()[bit_pos as int],
    {
        &self.lanes[bit_pos]
    }

    /// A lane by bit position, for modification.
    pub fn lane_mut(&mut self, bit_pos: usize) -> (r: &mut BitslicedLane)
        requires
            bit_pos < old(self).lane_seq().len(),
        ensures
            *r == old(self).lane_seq()[bit_pos as int],
            final(self).lane_seq() == old(self).lane_seq().update(bit_pos as int, *final(r)),
            final(self).value_count() == old(self).value_count(),
            final(self).value_width() == old(self).value_width(),
    {
        &mut self.lanes[bit_pos]
    }

    /// The value stored at `index`.
    pub fn get_value(&self, index: usize) -> (r: u64)
        requires
            self.wf(),
            index < self.value_count(),
            self.value_width() <= 64,
        ensures
            r == self.value_at(index as int),
    {
        let bpv = self.bits_per_value;
        let mut value: u64 = 0;
        let mut bit_pos: usize = 0;
        proof {
            let k = bpv as u64;
            assert(0u64 << k == 0 && 0u64 >> 0u64 == 0) by (bit_vector);
        }
        while bit_pos < bpv
            invariant
                bpv == self.value_width(),
                bpv <= 64,
                self.wf(),
                bit_pos <= bpv,
                value == value_bits(self.lane_seq(), index as int, bit_pos as nat) << ((bpv - bit_pos) as u64),
                value_bits(self.lane_seq(), index as int, bit_pos as nat) >> (bit_pos as u64) == 0,
            decreases bpv - bit_pos,
        {
            proof {
                assert(self.lane_seq()[bit_pos as int].wf());
            }
            let b = self.lanes[bit_pos].get_bit(index);
            let ghost x = value_bits(self.lane_seq(), index as int, bit_pos as nat);
            let ghost bb: u64 = if b { 1u64 } else { 0u64 };
            let s = (bpv - 1 - bit_pos) as u64;
            let p = bit_pos as u64;
            let ghost v0 = value;
            if b {
                value = value | (1u64 << s);
            }
            proof {
                assert(value_bits(self.lane_seq(), index as int, (bit_pos + 1) as nat) == (x << 1u64) | bb);
                assert(s + 1 == bpv - bit_pos);
                let s1 = (s + 1) as u64;
                assert(v0 == x << s1);
                assert(value == ((x << 1u64) | bb) << s
                    && ((x << 1u64) | bb) >> ((p + 1) as u64) == 0) by (bit_vector)
                    requires
                        x >> p == 0,
                        bb == 0 || bb == 1,
                        s + p + 1 <= 64,
                        s1 == s + 1,
                        v0 == x << s1,
                        value == (if bb == 1 { v0 | (1u64 << s) } else { v0 }),
                        p < 64,
                        s < 64,
                ;
            }
            bit_pos = bit_pos + 1;
        }
        proof {
            let x = value_bits(self.lane_seq(), index as int, bpv as nat);
            assert(x << 0u64 == x) by (bit_vector);
        }
        value
    }
}

} // verus!
