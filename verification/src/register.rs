//! Registers: the fundamental unit of the fabric.
//!
//! A register carries a bitsliced payload and self-describing metadata: its
//! address, an XOR lineage fingerprint, an echo counter, a bloom anchor, a
//! schema version and a checksum anchor. Compound registers combine several
//! base registers into a wider one, and records attach named fields to a
//! compound register.

use vstd::prelude::*;
use std::collections::hash_map::DefaultHasher;
use std::hash::Hasher;
use sha2::{Digest, Sha256};
use vstd::std_specs::hash::DefaultHasherAdditionalSpecFns;
use crate::address::{RegisterAddress, address_text};
use crate::bitslice::{BitslicedLane, words_xor, word_bit};
use crate::text::{decimal, decimal_string, hex_fixed, hex_string};
use crate::hashing::{
    hash_u128, hash_u8_slice, hash_u64_slice, hash_usize, u128_hash_chunks, u8_slice_hash_chunks,
    u64_slice_hash_chunks, usize_hash_chunks,
};

verus! {

/// Schema version written into every register.
pub const SCHEMA_VERSION: u8 = 0;

/// The constant folded into every lineage fingerprint.
pub const LINEAGE_SALT: u128 = 0xDEAD_BEEF_CAFE_BABE;

// ── Hash and checksum model ─────────────────────────────────────────────────

/// A 64-bit hash repeated in both halves of a 128-bit word.
pub open spec fn spread64(r: u64) -> u128 {
    (r as u128) | ((r as u128) << 64u32)
}

/// The hash of an address word: `DefaultHasher` over the address, spread to
/// 128 bits.
pub open spec fn address_hash(bits: u128) -> u128 {
    spread64(DefaultHasher::spec_finish(u128_hash_chunks(bits)))
}

/// The hash of a byte string: `DefaultHasher` over the byte slice, spread
/// to 128 bits.
pub open spec fn bytes_hash(bytes: Seq<u8>) -> u128 {
    spread64(DefaultHasher::spec_finish(u8_slice_hash_chunks(bytes)))
}

/// The external byte form of the first `n` bits of `words`: one byte per
/// bit, 0x80 for a set bit and 0x00 otherwise.
pub open spec fn words_bytes(words: Seq<u64>, n: nat) -> Seq<u8> {
    Seq::new(n, |i: int| if word_bit(words[i / 64], i % 64) { 0x80u8 } else { 0x00u8 })
}

/// The external byte form of a lane.
pub open spec fn lane_bytes(lane: BitslicedLane) -> Seq<u8> {
    words_bytes(lane.word_seq(), lane.bit_len())
}

/// `as_bytes` gives the lane's external byte form.
proof fn lemma_as_bytes(lane: BitslicedLane, bytes: Seq<u8>)
    requires
        bytes == Seq::new(lane.bit_len(), |i: int| if lane.bit_at(i) { 0x80u8 } else { 0x00u8 }),
    ensures
        bytes == lane_bytes(lane),
{
    assert(bytes =~= lane_bytes(lane));
}

/// The lineage of a fresh register: the address hash, the payload hash and
/// the salt, XORed together.
pub open spec fn lineage_of(address: u128, payload: BitslicedLane) -> u128 {
    address_hash(address) ^ bytes_hash(lane_bytes(payload)) ^ LINEAGE_SALT
}

/// The bloom anchor of a register: `DefaultHasher` over the address word,
/// then the payload's words and bit count.
pub open spec fn anchor_of(address: u128, payload: BitslicedLane) -> u64 {
    DefaultHasher::spec_finish(
        u128_hash_chunks(address) + u64_slice_hash_chunks(payload.word_seq()) + usize_hash_chunks(
            payload.bit_len() as usize,
        ),
    )
}

/// The hash of a lane alone (its words, then its bit count), spread to 128
/// bits.
pub open spec fn lane_hash(lane: BitslicedLane) -> u128 {
    spread64(
        DefaultHasher::spec_finish(
            u64_slice_hash_chunks(lane.word_seq()) + usize_hash_chunks(lane.bit_len() as usize),
        ),
    )
}

/// The little-endian value of the first eight bytes of `s`.
pub open spec fn le_u64_value(s: Seq<u8>) -> int {
    s[0] + s[1] * 0x100 + s[2] * 0x1_0000 + s[3] * 0x100_0000 + s[4] * 0x1_0000_0000 + s[5]
        * 0x100_0000_0000 + s[6] * 0x1_0000_0000_0000 + s[7] * 0x100_0000_0000_0000
}

/// The SHA-256 digest of a byte string.
pub uninterp spec fn sha256_digest(data: Seq<u8>) -> Seq<u8>;

/// The checksum of a byte string: the first eight bytes of its SHA-256
/// digest, read little-endian.
pub open spec fn checksum_of(bytes: Seq<u8>) -> u64 {
    le_u64_value(sha256_digest(bytes)) as u64
}

/// Calls `sha2::Sha256::digest`. The claim is that the result is the
/// digest named by `sha256_digest` for these bytes and, as SHA-256's fixed
/// output size says, 32 bytes long.
#[verifier::external_body]
fn sha256(data: &[u8]) -> (r: Vec<u8>)
    ensures
        r@ == sha256_digest(data@),
        r@.len() == 32,
{
    Sha256::digest(data).to_vec()
}

/// `r` in both halves of a 128-bit word.
fn spread(r: u64) -> (x: u128)
    ensures
        x == spread64(r),
{
    (r as u128) | ((r as u128) << 64u32)
}

/// The little-endian value of the first eight bytes.
fn le_u64(d: &[u8]) -> (r: u64)
    requires
        d.len() >= 8,
    ensures
        r == le_u64_value(d@),
{
    let v: u64 = (d[0] as u64) + (d[1] as u64) * 0x100 + (d[2] as u64) * 0x1_0000 + (d[3] as u64)
        * 0x100_0000 + (d[4] as u64) * 0x1_0000_0000 + (d[5] as u64) * 0x100_0000_0000 + (d[6] as u64)
        * 0x1_0000_0000_0000 + (d[7] as u64) * 0x100_0000_0000_0000;
    v
}

/// The hash of an address word.
fn hash_address(bits: u128) -> (x: u128)
    ensures
        x == address_hash(bits),
{
    let mut h = DefaultHasher::new();
    hash_u128(&mut h, bits);
    proof {
        assert(h@ =~= u128_hash_chunks(bits));
    }
    spread(h.finish())
}

/// The hash of a byte string.
fn hash_bytes(bytes: &[u8]) -> (x: u128)
    ensures
        x == bytes_hash(bytes@),
{
    let mut h = DefaultHasher::new();
    hash_u8_slice(&mut h, bytes);
    proof {
        assert(h@ =~= u8_slice_hash_chunks(bytes@));
    }
    spread(h.finish())
}

/// The hash of a lane's external byte form.
fn hash_payload(payload: &BitslicedLane) -> (x: u128)
    requires
        payload.wf(),
    ensures
        x == bytes_hash(lane_bytes(*payload)),
{
    let bytes = payload.as_bytes();
    proof {
        lemma_as_bytes(*payload, bytes@);
    }
    hash_bytes(bytes.as_slice())
}

/// The hash of a lane's words and bit count.
fn hash_lane(lane: &BitslicedLane) -> (x: u128)
    ensures
        x == lane_hash(*lane),
{
    let mut h = DefaultHasher::new();
    hash_u64_slice(&mut h, lane.words());
    hash_usize(&mut h, lane.len());
    proof {
        assert(h@ =~= u64_slice_hash_chunks(lane.word_seq()) + usize_hash_chunks(
            lane.bit_len() as usize,
        ));
    }
    spread(h.finish())
}

/// The checksum of a lane's external byte form.
fn compute_checksum(payload: &BitslicedLane) -> (c: u64)
    requires
        payload.wf(),
    ensures
        c == checksum_of(lane_bytes(*payload)),
{
    let bytes = payload.as_bytes();
    proof {
        lemma_as_bytes(*payload, bytes@);
    }
    let digest = sha256(bytes.as_slice());
    le_u64(digest.as_slice())
}

/// The lineage of a fresh register with this address and payload.
fn compute_initial_lineage(address: &RegisterAddress, payload: &BitslicedLane) -> (x: u128)
    requires
        payload.wf(),
    ensures
        x == lineage_of(address@, *payload),
{
    let addr_hash = hash_address(address.bits());
    let payload_hash = hash_payload(payload);
    addr_hash ^ payload_hash ^ LINEAGE_SALT
}

/// The bloom anchor of a register with this address and payload.
fn compute_bloom_anchor(address: &RegisterAddress, payload: &BitslicedLane) -> (x: u64)
    ensures
        x == anchor_of(address@, *payload),
{
    let mut h = DefaultHasher::new();
    hash_u128(&mut h, address.bits());
    hash_u64_slice(&mut h, payload.words());
    hash_usize(&mut h, payload.len());
    proof {
        assert(h@ =~= u128_hash_chunks(address@) + u64_slice_hash_chunks(payload.word_seq())
            + usize_hash_chunks(payload.bit_len() as usize));
    }
    h.finish()
}

// ── Register ────────────────────────────────────────────────────────────────

/// A register of the data plane: every weight, KV-cache entry, activation
/// or control record lives in one.
#[derive(Debug)]
pub struct Register {
    /// Self-describing position in the fabric.
    pub address: RegisterAddress,
    /// The payload, stored bitsliced.
    pub payload: BitslicedLane,
    /// XOR lineage fingerprint.
    pub xor_lineage: u128,
    /// How many propagation steps this register has seen (saturating).
    pub echo_counter: u8,
    /// Hash anchor under which sectors attach bloom filters.
    pub bloom_anchor: u64,
    /// Schema version.
    pub version: u8,
    /// Checksum of the payload's byte form.
    pub checksum_anchor: u64,
}

/// The abstract value of a register: its fields, with the payload as its
/// words and bit count.
pub struct RegisterModel {
    pub address: u128,
    pub words: Seq<u64>,
    pub bit_len: nat,
    pub xor_lineage: u128,
    pub echo_counter: u8,
    pub bloom_anchor: u64,
    pub version: u8,
    pub checksum_anchor: u64,
}

impl View for Register {
    type V = RegisterModel;

    open spec fn view(&self) -> RegisterModel {
        RegisterModel {
            address: self.address@,
            words: self.payload.word_seq(),
            bit_len: self.payload.bit_len(),
            xor_lineage: self.xor_lineage,
            echo_counter: self.echo_counter,
            bloom_anchor: self.bloom_anchor,
            version: self.version,
            checksum_anchor: self.checksum_anchor,
        }
    }
}

/// A register after `update_with_delta` with a delta of words `delta`: the
/// payload XORed, the lineage trading the old payload's hash for the new
/// one's, the echo counter up by one (saturating), the checksum recomputed.
pub open spec fn model_after_delta(m: RegisterModel, delta: Seq<u64>) -> RegisterModel {
    let w = words_xor(m.words, delta);
    RegisterModel {
        words: w,
        xor_lineage: m.xor_lineage ^ bytes_hash(words_bytes(m.words, m.bit_len)) ^ bytes_hash(
            words_bytes(w, m.bit_len),
        ),
        echo_counter: saturating_inc(m.echo_counter),
        checksum_anchor: checksum_of(words_bytes(w, m.bit_len)),
        ..m
    }
}

/// The abstract value of `Register::new(address, payload)`.
pub open spec fn fresh_model(address: u128, payload: BitslicedLane) -> RegisterModel {
    RegisterModel {
        address,
        words: payload.word_seq(),
        bit_len: payload.bit_len(),
        xor_lineage: lineage_of(address, payload),
        echo_counter: 0,
        bloom_anchor: anchor_of(address, payload),
        version: SCHEMA_VERSION,
        checksum_anchor: checksum_of(lane_bytes(payload)),
    }
}

/// `c + 1`, saturating at 255.
pub open spec fn saturating_inc(c: u8) -> u8 {
    if c < 255 {
        (c + 1) as u8
    } else {
        255
    }
}

/// The sixteen little-endian bytes of `x`.
pub open spec fn u128_le(x: u128) -> Seq<u8> {
    Seq::new(16, |i: int| (x >> ((8 * i) as u128)) as u8)
}

/// The eight little-endian bytes of `x`.
pub open spec fn u64_le(x: u64) -> Seq<u8> {
    Seq::new(8, |i: int| (x >> ((8 * i) as u64)) as u8)
}

/// The byte form of a register: the address word, the payload bytes, the
/// lineage (all little-endian), the echo counter, the bloom anchor, the
/// version, the phase's bit pattern and the checksum.
pub open spec fn register_bytes(r: RegisterModel, payload: Seq<u8>, phase_bits: u64) -> Seq<u8> {
    u128_le(r.address) + payload + u128_le(r.xor_lineage) + seq![r.echo_counter] + u64_le(
        r.bloom_anchor,
    ) + seq![r.version] + u64_le(phase_bits) + u64_le(r.checksum_anchor)
}

/// Append the little-endian bytes of `x`.
fn push_u128_le(out: &mut Vec<u8>, x: u128)
    ensures
        final(out)@ == old(out)@ + u128_le(x),
{
    let ghost start = out@;
    let mut i: usize = 0;
    while i < 16
        invariant
            i <= 16,
            out@ == start + u128_le(x).subrange(0, i as int),
        decreases 16 - i,
    {
        let b = (x >> ((8 * i) as u128)) as u8;
        out.push(b);
        proof {
            assert(u128_le(x).subrange(0, i + 1) =~= u128_le(x).subrange(0, i as int).push(b));
        }
        i = i + 1;
    }
    proof {
        assert(u128_le(x).subrange(0, 16) =~= u128_le(x));
    }
}

/// Append the little-endian bytes of `x`.
fn push_u64_le(out: &mut Vec<u8>, x: u64)
    ensures
        final(out)@ == old(out)@ + u64_le(x),
{
    let ghost start = out@;
    let mut i: usize = 0;
    while i < 8
        invariant
            i <= 8,
            out@ == start + u64_le(x).subrange(0, i as int),
        decreases 8 - i,
    {
        let b = (x >> ((8 * i) as u64)) as u8;
        out.push(b);
        proof {
            assert(u64_le(x).subrange(0, i + 1) =~= u64_le(x).subrange(0, i as int).push(b));
        }
        i = i + 1;
    }
    proof {
        assert(u64_le(x).subrange(0, 8) =~= u64_le(x));
    }
}

impl Register {
    /// The register's payload is a well-formed lane.
    pub open spec fn wf(&self) -> bool {
        self.payload.wf()
    }

    /// The lineage matches the one recomputed from address and payload.
    pub open spec fn spec_lineage_consistent(&self) -> bool {
        self.xor_lineage == lineage_of(self.address@, self.payload)
    }

    /// The checksum matches the one recomputed from the payload.
    pub open spec fn spec_checksum_valid(&self) -> bool {
        self.checksum_anchor == checksum_of(lane_bytes(self.payload))
    }

    /// A new register with the given address and payload: echo counter 0,
    /// current schema version, lineage, bloom anchor and checksum computed
    /// from address and payload.
    pub fn new(address: RegisterAddress, payload: BitslicedLane) -> (r: Self)
        requires
            payload.wf(),
        ensures
            r.wf(),
            r.address == address,
            r.payload == payload,
            r.xor_lineage == lineage_of(address@, payload),
            r.echo_counter == 0,
            r.bloom_anchor == anchor_of(address@, payload),
            r.version == SCHEMA_VERSION,
            r.checksum_anchor == checksum_of(lane_bytes(payload)),
            r.spec_lineage_consistent(),
            r.spec_checksum_valid(),
            r@ == fresh_model(address@, payload),
    {
        let bloom_anchor = compute_bloom_anchor(&address, &payload);
        let checksum_anchor = compute_checksum(&payload);
        let xor_lineage = compute_initial_lineage(&address, &payload);
        Register {
            address,
            payload,
            xor_lineage,
            echo_counter: 0,
            bloom_anchor,
            version: SCHEMA_VERSION,
            checksum_anchor,
        }
    }

    /// A register whose payload is `BitslicedLane::from_bytes(data)`.
    pub fn from_bytes(address: RegisterAddress, data: &[u8]) -> (r: Self)
        requires
            data.len() + 63 <= usize::MAX,
        ensures
            r.wf(),
            r.address == address,
            r.payload.bit_len() == data.len(),
            r.payload.bits() == Seq::new(data.len() as nat, |i: int| data@[i] & 0x80 != 0),
            r.xor_lineage == lineage_of(address@, r.payload),
            r.echo_counter == 0,
            r.bloom_anchor == anchor_of(address@, r.payload),
            r.version == SCHEMA_VERSION,
            r.checksum_anchor == checksum_of(lane_bytes(r.payload)),
    {
        let payload = BitslicedLane::from_bytes(data);
        Self::new(address, payload)
    }

    /// Whether the lineage matches the one recomputed from address and
    /// payload (false means corruption).
    pub fn lineage_consistent(&self) -> (r: bool)
        requires
            self.wf(),
        ensures
            r == self.spec_lineage_consistent(),
    {
        let expected = compute_initial_lineage(&self.address, &self.payload);
        self.xor_lineage == expected
    }

    /// Whether the checksum matches the one recomputed from the payload.
    pub fn checksum_valid(&self) -> (r: bool)
        requires
            self.wf(),
        ensures
            r == self.spec_checksum_valid(),
    {
        let c = compute_checksum(&self.payload);
        self.checksum_anchor == c
    }

    /// XOR-merge `delta` into the payload. The lineage trades the old
    /// payload's hash for the new one's, so a consistent lineage stays
    /// consistent; the echo counter goes up by one (saturating) and the
    /// checksum is recomputed.
    pub fn update_with_delta(&mut self, delta: &BitslicedLane)
        requires
            old(self).wf(),
            delta.wf(),
            delta.bit_len() == old(self).payload.bit_len(),
        ensures
            final(self).wf(),
            final(self).address == old(self).address,
            final(self).payload.bit_len() == old(self).payload.bit_len(),
            final(self).payload.word_seq() == words_xor(
                old(self).payload.word_seq(),
                delta.word_seq(),
            ),
            final(self).xor_lineage == old(self).xor_lineage ^ bytes_hash(
                lane_bytes(old(self).payload),
            ) ^ bytes_hash(lane_bytes(final(self).payload)),
            final(self).echo_counter == saturating_inc(old(self).echo_counter),
            final(self).bloom_anchor == old(self).bloom_anchor,
            final(self).version == old(self).version,
            final(self).checksum_anchor == checksum_of(lane_bytes(final(self).payload)),
            final(self).spec_checksum_valid(),
            old(self).spec_lineage_consistent() ==> final(self).spec_lineage_consistent(),
            final(self)@ == model_after_delta(old(self)@, delta.word_seq()),
    {
        let old_hash = hash_payload(&self.payload);
        self.payload.xor_merge(delta);
        let new_hash = hash_payload(&self.payload);
        let lineage = self.xor_lineage ^ old_hash ^ new_hash;
        let echo = if self.echo_counter < 255 {
            self.echo_counter + 1
        } else {
            255
        };
        let checksum = compute_checksum(&self.payload);
        self.xor_lineage = lineage;
        self.echo_counter = echo;
        self.checksum_anchor = checksum;
        proof {
            let a = address_hash(self.address@);
            let ho = old_hash;
            let hn = new_hash;
            let s = LINEAGE_SALT;
            assert((a ^ ho ^ s) ^ ho ^ hn == a ^ hn ^ s) by (bit_vector);
        }
    }

    /// Fold another register into this one: its payload is applied as a
    /// delta, then its lineage is XORed in.
    pub fn fold_with(&mut self, other: &Register)
        requires
            old(self).wf(),
            other.wf(),
            other.payload.bit_len() == old(self).payload.bit_len(),
        ensures
            final(self).wf(),
            final(self).address == old(self).address,
            final(self).payload.bit_len() == old(self).payload.bit_len(),
            final(self).payload.word_seq() == words_xor(
                old(self).payload.word_seq(),
                other.payload.word_seq(),
            ),
            final(self).xor_lineage == old(self).xor_lineage ^ bytes_hash(
                lane_bytes(old(self).payload),
            ) ^ bytes_hash(lane_bytes(final(self).payload)) ^ other.xor_lineage,
            final(self).echo_counter == saturating_inc(old(self).echo_counter),
            final(self).bloom_anchor == old(self).bloom_anchor,
            final(self).version == old(self).version,
            final(self).spec_checksum_valid(),
    {
        self.update_with_delta(&other.payload);
        self.xor_lineage = self.xor_lineage ^ other.xor_lineage;
    }

    /// The payload's external byte form.
    pub fn payload_bytes(&self) -> (r: Vec<u8>)
        requires
            self.wf(),
        ensures
            r@ == lane_bytes(self.payload),
    {
        let bytes = self.payload.as_bytes();
        proof {
            lemma_as_bytes(self.payload, bytes@);
        }
        bytes
    }

    /// The register as raw bytes, for serialisation: the address word, the
    /// payload bytes, the lineage, the echo counter, the bloom anchor, the
    /// version, `phase_bits` (the bit pattern of the register's phase) and
    /// the checksum, integers little-endian.
    pub fn to_bytes(&self, phase_bits: u64) -> (r: Vec<u8>)
        requires
            self.wf(),
        ensures
            r@ == register_bytes(self@, lane_bytes(self.payload), phase_bits),
    {
        let mut out: Vec<u8> = Vec::new();
        push_u128_le(&mut out, self.address.bits());
        let payload = self.payload_bytes();
        let mut i: usize = 0;
        let ghost before = out@;
        while i < payload.len()
            invariant
                i <= payload@.len(),
                out@ == before + payload@.subrange(0, i as int),
            decreases payload@.len() - i,
        {
            out.push(payload[i]);
            proof {
                assert(payload@.subrange(0, i + 1) =~= payload@.subrange(0, i as int).push(payload@[i as int]));
            }
            i = i + 1;
        }
        proof {
            assert(payload@.subrange(0, i as int) =~= payload@);
        }
        push_u128_le(&mut out, self.xor_lineage);
        out.push(self.echo_counter);
        push_u64_le(&mut out, self.bloom_anchor);
        out.push(self.version);
        push_u64_le(&mut out, phase_bits);
        push_u64_le(&mut out, self.checksum_anchor);
        proof {
            assert(out@ =~= register_bytes(self@, lane_bytes(self.payload), phase_bits));
        }
        out
    }

    /// The register's display form: `Register[<address>] payload=<bits>bytes
    /// lineage=0x<32 hex> echo=<n> bloom=0x<16 hex> v<version>`.
    pub fn to_display_string(&self) -> (r: String)
        ensures
            r@ == "Register["@ + address_text(self.address@) + "] payload="@ + decimal(
                self.payload.bit_len(),
            ) + "bytes lineage=0x"@ + hex_fixed(self.xor_lineage as nat, 32, true) + " echo="@
                + decimal(self.echo_counter as nat) + " bloom=0x"@ + hex_fixed(
                self.bloom_anchor as nat,
                16,
                true,
            ) + " v"@ + decimal(self.version as nat),
    {
        let mut s = String::from_str("Register[");
        s.append(self.address.to_display_string().as_str());
        s.append("] payload=");
        s.append(decimal_string(self.payload.len() as u64).as_str());
        s.append("bytes lineage=0x");
        s.append(hex_string(self.xor_lineage, 32, true).as_str());
        s.append(" echo=");
        s.append(decimal_string(self.echo_counter as u64).as_str());
        s.append(" bloom=0x");
        s.append(hex_string(self.bloom_anchor as u128, 16, true).as_str());
        s.append(" v");
        s.append(decimal_string(self.version as u64).as_str());
        s
    }

    /// Hot registers sit in the innermost layers (below 4).
    pub fn is_hot(&self) -> (r: bool)
        ensures
            r == (crate::address::field_of(self.address@, 16) < 4),
    {
        self.address.layer() < 4
    }

    /// Cold registers sit in the outer layers (above 12).
    pub fn is_cold(&self) -> (r: bool)
        ensures
            r == (crate::address::field_of(self.address@, 16) > 12),
    {
        self.address.layer() > 12
    }

    /// Count one more received propagation (saturating).
    pub fn record_echo(&mut self)
        ensures
            final(self).echo_counter == saturating_inc(old(self).echo_counter),
            final(self).address == old(self).address,
            final(self).payload == old(self).payload,
            final(self).xor_lineage == old(self).xor_lineage,
            final(self).bloom_anchor == old(self).bloom_anchor,
            final(self).version == old(self).version,
            final(self).checksum_anchor == old(self).checksum_anchor,
    {
        if self.echo_counter < 255 {
            self.echo_counter = self.echo_counter + 1;
        }
    }

    /// Reset the echo counter to zero.
    pub fn reset_echo(&mut self)
        ensures
            final(self).echo_counter == 0,
            final(self).address == old(self).address,
            final(self).payload == old(self).payload,
            final(self).xor_lineage == old(self).xor_lineage,
            final(self).bloom_anchor == old(self).bloom_anchor,
            final(self).version == old(self).version,
            final(self).checksum_anchor == old(self).checksum_anchor,
    {
        self.echo_counter = 0;
    }
}

/// Applying the same delta twice restores the payload and the lineage, and
/// leaves the checksum of the restored payload.
pub proof fn lemma_delta_twice(m: RegisterModel, delta: Seq<u64>)
    ensures
        model_after_delta(model_after_delta(m, delta), delta).words == m.words,
        model_after_delta(model_after_delta(m, delta), delta).xor_lineage == m.xor_lineage,
        model_after_delta(model_after_delta(m, delta), delta).checksum_anchor == checksum_of(
            words_bytes(m.words, m.bit_len),
        ),
        model_after_delta(model_after_delta(m, delta), delta).echo_counter == saturating_inc(
            saturating_inc(m.echo_counter),
        ),
        model_after_delta(model_after_delta(m, delta), delta).address == m.address,
        model_after_delta(model_after_delta(m, delta), delta).bit_len == m.bit_len,
{
    crate::bitslice::lemma_xor_involution(m.words, delta);
    let w1 = words_xor(m.words, delta);
    let l = m.xor_lineage;
    let h0 = bytes_hash(words_bytes(m.words, m.bit_len));
    let h1 = bytes_hash(words_bytes(w1, m.bit_len));
    assert((l ^ h0 ^ h1) ^ h1 ^ h0 == l) by (bit_vector);
}

impl Clone for Register {
    /// A register with the same fields and a copy of the payload.
    fn clone(&self) -> (r: Self)
        ensures
            r.address == self.address,
            r.payload.word_seq() == self.payload.word_seq(),
            r.payload.bit_len() == self.payload.bit_len(),
            r.xor_lineage == self.xor_lineage,
            r.echo_counter == self.echo_counter,
            r.bloom_anchor == self.bloom_anchor,
            r.version == self.version,
            r.checksum_anchor == self.checksum_anchor,
    {
        Register {
            address: self.address,
            payload: self.payload.clone(),
            xor_lineage: self.xor_lineage,
            echo_counter: self.echo_counter,
            bloom_anchor: self.bloom_anchor,
            version: self.version,
            checksum_anchor: self.checksum_anchor,
        }
    }
}


// ── Compound registers ──────────────────────────────────────────────────────

/// How base registers are combined into a compound register.
#[derive(Clone, Copy, Debug, PartialEq, Eq, Structural)]
pub enum CombiningMethod {
    /// Payload is the XOR of the bases' payloads; lineage the XOR of their
    /// lineages.
    XorChain,
    /// Payload is the concatenation of the bases' bits.
    Sequential,
    /// Bit `i` comes from base `i % N` at position `i / N`.
    Interleaved,
    /// Significance-ordered bases, stored as the concatenation.
    Layered,
}

impl CombiningMethod {
    /// Number of 64-bit bases that hold `precision_bits` bits (as a `u8`, so
    /// reduced modulo 256).
    pub fn bases_for_precision(&self, precision_bits: u16) -> (r: u8)
        requires
            precision_bits + 63 <= u16::MAX,
        ensures
            r == ((precision_bits + 63) / 64) % 256,
    {
        let q = (precision_bits + 63) / 64;
        (q % 256) as u8
    }

    /// Precision in bits of `base_count` 64-bit bases.
    pub fn precision_for_bases(&self, base_count: u8) -> (r: u16)
        ensures
            r == base_count * 64,
    {
        (base_count as u16) * 64
    }
}

/// The base count recorded for `n` base registers (a `u8`, so `n` modulo
/// 256).
pub open spec fn base_count_for(n: nat) -> u8 {
    (n % 256) as u8
}

/// XOR of the payload words of the first `k` registers (the first one's
/// words when `k <= 1`).
pub open spec fn xor_payload_words(regs: Seq<Register>, k: int) -> Seq<u64>
    decreases k,
{
    if k <= 1 {
        regs[0].payload.word_seq()
    } else {
        words_xor(xor_payload_words(regs, k - 1), regs[k - 1].payload.word_seq())
    }
}

/// XOR of the lineages of the first `k` registers.
pub open spec fn lineage_xor(regs: Seq<Register>, k: int) -> u128
    decreases k,
{
    if k <= 0 {
        0
    } else if k == 1 {
        regs[0].xor_lineage
    } else {
        lineage_xor(regs, k - 1) ^ regs[k - 1].xor_lineage
    }
}

/// Bit `i` of the XOR of the payloads of the first `k` registers.
pub open spec fn xor_chain_bit(regs: Seq<Register>, k: int, i: int) -> bool
    decreases k,
{
    if k <= 1 {
        regs[0].payload.bit_at(i)
    } else {
        xor_chain_bit(regs, k - 1, i) != regs[k - 1].payload.bit_at(i)
    }
}

/// The first `k` bit sequences, concatenated.
pub open spec fn concat_bits(lanes: Seq<Seq<bool>>, k: int) -> Seq<bool>
    decreases k,
{
    if k <= 0 {
        Seq::empty()
    } else {
        concat_bits(lanes, k - 1) + lanes[k - 1]
    }
}

/// The payload bits of each register.
pub open spec fn payload_bits(regs: Seq<Register>) -> Seq<Seq<bool>> {
    Seq::new(regs.len(), |i: int| regs[i].payload.bits())
}

/// `total` bits laid out sequentially from the concatenation of `lanes`,
/// padded with zeros (or cut short).
pub open spec fn sequential_bits(lanes: Seq<Seq<bool>>, total: nat) -> Seq<bool> {
    let c = concat_bits(lanes, lanes.len() as int);
    Seq::new(total, |j: int| j < c.len() && c[j])
}

/// `total` bits interleaved from `n` registers: bit `i` is bit `i / n` of
/// register `i % n` (zero past its end).
pub open spec fn interleaved_bits(regs: Seq<Register>, n: nat, total: nat) -> Seq<bool> {
    Seq::new(total, |i: int| regs[i % (n as int)].payload.bit_at(i / (n as int)))
}

/// XOR of the lineages of the first `k` lookups that found a register.
pub open spec fn found_lineage_xor(found: Seq<Option<Register>>, k: int) -> u128
    decreases k,
{
    if k <= 0 {
        0
    } else {
        match found[k - 1] {
            Some(reg) => found_lineage_xor(found, k - 1) ^ reg.xor_lineage,
            None => found_lineage_xor(found, k - 1),
        }
    }
}

/// An extended-precision register: several base registers combined into
/// one wider value.
#[derive(Clone, Debug)]
pub struct CompoundRegister {
    /// The combining method used.
    pub combining: CombiningMethod,
    /// Number of base registers (modulo 256).
    pub base_count: u8,
    /// Total precision in bits (`base_count * 64`).
    pub precision_bits: u16,
    /// The primary base address, used for routing and lookup.
    pub primary_address: RegisterAddress,
    /// Addresses of all constituent bases.
    pub base_addresses: Vec<RegisterAddress>,
    /// The effective payload, computed from the bases.
    pub payload: BitslicedLane,
    /// XOR lineage.
    pub xor_lineage: u128,
    /// Schema version.
    pub version: u8,
}

/// XOR of the payloads of all registers.
fn xor_chain_payload(regs: &[Register]) -> (r: BitslicedLane)
    requires
        regs.len() >= 1,
        forall|i: int| 0 <= i < regs.len() ==> #[trigger] regs@[i].wf(),
        forall|i: int|
            0 <= i < regs.len() ==> #[trigger] regs@[i].payload.bit_len()
                == regs@[0].payload.bit_len(),
    ensures
        r.wf(),
        r.bit_len() == regs@[0].payload.bit_len(),
        r.word_seq() == xor_payload_words(regs@, regs.len() as int),
        r.bits() == Seq::new(r.bit_len(), |i: int| xor_chain_bit(regs@, regs.len() as int, i)),
{
    assert(regs@[0].wf());
    let mut result = regs[0].payload.clone();
    let mut k: usize = 1;
    while k < regs.len()
        invariant
            1 <= k <= regs.len(),
            forall|i: int| 0 <= i < regs.len() ==> #[trigger] regs@[i].wf(),
            forall|i: int|
                0 <= i < regs.len() ==> #[trigger] regs@[i].payload.bit_len()
                    == regs@[0].payload.bit_len(),
            result.wf(),
            result.bit_len() == regs@[0].payload.bit_len(),
            result.word_seq() == xor_payload_words(regs@, k as int),
            result.bits() == Seq::new(result.bit_len(), |i: int| xor_chain_bit(regs@, k as int, i)),
        decreases regs.len() - k,
    {
        assert(regs@[k as int].payload.bit_len() == regs@[0].payload.bit_len());
        assert(regs@[k as int].wf());
        let ghost before = result.bits();
        result.xor_merge(&regs[k].payload);
        proof {
            assert forall|i: int| 0 <= i < result.bit_len() implies #[trigger] result.bits()[i]
                == xor_chain_bit(regs@, k + 1, i) by {
                assert(before[i] == xor_chain_bit(regs@, k as int, i));
            }
            assert(result.bits() =~= Seq::new(result.bit_len(), |i: int| xor_chain_bit(regs@, k + 1, i)));
        }
        k = k + 1;
    }
    result
}

/// XOR of the lineages of all registers.
fn xor_chain_lineage(regs: &[Register]) -> (r: u128)
    ensures
        r == lineage_xor(regs@, regs.len() as int),
{
    let mut acc: u128 = 0;
    let mut k: usize = 0;
    while k < regs.len()
        invariant
            k <= regs.len(),
            acc == lineage_xor(regs@, k as int),
        decreases regs.len() - k,
    {
        let l = regs[k].xor_lineage;
        proof {
            if k == 0 {
                assert(0u128 ^ l == l) by (bit_vector);
            }
        }
        acc = acc ^ l;
        k = k + 1;
    }
    acc
}

/// `total_bits` bits taken in order from the registers' payloads, zero
/// past their end.
fn sequential_payload(regs: &[Register], total_bits: usize) -> (r: BitslicedLane)
    requires
        forall|i: int| 0 <= i < regs.len() ==> #[trigger] regs@[i].wf(),
        total_bits + 63 <= usize::MAX,
    ensures
        r.wf(),
        r.is_clean(),
        r.bit_len() == total_bits,
        r.word_seq().len() == crate::bitslice::words_for(total_bits as nat),
        r.bits() == sequential_bits(payload_bits(regs@), total_bits as nat),
{
    let ghost lanes = payload_bits(regs@);
    let mut result = BitslicedLane::with_capacity(total_bits);
    proof {
        assert(result.bits() =~= Seq::new(total_bits as nat, |j: int| false)) by {
            assert forall|j: int| 0 <= j < total_bits implies !result.bit_at(j) by {
                assert(!crate::bitslice::word_bit(result.word_seq()[j / 64], j % 64)) by {
                    crate::bitslice::lemma_word_bits(0, 0, 0, (j % 64) as u64);
                }
            }
        }
    }
    let mut bit_pos: usize = 0;
    let mut k: usize = 0;
    while k < regs.len()
        invariant
            k <= regs.len(),
            lanes == payload_bits(regs@),
            forall|i: int| 0 <= i < regs.len() ==> #[trigger] regs@[i].wf(),
            result.wf(),
            result.is_clean(),
            result.bit_len() == total_bits,
            result.word_seq().len() == crate::bitslice::words_for(total_bits as nat),
            bit_pos <= total_bits,
            bit_pos == concat_bits(lanes, k as int).len() || (bit_pos == total_bits
                && total_bits <= concat_bits(lanes, k as int).len()),
            result.bits() == Seq::new(
                total_bits as nat,
                |j: int| j < concat_bits(lanes, k as int).len() && concat_bits(lanes, k as int)[j],
            ),
        decreases regs.len() - k,
    {
        let payload = &regs[k].payload;
        let n = payload.len();
        let ghost prefix = concat_bits(lanes, k as int);
        let ghost lane = lanes[k as int];
        assert(regs@[k as int].wf());
        assert(lane == payload.bits());
        let mut i: usize = 0;
        while i < n
            invariant
                i <= n,
                n == payload.bit_len(),
                payload.wf(),
                lane == payload.bits(),
                result.wf(),
                result.is_clean(),
                result.bit_len() == total_bits,
                result.word_seq().len() == crate::bitslice::words_for(total_bits as nat),
                bit_pos <= total_bits,
                bit_pos == (prefix + lane.take(i as int)).len() || (bit_pos == total_bits
                    && total_bits <= (prefix + lane.take(i as int)).len()),
                result.bits() == Seq::new(
                    total_bits as nat,
                    |j: int| j < (prefix + lane.take(i as int)).len() && (prefix + lane.take(
                        i as int,
                    ))[j],
                ),
            decreases n - i,
        {
            let b = payload.get_bit(i);
            let ghost before = prefix + lane.take(i as int);
            let ghost after = prefix + lane.take(i + 1);
            assert(after =~= before.push(b));
            if bit_pos < total_bits {
                result.set_bit(bit_pos, b);
                bit_pos = bit_pos + 1;
            }
            assert(result.bits() =~= Seq::new(
                total_bits as nat,
                |j: int| j < after.len() && after[j],
            ));
            i = i + 1;
        }
        assert(lane.take(n as int) =~= lane);
        assert(concat_bits(lanes, k + 1) == prefix + lane);
        k = k + 1;
    }
    result
}

/// `total_bits` bits interleaved from `n` registers: bit `i` is bit `i / n`
/// of register `i % n`.
fn interleaved_payload(regs: &[Register], n: usize, total_bits: usize) -> (r: BitslicedLane)
    requires
        1 <= n <= regs.len(),
        forall|i: int| 0 <= i < regs.len() ==> #[trigger] regs@[i].wf(),
        total_bits + 63 <= usize::MAX,
    ensures
        r.wf(),
        r.is_clean(),
        r.bit_len() == total_bits,
        r.word_seq().len() == crate::bitslice::words_for(total_bits as nat),
        r.bits() == interleaved_bits(regs@, n as nat, total_bits as nat),
{
    let mut result = BitslicedLane::with_capacity(total_bits);
    proof {
        assert(result.bits() =~= Seq::new(total_bits as nat, |j: int| false)) by {
            assert forall|j: int| 0 <= j < total_bits implies !result.bit_at(j) by {
                assert(!crate::bitslice::word_bit(result.word_seq()[j / 64], j % 64)) by {
                    crate::bitslice::lemma_word_bits(0, 0, 0, (j % 64) as u64);
                }
            }
        }
    }
    let mut i: usize = 0;
    while i < total_bits
        invariant
            i <= total_bits,
            1 <= n <= regs.len(),
            forall|k: int| 0 <= k < regs.len() ==> #[trigger] regs@[k].wf(),
            result.wf(),
            result.is_clean(),
            result.bit_len() == total_bits,
            result.word_seq().len() == crate::bitslice::words_for(total_bits as nat),
            result.bits() == Seq::new(
                total_bits as nat,
                |j: int| j < i && regs@[j % (n as int)].payload.bit_at(j / (n as int)),
            ),
        decreases total_bits - i,
    {
        let base_idx = i % n;
        let bit_in_base = i / n;
        assert(regs@[base_idx as int].wf());
        if bit_in_base < regs[base_idx].payload.len() {
            let b = regs[base_idx].payload.get_bit(bit_in_base);
            result.set_bit(i, b);
        }
        assert(result.bits() =~= Seq::new(
            total_bits as nat,
            |j: int| j < i + 1 && regs@[j % (n as int)].payload.bit_at(j / (n as int)),
        ));
        i = i + 1;
    }
    assert(result.bits() =~= interleaved_bits(regs@, n as nat, total_bits as nat));
    result
}

/// The addresses of the registers, in order.
fn addresses_of(regs: &[Register]) -> (r: Vec<RegisterAddress>)
    ensures
        r@ == Seq::new(regs.len() as nat, |i: int| regs@[i].address),
{
    let mut out: Vec<RegisterAddress> = Vec::new();
    let mut k: usize = 0;
    while k < regs.len()
        invariant
            k <= regs.len(),
            out@ == Seq::new(k as nat, |i: int| regs@[i].address),
        decreases regs.len() - k,
    {
        out.push(regs[k].address);
        assert(out@ =~= Seq::new((k + 1) as nat, |i: int| regs@[i].address));
        k = k + 1;
    }
    out
}

impl CompoundRegister {
    /// A compound register combining `base_registers` with `combining`.
    ///
    /// The base count is the number of bases (modulo 256) and the precision
    /// 64 bits per base. XOR-chain: the payload is the XOR of the bases'
    /// payloads and the lineage the XOR of their lineages. Sequential and
    /// layered: the payload is the bases' bits in order, cut or zero-padded
    /// to the precision. Interleaved: bit `i` is bit `i / N` of base `i % N`.
    /// For the last three the lineage is the hash of the payload.
    pub fn new(combining: CombiningMethod, base_registers: &[Register]) -> (r: Self)
        requires
            base_registers.len() >= 1,
            forall|i: int| 0 <= i < base_registers.len() ==> #[trigger] base_registers@[i].wf(),
            combining == CombiningMethod::XorChain ==> forall|i: int|
                0 <= i < base_registers.len() ==> #[trigger] base_registers@[i].payload.bit_len()
                    == base_registers@[0].payload.bit_len(),
            combining == CombiningMethod::Interleaved ==> base_registers.len() % 256 != 0,
        ensures
            r.combining == combining,
            r.base_count == base_count_for(base_registers.len() as nat),
            r.precision_bits == r.base_count * 64,
            r.primary_address == base_registers@[0].address,
            r.base_addresses@ == Seq::new(
                base_registers.len() as nat,
                |i: int| base_registers@[i].address,
            ),
            r.version == SCHEMA_VERSION,
            r.payload.wf(),
            combining == CombiningMethod::XorChain ==> {
                &&& r.payload.bit_len() == base_registers@[0].payload.bit_len()
                &&& r.payload.word_seq() == xor_payload_words(
                    base_registers@,
                    base_registers.len() as int,
                )
                &&& r.xor_lineage == lineage_xor(base_registers@, base_registers.len() as int)
                &&& r.payload.bits() == Seq::new(
                    r.payload.bit_len(),
                    |i: int| xor_chain_bit(base_registers@, base_registers.len() as int, i),
                )
            },
            combining != CombiningMethod::XorChain ==> {
                &&& r.payload.bit_len() == r.precision_bits
                &&& r.payload.word_seq().len() == crate::bitslice::words_for(
                    r.precision_bits as nat,
                )
                &&& r.payload.is_clean()
                &&& r.xor_lineage == lane_hash(r.payload)
            },
            combining == CombiningMethod::Sequential || combining == CombiningMethod::Layered
                ==> r.payload.bits() == sequential_bits(
                payload_bits(base_registers@),
                r.precision_bits as nat,
            ),
            combining == CombiningMethod::Interleaved ==> r.payload.bits() == interleaved_bits(
                base_registers@,
                r.base_count as nat,
                r.precision_bits as nat,
            ),
    {
        let len = base_registers.len();
        let base_count = (len % 256) as u8;
        let precision_bits = combining.precision_for_bases(base_count);
        let primary_address = base_registers[0].address;
        let base_addresses = addresses_of(base_registers);
        let total_bits = precision_bits as usize;
        let payload = match combining {
            CombiningMethod::XorChain => xor_chain_payload(base_registers),
            CombiningMethod::Sequential => sequential_payload(base_registers, total_bits),
            CombiningMethod::Interleaved => interleaved_payload(
                base_registers,
                base_count as usize,
                total_bits,
            ),
            CombiningMethod::Layered => sequential_payload(base_registers, total_bits),
        };
        let xor_lineage = match combining {
            CombiningMethod::XorChain => xor_chain_lineage(base_registers),
            _ => hash_lane(&payload),
        };
        CompoundRegister {
            combining,
            base_count,
            precision_bits,
            primary_address,
            base_addresses,
            payload,
            xor_lineage,
            version: SCHEMA_VERSION,
        }
    }

    /// A compound register over the given base addresses, without loading
    /// the bases: an all-zero payload of the precision and a zero lineage.
    pub fn from_addresses(
        combining: CombiningMethod,
        primary_address: RegisterAddress,
        base_addresses: Vec<RegisterAddress>,
    ) -> (r: Self)
        ensures
            r.combining == combining,
            r.base_count == base_count_for(base_addresses.len() as nat),
            r.precision_bits == r.base_count * 64,
            r.primary_address == primary_address,
            r.base_addresses@ == base_addresses@,
            r.payload.wf(),
            r.payload.bit_len() == r.precision_bits,
            r.payload.word_seq() == Seq::new(
                crate::bitslice::words_for(r.precision_bits as nat),
                |i: int| 0u64,
            ),
            r.xor_lineage == 0,
            r.version == SCHEMA_VERSION,
    {
        let base_count = (base_addresses.len() % 256) as u8;
        let precision_bits = combining.precision_for_bases(base_count);
        CompoundRegister {
            combining,
            base_count,
            precision_bits,
            primary_address,
            base_addresses,
            payload: BitslicedLane::with_capacity(precision_bits as usize),
            xor_lineage: 0,
            version: SCHEMA_VERSION,
        }
    }

    /// The primary address, used for routing and lookup.
    pub fn primary_address(&self) -> (r: RegisterAddress)
        ensures
            r == self.primary_address,
    {
        self.primary_address
    }

    /// All base addresses.
    pub fn base_addresses(&self) -> (r: &[RegisterAddress])
        ensures
            r@ == self.base_addresses@,
    {
        self.base_addresses.as_slice()
    }

    /// Consistency given what a lookup found for each base address: every
    /// base was found and, for an XOR-chain, the lineage is the XOR of the
    /// found bases' lineages.
    pub open spec fn lookups_consistent(&self, found: Seq<Option<Register>>) -> bool {
        &&& forall|i: int| 0 <= i < found.len() ==> #[trigger] found[i] is Some
        &&& self.combining == CombiningMethod::XorChain ==> self.xor_lineage == found_lineage_xor(
            found,
            found.len() as int,
        )
    }

    /// Whether the compound is consistent, where `found[i]` is what looking
    /// up `base_addresses[i]` returned: all bases exist and, for an
    /// XOR-chain, the lineage matches theirs.
    pub fn is_consistent(&self, found: &[Option<Register>]) -> (r: bool)
        requires
            found.len() == self.base_addresses.len(),
        ensures
            r == self.lookups_consistent(found@),
    {
        let mut k: usize = 0;
        while k < found.len()
            invariant
                k <= found.len(),
                forall|i: int| 0 <= i < k ==> #[trigger] found@[i] is Some,
            decreases found.len() - k,
        {
            if found[k].is_none() {
                return false;
            }
            k = k + 1;
        }
        if self.combining == CombiningMethod::XorChain {
            let mut acc: u128 = 0;
            let mut j: usize = 0;
            while j < found.len()
                invariant
                    j <= found.len(),
                    acc == found_lineage_xor(found@, j as int),
                decreases found.len() - j,
            {
                match &found[j] {
                    Some(reg) => {
                        acc = acc ^ reg.xor_lineage;
                    },
                    None => {},
                }
                j = j + 1;
            }
            self.xor_lineage == acc
        } else {
            true
        }
    }

    /// Replace base `base_index` by `new_base` (out-of-range indices change
    /// nothing). For an XOR-chain the new base's payload is XORed into the
    /// compound payload and its lineage into the compound lineage; other
    /// methods only record the new address.
    pub fn update_base(&mut self, base_index: usize, new_base: Register, combining: CombiningMethod)
        requires
            old(self).payload.wf(),
            base_index < old(self).base_addresses.len() && combining == CombiningMethod::XorChain
                ==> new_base.payload.bit_len() == old(self).payload.bit_len() && new_base.wf(),
        ensures
            final(self).combining == old(self).combining,
            final(self).base_count == old(self).base_count,
            final(self).precision_bits == old(self).precision_bits,
            final(self).primary_address == old(self).primary_address,
            final(self).version == old(self).version,
            final(self).payload.wf(),
            final(self).base_addresses@ == (if base_index < old(self).base_addresses.len() {
                old(self).base_addresses@.update(base_index as int, new_base.address)
            } else {
                old(self).base_addresses@
            }),
            final(self).payload.bit_len() == old(self).payload.bit_len(),
            final(self).payload.word_seq() == (if base_index < old(self).base_addresses.len()
                && combining == CombiningMethod::XorChain {
                words_xor(old(self).payload.word_seq(), new_base.payload.word_seq())
            } else {
                old(self).payload.word_seq()
            }),
            final(self).xor_lineage == (if base_index < old(self).base_addresses.len()
                && combining == CombiningMethod::XorChain {
                old(self).xor_lineage ^ new_base.xor_lineage
            } else {
                old(self).xor_lineage
            }),
    {
        if base_index >= self.base_addresses.len() {
            return;
        }
        self.base_addresses.set(base_index, new_base.address);
        match combining {
            CombiningMethod::XorChain => {
                self.payload.xor_merge(&new_base.payload);
                self.xor_lineage = self.xor_lineage ^ new_base.xor_lineage;
            },
            _ => {},
        }
    }
}


// ── Records ─────────────────────────────────────────────────────────────────

/// Field types of a record schema.
#[derive(Clone, Copy, Debug, PartialEq, Eq, Structural)]
pub enum FieldType {
    /// Integer of the given bit width.
    Integer(u16),
    /// Floating-point number of the given bit width.
    Float(u8),
    /// Text (hashed or compressed).
    Text,
    /// A single bit.
    Boolean,
    /// Binary blob (sequential compound).
    Blob,
    /// Nested compound register.
    Compound,
}

/// A field of a record schema.
#[derive(Clone, Debug)]
pub struct FieldSchema {
    /// Field name.
    pub name: String,
    /// Base index within the compound register.
    pub base_index: u8,
    /// Field type.
    pub field_type: FieldType,
}

/// Record metadata.
#[derive(Clone, Copy, Debug)]
pub struct RecordMetadata {
    /// Entity type (encoded in the spine).
    pub entity_type: u16,
    /// Schema version.
    pub schema_version: u8,
    /// Creation time (milliseconds since the Unix epoch).
    pub created_at: u64,
    /// Last update time (milliseconds since the Unix epoch).
    pub updated_at: u64,
    /// Record version, for optimistic concurrency.
    pub version: u64,
}

impl Default for RecordMetadata {
    /// All fields zero.
    fn default() -> (r: Self)
        ensures
            r.entity_type == 0,
            r.schema_version == 0,
            r.created_at == 0,
            r.updated_at == 0,
            r.version == 0,
    {
        RecordMetadata { entity_type: 0, schema_version: 0, created_at: 0, updated_at: 0, version: 0 }
    }
}

/// A database record: a sequential compound register whose bases hold the
/// field values, with a schema naming the fields.
#[derive(Clone, Debug)]
pub struct Record {
    /// The compound register holding the record data.
    pub compound: CompoundRegister,
    /// Field names and their base indices.
    pub schema: Vec<FieldSchema>,
    /// Record metadata.
    pub metadata: RecordMetadata,
    /// The value of each field, in schema order.
    pub values: Vec<BitslicedLane>,
}

/// Calls `SystemTime::now` and measures it from the Unix epoch in
/// milliseconds (0 for a clock set before the epoch). Nothing is claimed
/// of the result: it is the machine's clock.
#[verifier::external_body]
fn now_millis() -> (r: u64) {
    std::time::SystemTime::now().duration_since(std::time::UNIX_EPOCH).map(
        |d| d.as_millis() as u64,
    ).unwrap_or(0)
}

/// The address of field `i` of a record of entity type `entity_type`.
pub open spec fn field_address(entity_type: u16, i: int) -> u128 {
    crate::address::pack_fields(entity_type, 5, 0, (i % 0x1_0000) as u16, 0, 0)
}

/// Entry `i` is the first schema entry named `name`.
pub open spec fn is_first_field(schema: Seq<FieldSchema>, name: Seq<char>, i: int) -> bool {
    &&& 0 <= i < schema.len()
    &&& schema[i].name@ == name
    &&& forall|j: int| 0 <= j < i ==> (#[trigger] schema[j]).name@ != name
}

/// The first schema entry named `name` has a base index that names one of
/// the record's values.
pub open spec fn field_present(schema: Seq<FieldSchema>, values: Seq<BitslicedLane>, name: Seq<char>) -> bool {
    exists|i: int| is_first_field(schema, name, i) && (#[trigger] schema[i]).base_index < values.len()
}

/// Some schema entry is named `name`.
pub open spec fn has_field(schema: Seq<FieldSchema>, name: Seq<char>) -> bool {
    exists|i: int| 0 <= i < schema.len() && (#[trigger] schema[i]).name@ == name
}

/// Index of the first schema entry named `name`.
fn find_field(schema: &Vec<FieldSchema>, name: &str) -> (r: Option<usize>)
    ensures
        match r {
            Some(i) => is_first_field(schema@, name@, i as int),
            None => !has_field(schema@, name@),
        },
{
    let key = name.to_owned();
    let mut i: usize = 0;
    while i < schema.len()
        invariant
            i <= schema.len(),
            key@ == name@,
            forall|j: int| 0 <= j < i ==> (#[trigger] schema@[j]).name@ != name@,
        decreases schema.len() - i,
    {
        if schema[i].name == key {
            return Some(i);
        }
        i = i + 1;
    }
    None
}

impl Record {
    /// A record of `entity_type` with the given named field values.
    ///
    /// Field `i` becomes the base register at `(entity_type, layer 5,
    /// ring 0, sector i)` and the schema entry `(name, i, Blob)`; the bases
    /// are combined sequentially. Schema version and record version are 1,
    /// the creation time is the current time and the update time 0.
    pub fn new(entity_type: u16, fields: Vec<(String, BitslicedLane)>) -> (r: Self)
        requires
            fields.len() >= 1,
            forall|i: int| 0 <= i < fields.len() ==> (#[trigger] fields@[i]).1.wf(),
        ensures
            r.schema@.len() == fields.len(),
            forall|i: int|
                0 <= i < fields.len() ==> {
                    &&& (#[trigger] r.schema@[i]).name@ == fields@[i].0@
                    &&& r.schema@[i].base_index == (i % 256) as u8
                    &&& r.schema@[i].field_type == FieldType::Blob
                },
            r.compound.combining == CombiningMethod::Sequential,
            r.compound.base_count == base_count_for(fields.len() as nat),
            r.compound.precision_bits == r.compound.base_count * 64,
            r.compound.primary_address@ == field_address(entity_type, 0),
            r.compound.base_addresses@.len() == fields.len(),
            forall|i: int|
                0 <= i < fields.len() ==> (#[trigger] r.compound.base_addresses@[i])@
                    == field_address(entity_type, i),
            r.compound.version == SCHEMA_VERSION,
            r.compound.payload.wf(),
            r.compound.payload.is_clean(),
            r.compound.payload.bit_len() == r.compound.precision_bits,
            r.compound.payload.bits() == sequential_bits(
                Seq::new(fields.len() as nat, |i: int| fields@[i].1.bits()),
                r.compound.precision_bits as nat,
            ),
            r.compound.xor_lineage == lane_hash(r.compound.payload),
            r.metadata.entity_type == entity_type,
            r.metadata.schema_version == 1,
            r.metadata.updated_at == 0,
            r.metadata.version == 1,
            r.values@.len() == fields.len(),
            forall|i: int|
                0 <= i < fields.len() ==> {
                    &&& (#[trigger] r.values@[i]).word_seq() == fields@[i].1.word_seq()
                    &&& r.values@[i].bit_len() == fields@[i].1.bit_len()
                },
    {
        let n = fields.len();
        let mut schema: Vec<FieldSchema> = Vec::new();
        let mut bases: Vec<Register> = Vec::new();
        let mut values: Vec<BitslicedLane> = Vec::new();
        let mut i: usize = 0;
        while i < n
            invariant
                i <= n,
                n == fields.len(),
                forall|j: int| 0 <= j < fields.len() ==> (#[trigger] fields@[j]).1.wf(),
                schema@.len() == i,
                bases@.len() == i,
                values@.len() == i,
                forall|j: int|
                    0 <= j < i ==> {
                        &&& (#[trigger] values@[j]).word_seq() == fields@[j].1.word_seq()
                        &&& values@[j].bit_len() == fields@[j].1.bit_len()
                    },
                forall|j: int|
                    0 <= j < i ==> {
                        &&& (#[trigger] schema@[j]).name@ == fields@[j].0@
                        &&& schema@[j].base_index == (j % 256) as u8
                        &&& schema@[j].field_type == FieldType::Blob
                    },
                forall|j: int|
                    0 <= j < i ==> {
                        &&& (#[trigger] bases@[j]).wf()
                        &&& bases@[j].address@ == field_address(entity_type, j)
                        &&& bases@[j].payload.bits() == fields@[j].1.bits()
                    },
            decreases n - i,
        {
            let name = fields[i].0.clone();
            schema.push(FieldSchema { name, base_index: (i % 256) as u8, field_type: FieldType::Blob });
            let addr = RegisterAddress::new(entity_type, 5, 0, (i % 0x1_0000) as u16, 0, 0);
            let payload = fields[i].1.clone();
            assert(fields@[i as int].1.wf());
            assert(payload.bits() =~= fields@[i as int].1.bits());
            let reg = Register::new(addr, payload);
            bases.push(reg);
            values.push(fields[i].1.clone());
            i = i + 1;
        }
        proof {
            assert(payload_bits(bases@) =~= Seq::new(fields.len() as nat, |i: int| fields@[i].1.bits()));
        }
        let compound = CompoundRegister::new(CombiningMethod::Sequential, bases.as_slice());
        let created_at = now_millis();
        Record {
            compound,
            schema,
            metadata: RecordMetadata {
                entity_type,
                schema_version: 1,
                created_at,
                updated_at: 0,
                version: 1,
            },
            values,
        }
    }

    /// The value of the field named `name`: the lane at the base index of
    /// the first schema entry of that name, when that index names one of
    /// the record's values; `None` otherwise.
    pub fn get_field(&self, name: &str) -> (r: Option<&BitslicedLane>)
        ensures
            r is Some <==> field_present(self.schema@, self.values@, name@),
            r matches Some(v) ==> exists|i: int|
                is_first_field(self.schema@, name@, i) && *v == self.values@[(#[trigger] self.schema@[i]).base_index as int],
    {
        match find_field(&self.schema, name) {
            Some(i) => {
                let base_idx = self.schema[i].base_index as usize;
                if base_idx < self.values.len() {
                    Some(&self.values[base_idx])
                } else {
                    proof {
                        assert forall|j: int|
                            is_first_field(self.schema@, name@, j) implies !((
                            #[trigger] self.schema@[j]).base_index < self.values@.len()) by {
                            if j < i {
                            } else if j > i {
                                assert(self.schema@[i as int].name@ == name@);
                            }
                        }
                    }
                    None
                }
            },
            None => None,
        }
    }

    /// Update the field named `name` to `new_value`: the field's lane
    /// becomes `new_value`, and the delta for echo propagation, the old lane
    /// XOR `new_value` brought to the old lane's width, is returned; the
    /// record version goes up by one and the update time is stamped. `None`
    /// (and no change) when no value belongs to that name.
    pub fn update_field(&mut self, name: &str, new_value: BitslicedLane) -> (r: Option<
        BitslicedLane,
    >)
        requires
            forall|i: int| 0 <= i < old(self).values@.len() ==> (#[trigger] old(self).values@[i]).wf(),
            new_value.wf(),
            field_present(old(self).schema@, old(self).values@, name@) ==> old(self).metadata.version
                < u64::MAX,
        ensures
            r is Some <==> field_present(old(self).schema@, old(self).values@, name@),
            r is None ==> *final(self) == *old(self),
            r is Some ==> exists|i: int|
                is_first_field(old(self).schema@, name@, i) && {
                    let b = (#[trigger] old(self).schema@[i]).base_index as int;
                    let prev = old(self).values@[b];
                    &&& r->0.bit_len() == prev.bit_len()
                    &&& r->0.word_seq() == words_xor(
                        prev.word_seq(),
                        crate::bitslice::words_resized(new_value.word_seq(), prev.bit_len()),
                    )
                    &&& final(self).values@ == old(self).values@.update(b, new_value)
                },
            r is Some ==> {
                &&& final(self).compound == old(self).compound
                &&& final(self).schema == old(self).schema
                &&& final(self).metadata.entity_type == old(self).metadata.entity_type
                &&& final(self).metadata.schema_version == old(self).metadata.schema_version
                &&& final(self).metadata.created_at == old(self).metadata.created_at
                &&& final(self).metadata.version == old(self).metadata.version + 1
            },
    {
        let found = find_field(&self.schema, name);
        match found {
            None => {
                return None;
            },
            Some(i) => {
                let b = self.schema[i].base_index as usize;
                if b >= self.values.len() {
                    proof {
                        assert forall|j: int|
                            is_first_field(self.schema@, name@, j) implies !((
                            #[trigger] self.schema@[j]).base_index < self.values@.len()) by {
                            if j < i {
                            } else if j > i {
                                assert(self.schema@[i as int].name@ == name@);
                            }
                        }
                    }
                    return None;
                }
                assert(old(self).values@[b as int].wf());
                let old_value = self.values[b].clone();
                let mut widened = new_value.clone();
                widened.resize(old_value.len());
                let delta = BitslicedLane::xor(&old_value, &widened);
                self.values.set(b, new_value);
                let now = now_millis();
                self.metadata.updated_at = now;
                self.metadata.version = self.metadata.version + 1;
                proof {
                    assert(is_first_field(old(self).schema@, name@, i as int));
                }
                Some(delta)
            },
        }
    }
}


} // verus!
