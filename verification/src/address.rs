//! Register addressing and geometry.
//!
//! A register address is a 128-bit word made of six 16-bit fields
//! (from the least significant bits up): spine, layer, ring, sector, shard
//! and temporal. The top 32 bits are unused by the field accessors.

use vstd::prelude::*;
use crate::popcount::{count_ones_u128, pop128, lemma_pop128_zero, lemma_pop128_place};
use vstd::arithmetic::power2::{pow2, lemma2_to64};
use crate::text::{hex_fixed, hex_string};
use vstd::string::StringExecFns;

pub mod ranges;

verus! {

/// Width mask of one address field.
pub const FIELD_MASK: u128 = 0xFFFF;

/// Bit offset of the spine field.
pub const SPINE_OFFSET: u128 = 0;
/// Bit offset of the layer field.
pub const LAYER_OFFSET: u128 = 16;
/// Bit offset of the ring field.
pub const RING_OFFSET: u128 = 32;
/// Bit offset of the sector field.
pub const SECTOR_OFFSET: u128 = 48;
/// Bit offset of the shard field.
pub const SHARD_OFFSET: u128 = 64;
/// Bit offset of the temporal field.
pub const TEMPORAL_OFFSET: u128 = 80;

/// The 16-bit field of `bits` that starts at bit `off`.
pub open spec fn field_of(bits: u128, off: u128) -> u16 {
    ((bits >> off) & 0xFFFF) as u16
}

/// Four lower-case hex digits of an address field.
pub open spec fn field_hex(bits: u128, off: u128) -> Seq<char> {
    hex_fixed(field_of(bits, off) as nat, 4, false)
}

/// The display form of an address: each field as four lower-case hex
/// digits, `Addr(spine=…, L…, R…, S…, Sh…, T…)`.
pub open spec fn address_text(bits: u128) -> Seq<char> {
    "Addr(spine="@ + field_hex(bits, 0) + ", L"@ + field_hex(bits, 16) + ", R"@ + field_hex(bits, 32)
        + ", S"@ + field_hex(bits, 48) + ", Sh"@ + field_hex(bits, 64) + ", T"@ + field_hex(bits, 80)
        + ")"@
}

/// `bits` with the 16-bit field at `off` replaced by `v`.
pub open spec fn replace_field(bits: u128, off: u128, v: u16) -> u128 {
    (bits & !(0xFFFFu128 << off)) | ((v as u128) << off)
}

/// The address word made of the six fields.
pub open spec fn pack_fields(spine: u16, layer: u16, ring: u16, sector: u16, shard: u16, temporal: u16) -> u128 {
    (spine as u128) | ((layer as u128) << 16u128) | ((ring as u128) << 32u128) | ((sector as u128)
        << 48u128) | ((shard as u128) << 64u128) | ((temporal as u128) << 80u128)
}

/// The parent of an address word: one shard lower, or the last shard of the
/// previous sector, or zero at the root.
pub open spec fn spec_parent(b: u128) -> u128 {
    if field_of(b, 64) > 0 {
        replace_field(b, 64, (field_of(b, 64) - 1) as u16)
    } else if field_of(b, 48) > 0 {
        replace_field(replace_field(b, 64, 0xFFFF), 48, (field_of(b, 48) - 1) as u16)
    } else {
        0
    }
}

/// The child of an address word: the shard advanced by `offset`, saturating.
pub open spec fn spec_child(b: u128, offset: u16) -> u128 {
    let s = field_of(b, 64) + offset;
    replace_field(b, 64, if s > 0xFFFF { 0xFFFFu16 } else { s as u16 })
}

/// Field offset moved by a neighbour step in direction `d % 8`.
pub open spec fn direction_offset(d: u8) -> u128 {
    let k = d % 8;
    if k < 2 {
        0
    } else if k < 4 {
        16
    } else if k < 6 {
        32
    } else {
        48
    }
}

/// The neighbour of an address word in direction `d`: even directions add
/// one to a field, odd directions subtract one, both wrapping.
pub open spec fn spec_neighbor(b: u128, d: u8) -> u128 {
    let off = direction_offset(d);
    let v = field_of(b, off);
    if d % 2 == 0 {
        replace_field(b, off, (if v == 0xFFFF { 0 } else { v + 1 }) as u16)
    } else {
        replace_field(b, off, (if v == 0 { 0xFFFF } else { v - 1 }) as u16)
    }
}

/// Structural distance of two address words: the number of differing bits.
pub open spec fn spec_distance(a: u128, b: u128) -> nat {
    pop128(a ^ b)
}

/// A 128-bit register address encoding a position in the 4D sphere.
#[derive(Clone, Copy, Debug, PartialEq, Eq, Structural, PartialOrd, Ord, Hash)]
pub struct RegisterAddress {
    bits: u128,
}

impl View for RegisterAddress {
    type V = u128;

    closed spec fn view(&self) -> u128 {
        self.bits
    }
}

impl RegisterAddress {
    /// Create a new address from its component fields.
    pub fn new(spine: u16, layer: u16, ring: u16, sector: u16, shard: u16, temporal: u16) -> (r: Self)
        ensures
            r@ == pack_fields(spine, layer, ring, sector, shard, temporal),
    {
        let bits = (spine as u128) | ((layer as u128) << LAYER_OFFSET) | ((ring as u128)
            << RING_OFFSET) | ((sector as u128) << SECTOR_OFFSET) | ((shard as u128)
            << SHARD_OFFSET) | ((temporal as u128) << TEMPORAL_OFFSET);
        RegisterAddress { bits }
    }

    /// The address made of the raw word `bits`.
    pub fn from_bits(bits: u128) -> (r: Self)
        ensures
            r@ == bits,
    {
        RegisterAddress { bits }
    }

    /// The zero address (invalid / null).
    pub fn zero() -> (r: Self)
        ensures
            r@ == 0,
    {
        RegisterAddress { bits: 0 }
    }

    /// The spine field.
    pub fn spine(&self) -> (r: u16)
        ensures
            r == field_of(self@, 0),
    {
        ((self.bits >> SPINE_OFFSET) & FIELD_MASK) as u16
    }

    /// The layer field.
    pub fn layer(&self) -> (r: u16)
        ensures
            r == field_of(self@, 16),
    {
        ((self.bits >> LAYER_OFFSET) & FIELD_MASK) as u16
    }

    /// The ring field.
    pub fn ring(&self) -> (r: u16)
        ensures
            r == field_of(self@, 32),
    {
        ((self.bits >> RING_OFFSET) & FIELD_MASK) as u16
    }

    /// The sector field.
    pub fn sector(&self) -> (r: u16)
        ensures
            r == field_of(self@, 48),
    {
        ((self.bits >> SECTOR_OFFSET) & FIELD_MASK) as u16
    }

    /// The shard field.
    pub fn shard(&self) -> (r: u16)
        ensures
            r == field_of(self@, 64),
    {
        ((self.bits >> SHARD_OFFSET) & FIELD_MASK) as u16
    }

    /// The temporal field.
    pub fn temporal(&self) -> (r: u16)
        ensures
            r == field_of(self@, 80),
    {
        ((self.bits >> TEMPORAL_OFFSET) & FIELD_MASK) as u16
    }

    /// Raw 128-bit representation of the address.
    pub fn bits(&self) -> (r: u128)
        ensures
            r == self@,
    {
        self.bits
    }

    /// Replace the spine field.
    pub fn with_spine(self, spine: u16) -> (r: Self)
        ensures
            r@ == replace_field(self@, 0, spine),
    {
        let mut bits = self.bits;
        bits = bits & !(FIELD_MASK << SPINE_OFFSET);
        bits = bits | ((spine as u128) << SPINE_OFFSET);
        RegisterAddress { bits }
    }

    /// Replace the layer field.
    pub fn with_layer(self, layer: u16) -> (r: Self)
        ensures
            r@ == replace_field(self@, 16, layer),
    {
        let mut bits = self.bits;
        bits = bits & !(FIELD_MASK << LAYER_OFFSET);
        bits = bits | ((layer as u128) << LAYER_OFFSET);
        RegisterAddress { bits }
    }

    /// Replace the ring field.
    pub fn with_ring(self, ring: u16) -> (r: Self)
        ensures
            r@ == replace_field(self@, 32, ring),
    {
        let mut bits = self.bits;
        bits = bits & !(FIELD_MASK << RING_OFFSET);
        bits = bits | ((ring as u128) << RING_OFFSET);
        RegisterAddress { bits }
    }

    /// Replace the sector field.
    pub fn with_sector(self, sector: u16) -> (r: Self)
        ensures
            r@ == replace_field(self@, 48, sector),
    {
        let mut bits = self.bits;
        bits = bits & !(FIELD_MASK << SECTOR_OFFSET);
        bits = bits | ((sector as u128) << SECTOR_OFFSET);
        RegisterAddress { bits }
    }

    /// Replace the shard field.
    pub fn with_shard(self, shard: u16) -> (r: Self)
        ensures
            r@ == replace_field(self@, 64, shard),
    {
        let mut bits = self.bits;
        bits = bits & !(FIELD_MASK << SHARD_OFFSET);
        bits = bits | ((shard as u128) << SHARD_OFFSET);
        RegisterAddress { bits }
    }

    /// Replace the temporal field.
    pub fn with_temporal(self, temporal: u16) -> (r: Self)
        ensures
            r@ == replace_field(self@, 80, temporal),
    {
        let mut bits = self.bits;
        bits = bits & !(FIELD_MASK << TEMPORAL_OFFSET);
        bits = bits | ((temporal as u128) << TEMPORAL_OFFSET);
        RegisterAddress { bits }
    }

    /// Structural distance between two addresses: the number of bits in
    /// which they differ (popcount of their XOR).
    pub fn distance(&self, other: &Self) -> (r: u32)
        ensures
            r == spec_distance(self@, other@),
    {
        count_ones_u128(self.bits ^ other.bits)
    }

    /// Whether two addresses share spine, layer, ring and sector.
    pub fn same_sector(&self, other: &Self) -> (r: bool)
        ensures
            r == (field_of(self@, 0) == field_of(other@, 0) && field_of(self@, 16) == field_of(
                other@,
                16,
            ) && field_of(self@, 32) == field_of(other@, 32) && field_of(self@, 48) == field_of(
                other@,
                48,
            )),
    {
        self.spine() == other.spine() && self.layer() == other.layer() && self.ring()
            == other.ring() && self.sector() == other.sector()
    }

    /// Whether two addresses are in the same layer.
    pub fn same_layer(&self, other: &Self) -> (r: bool)
        ensures
            r == (field_of(self@, 16) == field_of(other@, 16)),
    {
        self.layer() == other.layer()
    }

    /// The parent address in the lineage chain: one shard lower; at shard 0
    /// the last shard of the previous sector; the zero address at the root.
    pub fn parent(&self) -> (r: Self)
        ensures
            r@ == spec_parent(self@),
    {
        if self.shard() > 0 {
            self.with_shard(self.shard() - 1)
        } else if self.sector() > 0 {
            self.with_shard(0xFFFF).with_sector(self.sector() - 1)
        } else {
            Self::zero()
        }
    }

    /// A child address in the lineage chain: the shard advanced by
    /// `offset`, saturating at the last shard.
    pub fn child(&self, offset: u16) -> (r: Self)
        ensures
            r@ == spec_child(self@, offset),
    {
        let new_shard = self.shard().saturating_add(offset);
        if new_shard <= 0xFFFF {
            self.with_shard(new_shard)
        } else {
            self.with_shard(new_shard & 0xFFFF).with_sector(self.sector() + 1)
        }
    }

    /// The neighbouring address in direction `direction % 8`: 0 spine+1,
    /// 1 spine-1, 2 layer+1, 3 layer-1, 4 ring+1, 5 ring-1, 6 sector+1,
    /// 7 sector-1 (all wrapping).
    pub fn neighbor(&self, direction: u8) -> (r: Self)
        ensures
            r@ == spec_neighbor(self@, direction),
    {
        let d = direction % 8;
        if d == 0 {
            self.with_spine(self.spine().wrapping_add(1))
        } else if d == 1 {
            self.with_spine(self.spine().wrapping_sub(1))
        } else if d == 2 {
            self.with_layer(self.layer().wrapping_add(1))
        } else if d == 3 {
            self.with_layer(self.layer().wrapping_sub(1))
        } else if d == 4 {
            self.with_ring(self.ring().wrapping_add(1))
        } else if d == 5 {
            self.with_ring(self.ring().wrapping_sub(1))
        } else if d == 6 {
            self.with_sector(self.sector().wrapping_add(1))
        } else {
            self.with_sector(self.sector().wrapping_sub(1))
        }
    }

    /// The display form of the address.
    pub fn to_display_string(&self) -> (r: String)
        ensures
            r@ == address_text(self@),
    {
        let mut s = String::from_str("Addr(spine=");
        s.append(hex_string(self.spine() as u128, 4, false).as_str());
        s.append(", L");
        s.append(hex_string(self.layer() as u128, 4, false).as_str());
        s.append(", R");
        s.append(hex_string(self.ring() as u128, 4, false).as_str());
        s.append(", S");
        s.append(hex_string(self.sector() as u128, 4, false).as_str());
        s.append(", Sh");
        s.append(hex_string(self.shard() as u128, 4, false).as_str());
        s.append(", T");
        s.append(hex_string(self.temporal() as u128, 4, false).as_str());
        s.append(")");
        s
    }

    /// Whether this is a temporal register (T dimension active).
    pub fn is_temporal(&self) -> (r: bool)
        ensures
            r == (field_of(self@, 80) != 0),
    {
        self.temporal() != 0
    }

    /// Whether this is a valid (non-zero) address.
    pub fn is_valid(&self) -> (r: bool)
        ensures
            r == (self@ != 0),
    {
        self.bits != 0
    }
}

/// The address whose word is `bits`.
pub closed spec fn address_of_word(bits: u128) -> RegisterAddress {
    RegisterAddress { bits }
}

/// An address is determined by its word: converting a word to an address
/// and back gives the word, and converting an address's word back gives
/// the address.
pub proof fn lemma_address_of_word(a: RegisterAddress, bits: u128)
    ensures
        address_of_word(bits)@ == bits,
        a == address_of_word(a@),
        forall|b: RegisterAddress| b@ == a@ ==> b == a,
{
}

impl From<u128> for RegisterAddress {
    fn from(bits: u128) -> (r: Self) {
        RegisterAddress { bits }
    }
}

impl vstd::std_specs::convert::FromSpecImpl<u128> for RegisterAddress {
    open spec fn obeys_from_spec() -> bool {
        true
    }

    open spec fn from_spec(v: u128) -> Self {
        address_of_word(v)
    }
}

impl From<RegisterAddress> for u128 {
    fn from(addr: RegisterAddress) -> (r: u128) {
        addr.bits
    }
}

impl vstd::std_specs::convert::FromSpecImpl<RegisterAddress> for u128 {
    open spec fn obeys_from_spec() -> bool {
        true
    }

    open spec fn from_spec(v: RegisterAddress) -> u128 {
        v@
    }
}

// ── Laws ────────────────────────────────────────────────────────────────────

/// The six fields of an address built from components read back as those
/// components, and the unused top 32 bits are zero.
pub proof fn lemma_pack_fields(spine: u16, layer: u16, ring: u16, sector: u16, shard: u16, temporal: u16)
    ensures
        field_of(pack_fields(spine, layer, ring, sector, shard, temporal), 0) == spine,
        field_of(pack_fields(spine, layer, ring, sector, shard, temporal), 16) == layer,
        field_of(pack_fields(spine, layer, ring, sector, shard, temporal), 32) == ring,
        field_of(pack_fields(spine, layer, ring, sector, shard, temporal), 48) == sector,
        field_of(pack_fields(spine, layer, ring, sector, shard, temporal), 64) == shard,
        field_of(pack_fields(spine, layer, ring, sector, shard, temporal), 80) == temporal,
        pack_fields(spine, layer, ring, sector, shard, temporal) >> 96u128 == 0,
{
    let b = pack_fields(spine, layer, ring, sector, shard, temporal);
    assert(((b >> 0u128) & 0xFFFF) as u16 == spine && ((b >> 16u128) & 0xFFFF) as u16 == layer
        && ((b >> 32u128) & 0xFFFF) as u16 == ring && ((b >> 48u128) & 0xFFFF) as u16 == sector
        && ((b >> 64u128) & 0xFFFF) as u16 == shard && ((b >> 80u128) & 0xFFFF) as u16
        == temporal && b >> 96u128 == 0) by (bit_vector)
        requires
            b == (spine as u128) | ((layer as u128) << 16u128) | ((ring as u128) << 32u128) | ((
            sector as u128) << 48u128) | ((shard as u128) << 64u128) | ((temporal as u128)
                << 80u128),
    ;
}

/// An address word is determined by its six fields, it is zero exactly
/// when every field is zero, and its one bits are those of its fields.
pub proof fn lemma_pack_law(
    s: u16,
    l: u16,
    r: u16,
    se: u16,
    sh: u16,
    t: u16,
    s2: u16,
    l2: u16,
    r2: u16,
    se2: u16,
    sh2: u16,
    t2: u16,
)
    ensures
        pack_fields(s, l, r, se, sh, t) == pack_fields(s2, l2, r2, se2, sh2, t2) ==> (s, l, r, se, sh, t)
            == (s2, l2, r2, se2, sh2, t2),
        pack_fields(s, l, r, se, sh, t) == 0 <==> (s == 0 && l == 0 && r == 0 && se == 0 && sh == 0 && t == 0),
        pop128(pack_fields(s, l, r, se, sh, t)) == pop128(s as u128) + pop128(l as u128) + pop128(
            r as u128,
        ) + pop128(se as u128) + pop128(sh as u128) + pop128(t as u128),
{
    lemma_pack_fields(s, l, r, se, sh, t);
    lemma_pack_fields(s2, l2, r2, se2, sh2, t2);
    let b = pack_fields(s, l, r, se, sh, t);
    assert(b == 0 <==> (s == 0 && l == 0 && r == 0 && se == 0 && sh == 0 && t == 0)) by (bit_vector)
        requires
            b == (s as u128) | ((l as u128) << 16u128) | ((r as u128) << 32u128) | ((se as u128)
                << 48u128) | ((sh as u128) << 64u128) | ((t as u128) << 80u128),
    ;
    let w4: u128 = ((sh as u128) + (t as u128) * 0x10000) as u128;
    let w3: u128 = ((se as u128) + w4 * 0x10000) as u128;
    let w2: u128 = ((r as u128) + w3 * 0x10000) as u128;
    let w1: u128 = ((l as u128) + w2 * 0x10000) as u128;
    assert(b == (s as u128) + w1 * 0x10000) by (bit_vector)
        requires
            b == (s as u128) | ((l as u128) << 16u128) | ((r as u128) << 32u128) | ((se as u128)
                << 48u128) | ((sh as u128) << 64u128) | ((t as u128) << 80u128),
            w4 == (sh as u128) + (t as u128) * 0x10000,
            w3 == (se as u128) + w4 * 0x10000,
            w2 == (r as u128) + w3 * 0x10000,
            w1 == (l as u128) + w2 * 0x10000,
    ;
    assert(pow2(16) == 0x10000) by {
        lemma2_to64();
    }
    lemma_pop128_place(sh as u128, t as u128, 16);
    lemma_pop128_place(se as u128, w4, 16);
    lemma_pop128_place(r as u128, w3, 16);
    lemma_pop128_place(l as u128, w2, 16);
    lemma_pop128_place(s as u128, w1, 16);
}

/// Whether `off` is the offset of one of the six address fields.
pub open spec fn is_field_offset(off: u128) -> bool {
    off == 0 || off == 16 || off == 32 || off == 48 || off == 64 || off == 80
}

/// Replacing a field sets that field, leaves every other field alone,
/// writing a field's own value back changes nothing, and a second
/// replacement of the same field overrides the first.
pub proof fn lemma_replace_field(b: u128, off: u128, v: u16, w: u16, other: u128)
    requires
        is_field_offset(off),
        is_field_offset(other),
    ensures
        field_of(replace_field(b, off, v), off) == v,
        other != off ==> field_of(replace_field(b, off, v), other) == field_of(b, other),
        replace_field(b, off, field_of(b, off)) == b,
        replace_field(replace_field(b, off, v), off, w) == replace_field(b, off, w),
{
    let r = replace_field(b, off, v);
    assert(((r >> off) & 0xFFFF) as u16 == v) by (bit_vector)
        requires
            r == (b & !(0xFFFFu128 << off)) | ((v as u128) << off),
            off == 0 || off == 16 || off == 32 || off == 48 || off == 64 || off == 80,
    ;
    assert(other != off ==> ((r >> other) & 0xFFFF) as u16 == ((b >> other) & 0xFFFF) as u16)
        by (bit_vector)
        requires
            r == (b & !(0xFFFFu128 << off)) | ((v as u128) << off),
            off == 0 || off == 16 || off == 32 || off == 48 || off == 64 || off == 80,
            other == 0 || other == 16 || other == 32 || other == 48 || other == 64 || other
                == 80,
    ;
    let f = field_of(b, off);
    assert((b & !(0xFFFFu128 << off)) | ((f as u128) << off) == b) by (bit_vector)
        requires
            f == ((b >> off) & 0xFFFF) as u16,
            off == 0 || off == 16 || off == 32 || off == 48 || off == 64 || off == 80,
    ;
    assert((r & !(0xFFFFu128 << off)) | ((w as u128) << off) == (b & !(0xFFFFu128 << off)) | ((
    w as u128) << off)) by (bit_vector)
        requires
            r == (b & !(0xFFFFu128 << off)) | ((v as u128) << off),
            off == 0 || off == 16 || off == 32 || off == 48 || off == 64 || off == 80,
    ;
}

/// Address distance is symmetric, is zero exactly between equal addresses,
/// and never exceeds 128.
pub proof fn lemma_distance(a: u128, b: u128)
    ensures
        spec_distance(a, b) == spec_distance(b, a),
        spec_distance(a, b) == 0 <==> a == b,
        spec_distance(a, b) <= 128,
{
    assert(a ^ b == b ^ a) by (bit_vector);
    assert(a ^ b == 0 <==> a == b) by (bit_vector);
    lemma_pop128_zero(a ^ b);
    crate::popcount::lemma_pop128_bound(a ^ b);
}

/// A step in an even direction followed by a step in the next (opposite)
/// direction returns to the starting address, and so does the reverse order.
pub proof fn lemma_neighbor_inverse(b: u128, d: u8)
    requires
        d % 2 == 0,
        d < 255,
    ensures
        spec_neighbor(spec_neighbor(b, d), (d + 1) as u8) == b,
        spec_neighbor(spec_neighbor(b, (d + 1) as u8), d) == b,
{
    let off = direction_offset(d);
    assert(direction_offset((d + 1) as u8) == off);
    let v = field_of(b, off);
    let up = (if v == 0xFFFF { 0 } else { v + 1 }) as u16;
    let down = (if v == 0 { 0xFFFF } else { v - 1 }) as u16;
    lemma_replace_field(b, off, up, v, off);
    lemma_replace_field(b, off, down, v, off);
}

/// Replacing one field of a packed address gives the address packed with
/// that field changed.
proof fn lemma_replace_packed(s: u16, l: u16, r: u16, se: u16, sh: u16, t: u16, v: u16)
    ensures
        replace_field(pack_fields(s, l, r, se, sh, t), 0, v) == pack_fields(v, l, r, se, sh, t),
        replace_field(pack_fields(s, l, r, se, sh, t), 16, v) == pack_fields(s, v, r, se, sh, t),
        replace_field(pack_fields(s, l, r, se, sh, t), 32, v) == pack_fields(s, l, v, se, sh, t),
        replace_field(pack_fields(s, l, r, se, sh, t), 48, v) == pack_fields(s, l, r, v, sh, t),
        replace_field(pack_fields(s, l, r, se, sh, t), 64, v) == pack_fields(s, l, r, se, v, t),
{
    let b = pack_fields(s, l, r, se, sh, t);
    assert(((b & !(0xFFFFu128 << 0u128)) | ((v as u128) << 0u128) == (v as u128) | ((l as u128) << 16u128)
        | ((r as u128) << 32u128) | ((se as u128) << 48u128) | ((sh as u128) << 64u128) | ((t as u128)
        << 80u128)) && ((b & !(0xFFFFu128 << 16u128)) | ((v as u128) << 16u128) == (s as u128) | ((
    v as u128) << 16u128) | ((r as u128) << 32u128) | ((se as u128) << 48u128) | ((sh as u128)
        << 64u128) | ((t as u128) << 80u128)) && ((b & !(0xFFFFu128 << 32u128)) | ((v as u128)
        << 32u128) == (s as u128) | ((l as u128) << 16u128) | ((v as u128) << 32u128) | ((se as u128)
        << 48u128) | ((sh as u128) << 64u128) | ((t as u128) << 80u128)) && ((b & !(0xFFFFu128
        << 48u128)) | ((v as u128) << 48u128) == (s as u128) | ((l as u128) << 16u128) | ((r as u128)
        << 32u128) | ((v as u128) << 48u128) | ((sh as u128) << 64u128) | ((t as u128) << 80u128))
        && ((b & !(0xFFFFu128 << 64u128)) | ((v as u128) << 64u128) == (s as u128) | ((l as u128)
        << 16u128) | ((r as u128) << 32u128) | ((se as u128) << 48u128) | ((v as u128) << 64u128) | ((
    t as u128) << 80u128))) by (bit_vector)
        requires
            b == (s as u128) | ((l as u128) << 16u128) | ((r as u128) << 32u128) | ((se as u128)
                << 48u128) | ((sh as u128) << 64u128) | ((t as u128) << 80u128),
    ;
}

/// A neighbour step changes exactly one field by one, wrapping around
/// 16 bits: directions 0 and 1 the spine, 2 and 3 the layer, 4 and 5 the
/// ring, 6 and 7 the sector (taken modulo 8); even directions add one and
/// odd directions subtract one. The other fields are kept.
pub proof fn lemma_neighbor_fields(s: u16, l: u16, r: u16, se: u16, sh: u16, t: u16, d: u8)
    ensures
        d % 8 == 0 ==> spec_neighbor(pack_fields(s, l, r, se, sh, t), d) == pack_fields(
            ((s + 1) % 0x10000) as u16, l, r, se, sh, t),
        d % 8 == 1 ==> spec_neighbor(pack_fields(s, l, r, se, sh, t), d) == pack_fields(
            ((s + 0xFFFF) % 0x10000) as u16, l, r, se, sh, t),
        d % 8 == 2 ==> spec_neighbor(pack_fields(s, l, r, se, sh, t), d) == pack_fields(
            s, ((l + 1) % 0x10000) as u16, r, se, sh, t),
        d % 8 == 3 ==> spec_neighbor(pack_fields(s, l, r, se, sh, t), d) == pack_fields(
            s, ((l + 0xFFFF) % 0x10000) as u16, r, se, sh, t),
        d % 8 == 4 ==> spec_neighbor(pack_fields(s, l, r, se, sh, t), d) == pack_fields(
            s, l, ((r + 1) % 0x10000) as u16, se, sh, t),
        d % 8 == 5 ==> spec_neighbor(pack_fields(s, l, r, se, sh, t), d) == pack_fields(
            s, l, ((r + 0xFFFF) % 0x10000) as u16, se, sh, t),
        d % 8 == 6 ==> spec_neighbor(pack_fields(s, l, r, se, sh, t), d) == pack_fields(
            s, l, r, ((se + 1) % 0x10000) as u16, sh, t),
        d % 8 == 7 ==> spec_neighbor(pack_fields(s, l, r, se, sh, t), d) == pack_fields(
            s, l, r, ((se + 0xFFFF) % 0x10000) as u16, sh, t),
{
    lemma_pack_fields(s, l, r, se, sh, t);
    let off = direction_offset(d);
    let v = field_of(pack_fields(s, l, r, se, sh, t), off);
    let up = (if v == 0xFFFF { 0 } else { v + 1 }) as u16;
    let down = (if v == 0 { 0xFFFF } else { v - 1 }) as u16;
    lemma_replace_packed(s, l, r, se, sh, t, up);
    lemma_replace_packed(s, l, r, se, sh, t, down);
}

/// A child moves the shard up by the offset, stopping at the last shard,
/// and keeps the other fields; a parent moves the shard down by one, or at
/// shard 0 goes to the last shard of the previous sector, and is zero at
/// shard 0 of sector 0.
pub proof fn lemma_child_parent_fields(s: u16, l: u16, r: u16, se: u16, sh: u16, t: u16, offset: u16)
    ensures
        spec_child(pack_fields(s, l, r, se, sh, t), offset) == pack_fields(
            s,
            l,
            r,
            se,
            if sh + offset > 0xFFFF { 0xFFFFu16 } else { (sh + offset) as u16 },
            t,
        ),
        sh > 0 ==> spec_parent(pack_fields(s, l, r, se, sh, t)) == pack_fields(s, l, r, se, (sh - 1) as u16, t),
        sh == 0 && se > 0 ==> spec_parent(pack_fields(s, l, r, se, sh, t)) == pack_fields(
            s,
            l,
            r,
            (se - 1) as u16,
            0xFFFF,
            t,
        ),
        sh == 0 && se == 0 ==> spec_parent(pack_fields(s, l, r, se, sh, t)) == 0,
{
    lemma_pack_fields(s, l, r, se, sh, t);
    lemma_replace_packed(s, l, r, se, sh, t, if sh + offset > 0xFFFF { 0xFFFFu16 } else { (sh + offset) as u16 });
    if sh > 0 {
        lemma_replace_packed(s, l, r, se, sh, t, (sh - 1) as u16);
    } else if se > 0 {
        lemma_replace_packed(s, l, r, se, sh, t, 0xFFFF);
        lemma_replace_packed(s, l, r, se, 0xFFFF, t, (se - 1) as u16);
    }
}

/// The parent of the first child of an address is the address itself,
/// unless the shard is already the last one.
pub proof fn lemma_parent_of_child(b: u128)
    requires
        field_of(b, 64) < 0xFFFF,
    ensures
        spec_parent(spec_child(b, 1)) == b,
{
    let s = field_of(b, 64);
    lemma_replace_field(b, 64, (s + 1) as u16, s, 64);
}

} // verus!
