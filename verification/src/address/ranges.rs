//! Common address ranges for model components.

use vstd::prelude::*;
use crate::address::{RegisterAddress, pack_fields};

verus! {

/// Address of a model weight in a given layer (spine 0xD000).
pub fn weight_address(layer: u16, head: u16, parameter: u16) -> (r: RegisterAddress)
    ensures
        r@ == pack_fields(0xD000, layer, 0, head, parameter, 0),
{
    RegisterAddress::new(0xD000, layer, 0, head, parameter, 0)
}

/// Address of a KV cache entry: the spine is 0xE000 plus the low 16 bits of
/// the token position.
pub fn kv_address(token_pos: u32, layer: u16, head: u16) -> (r: RegisterAddress)
    requires
        token_pos % 0x10000 < 0x2000,
    ensures
        r@ == pack_fields((0xE000 + token_pos % 0x10000) as u16, layer, 0, head, 0, 0),
{
    let low: u16 = (token_pos as u16) & 0xFFFF;
    assert(low == token_pos % 0x10000) by (bit_vector)
        requires
            low == ((token_pos as u16) & 0xFFFFu16),
    ;
    let spine = 0xE000u16 + low;
    RegisterAddress::new(spine, layer, 0, head, 0, 0)
}

/// Address of an activation slot in the temporal register ring.
pub fn activation_address(slot: u16) -> (r: RegisterAddress)
    ensures
        r@ == pack_fields(0xF000, 0, 0, 0, 0, slot),
{
    RegisterAddress::new(0xF000, 0, 0, 0, 0, slot)
}

/// Address on the control plane for a routing key: the sector holds bits
/// 32..48 of the key and the shard its low 16 bits.
pub fn control_address(routing_key: u64) -> (r: RegisterAddress)
    ensures
        r@ == pack_fields(
            0xC000,
            0,
            0,
            ((routing_key / 0x1_0000_0000) % 0x10000) as u16,
            (routing_key % 0x10000) as u16,
            0,
        ),
{
    let sector = (routing_key >> 32u64) as u16;
    let shard = (routing_key & 0xFFFF) as u16;
    assert(sector == (routing_key / 0x1_0000_0000) % 0x10000) by (bit_vector)
        requires
            sector == (routing_key >> 32u64) as u16,
    ;
    assert(shard == routing_key % 0x10000) by (bit_vector)
        requires
            shard == (routing_key & 0xFFFFu64) as u16,
    ;
    RegisterAddress::new(0xC000, 0, 0, sector, shard, 0)
}

/// Address of a cross-model delta: spine 0xA000 plus the base model index.
pub fn delta_address(base_model: u16, variant: u16, layer: u16) -> (r: RegisterAddress)
    requires
        base_model < 0x6000,
    ensures
        r@ == pack_fields((0xA000 + base_model) as u16, layer, variant, 0, 0, 0),
{
    RegisterAddress::new(0xA000 + base_model, layer, variant, 0, 0, 0)
}

} // verus!
