//! The outcome of a rotation cycle, and the machine's thermal state that
//! slows rotation down.

use vstd::prelude::*;

verus! {

/// Thermal state of the machine.
#[derive(Clone, Copy, Debug, PartialEq, Eq, Structural)]
pub enum ThermalState {
    Cool,
    Warm,
    Hot,
    Unknown,
}

/// What a rotation event did for one layer.
#[derive(Clone, Copy, Debug, PartialEq, Eq, Structural)]
pub struct RotationResult {
    pub layer_id: u16,
    pub movements: usize,
    pub echoes_processed: usize,
    pub prefetches: usize,
}

impl Default for RotationResult {
    /// A result with every field zero.
    fn default() -> (r: Self)
        ensures
            r == (RotationResult { layer_id: 0, movements: 0, echoes_processed: 0, prefetches: 0 }),
    {
        RotationResult { layer_id: 0, movements: 0, echoes_processed: 0, prefetches: 0 }
    }
}

/// Layers past this one are cold enough to prefetch from while rotating.
pub const PREFETCH_MIN_LAYER: u16 = 10;

/// The outcome of a rotation event for `layer_id`, given the layer's
/// rotation count (`None` for a layer the scheduler does not track), whether
/// prefetching during rotation is on, and how many echoes the batched
/// propagation left pending: an unknown layer gives all zeros; otherwise
/// the movements are the rotation count modulo 100, the prefetches the
/// rotation count modulo 10 for layers past 10 when prefetching is on (0
/// otherwise), and the echoes processed the pending count.
pub fn rotation_outcome(
    layer_id: u16,
    rotation_count: Option<u64>,
    prefetch_during_rotation: bool,
    echoes_pending: usize,
) -> (r: RotationResult)
    ensures
        r.layer_id == layer_id,
        match rotation_count {
            None => r.movements == 0 && r.echoes_processed == 0 && r.prefetches == 0,
            Some(c) => {
                &&& r.movements == c % 100
                &&& r.echoes_processed == echoes_pending
                &&& r.prefetches == (if prefetch_during_rotation && layer_id > PREFETCH_MIN_LAYER {
                    c % 10
                } else {
                    0
                })
            },
        },
{
    match rotation_count {
        None => RotationResult { layer_id, movements: 0, echoes_processed: 0, prefetches: 0 },
        Some(c) => {
            let prefetches: u64 = if prefetch_during_rotation && layer_id > PREFETCH_MIN_LAYER {
                c % 10
            } else {
                0
            };
            let movements: u64 = c % 100;
            RotationResult {
                layer_id,
                movements: movements as usize,
                echoes_processed: echoes_pending,
                prefetches: prefetches as usize,
            }
        },
    }
}

} // verus!
