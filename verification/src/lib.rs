//! Binetic: a self-describing, spatially organised computation fabric.
//!
//! The library holds the fabric's data structures and rules: 128-bit register
//! addresses, bitsliced lanes, sector bloom filters, registers with XOR
//! lineage and compound registers, echo propagation, storage tiers, the
//! compute backends' decisions (native, MLX, llama.cpp), the outcome of a
//! rotation event, the user's authority over mutations, and the history of
//! actions and intents.

pub mod address;
pub mod popcount;
pub mod bitslice;
pub mod hashing;
pub mod bloom;
pub mod text;
pub mod tiers;
pub mod backend;
pub mod register;
pub mod store;
pub mod echo;
pub mod network;
pub mod fabric;
pub mod mlx;
pub mod llama;
pub mod intent;
pub mod rotation;
