//! Feeding values to std's `DefaultHasher`.
//!
//! vstd models a `DefaultHasher` as the sequence of byte chunks written to
//! it, and `finish` as a function of that sequence. What `Hash::hash` writes
//! for a value is std's own encoding; it is named here as a function of the
//! value alone.

use vstd::prelude::*;
use std::collections::hash_map::DefaultHasher;
use std::hash::Hash;

verus! {

/// The chunks that `<u128 as Hash>::hash` writes for `x`.
pub uninterp spec fn u128_hash_chunks(x: u128) -> Seq<Seq<u8>>;

/// The chunks that `<u16 as Hash>::hash` writes for `x`.
pub uninterp spec fn u16_hash_chunks(x: u16) -> Seq<Seq<u8>>;

/// The chunks that `<usize as Hash>::hash` writes for `x`.
pub uninterp spec fn usize_hash_chunks(x: usize) -> Seq<Seq<u8>>;

/// The chunks that `<[u64] as Hash>::hash` writes for a slice with the
/// elements `s` (its length prefix and its elements).
pub uninterp spec fn u64_slice_hash_chunks(s: Seq<u64>) -> Seq<Seq<u8>>;

/// The chunks that `<[u8] as Hash>::hash` writes for a slice with the
/// elements `s` (its length prefix and its elements).
pub uninterp spec fn u8_slice_hash_chunks(s: Seq<u8>) -> Seq<Seq<u8>>;

/// Calls `<u128 as Hash>::hash`; the claim is that it appends to the
/// hasher's written chunks a sequence that depends on `x` alone.
#[verifier::external_body]
pub(crate) fn hash_u128(state: &mut DefaultHasher, x: u128)
    ensures
        final(state)@ == old(state)@ + u128_hash_chunks(x),
{
    x.hash(state);
}

/// Calls `<u16 as Hash>::hash`; the claim is that it appends to the
/// hasher's written chunks a sequence that depends on `x` alone.
#[verifier::external_body]
pub(crate) fn hash_u16(state: &mut DefaultHasher, x: u16)
    ensures
        final(state)@ == old(state)@ + u16_hash_chunks(x),
{
    x.hash(state);
}

/// Calls `<usize as Hash>::hash`; the claim is that it appends to the
/// hasher's written chunks a sequence that depends on `x` alone.
#[verifier::external_body]
pub(crate) fn hash_usize(state: &mut DefaultHasher, x: usize)
    ensures
        final(state)@ == old(state)@ + usize_hash_chunks(x),
{
    x.hash(state);
}

/// Calls `<[u64] as Hash>::hash`; the claim is that it appends to the
/// hasher's written chunks a sequence that depends on the slice's elements
/// alone.
#[verifier::external_body]
pub(crate) fn hash_u64_slice(state: &mut DefaultHasher, s: &[u64])
    ensures
        final(state)@ == old(state)@ + u64_slice_hash_chunks(s@),
{
    s.hash(state);
}

/// Calls `<[u8] as Hash>::hash`; the claim is that it appends to the
/// hasher's written chunks a sequence that depends on the slice's elements
/// alone.
#[verifier::external_body]
pub(crate) fn hash_u8_slice(state: &mut DefaultHasher, s: &[u8])
    ensures
        final(state)@ == old(state)@ + u8_slice_hash_chunks(s@),
{
    s.hash(state);
}

} // verus!
