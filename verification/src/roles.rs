use vstd::prelude::*;
use vstd::string::StringSliceAdditionalSpecFns;
use crate::text::bytes_eq;

verus! {

/// The inbound protocol's `assistant` becomes the upstream's `model`; every
/// other role name passes through.
pub open spec fn role_a_to_b(r: Seq<u8>) -> Seq<u8> {
    if r == "assistant".spec_bytes() {
        "model".spec_bytes()
    } else {
        r
    }
}

/// The upstream's `model` becomes the inbound protocol's `assistant`; every
/// other role name passes through.
pub open spec fn role_b_to_a(r: Seq<u8>) -> Seq<u8> {
    if r == "model".spec_bytes() {
        "assistant".spec_bytes()
    } else {
        r
    }
}

/// The role mapping is a bijection between the two protocols: carrying a
/// role over and back returns it, for every role name the inbound protocol
/// can hold.
pub proof fn lemma_role_round_trip_a(r: Seq<u8>)
    requires
        r != "model".spec_bytes(),
    ensures
        role_b_to_a(role_a_to_b(r)) == r,
{
}

/// The role mapping is a bijection in the other direction as well, for every
/// role name the upstream can hold.
pub proof fn lemma_role_round_trip_b(r: Seq<u8>)
    requires
        r != "assistant".spec_bytes(),
    ensures
        role_a_to_b(role_b_to_a(r)) == r,
{
}

/// Maps an inbound role name to the upstream's.
pub fn map_role_a_to_b(r: &[u8]) -> (out: Vec<u8>)
    ensures
        out@ == role_a_to_b(r@),
{
    if bytes_eq(r, "assistant".as_bytes()) {
        vstd::slice::slice_to_vec("model".as_bytes())
    } else {
        vstd::slice::slice_to_vec(r)
    }
}

/// Maps an upstream role name to the inbound protocol's.
pub fn map_role_b_to_a(r: &[u8]) -> (out: Vec<u8>)
    ensures
        out@ == role_b_to_a(r@),
{
    if bytes_eq(r, "model".as_bytes()) {
        vstd::slice::slice_to_vec("assistant".as_bytes())
    } else {
        vstd::slice::slice_to_vec(r)
    }
}

} // verus!
