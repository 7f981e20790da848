use std::collections::HashSet;
use vstd::prelude::*;

verus! {

broadcast use vstd::std_specs::hash::group_hash_axioms;

/// The identity of one registered listener.
#[derive(Clone, Copy, PartialEq, Eq, Structural, Debug, Hash)]
pub struct ListenerId {
    value: u128,
}

impl View for ListenerId {
    type V = u128;

    closed spec fn view(&self) -> u128 {
        self.value
    }
}

impl ListenerId {
    pub fn from_u128(value: u128) -> (r: Self)
        ensures
            r@ == value,
    {
        ListenerId { value }
    }

    pub fn as_u128(&self) -> (r: u128)
        ensures
            r == self@,
    {
        self.value
    }
}

/// Relies on `uuid::Uuid::new_v4` and `Uuid::as_u128`: a random version 4
/// identifier as an integer. Nothing is known of which value comes out.
#[verifier::external_body]
fn draw_id() -> (r: u128) {
    uuid::Uuid::new_v4().as_u128()
}

/// Distance from `start` to `x`, counting upwards modulo 2^128.
spec fn probe_offset(start: u128, x: u128) -> int {
    if x >= start {
        x - start
    } else {
        x - start + 0x1_0000_0000_0000_0000_0000_0000_0000_0000
    }
}

/// Returns an identifier that is not in `issued`. It starts from a random
/// identifier and, should that one be taken, tries its successors: one of
/// the first `issued.len() + 1` is free.
pub fn fresh_id(issued: &HashSet<u128>) -> (r: u128)
    requires
        issued@.finite(),
    ensures
        !issued@.contains(r),
{
    let start = draw_id();
    let n = issued.len();
    let mut step: u128 = 0;
    let ghost mut tried: Set<u128> = Set::empty();
    while step <= n as u128
        invariant
            n == issued@.len(),
            step <= n + 1,
            tried.finite(),
            tried.len() == step,
            tried.subset_of(issued@),
            forall|x: u128| tried.contains(x) ==> probe_offset(start, x) < step,
        decreases n + 1 - step,
    {
        let c = start.wrapping_add(step);
        assert(probe_offset(start, c) == step);
        if !issued.contains(&c) {
            return c;
        }
        proof {
            tried = tried.insert(c);
        }
        step = step + 1;
    }
    proof {
        vstd::set_lib::lemma_len_subset(tried, issued@);
    }
    start
}

} // verus!
