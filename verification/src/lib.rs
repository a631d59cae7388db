//! Subscription intake: a verified core for a newsletter sign-up service.
//!
//! The library holds the logic of the intake pipeline — parsing URL-encoded
//! form submissions, assigning identifiers and timestamps, modelling the
//! subscriber store, loading and merging configuration, assembling connection
//! strings, planning forward-only migrations, and dispatching the two HTTP
//! routes — each piece with a contract checked by Verus.

use vstd::prelude::*;

pub mod config;
pub mod form;
pub mod provision;
pub mod routes;
pub mod subscription;

verus! {

/// Byte-for-byte equality of two slices.
pub fn bytes_eq(a: &[u8], b: &[u8]) -> (r: bool)
    ensures
        r == (a@ == b@),
{
    if a.len() != b.len() {
        proof {
            assert(a@ != b@);
        }
        return false;
    }
    let mut i: usize = 0;
    while i < a.len()
        invariant
            0 <= i <= a@.len(),
            a@.len() == b@.len(),
            forall|t: int| 0 <= t < i ==> a@[t] == b@[t],
        decreases a@.len() - i,
    {
        if a[i] != b[i] {
            return false;
        }
        i = i + 1;
    }
    proof {
        assert(a@ =~= b@);
    }
    true
}

/// An HTTP-level outcome: a status code and a response body.
pub struct Response {
    pub status: u16,
    pub body: Vec<u8>,
}

} // verus!
