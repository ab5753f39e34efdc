//! Responder half of the one-sided RDMA WRITE/READ bandwidth benchmark. Only the server side
//! exists here: it registers a buffer and hands out its address and key; the initiator lives on
//! the other end.

use vstd::prelude::*;
use vstd::string::*;
use super::{Role, spec_window, window};

verus! {

pub open spec fn msg_cannot_initiate() -> Seq<char> {
    "this build of rust-rdma-bench cannot initiate RDMA WRITE/READ (crates.io ibverbs 0.9.2 has no rdma_write/rdma_read verb); run this mode with D3OS as the client instead"@
}

/// What the responder registers for a run: `Ok` with the number of message slots of its
/// buffer, the same formula the initiator sizes its own buffer with, or the error of a side
/// that would have to initiate.
pub fn responder_window(role: Role, tx_depth: usize, iterations: usize) -> (r: Result<usize, String>)
    ensures
        role == Role::Client ==> (r matches Err(e) && e@ == msg_cannot_initiate()),
        role == Role::Server ==> r == Ok::<usize, String>(
            spec_window(tx_depth as nat, iterations as nat) as usize,
        ),
{
    if role == Role::Client {
        return Err(
            String::from_str(
                "this build of rust-rdma-bench cannot initiate RDMA WRITE/READ (crates.io ibverbs 0.9.2 has no rdma_write/rdma_read verb); run this mode with D3OS as the client instead",
            ),
        );
    }
    Ok(window(tx_depth, iterations))
}

} // verus!
