//! The benchmark modes: what each side decides while a run is under way.

pub mod accuracy;
pub mod bandwidth;
pub mod latency;
pub mod rdma;
pub mod window;

use vstd::prelude::*;
use crate::cli::{Mode, Transport};

verus! {

/// Which side of the benchmark connection this process is playing.
#[derive(Copy, Clone, Debug, PartialEq, Eq, Structural)]
pub enum Role {
    Client,
    Server,
}

/// Whether `(transport, mode)` has an implementation.
pub open spec fn spec_supported(transport: Transport, mode: Mode) -> bool {
    match (transport, mode) {
        (Transport::Ud, _) => false,
        (Transport::Uc, Mode::RdmaRead) => false,
        _ => true,
    }
}

/// Whether `(transport, mode)` has an actual implementation, as opposed to a stub. Checked
/// before any RDMA resources are built for a connection, so an unsupported combination can be
/// rejected cleanly instead of failing partway through setup.
pub fn supported(transport: Transport, mode: Mode) -> (r: bool)
    ensures
        r == spec_supported(transport, mode),
{
    match (transport, mode) {
        (Transport::Ud, _) => false,
        // RDMA READ is not in UC's transport-service repertoire: UC has RDMA WRITE but no
        // read/atomics.
        (Transport::Uc, Mode::RdmaRead) => false,
        // Every other mode works over both connected transports.
        (Transport::Rc, _) | (Transport::Uc, _) => true,
    }
}

/// Messages in flight at once when every one needs a buffer of its own: the send depth, at
/// least one, at most the whole run.
pub open spec fn spec_window(tx_depth: nat, iterations: nat) -> nat {
    let d = if tx_depth < 1 {
        1
    } else {
        tx_depth
    };
    if d < iterations {
        d
    } else {
        iterations
    }
}

/// The number of message slots a run of `iterations` messages with send depth `tx_depth`
/// registers, derived identically and independently by both ends.
pub fn window(tx_depth: usize, iterations: usize) -> (r: usize)
    ensures
        r == spec_window(tx_depth as nat, iterations as nat),
{
    let d = if tx_depth < 1 {
        1
    } else {
        tx_depth
    };
    if d < iterations {
        d
    } else {
        iterations
    }
}

/// Only UD, and RDMA READ over UC, are refused: every mode runs over RC, every mode but
/// RDMA READ over UC, nothing over UD.
pub proof fn only_ud_and_uc_read_are_refused(m: Mode)
    ensures
        spec_supported(Transport::Rc, m),
        m != Mode::RdmaRead ==> spec_supported(Transport::Uc, m),
        !spec_supported(Transport::Uc, Mode::RdmaRead),
        !spec_supported(Transport::Ud, m),
{
}

/// The window is the smaller of the send depth (at least one) and the number of messages: it
/// never exceeds either, and it is one of them.
pub proof fn window_is_min_of_depth_and_run(tx_depth: nat, iterations: nat)
    ensures
        spec_window(tx_depth, iterations) <= if tx_depth < 1 {
            1
        } else {
            tx_depth
        },
        spec_window(tx_depth, iterations) <= iterations,
        spec_window(tx_depth, iterations) == iterations || spec_window(tx_depth, iterations) == (
        if tx_depth < 1 {
            1
        } else {
            tx_depth
        }),
{
}

} // verus!
