//! One-way send throughput: the client streams `iterations` messages from one reused buffer,
//! keeping `tx_depth` in flight; the server keeps `rx_depth` receives posted.

use vstd::prelude::*;

verus! {

/// How many warm-up messages are exchanged, at most, before the timed region starts.
pub const WARMUP_ITERS: usize = 64;

pub open spec fn min4(a: nat, b: nat, c: nat, d: nat) -> nat {
    let ab = if a < b {
        a
    } else {
        b
    };
    let cd = if c < d {
        c
    } else {
        d
    };
    if ab < cd {
        ab
    } else {
        cd
    }
}

/// How many warm-up messages to exchange, discarded, before the timed region starts. Bounded by
/// both queue depths so a requested depth smaller than `WARMUP_ITERS` cannot overflow the send
/// or receive queue when the warm-up batch is posted; both sides compute it identically and
/// independently, so the counts agree without negotiating them over the wire.
pub fn warmup_count(iterations: usize, tx_depth: usize, rx_depth: usize) -> (r: usize)
    ensures
        r == min4(WARMUP_ITERS as nat, iterations as nat, tx_depth as nat, rx_depth as nat),
        r <= WARMUP_ITERS,
        r <= iterations,
        r <= tx_depth,
        r <= rx_depth,
{
    let mut r = WARMUP_ITERS;
    if iterations < r {
        r = iterations;
    }
    if tx_depth < r {
        r = tx_depth;
    }
    if rx_depth < r {
        r = rx_depth;
    }
    r
}

/// How many completions are still to be drained after a poll returned `n` of the `remaining`.
pub fn drain_step(remaining: usize, n: usize) -> (r: usize)
    ensures
        r == if n < remaining {
            remaining - n
        } else {
            0
        },
        r <= remaining,
{
    if n < remaining {
        remaining - n
    } else {
        0
    }
}

} // verus!
