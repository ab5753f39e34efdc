//! Send/receive latency over a ping-pong exchange: the client sends a message and waits for the
//! echo; one iteration is one round trip. Each wait is bounded, so a round trip lost on an
//! unreliable transport ends the wait instead of hanging both sides.

use vstd::prelude::*;

verus! {

/// `wr_id` of the send a side has outstanding. The two ids are distinct bits, so a wait can
/// track what it is still waiting on as a bitmask.
pub const WR_SEND: u64 = 1;

/// `wr_id` of the receive a side has outstanding.
pub const WR_RECV: u64 = 2;

/// The clock is read once every this many polls, since reading it costs more than a poll.
pub const CHECK_TIMEOUT_ITER: u64 = 100;

/// What a wait does after a poll.
#[derive(Copy, Clone, Debug, PartialEq, Eq, Structural)]
pub enum WaitStep {
    /// Everything waited for has completed.
    Satisfied,
    /// The deadline passed.
    TimedOut,
    /// Poll again.
    Continue,
}

/// A busy-polling wait for a completion of every `wr_id` in a bitmask.
pub struct Wait {
    pending: u64,
    polls: u64,
}

/// The `wr_id`s among `ids` cleared from `pending`.
pub open spec fn cleared(pending: u64, ids: Seq<u64>) -> u64
    decreases ids.len(),
{
    if ids.len() == 0 {
        pending
    } else {
        cleared(pending, ids.drop_last()) & !ids.last()
    }
}

impl Wait {
    /// The `wr_id`s still waited for.
    pub closed spec fn pending(&self) -> u64 {
        self.pending
    }

    /// Polls done so far.
    pub closed spec fn polls(&self) -> u64 {
        self.polls
    }

    /// A wait for every `wr_id` in `want`.
    pub fn new(want: u64) -> (r: Wait)
        ensures
            r.pending() == want,
            r.polls() == 0,
    {
        Wait { pending: want, polls: 0 }
    }

    /// Whether nothing is waited for any more.
    pub fn is_satisfied(&self) -> (r: bool)
        ensures
            r == (self.pending() == 0),
    {
        self.pending == 0
    }

    /// The `wr_id`s still waited for.
    pub fn remaining(&self) -> (r: u64)
        ensures
            r == self.pending(),
    {
        self.pending
    }

    /// Whether this poll is one after which the clock is read.
    pub fn clock_due(&self) -> (r: bool)
        ensures
            r == (self.polls() % CHECK_TIMEOUT_ITER == 0),
    {
        self.polls % CHECK_TIMEOUT_ITER == 0
    }

    /// Takes one poll into account: `ids` are the `wr_id`s of the completions it returned, and
    /// `deadline_passed` whether the clock, read only when `clock_due`, is past the deadline.
    pub fn after_poll(&mut self, ids: &Vec<u64>, deadline_passed: bool) -> (r: WaitStep)
        ensures
            final(self).pending() == cleared(old(self).pending(), ids@),
            old(self).polls() % CHECK_TIMEOUT_ITER == 0 && deadline_passed ==> r
                == WaitStep::TimedOut && final(self).polls() == old(self).polls(),
            !(old(self).polls() % CHECK_TIMEOUT_ITER == 0 && deadline_passed) ==> {
                &&& final(self).polls() == old(self).polls().wrapping_add(1)
                &&& r == if final(self).pending() == 0 {
                    WaitStep::Satisfied
                } else {
                    WaitStep::Continue
                }
            },
    {
        let mut i: usize = 0;
        while i < ids.len()
            invariant
                i <= ids@.len(),
                self.polls == old(self).polls,
                self.pending == cleared(old(self).pending, ids@.take(i as int)),
            decreases ids@.len() - i,
        {
            assert(ids@.take(i + 1).drop_last() =~= ids@.take(i as int));
            self.pending = self.pending & !ids[i];
            i = i + 1;
        }
        assert(ids@.take(ids@.len() as int) =~= ids@);
        if self.polls % CHECK_TIMEOUT_ITER == 0 && deadline_passed {
            return WaitStep::TimedOut;
        }
        self.polls = self.polls.wrapping_add(1);
        if self.pending == 0 {
            WaitStep::Satisfied
        } else {
            WaitStep::Continue
        }
    }
}

/// Whether the ping side posts the receive for the next echo after round trip `i` of
/// `iterations`: only while another round trip follows.
pub fn another_round_follows(i: usize, iterations: usize) -> (r: bool)
    ensures
        r == (i + 1 < iterations),
{
    i < iterations && iterations - i > 1
}

/// Once a completion of a `wr_id` has been seen, the wait no longer waits for it, and a wait
/// never starts waiting for something it was not waiting for.
pub proof fn completion_clears_only_its_bit(pending: u64, id: u64)
    ensures
        (pending & !id) & id == 0,
        (pending & !id) & !pending == 0,
{
    assert((pending & !id) & id == 0) by (bit_vector);
    assert((pending & !id) & !pending == 0) by (bit_vector);
}

/// A ping that waits for both its send and its echo is satisfied by exactly those two
/// completions, in either order.
pub proof fn send_and_echo_satisfy_a_ping()
    ensures
        cleared(WR_SEND | WR_RECV, seq![WR_SEND, WR_RECV]) == 0,
        cleared(WR_SEND | WR_RECV, seq![WR_RECV, WR_SEND]) == 0,
        cleared(WR_SEND | WR_RECV, seq![WR_SEND]) != 0,
        cleared(WR_SEND | WR_RECV, seq![WR_RECV]) != 0,
{
    reveal_with_fuel(cleared, 3);
    assert(seq![WR_SEND, WR_RECV].drop_last() =~= seq![WR_SEND]);
    assert(seq![WR_RECV, WR_SEND].drop_last() =~= seq![WR_RECV]);
    assert(seq![WR_SEND].drop_last() =~= Seq::<u64>::empty());
    assert(seq![WR_RECV].drop_last() =~= Seq::<u64>::empty());
    assert(((1u64 | 2u64) & !1u64) & !2u64 == 0) by (bit_vector);
    assert(((1u64 | 2u64) & !2u64) & !1u64 == 0) by (bit_vector);
    assert((1u64 | 2u64) & !1u64 != 0) by (bit_vector);
    assert((1u64 | 2u64) & !2u64 != 0) by (bit_vector);
}

/// A poll only removes from a wait the `wr_id`s whose completions it returned: nothing that
/// was not waited for is added, every returned `wr_id` is no longer waited for, and whatever
/// none of the returned `wr_id`s touches is still waited for.
pub proof fn poll_only_clears_completed_ids(pending: u64, ids: Seq<u64>, q: u64)
    ensures
        cleared(pending, ids) & !pending == 0,
        forall|i: int| 0 <= i < ids.len() ==> cleared(pending, ids) & #[trigger] ids[i] == 0,
        (forall|i: int| 0 <= i < ids.len() ==> q & #[trigger] ids[i] == 0) ==> cleared(pending, ids)
            & q == pending & q,
    decreases ids.len(),
{
    if ids.len() == 0 {
        assert(pending & !pending == 0) by (bit_vector);
    } else {
        let rest = ids.drop_last();
        let last = ids.last();
        poll_only_clears_completed_ids(pending, rest, q);
        let c = cleared(pending, rest);
        assert((c & !last) & !pending == 0) by (bit_vector)
            requires
                c & !pending == 0,
        ;
        assert((c & !last) & last == 0) by (bit_vector);
        assert forall|i: int| 0 <= i < ids.len() implies cleared(pending, ids) & #[trigger] ids[i]
            == 0 by {
            if i < ids.len() - 1 {
                let id = ids[i];
                assert(rest[i] == id);
                assert((c & !last) & id == 0) by (bit_vector)
                    requires
                        c & id == 0,
                ;
            }
        }
        if forall|i: int| 0 <= i < ids.len() ==> q & #[trigger] ids[i] == 0 {
            assert forall|i: int| 0 <= i < rest.len() implies q & #[trigger] rest[i] == 0 by {
                assert(rest[i] == ids[i]);
            }
            assert(q & ids[ids.len() - 1] == 0);
            assert((c & !last) & q == pending & q) by (bit_vector)
                requires
                    c & q == pending & q,
                    q & last == 0,
            ;
        }
    }
}

} // verus!
