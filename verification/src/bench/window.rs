//! The windowed stream shared by the streaming benchmarks: `iterations` work requests, numbered
//! from zero, of which at most `depth` are outstanding at once. The first batch is posted up
//! front; every completion lets the next request be posted, until all of them have been.

use vstd::prelude::*;

verus! {

/// The numbers of the work requests to post next: `first`, `first + 1`, ... `count` of them.
#[derive(Copy, Clone, Debug, PartialEq, Eq, Structural)]
pub struct Posts {
    pub first: usize,
    pub count: usize,
}

/// The mathematical state of a stream.
pub struct StreamView {
    pub iterations: nat,
    pub depth: nat,
    pub posted: nat,
    pub completed: nat,
}

pub open spec fn min_nat(a: nat, b: nat) -> nat {
    if a <= b {
        a
    } else {
        b
    }
}

impl StreamView {
    /// The state after `n` more completions: each lets one more request go out, as long as
    /// there are requests left.
    pub open spec fn after(self, n: nat) -> StreamView {
        StreamView {
            posted: min_nat(self.iterations, self.posted + n),
            completed: self.completed + n,
            ..self
        }
    }

    /// The window is as full as it can be: every request that may be outstanding is.
    pub open spec fn full(self) -> bool {
        self.posted == min_nat(self.iterations, self.completed + self.depth)
    }

    /// How many requests are posted but not completed.
    pub open spec fn outstanding(self) -> int {
        self.posted - self.completed
    }
}

/// A windowed stream of work requests.
pub struct Stream {
    iterations: usize,
    depth: usize,
    posted: usize,
    completed: usize,
}

/// What a side waiting on an unreliable peer does after a poll.
#[derive(Copy, Clone, Debug, PartialEq, Eq, Structural)]
pub enum Step {
    /// Post these requests and poll again.
    Refill(Posts),
    /// Nothing arrived yet; poll again.
    Wait,
    /// Nothing arrived for the whole idle timeout; treat what is missing as lost.
    GiveUp,
}

impl Stream {
    pub closed spec fn view(&self) -> StreamView {
        StreamView {
            iterations: self.iterations as nat,
            depth: self.depth as nat,
            posted: self.posted as nat,
            completed: self.completed as nat,
        }
    }

    pub closed spec fn wf(&self) -> bool {
        self.posted <= self.iterations
    }

    /// A stream of `iterations` requests with at most `depth` outstanding, and the first batch
    /// to post.
    pub fn new(iterations: usize, depth: usize) -> (r: (Stream, Posts))
        ensures
            r.0.wf(),
            r.0.view() == (StreamView {
                iterations: iterations as nat,
                depth: depth as nat,
                posted: min_nat(depth as nat, iterations as nat),
                completed: 0,
            }),
            r.0.view().full(),
            r.1 == (Posts { first: 0, count: min_nat(depth as nat, iterations as nat) as usize }),
    {
        let window = if depth < iterations {
            depth
        } else {
            iterations
        };
        (Stream { iterations, depth, posted: window, completed: 0 }, Posts { first: 0, count: window })
    }

    /// Requests completed so far.
    pub fn completed(&self) -> (r: usize)
        ensures
            r == self.view().completed,
    {
        self.completed
    }

    /// Requests posted so far.
    pub fn posted(&self) -> (r: usize)
        ensures
            r == self.view().posted,
    {
        self.posted
    }

    /// Whether every request has completed.
    pub fn is_done(&self) -> (r: bool)
        ensures
            r == (self.view().completed >= self.view().iterations),
    {
        self.completed >= self.iterations
    }

    /// How many requests have not completed (zero once all have).
    pub fn missing(&self) -> (r: usize)
        ensures
            r == (if self.view().completed < self.view().iterations {
                self.view().iterations - self.view().completed
            } else {
                0
            }),
    {
        if self.completed < self.iterations {
            self.iterations - self.completed
        } else {
            0
        }
    }

    /// Takes `n` completions into account and says which requests to post in their place.
    pub fn on_completions(&mut self, n: usize) -> (r: Posts)
        requires
            old(self).wf(),
            old(self).view().completed + n <= usize::MAX,
        ensures
            final(self).wf(),
            final(self).view() == old(self).view().after(n as nat),
            r.first == old(self).view().posted,
            r.count == final(self).view().posted - old(self).view().posted,
    {
        self.completed = self.completed + n;
        let first = self.posted;
        let count = if self.iterations - self.posted < n {
            self.iterations - self.posted
        } else {
            n
        };
        self.posted = self.posted + count;
        Posts { first, count }
    }

    /// One poll of a side that cannot wait for a fixed count, because on an unreliable
    /// transport a dropped message produces no completion at all: `n` completions arrived, and
    /// `idle_expired` says whether the idle timeout has passed since the last progress.
    pub fn on_poll(&mut self, n: usize, idle_expired: bool) -> (r: Step)
        requires
            old(self).wf(),
            old(self).view().completed + n <= usize::MAX,
        ensures
            final(self).wf(),
            n == 0 ==> final(self).view() == old(self).view(),
            n == 0 && idle_expired ==> r == Step::GiveUp,
            n == 0 && !idle_expired ==> r == Step::Wait,
            n > 0 ==> final(self).view() == old(self).view().after(n as nat) && r == Step::Refill(
                Posts {
                    first: old(self).view().posted as usize,
                    count: (final(self).view().posted - old(self).view().posted) as usize,
                },
            ),
    {
        if n == 0 {
            if idle_expired {
                Step::GiveUp
            } else {
                Step::Wait
            }
        } else {
            Step::Refill(self.on_completions(n))
        }
    }
}

/// A full window stays full: when the completions taken into account are completions of
/// outstanding requests, the stream posts exactly enough to keep `depth` requests outstanding,
/// or every remaining one near the end.
pub proof fn window_stays_full(v: StreamView, n: nat)
    requires
        v.full(),
        v.completed <= v.posted,
        n <= v.posted - v.completed,
    ensures
        v.after(n).full(),
        v.after(n).completed <= v.after(n).posted,
        v.after(n).outstanding() <= v.depth,
{
}

/// A slot of a `depth`-slot buffer is never rewritten before the request that last used it has
/// completed: every request a full stream posts in answer to completions is less than `depth`
/// ahead of the completed ones, so the request `depth` before it, which used the same slot, has
/// completed (the send queue completes in order).
pub proof fn refilled_slots_are_free(v: StreamView, n: nat, k: nat)
    requires
        v.full(),
        v.posted <= k < v.after(n).posted,
    ensures
        k < v.after(n).completed + v.depth,
{
}

/// Once every request has completed, every request was posted exactly once: the requests
/// posted are numbered `0..iterations`, handed out in order without gaps.
pub proof fn done_means_all_posted(v: StreamView)
    requires
        v.full(),
        v.completed >= v.iterations,
        v.depth > 0,
    ensures
        v.posted == v.iterations,
{
}

} // verus!
