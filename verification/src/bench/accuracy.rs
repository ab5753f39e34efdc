//! Delivery and integrity accuracy of a one-way send stream.
//!
//! The client streams `iterations` messages, each carrying a payload that is a deterministic
//! function of its sequence number. The server checks every message it receives against the
//! payload that sequence number should have had, and counts what fraction of the bytes and bits
//! the client sent actually arrived intact. Anything sent but never seen counts as fully
//! incorrect, so the accuracy covers loss as well as corruption.

use vstd::prelude::*;
use vstd::string::*;
use crate::comm::AccuracyReport;
use super::{spec_window, window};

verus! {

/// Bytes at the front of every message holding its sequence number, little endian.
pub const HEADER_LEN: usize = 8;

/// The increment of the splitmix64 state.
pub const GOLDEN_GAMMA: u64 = 0x9E37_79B9_7F4A_7C15;

/// The splitmix64 output function applied to a state.
pub open spec fn mix(z: u64) -> u64 {
    let a = (z ^ (z >> 30u64)).wrapping_mul(0xBF58_476D_1CE4_E5B9u64);
    let b = (a ^ (a >> 27u64)).wrapping_mul(0x94D0_49BB_1331_11EBu64);
    b ^ (b >> 31u64)
}

/// The generator state after `k` steps from `seed`.
pub open spec fn state_after(seed: u64, k: nat) -> u64
    decreases k,
{
    if k == 0 {
        seed
    } else {
        state_after(seed, (k - 1) as nat).wrapping_add(GOLDEN_GAMMA)
    }
}

/// The `k`-th word (counting from zero) of the stream seeded with `seed`.
pub open spec fn word(seed: u64, k: nat) -> u64 {
    mix(state_after(seed, k + 1))
}

/// Byte `j` (little endian) of `w`.
pub open spec fn byte_of(w: u64, j: nat) -> u8 {
    ((w >> ((8 * j) as u64)) & 0xffu64) as u8
}

/// Byte `i` of the payload of message `seq`: the sequence number, then the stream derived from
/// it, each word little endian.
pub open spec fn payload_byte(seq: u64, i: nat) -> u8 {
    if i < 8 {
        byte_of(seq, i)
    } else {
        byte_of(word(seq, ((i - 8) as nat) / 8), ((i - 8) as nat) % 8)
    }
}

/// The first `len` bytes of the payload message `seq` must carry.
pub open spec fn payload(seq: u64, len: nat) -> Seq<u8> {
    Seq::new(len, |i: int| payload_byte(seq, i as nat))
}

/// Byte range of `slot` within the windowed memory region.
pub fn slot_range(slot: usize, msg_size: usize) -> (r: std::ops::Range<usize>)
    requires
        (slot + 1) * msg_size <= usize::MAX,
    ensures
        r.start == slot * msg_size,
        r.end == slot * msg_size + msg_size,
{
    proof {
        assert((slot + 1) * msg_size == slot * msg_size + msg_size) by (nonlinear_arith);
    }
    let start = slot * msg_size;
    start..start + msg_size
}

/// One step of splitmix64: advances `state` and returns the next word.
pub fn next_word(state: &mut u64) -> (r: u64)
    ensures
        *final(state) == (*old(state)).wrapping_add(GOLDEN_GAMMA),
        r == mix(*final(state)),
{
    *state = state.wrapping_add(GOLDEN_GAMMA);
    let mut z = *state;
    z = (z ^ (z >> 30)).wrapping_mul(0xBF58_476D_1CE4_E5B9);
    z = (z ^ (z >> 27)).wrapping_mul(0x94D0_49BB_1331_11EB);
    z ^ (z >> 31)
}

/// Writes the payload message `seq` must carry into a buffer exactly one message long.
pub fn fill_payload(buf: &mut [u8], seq: u64)
    requires
        old(buf)@.len() >= HEADER_LEN,
    ensures
        final(buf)@ == payload(seq, old(buf)@.len()),
{
    let len = buf.len();
    let mut i: usize = 0;
    while i < HEADER_LEN
        invariant
            i <= HEADER_LEN,
            HEADER_LEN <= len,
            buf@.len() == len,
            forall|k: int| 0 <= k < i ==> buf@[k] == payload_byte(seq, k as nat),
        decreases HEADER_LEN - i,
    {
        buf[i] = ((seq >> ((8 * i) as u64)) & 0xff) as u8;
        i = i + 1;
    }
    let mut state = seq;
    let mut pos: usize = HEADER_LEN;
    let ghost mut k: nat = 0;
    while pos < len
        invariant
            HEADER_LEN <= pos <= len,
            buf@.len() == len,
            pos < len ==> pos == 8 + 8 * k,
            state == state_after(seq, k),
            forall|m: int| 0 <= m < pos ==> buf@[m] == payload_byte(seq, m as nat),
        decreases len - pos,
    {
        let w = next_word(&mut state);
        assert(w == word(seq, k));
        let mut j: usize = 0;
        while j < 8 && pos + j < len
            invariant
                j <= 8,
                pos + j <= len,
                pos == 8 + 8 * k,
                w == word(seq, k),
                buf@.len() == len,
                forall|m: int| 0 <= m < pos + j ==> buf@[m] == payload_byte(seq, m as nat),
            decreases 8 - j,
        {
            buf[pos + j] = ((w >> ((8 * j) as u64)) & 0xff) as u8;
            proof {
                let m = (pos + j) as nat;
                assert(((m - 8) as nat) / 8 == k && ((m - 8) as nat) % 8 == j) by (nonlinear_arith)
                    requires
                        m == 8 + 8 * k + j,
                        j < 8,
                ;
            }
            j = j + 1;
        }
        pos = pos + j;
        proof {
            k = k + 1;
        }
    }
    assert(buf@ =~= payload(seq, len as nat));
}


/// The sequence number a header carries: the first eight bytes, little endian.
pub open spec fn header_value(b: Seq<u8>) -> u64 {
    (b[0] as u64) | ((b[1] as u64) << 8u64) | ((b[2] as u64) << 16u64) | ((b[3] as u64) << 24u64)
        | ((b[4] as u64) << 32u64) | ((b[5] as u64) << 40u64) | ((b[6] as u64) << 48u64) | ((
    b[7] as u64) << 56u64)
}

/// How many of the lowest `j` bits of `d` are zero.
pub open spec fn zero_bits_below(d: u8, j: nat) -> nat
    decreases j,
{
    if j == 0 {
        0
    } else {
        zero_bits_below(d, (j - 1) as nat) + (if (d >> ((j - 1) as u8)) & 1u8 == 0u8 {
            1nat
        } else {
            0nat
        })
    }
}

/// How many of the eight bit positions of `a` and `b` agree.
pub open spec fn agreeing_bits(a: u8, b: u8) -> nat {
    zero_bits_below(a ^ b, 8)
}

/// How many of the first `n` positions hold equal bytes in `a` and `b`.
pub open spec fn matching_bytes(a: Seq<u8>, b: Seq<u8>, n: nat) -> nat
    decreases n,
{
    if n == 0 {
        0
    } else {
        matching_bytes(a, b, (n - 1) as nat) + (if a[n - 1] == b[n - 1] {
            1nat
        } else {
            0nat
        })
    }
}

/// How many bits agree between the first `n` bytes of `a` and `b`.
pub open spec fn matching_bits(a: Seq<u8>, b: Seq<u8>, n: nat) -> nat
    decreases n,
{
    if n == 0 {
        0
    } else {
        matching_bits(a, b, (n - 1) as nat) + agreeing_bits(a[n - 1], b[n - 1])
    }
}

/// How many entries of `s` are set.
pub open spec fn count_true(s: Seq<bool>) -> nat
    decreases s.len(),
{
    if s.len() == 0 {
        0
    } else {
        count_true(s.drop_last()) + (if s.last() {
            1nat
        } else {
            0nat
        })
    }
}

/// What a received message `got` is attributed to, given which sequence numbers were already
/// seen: `None` when it is unidentifiable, otherwise its sequence number.
pub open spec fn identified(got: Seq<u8>, seen: Seq<bool>) -> Option<int> {
    if got.len() < HEADER_LEN || header_value(got) >= seen.len() {
        None
    } else {
        Some(header_value(got) as int)
    }
}

/// How many of the bytes of `got` that can be compared with a message of `msg_size` bytes.
pub open spec fn compared_len(got: Seq<u8>, msg_size: nat) -> nat {
    if got.len() < msg_size {
        got.len()
    } else {
        msg_size
    }
}

/// `seen` after a message `got` was checked.
pub open spec fn marked(seen: Seq<bool>, got: Seq<u8>) -> Seq<bool> {
    match identified(got, seen) {
        Some(n) => seen.update(n, true),
        None => seen,
    }
}

/// `report` after a message `got` of a run of `msg_size`-byte messages was checked against
/// `seen`.
pub open spec fn tallied(
    report: AccuracyReport,
    got: Seq<u8>,
    seen: Seq<bool>,
    msg_size: nat,
) -> AccuracyReport {
    match identified(got, seen) {
        None => AccuracyReport { unidentifiable: (report.unidentifiable + 1) as usize, ..report },
        Some(n) => if seen[n] {
            AccuracyReport { duplicated: (report.duplicated + 1) as usize, ..report }
        } else {
            let expected = payload(n as u64, msg_size);
            let len = compared_len(got, msg_size);
            let bytes = matching_bytes(got, expected, len);
            AccuracyReport {
                truncated: if got.len() < msg_size {
                    (report.truncated + 1) as usize
                } else {
                    report.truncated
                },
                corrupted: if bytes != msg_size {
                    (report.corrupted + 1) as usize
                } else {
                    report.corrupted
                },
                correct_bytes: (report.correct_bytes + bytes) as u64,
                correct_bits: (report.correct_bits + matching_bits(got, expected, len)) as u64,
                ..report
            }
        },
    }
}

proof fn lemma_zero_bits_bound(d: u8, j: nat)
    ensures
        zero_bits_below(d, j) <= j,
    decreases j,
{
    if j > 0 {
        lemma_zero_bits_bound(d, (j - 1) as nat);
    }
}

proof fn lemma_matching_bounds(a: Seq<u8>, b: Seq<u8>, n: nat)
    ensures
        matching_bytes(a, b, n) <= n,
        matching_bits(a, b, n) <= 8 * n,
    decreases n,
{
    if n > 0 {
        lemma_matching_bounds(a, b, (n - 1) as nat);
        lemma_zero_bits_bound(a[n - 1] ^ b[n - 1], 8);
    }
}

/// Number of agreeing bits of two bytes.
fn agreeing_bits_exec(a: u8, b: u8) -> (r: u64)
    ensures
        r == agreeing_bits(a, b),
{
    let d = a ^ b;
    let mut count: u64 = 0;
    let mut j: u8 = 0;
    while j < 8
        invariant
            j <= 8,
            count == zero_bits_below(d, j as nat),
        decreases 8 - j,
    {
        proof {
            lemma_zero_bits_bound(d, j as nat);
        }
        if (d >> j) & 1 == 0 {
            count = count + 1;
        }
        j = j + 1;
    }
    count
}

/// Attributes one received message to a sequence number and folds it into `report`. `got` is
/// the prefix that actually arrived, which is the whole message unless it was truncated;
/// `expected` is scratch space one message long.
pub fn check(
    got: &[u8],
    expected: &mut [u8],
    msg_size: usize,
    seen: &mut [bool],
    report: &mut AccuracyReport,
)
    requires
        old(expected)@.len() == msg_size,
        identified(got@, old(seen)@) is None ==> old(report).unidentifiable < usize::MAX,
        identified(got@, old(seen)@) matches Some(n) ==> (old(seen)@[n] ==> old(
            report,
        ).duplicated < usize::MAX),
        identified(got@, old(seen)@) matches Some(n) ==> (!old(seen)@[n] ==> {
            &&& msg_size >= HEADER_LEN
            &&& old(report).truncated < usize::MAX
            &&& old(report).corrupted < usize::MAX
            &&& old(report).correct_bytes + msg_size <= u64::MAX
            &&& old(report).correct_bits + 8 * msg_size <= u64::MAX
        }),
    ensures
        *final(report) == tallied(*old(report), got@, old(seen)@, msg_size as nat),
        final(expected)@.len() == msg_size,
        final(seen)@ == marked(old(seen)@, got@),
        identified(got@, old(seen)@) matches Some(n) ==> (!old(seen)@[n] ==> final(expected)@
            == payload(n as u64, msg_size as nat)),
{
    if got.len() < HEADER_LEN {
        report.unidentifiable = report.unidentifiable + 1;
        return;
    }
    let seq: u64 = (got[0] as u64) | ((got[1] as u64) << 8) | ((got[2] as u64) << 16) | ((
    got[3] as u64) << 24) | ((got[4] as u64) << 32) | ((got[5] as u64) << 40) | ((got[6] as u64)
        << 48) | ((got[7] as u64) << 56);
    assert(seq == header_value(got@));
    // A sequence number from outside this run means the header itself was corrupted (or the
    // message is a stray from elsewhere); there is nothing to compare it against.
    if seq >= seen.len() as u64 {
        report.unidentifiable = report.unidentifiable + 1;
        return;
    }
    let idx = seq as usize;
    if seen[idx] {
        // Counting a duplicate's bytes again would let the correct totals exceed what was sent.
        report.duplicated = report.duplicated + 1;
        return;
    }
    seen[idx] = true;
    if got.len() < msg_size {
        report.truncated = report.truncated + 1;
    }
    fill_payload(expected, seq);
    let n = if got.len() < msg_size {
        got.len()
    } else {
        msg_size
    };
    let ghost exp = expected@;
    let mut correct_bytes: u64 = 0;
    let mut correct_bits: u64 = 0;
    let mut i: usize = 0;
    while i < n
        invariant
            i <= n,
            n <= got@.len(),
            n <= msg_size,
            expected@ == exp,
            exp.len() == msg_size,
            8 * msg_size <= u64::MAX,
            correct_bytes == matching_bytes(got@, exp, i as nat),
            correct_bits == matching_bits(got@, exp, i as nat),
        decreases n - i,
    {
        proof {
            lemma_matching_bounds(got@, exp, i as nat);
            lemma_zero_bits_bound(got@[i as int] ^ exp[i as int], 8);
        }
        let diff = got[i] ^ expected[i];
        proof {
            let a = got@[i as int];
            let b = exp[i as int];
            assert((a ^ b == 0) == (a == b)) by (bit_vector);
        }
        if diff == 0 {
            correct_bytes = correct_bytes + 1;
        }
        correct_bits = correct_bits + agreeing_bits_exec(got[i], expected[i]);
        i = i + 1;
    }
    proof {
        lemma_matching_bounds(got@, exp, n as nat);
    }
    if correct_bytes != msg_size as u64 {
        report.corrupted = report.corrupted + 1;
    }
    report.correct_bytes = report.correct_bytes + correct_bytes;
    report.correct_bits = report.correct_bits + correct_bits;
}

/// How many sequence numbers were never seen.
pub fn count_lost(seen: &[bool]) -> (r: usize)
    ensures
        r == seen@.len() - count_true(seen@),
{
    let mut lost: usize = 0;
    let mut i: usize = 0;
    while i < seen.len()
        invariant
            i <= seen@.len(),
            lost == i - count_true(seen@.take(i as int)),
            count_true(seen@.take(i as int)) <= i,
        decreases seen@.len() - i,
    {
        assert(seen@.take(i + 1).drop_last() =~= seen@.take(i as int));
        if !seen[i] {
            lost = lost + 1;
        }
        i = i + 1;
    }
    assert(seen@.take(seen@.len() as int) =~= seen@);
    lost
}


proof fn lemma_count_true_bound(s: Seq<bool>)
    ensures
        count_true(s) <= s.len(),
    decreases s.len(),
{
    if s.len() > 0 {
        lemma_count_true_bound(s.drop_last());
    }
}

/// Setting an unset entry raises the count by one.
proof fn lemma_count_true_set(s: Seq<bool>, i: int)
    requires
        0 <= i < s.len(),
        !s[i],
    ensures
        count_true(s.update(i, true)) == count_true(s) + 1,
        count_true(s) < s.len(),
    decreases s.len(),
{
    lemma_count_true_bound(s.drop_last());
    if i < s.len() - 1 {
        assert(s.update(i, true).drop_last() =~= s.drop_last().update(i, true));
        lemma_count_true_set(s.drop_last(), i);
    } else {
        assert(s.update(i, true).drop_last() =~= s.drop_last());
    }
}

proof fn lemma_count_true_all_false(n: nat)
    ensures
        count_true(Seq::new(n, |i: int| false)) == 0,
    decreases n,
{
    if n > 0 {
        assert(Seq::new(n, |i: int| false).drop_last() =~= Seq::new((n - 1) as nat, |i: int| false));
        lemma_count_true_all_false((n - 1) as nat);
    }
}

/// The receiving side of an accuracy run: which sequence numbers arrived, and what the
/// messages that arrived carried.
pub struct Tally {
    msg_size: usize,
    expected: Vec<u8>,
    seen: Vec<bool>,
    report: AccuracyReport,
}

impl Tally {
    /// The counts so far.
    pub closed spec fn report(&self) -> AccuracyReport {
        self.report
    }

    /// Which sequence numbers have arrived.
    pub closed spec fn seen(&self) -> Seq<bool> {
        self.seen@
    }

    /// Every received message is counted once, as unidentifiable, as a duplicate or as the
    /// first arrival of its sequence number, and the correct totals never exceed what those
    /// first arrivals could carry.
    pub closed spec fn wf(&self) -> bool {
        let t = count_true(self.seen@);
        let r = self.report;
        &&& self.msg_size >= HEADER_LEN
        &&& self.expected@.len() == self.msg_size
        &&& r.msg_size == self.msg_size
        &&& r.sent == self.seen@.len()
        &&& r.lost == 0
        &&& r.received == r.unidentifiable + r.duplicated + t
        &&& r.truncated <= t
        &&& r.corrupted <= t
        &&& r.correct_bytes <= self.msg_size * t
        &&& r.correct_bits <= 8 * self.msg_size * t
        &&& 8 * self.msg_size * self.seen@.len() <= u64::MAX
    }

    /// A tally for a run of `iterations` messages of `msg_size` bytes, nothing received yet;
    /// `None` when the totals of such a run could not be held in 64 bits.
    pub fn new(msg_size: usize, iterations: usize) -> (r: Option<Tally>)
        requires
            msg_size >= HEADER_LEN,
        ensures
            r is None <==> 8 * msg_size * iterations > u64::MAX,
            r matches Some(t) ==> {
                &&& t.wf()
                &&& t.report() == AccuracyReport {
                    msg_size,
                    sent: iterations,
                    received: 0,
                    lost: 0,
                    duplicated: 0,
                    corrupted: 0,
                    unidentifiable: 0,
                    truncated: 0,
                    correct_bytes: 0,
                    correct_bits: 0,
                }
                &&& t.seen() == Seq::new(iterations as nat, |i: int| false)
            },
    {
        proof {
            let a = msg_size as int;
            let b = iterations as int;
            assert(a * b <= u128::MAX) by (nonlinear_arith)
                requires
                    0 <= a <= u64::MAX,
                    0 <= b <= u64::MAX,
            ;
        }
        let product: u128 = (msg_size as u128) * (iterations as u128);
        proof {
            let m = msg_size as int;
            let n = iterations as int;
            assert((8 * m * n > u64::MAX) == (m * n > u64::MAX / 8)) by (nonlinear_arith)
                requires
                    m >= 0,
                    n >= 0,
            ;
            assert(product == msg_size * iterations) by (nonlinear_arith)
                requires
                    product == (msg_size as u128) * (iterations as u128),
                    m == msg_size,
                    n == iterations,
            ;
        }
        if product > (u64::MAX / 8) as u128 {
            return None;
        }
        let seen = vec![false; iterations];
        let expected = vec![0u8; msg_size];
        proof {
            assert(seen@ =~= Seq::new(iterations as nat, |i: int| false));
            lemma_count_true_all_false(iterations as nat);
        }
        Some(Tally { msg_size, expected, seen, report: AccuracyReport::new(msg_size, iterations) })
    }

    /// Completions counted so far.
    pub fn received(&self) -> (r: usize)
        ensures
            r == self.report().received,
    {
        self.report.received
    }

    /// Whether fewer completions than messages sent have been counted.
    pub fn wants_more(&self) -> (r: bool)
        ensures
            r == (self.report().received < self.report().sent),
    {
        self.report.received < self.report.sent
    }

    /// Counts one received message, `got` being the prefix of its slot that arrived.
    pub fn on_message(&mut self, got: &[u8])
        requires
            old(self).wf(),
            old(self).report().received < usize::MAX,
        ensures
            final(self).wf(),
            final(self).report() == (AccuracyReport {
                received: (old(self).report().received + 1) as usize,
                ..tallied(old(self).report(), got@, old(self).seen(), old(self).report().msg_size as nat)
            }),
            final(self).seen() == marked(old(self).seen(), got@),
    {
        let ghost t = count_true(self.seen@);
        let ghost msg = self.msg_size as int;
        let ghost sent = self.seen@.len() as int;
        proof {
            lemma_count_true_bound(self.seen@);
            match identified(got@, self.seen@) {
                Some(n) => {
                    if !self.seen@[n] {
                        lemma_count_true_set(self.seen@, n);
                        assert(self.report.correct_bytes + msg <= u64::MAX && self.report.correct_bits
                            + 8 * msg <= u64::MAX) by (nonlinear_arith)
                            requires
                                self.report.correct_bytes <= msg * t,
                                self.report.correct_bits <= 8 * msg * t,
                                t + 1 <= sent,
                                8 * msg * sent <= u64::MAX,
                                msg >= 0,
                        ;
                    }
                },
                None => {},
            }
        }
        self.report.received = self.report.received + 1;
        let ghost before = self.report;
        check(got, self.expected.as_mut_slice(), self.msg_size, self.seen.as_mut_slice(), &mut self.report);
        proof {
            match identified(got@, old(self).seen@) {
                Some(n) => {
                    if !old(self).seen@[n] {
                        lemma_count_true_set(old(self).seen@, n);
                        let len = compared_len(got@, msg as nat);
                        let exp = payload(n as u64, msg as nat);
                        lemma_matching_bounds(got@, exp, len);
                        assert(self.report.correct_bytes <= msg * (t + 1)
                            && self.report.correct_bits <= 8 * msg * (t + 1)) by (nonlinear_arith)
                            requires
                                self.report.correct_bytes == before.correct_bytes + matching_bytes(got@, exp, len),
                                self.report.correct_bits == before.correct_bits + matching_bits(got@, exp, len),
                                matching_bytes(got@, exp, len) <= len,
                                matching_bits(got@, exp, len) <= 8 * len,
                                len <= msg,
                                before.correct_bytes <= msg * t,
                                before.correct_bits <= 8 * msg * t,
                        ;
                    } else {
                        assert(old(self).seen@.update(n, true) =~= old(self).seen@);
                    }
                },
                None => {},
            }
        }
    }

    /// The finished report: whatever never arrived counts as lost.
    pub fn finish(&self) -> (r: AccuracyReport)
        requires
            self.wf(),
        ensures
            r == (AccuracyReport {
                lost: (self.report().sent - count_true(self.seen())) as usize,
                ..self.report()
            }),
            r.lost <= r.sent,
            r.received == r.unidentifiable + r.duplicated + (r.sent - r.lost),
            r.correct_bytes <= r.msg_size * (r.sent - r.lost),
            r.correct_bits <= 8 * r.msg_size * (r.sent - r.lost),
            r.correct_bytes <= r.msg_size * r.sent,
            r.correct_bits <= 8 * r.msg_size * r.sent,
    {
        proof {
            lemma_count_true_bound(self.seen@);
            let t = count_true(self.seen@);
            let msg = self.msg_size as int;
            let sent = self.seen@.len() as int;
            assert(msg * t <= msg * sent && 8 * msg * t <= 8 * msg * sent) by (nonlinear_arith)
                requires
                    t <= sent,
                    msg >= 0,
            ;
        }
        let lost = count_lost(self.seen.as_slice());
        AccuracyReport { lost, ..self.report }
    }
}


proof fn lemma_zero_has_no_ones()
    by (bit_vector)
    ensures
        forall|j: u8| #[trigger] ((0u8 >> j) & 1u8) == 0u8,
{
}

proof fn lemma_matching_self(a: Seq<u8>, n: nat)
    requires
        n <= a.len(),
    ensures
        matching_bytes(a, a, n) == n,
        matching_bits(a, a, n) == 8 * n,
    decreases n,
{
    if n > 0 {
        lemma_matching_self(a, (n - 1) as nat);
        let x = a[n - 1];
        assert(x ^ x == 0u8) by (bit_vector);
        lemma_zero_has_no_ones();
        reveal_with_fuel(zero_bits_below, 9);
    }
}

/// A message that arrives exactly as it was sent, whose sequence number belongs to the run and
/// has not been seen before, is identified by that sequence number and counts every one of its
/// bytes and bits as correct: nothing truncated, nothing corrupted.
pub proof fn intact_message_counts_fully(
    report: AccuracyReport,
    seen: Seq<bool>,
    seq: u64,
    msg_size: nat,
)
    requires
        msg_size >= HEADER_LEN,
        seq < seen.len(),
        !seen[seq as int],
        report.correct_bytes + msg_size <= u64::MAX,
        report.correct_bits + 8 * msg_size <= u64::MAX,
    ensures
        identified(payload(seq, msg_size), seen) == Some(seq as int),
        marked(seen, payload(seq, msg_size)) == seen.update(seq as int, true),
        tallied(report, payload(seq, msg_size), seen, msg_size) == (AccuracyReport {
            correct_bytes: (report.correct_bytes + msg_size) as u64,
            correct_bits: (report.correct_bits + 8 * msg_size) as u64,
            ..report
        }),
{
    let p = payload(seq, msg_size);
    let b0 = ((seq >> 0u64) & 0xffu64) as u8;
    let b1 = ((seq >> 8u64) & 0xffu64) as u8;
    let b2 = ((seq >> 16u64) & 0xffu64) as u8;
    let b3 = ((seq >> 24u64) & 0xffu64) as u8;
    let b4 = ((seq >> 32u64) & 0xffu64) as u8;
    let b5 = ((seq >> 40u64) & 0xffu64) as u8;
    let b6 = ((seq >> 48u64) & 0xffu64) as u8;
    let b7 = ((seq >> 56u64) & 0xffu64) as u8;
    assert(p[0] == b0 && p[1] == b1 && p[2] == b2 && p[3] == b3);
    assert(p[4] == b4 && p[5] == b5 && p[6] == b6 && p[7] == b7);
    assert((b0 as u64) | ((b1 as u64) << 8u64) | ((b2 as u64) << 16u64) | ((b3 as u64) << 24u64)
        | ((b4 as u64) << 32u64) | ((b5 as u64) << 40u64) | ((b6 as u64) << 48u64) | ((b7 as u64)
        << 56u64) == seq) by (bit_vector)
        requires
            b0 == ((seq >> 0u64) & 0xffu64) as u8,
            b1 == ((seq >> 8u64) & 0xffu64) as u8,
            b2 == ((seq >> 16u64) & 0xffu64) as u8,
            b3 == ((seq >> 24u64) & 0xffu64) as u8,
            b4 == ((seq >> 32u64) & 0xffu64) as u8,
            b5 == ((seq >> 40u64) & 0xffu64) as u8,
            b6 == ((seq >> 48u64) & 0xffu64) as u8,
            b7 == ((seq >> 56u64) & 0xffu64) as u8,
    ;
    assert(header_value(p) == seq);
    lemma_matching_self(p, msg_size);
}


pub open spec fn msg_no_iterations() -> Seq<char> {
    "accuracy benchmark needs at least one iteration"@
}

pub open spec fn msg_short_messages() -> Seq<char> {
    "accuracy benchmark needs a message size of at least 8 bytes for the sequence-number header"@
}

/// Checks the parameters of an accuracy run and gives the number of message slots it keeps in
/// flight: every message in flight needs its own slot, since payloads differ per message and a
/// slot must not be rewritten until its work request has completed.
pub fn prepare(msg_size: usize, iterations: usize, tx_depth: usize) -> (r: Result<usize, String>)
    ensures
        iterations == 0 ==> (r matches Err(e) && e@ == msg_no_iterations()),
        iterations != 0 && msg_size < HEADER_LEN ==> (r matches Err(e) && e@ == msg_short_messages()),
        iterations != 0 && msg_size >= HEADER_LEN ==> r == Ok::<usize, String>(
            spec_window(tx_depth as nat, iterations as nat) as usize,
        ),
{
    if iterations == 0 {
        return Err(String::from_str("accuracy benchmark needs at least one iteration"));
    }
    if msg_size < HEADER_LEN {
        return Err(
            String::from_str(
                "accuracy benchmark needs a message size of at least 8 bytes for the sequence-number header",
            ),
        );
    }
    Ok(window(tx_depth, iterations))
}

/// The slot of a `window`-slot buffer that message `seq` is written to.
pub fn slot_for(seq: usize, window: usize) -> (r: usize)
    requires
        window > 0,
    ensures
        r == seq % window,
        r < window,
{
    seq % window
}


/// The smallest message an accuracy run accepts is exactly the smallest size the mode declares,
/// which is also where the default sweep starts: the header that identifies a message.
pub proof fn accuracy_minimum_is_the_header()
    ensures
        crate::cli::Mode::Accuracy.spec_min_msg_size() == HEADER_LEN,
        crate::cli::DEFAULT_MIN_SIZE == HEADER_LEN,
{
}


/// The report and the seen set after the messages `msgs` were checked one after another.
pub open spec fn checked_all(
    report: AccuracyReport,
    seen: Seq<bool>,
    msgs: Seq<Seq<u8>>,
    msg_size: nat,
) -> (AccuracyReport, Seq<bool>)
    decreases msgs.len(),
{
    if msgs.len() == 0 {
        (report, seen)
    } else {
        let (r, s) = checked_all(report, seen, msgs.drop_last(), msg_size);
        (tallied(r, msgs.last(), s, msg_size), marked(s, msgs.last()))
    }
}

/// The messages of a run of `n` delivered intact, once each, in order.
pub open spec fn perfect_delivery(n: nat, msg_size: nat) -> Seq<Seq<u8>> {
    Seq::new(n, |k: int| payload(k as u64, msg_size))
}

/// When every message of a run arrives intact exactly once (as a reliable transport
/// guarantees), the run comes out fully accurate: every byte and every bit correct, nothing
/// duplicated, corrupted, truncated or unidentifiable, and every sequence number seen.
pub proof fn perfect_delivery_is_fully_accurate(report: AccuracyReport, n: nat, msg_size: nat)
    requires
        msg_size >= HEADER_LEN,
        n <= u64::MAX,
        8 * msg_size * n <= u64::MAX,
        report == AccuracyReport::new_spec(msg_size as usize, n as usize),
        n <= usize::MAX,
    ensures
        ({
            let (r, s) = checked_all(
                report,
                Seq::new(n, |i: int| false),
                perfect_delivery(n, msg_size),
                msg_size,
            );
            &&& r == AccuracyReport {
                correct_bytes: (msg_size * n) as u64,
                correct_bits: (8 * msg_size * n) as u64,
                ..report
            }
            &&& s == Seq::new(n, |i: int| true)
        }),
{
    lemma_perfect_prefix(report, n, msg_size, n);
    let msgs = perfect_delivery(n, msg_size);
    assert(msgs.take(n as int) =~= msgs);
    assert(Seq::new(n, |i: int| i < n) =~= Seq::new(n, |i: int| true));
}

proof fn lemma_perfect_prefix(report: AccuracyReport, n: nat, msg_size: nat, k: nat)
    requires
        msg_size >= HEADER_LEN,
        k <= n,
        n <= u64::MAX,
        8 * msg_size * n <= u64::MAX,
        report == AccuracyReport::new_spec(msg_size as usize, n as usize),
    ensures
        ({
            let (r, s) = checked_all(
                report,
                Seq::new(n, |i: int| false),
                perfect_delivery(n, msg_size).take(k as int),
                msg_size,
            );
            &&& r == AccuracyReport {
                correct_bytes: (msg_size * k) as u64,
                correct_bits: (8 * msg_size * k) as u64,
                ..report
            }
            &&& s == Seq::new(n, |i: int| i < k)
        }),
    decreases k,
{
    let start = Seq::new(n, |i: int| false);
    let msgs = perfect_delivery(n, msg_size);
    if k == 0 {
        assert(msgs.take(0) =~= Seq::<Seq<u8>>::empty());
        assert(start =~= Seq::new(n, |i: int| i < 0));
        assert(report == AccuracyReport {
            correct_bytes: (msg_size * 0) as u64,
            correct_bits: (8 * msg_size * 0) as u64,
            ..report
        });
    } else {
        lemma_perfect_prefix(report, n, msg_size, (k - 1) as nat);
        assert(msgs.take(k as int).drop_last() =~= msgs.take(k - 1));
        let (r, s) = checked_all(report, start, msgs.take(k - 1), msg_size);
        let m = msgs.take(k as int).last();
        assert(m == payload((k - 1) as u64, msg_size));
        assert(msg_size * (k - 1) + msg_size == msg_size * k && 8 * msg_size * (k - 1) + 8
            * msg_size == 8 * msg_size * k && msg_size * k <= 8 * msg_size * n && 8 * msg_size
            * k <= 8 * msg_size * n) by (nonlinear_arith)
            requires
                k >= 1,
                k <= n,
                msg_size >= 0,
        ;
        intact_message_counts_fully(r, s, (k - 1) as u64, msg_size);
        assert(s.update(k - 1, true) =~= Seq::new(n, |i: int| i < k));
    }
}

proof fn lemma_bit_facts()
    by (bit_vector)
    ensures
        forall|d: u8, j: u8|
            j < 8 ==> (#[trigger] (((d ^ 0xffu8) >> j) & 1u8) == 0u8) == (((d >> j) & 1u8) != 0u8),
        forall|j: u8| j < 8 ==> #[trigger] ((0xffu8 >> j) & 1u8) == 1u8,
{
}

proof fn lemma_zero_bits_complement(d: u8, j: nat)
    requires
        j <= 8,
    ensures
        zero_bits_below(d, j) + zero_bits_below(d ^ 0xffu8, j) == j,
    decreases j,
{
    if j > 0 {
        lemma_zero_bits_complement(d, (j - 1) as nat);
        lemma_bit_facts();
        let k = (j - 1) as u8;
        assert((((d ^ 0xffu8) >> k) & 1u8 == 0u8) == (((d >> k) & 1u8) != 0u8));
    }
}

proof fn lemma_single_bit(j: u8)
    requires
        j < 8,
    ensures
        forall|k: u8| k < 8 ==> ((#[trigger] (((1u8 << j) >> k) & 1u8)) == 0u8) == (k != j),
{
    assert(forall|k: u8| k < 8 ==> ((#[trigger] (((1u8 << j) >> k) & 1u8)) == 0u8) == (k != j))
        by (bit_vector)
        requires
            j < 8,
    ;
}

proof fn lemma_zero_bits_single(j: u8, m: nat)
    requires
        j < 8,
        m <= 8,
    ensures
        zero_bits_below(1u8 << j, m) == if m > j {
            m - 1
        } else {
            m as int
        },
    decreases m,
{
    if m > 0 {
        lemma_zero_bits_single(j, (m - 1) as nat);
        lemma_single_bit(j);
        let k = (m - 1) as u8;
        assert(((((1u8 << j) >> k) & 1u8) == 0u8) == (k != j));
    }
}

/// Bit accuracy counts the bit positions where a received byte agrees with the expected one:
/// a byte agrees with itself in all eight, with its complement in none, with itself with one
/// bit flipped in seven; agreement is symmetric, and a byte's agreement with `b` and with the
/// complement of `b` add up to eight.
pub proof fn agreeing_bits_counts_agreeing_positions(a: u8, b: u8, j: u8)
    requires
        j < 8,
    ensures
        agreeing_bits(a, a) == 8,
        agreeing_bits(a, a ^ 0xffu8) == 0,
        agreeing_bits(a, a ^ (1u8 << j)) == 7,
        agreeing_bits(a, b) == agreeing_bits(b, a),
        agreeing_bits(a, b) + agreeing_bits(a, b ^ 0xffu8) == 8,
        agreeing_bits(a, b) <= 8,
{
    assert(a ^ a == 0u8) by (bit_vector);
    assert(a ^ (a ^ 0xffu8) == 0xffu8) by (bit_vector);
    assert(a ^ (a ^ (1u8 << j)) == 1u8 << j) by (bit_vector);
    assert(a ^ b == b ^ a) by (bit_vector);
    assert(a ^ (b ^ 0xffu8) == (a ^ b) ^ 0xffu8) by (bit_vector);
    lemma_zero_bits_complement(0u8, 8);
    lemma_zero_bits_complement(a ^ b, 8);
    lemma_zero_has_no_ones();
    reveal_with_fuel(zero_bits_below, 9);
    assert(0u8 ^ 0xffu8 == 0xffu8) by (bit_vector);
    lemma_zero_bits_single(j, 8);
    lemma_zero_bits_bound(a ^ b, 8);
}

} // verus!
