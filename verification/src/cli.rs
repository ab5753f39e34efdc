//! What the command line asks for: the two subcommands, their arguments, and the benchmark
//! plan a client run expands to.

use vstd::prelude::*;
use vstd::string::*;
use crate::text::{decimal, push_decimal};

verus! {

/// Lower bound of the default message size sweep: the smallest size accuracy mode can identify.
pub const DEFAULT_MIN_SIZE: usize = 8;

/// Upper bound of the default message size sweep (64 KiB).
pub const DEFAULT_MAX_SIZE: usize = 65536;

/// Default TCP port of the out-of-band handshake.
pub const DEFAULT_PORT: u16 = 18515;

/// Default number of messages per run.
pub const DEFAULT_ITERATIONS: usize = 1000;

/// Default number of outstanding sends/receives.
pub const DEFAULT_TX_DEPTH: usize = 32;

/// RDMA transport service a benchmark runs over.
#[derive(Copy, Clone, Debug, PartialEq, Eq, Structural)]
pub enum Transport {
    Rc,
    Uc,
    Ud,
}

/// Which benchmark to run.
#[derive(Copy, Clone, Debug, PartialEq, Eq, Structural)]
pub enum Mode {
    Bandwidth,
    Latency,
    Accuracy,
    RdmaWrite,
    RdmaRead,
}

/// Every mode a suite runs, in the order it runs them.
pub open spec fn suite_modes() -> Seq<Mode> {
    seq![Mode::Bandwidth, Mode::Latency, Mode::Accuracy]
}

impl Mode {
    /// Every mode a suite runs, in the order a suite runs them.
    pub fn all() -> (r: Vec<Mode>)
        ensures
            r@ == suite_modes(),
    {
        let mut r = Vec::new();
        r.push(Mode::Bandwidth);
        r.push(Mode::Latency);
        r.push(Mode::Accuracy);
        assert(r@ =~= suite_modes());
        r
    }

    /// The command-line name of the mode.
    pub open spec fn spec_name(self) -> Seq<char> {
        match self {
            Mode::Bandwidth => "bandwidth"@,
            Mode::Latency => "latency"@,
            Mode::Accuracy => "accuracy"@,
            Mode::RdmaWrite => "rdma-write"@,
            Mode::RdmaRead => "rdma-read"@,
        }
    }

    pub fn name(&self) -> (r: &'static str)
        ensures
            r@ == self.spec_name(),
    {
        match self {
            Mode::Bandwidth => "bandwidth",
            Mode::Latency => "latency",
            Mode::Accuracy => "accuracy",
            Mode::RdmaWrite => "rdma-write",
            Mode::RdmaRead => "rdma-read",
        }
    }

    /// Smallest message size the mode can run with.
    pub open spec fn spec_min_msg_size(self) -> nat {
        match self {
            Mode::Accuracy => 8,
            _ => 1,
        }
    }

    /// Smallest message size this mode can be run with, so a sweep can skip the sizes a mode
    /// would only fail on.
    pub fn min_msg_size(&self) -> (r: usize)
        ensures
            r == self.spec_min_msg_size(),
    {
        match self {
            Mode::Accuracy => 8,
            _ => 1,
        }
    }
}

/// Arguments of the `server` subcommand.
#[derive(Debug)]
pub struct ServerArgs {
    /// TCP port for the out-of-band handshake.
    pub port: u16,
    /// RDMA device name; the first device when absent.
    pub device: Option<String>,
    /// Keep serving connections one after another instead of exiting after the first.
    pub listen: bool,
}

/// Arguments of the `client` subcommand. `mode` and `size` left empty mean "everything": the
/// whole suite, over every power of two from `min_size` to `max_size`.
#[derive(Debug)]
pub struct ClientArgs {
    pub host: String,
    pub port: u16,
    pub device: Option<String>,
    pub transport: Transport,
    pub mode: Vec<Mode>,
    pub size: Vec<usize>,
    pub min_size: usize,
    pub max_size: usize,
    pub iterations: usize,
    pub tx_depth: usize,
}

/// The two subcommands.
#[derive(Debug)]
pub enum Cli {
    /// Wait for client connections and serve benchmark runs.
    Server(ServerArgs),
    /// Connect to a server and run one benchmark, or a whole suite of them.
    Client(ClientArgs),
}

/// The benchmark matrix a client run expands to: every mode in `modes` once per entry in
/// `sizes`.
pub struct Plan {
    /// Modes to run, in the order given.
    pub modes: Vec<Mode>,
    /// Message sizes in bytes to run each mode at, ascending.
    pub sizes: Vec<usize>,
}

pub open spec fn is_pow2(n: nat) -> bool
    decreases n,
{
    if n == 0 {
        false
    } else if n == 1 {
        true
    } else {
        n % 2 == 0 && is_pow2(n / 2)
    }
}

pub open spec fn strictly_increasing(s: Seq<usize>) -> bool {
    forall|i: int, j: int| 0 <= i < j < s.len() ==> s[i] < s[j]
}

/// `s` lists, ascending, exactly the powers of two between `min` and `max`.
pub open spec fn is_pow2_sweep(s: Seq<usize>, min: nat, max: nat) -> bool {
    &&& strictly_increasing(s)
    &&& forall|i: int| 0 <= i < s.len() ==> is_pow2(#[trigger] s[i] as nat) && min <= s[i] <= max
    &&& forall|n: nat| is_pow2(n) && min <= n <= max ==> s.contains(n as usize)
}

/// `s` lists, ascending, every value that occurs in `t`, each once.
pub open spec fn is_sorted_set_of(s: Seq<usize>, t: Seq<usize>) -> bool {
    &&& strictly_increasing(s)
    &&& forall|x: usize| s.contains(x) <==> t.contains(x)
}

pub open spec fn msg_min_size_zero() -> Seq<char> {
    "--min-size must be greater than zero"@
}

pub open spec fn msg_max_below_min() -> Seq<char> {
    "--max-size must not be smaller than --min-size"@
}

pub open spec fn msg_no_pow2(min: nat, max: nat) -> Seq<char> {
    "no power-of-two message size lies between "@ + decimal(min) + " and "@ + decimal(max)
}

pub open spec fn msg_iterations_zero() -> Seq<char> {
    "--iterations must be greater than zero"@
}

pub open spec fn msg_size_zero() -> Seq<char> {
    "--size must be greater than zero"@
}

/// Why the power-of-two sweep between `min` and `max` fails, if it does.
pub open spec fn sweep_error(min: nat, max: nat) -> Option<Seq<char>> {
    if min == 0 {
        Some(msg_min_size_zero())
    } else if max < min {
        Some(msg_max_below_min())
    } else if !(exists|n: nat| is_pow2(n) && min <= n <= max) {
        Some(msg_no_pow2(min, max))
    } else {
        None
    }
}

proof fn lemma_pow2_double(p: nat)
    requires
        is_pow2(p),
    ensures
        is_pow2(2 * p),
{
    assert((2 * p) / 2 == p);
}

/// Between a power of two and its double there is no other power of two.
proof fn lemma_pow2_gap(p: nat, n: nat)
    requires
        is_pow2(p),
        is_pow2(n),
        p < n,
    ensures
        2 * p <= n,
    decreases p,
{
    if p != 1 {
        lemma_pow2_gap(p / 2, n / 2);
    }
}

/// Powers of two from the first one at or above `min` up to the last one at or below `max`.
/// Non-power-of-two bounds are rounded inwards, so `4000..=100000` sweeps 4096..=65536.
pub fn power_of_two_sizes(min: usize, max: usize) -> (r: Result<Vec<usize>, String>)
    ensures
        match sweep_error(min as nat, max as nat) {
            Some(m) => r matches Err(e) && e@ == m,
            None => r matches Ok(v) && is_pow2_sweep(v@, min as nat, max as nat),
        },
{
    if min == 0 {
        return Err(String::from_str("--min-size must be greater than zero"));
    }
    if max < min {
        return Err(String::from_str("--max-size must not be smaller than --min-size"));
    }
    let mut sizes: Vec<usize> = Vec::new();
    let mut size: usize = 1;
    while size <= max
        invariant_except_break
            forall|i: int| 0 <= i < sizes@.len() ==> #[trigger] sizes@[i] < size,
        invariant
            is_pow2(size as nat),
            strictly_increasing(sizes@),
            forall|i: int|
                0 <= i < sizes@.len() ==> is_pow2(#[trigger] sizes@[i] as nat) && min <= sizes@[i]
                    <= max,
            forall|n: nat|
                is_pow2(n) && min <= n <= max && n < size ==> sizes@.contains(n as usize),
        ensures
            strictly_increasing(sizes@),
            forall|i: int|
                0 <= i < sizes@.len() ==> is_pow2(#[trigger] sizes@[i] as nat) && min <= sizes@[i]
                    <= max,
            forall|n: nat| is_pow2(n) && min <= n <= max ==> sizes@.contains(n as usize),
        decreases max - size,
    {
        let ghost before = sizes@;
        if size >= min {
            sizes.push(size);
            assert(sizes@[sizes@.len() - 1] == size);
        }
        // Everything the sweep held before is still there.
        assert forall|n: nat| is_pow2(n) && min <= n <= max && n < size implies sizes@.contains(
            n as usize,
        ) by {
            let k = choose|k: int| 0 <= k < before.len() && before[k] == n as usize;
            assert(sizes@[k] == n as usize);
        }
        if size > max / 2 {
            assert forall|n: nat| is_pow2(n) && min <= n <= max implies sizes@.contains(
                n as usize,
            ) by {
                if n > size {
                    lemma_pow2_gap(size as nat, n);
                } else if n == size {
                    assert(sizes@[sizes@.len() - 1] == size);
                }
            }
            break;
        }
        proof {
            lemma_pow2_double(size as nat);
            assert forall|n: nat|
                is_pow2(n) && min <= n <= max && n < 2 * size implies sizes@.contains(
                n as usize,
            ) by {
                if n > size {
                    lemma_pow2_gap(size as nat, n);
                } else if n == size {
                    assert(sizes@[sizes@.len() - 1] == size);
                }
            }
        }
        size = size * 2;
    }
    if sizes.len() == 0 {
        proof {
            assert forall|n: nat| !(is_pow2(n) && min <= n <= max) by {
                if is_pow2(n) && min <= n <= max {
                    assert(sizes@.contains(n as usize));
                }
            }
        }
        let mut msg = String::from_str("no power-of-two message size lies between ");
        push_decimal(&mut msg, min);
        msg.append(" and ");
        push_decimal(&mut msg, max);
        assert(msg@ =~= msg_no_pow2(min as nat, max as nat));
        return Err(msg);
    }
    assert(is_pow2(sizes@[0] as nat) && min <= sizes@[0] <= max);
    Ok(sizes)
}


/// The values of `values`, ascending, each once.
fn sorted_distinct(values: &Vec<usize>) -> (r: Vec<usize>)
    ensures
        is_sorted_set_of(r@, values@),
{
    let mut r: Vec<usize> = Vec::new();
    let mut i: usize = 0;
    while i < values.len()
        invariant
            i <= values.len(),
            strictly_increasing(r@),
            forall|x: usize| r@.contains(x) <==> values@.take(i as int).contains(x),
        decreases values.len() - i,
    {
        let x = values[i];
        let mut p: usize = 0;
        while p < r.len() && r[p] < x
            invariant
                p <= r.len(),
                forall|k: int| 0 <= k < p ==> r@[k] < x,
            decreases r.len() - p,
        {
            p = p + 1;
        }
        let ghost before = r@;
        let ghost prev = values@.take(i as int);
        let ghost next = values@.take(i + 1);
        assert(next =~= prev.push(x));
        if p < r.len() && r[p] == x {
            assert forall|y: usize| r@.contains(y) <==> next.contains(y) by {
                if next.contains(y) && y != x {
                    let k = choose|k: int| 0 <= k < i + 1 && next[k] == y;
                    assert(prev[k] == y);
                }
            }
        } else {
            r.insert(p, x);
            assert(r@ == before.insert(p as int, x));
            assert forall|a: int, b: int| 0 <= a < b < r@.len() implies r@[a] < r@[b] by {
                if b < p {
                } else if b == p {
                } else if a < p {
                    assert(r@[b] == before[b - 1]);
                    if a == p - 1 || a < p {
                        assert(before[p as int] >= x);
                    }
                } else if a == p {
                    assert(before[p as int] > x);
                    assert(r@[b] == before[b - 1]);
                } else {
                    assert(r@[a] == before[a - 1]);
                    assert(r@[b] == before[b - 1]);
                }
            }
            assert forall|y: usize| r@.contains(y) <==> next.contains(y) by {
                if r@.contains(y) {
                    let k = choose|k: int| 0 <= k < r@.len() && r@[k] == y;
                    if k < p {
                        assert(before[k] == y);
                    } else if k > p {
                        assert(before[k - 1] == y);
                    }
                    if y != x {
                        assert(before.contains(y));
                        let m = choose|m: int| 0 <= m < i && prev[m] == y;
                        assert(next[m] == y);
                    } else {
                        assert(next[i as int] == x);
                    }
                }
                if next.contains(y) {
                    let k = choose|k: int| 0 <= k < i + 1 && next[k] == y;
                    if k == i {
                        assert(r@[p as int] == x);
                    } else {
                        assert(prev[k] == y);
                        assert(before.contains(y));
                        let m = choose|m: int| 0 <= m < before.len() && before[m] == y;
                        if m < p {
                            assert(r@[m] == y);
                        } else {
                            assert(r@[m + 1] == y);
                        }
                    }
                }
            }
        }
        i = i + 1;
    }
    assert(values@.take(values@.len() as int) =~= values@);
    r
}

/// The modes a plan runs when the command line gives `requested`.
pub open spec fn planned_modes(requested: Seq<Mode>) -> Seq<Mode> {
    if requested.len() == 0 {
        suite_modes()
    } else {
        requested
    }
}

impl Plan {
    /// Whether this is a single explicit benchmark rather than a sweep — the two are reported
    /// differently.
    pub fn is_single_run(&self) -> (r: bool)
        ensures
            r == (self.modes@.len() == 1 && self.sizes@.len() == 1),
    {
        self.modes.len() == 1 && self.sizes.len() == 1
    }
}

impl ClientArgs {
    /// Resolves the command line's optional lists into the matrix to actually run.
    pub fn plan(&self) -> (r: Result<Plan, String>)
        ensures
            self.iterations == 0 ==> (r matches Err(e) && e@ == msg_iterations_zero()),
            self.iterations != 0 && self.size@.len() == 0 ==> match sweep_error(
                self.min_size as nat,
                self.max_size as nat,
            ) {
                Some(m) => r matches Err(e) && e@ == m,
                None => r matches Ok(p) && p.modes@ == planned_modes(self.mode@)
                    && is_pow2_sweep(p.sizes@, self.min_size as nat, self.max_size as nat),
            },
            self.iterations != 0 && self.size@.len() != 0 && self.size@.contains(0) ==> (r matches Err(
                e,
            ) && e@ == msg_size_zero()),
            self.iterations != 0 && self.size@.len() != 0 && !self.size@.contains(0) ==> (r matches Ok(
                p,
            ) && p.modes@ == planned_modes(self.mode@) && is_sorted_set_of(p.sizes@, self.size@)),
    {
        if self.iterations == 0 {
            return Err(String::from_str("--iterations must be greater than zero"));
        }
        let modes = if self.mode.len() == 0 {
            Mode::all()
        } else {
            let mut modes: Vec<Mode> = Vec::new();
            let mut i: usize = 0;
            while i < self.mode.len()
                invariant
                    i <= self.mode@.len(),
                    modes@ == self.mode@.take(i as int),
                decreases self.mode@.len() - i,
            {
                modes.push(self.mode[i]);
                i = i + 1;
                assert(modes@ =~= self.mode@.take(i as int));
            }
            assert(self.mode@.take(self.mode@.len() as int) =~= self.mode@);
            modes
        };
        let sizes = if self.size.len() == 0 {
            match power_of_two_sizes(self.min_size, self.max_size) {
                Ok(v) => v,
                Err(e) => return Err(e),
            }
        } else {
            let sizes = sorted_distinct(&self.size);
            if sizes.len() > 0 && sizes[0] == 0 {
                assert(sizes@.contains(0));
                return Err(String::from_str("--size must be greater than zero"));
            }
            proof {
                if self.size@.contains(0) {
                    assert(sizes@.contains(0));
                    let k = choose|k: int| 0 <= k < sizes@.len() && sizes@[k] == 0;
                    if k > 0 {
                        assert(sizes@[0] < sizes@[k]);
                    }
                }
            }
            sizes
        };
        Ok(Plan { modes, sizes })
    }
}


/// The runs of mode `m`, one per size in `sizes`; when `skip`, without the sizes below the
/// mode's minimum.
pub open spec fn mode_runs(m: Mode, sizes: Seq<usize>, skip: bool) -> Seq<(Mode, usize)>
    decreases sizes.len(),
{
    if sizes.len() == 0 {
        seq![]
    } else {
        let rest = mode_runs(m, sizes.drop_last(), skip);
        if skip && sizes.last() < m.spec_min_msg_size() {
            rest
        } else {
            rest.push((m, sizes.last()))
        }
    }
}

/// Every mode in `modes`, in order, once per size in `sizes`.
pub open spec fn plan_runs(modes: Seq<Mode>, sizes: Seq<usize>, skip: bool) -> Seq<(Mode, usize)>
    decreases modes.len(),
{
    if modes.len() == 0 {
        seq![]
    } else {
        plan_runs(modes.drop_last(), sizes, skip) + mode_runs(modes.last(), sizes, skip)
    }
}

impl Plan {
    /// The (mode, message size) runs the plan expands to, mode by mode and, within a mode, in
    /// ascending size. A sweep leaves out the sizes a mode cannot run with; a single explicit
    /// run is kept as it was asked for.
    pub fn runs(&self) -> (r: Vec<(Mode, usize)>)
        ensures
            r@ == plan_runs(
                self.modes@,
                self.sizes@,
                !(self.modes@.len() == 1 && self.sizes@.len() == 1),
            ),
    {
        let skip = !self.is_single_run();
        let mut r: Vec<(Mode, usize)> = Vec::new();
        let mut i: usize = 0;
        while i < self.modes.len()
            invariant
                i <= self.modes@.len(),
                skip == !(self.modes@.len() == 1 && self.sizes@.len() == 1),
                r@ == plan_runs(self.modes@.take(i as int), self.sizes@, skip),
            decreases self.modes@.len() - i,
        {
            let m = self.modes[i];
            let min = m.min_msg_size();
            let ghost done = r@;
            let mut j: usize = 0;
            while j < self.sizes.len()
                invariant
                    j <= self.sizes@.len(),
                    min == m.spec_min_msg_size(),
                    r@ == done + mode_runs(m, self.sizes@.take(j as int), skip),
                decreases self.sizes@.len() - j,
            {
                let size = self.sizes[j];
                assert(self.sizes@.take(j + 1).drop_last() =~= self.sizes@.take(j as int));
                if !(skip && size < min) {
                    r.push((m, size));
                }
                j = j + 1;
                assert(r@ =~= done + mode_runs(m, self.sizes@.take(j as int), skip));
            }
            assert(self.sizes@.take(self.sizes@.len() as int) =~= self.sizes@);
            assert(self.modes@.take(i + 1).drop_last() =~= self.modes@.take(i as int));
            i = i + 1;
        }
        assert(self.modes@.take(self.modes@.len() as int) =~= self.modes@);
        r
    }
}


/// A single explicit benchmark runs exactly as asked, even at a size its mode cannot use: only
/// a sweep leaves sizes out.
pub proof fn single_run_is_kept(modes: Seq<Mode>, sizes: Seq<usize>)
    requires
        modes.len() == 1,
        sizes.len() == 1,
    ensures
        plan_runs(modes, sizes, false) == seq![(modes[0], sizes[0])],
{
    assert(modes.drop_last() =~= Seq::<Mode>::empty());
    assert(sizes.drop_last() =~= Seq::<usize>::empty());
    assert(plan_runs(modes.drop_last(), sizes, false) == Seq::<(Mode, usize)>::empty());
    assert(mode_runs(modes[0], sizes.drop_last(), false) == Seq::<(Mode, usize)>::empty());
    assert(mode_runs(modes[0], sizes, false) =~= seq![(modes[0], sizes[0])]);
    assert(plan_runs(modes, sizes, false) =~= seq![(modes[0], sizes[0])]);
}

/// A sweep runs every mode at every size at least that mode's minimum, and at no other size:
/// whatever it leaves out is a size the mode would only fail on.
pub proof fn sweep_runs_only_usable_sizes(m: Mode, sizes: Seq<usize>, size: usize)
    ensures
        mode_runs(m, sizes, true).contains((m, size)) <==> (sizes.contains(size) && size
            >= m.spec_min_msg_size()),
    decreases sizes.len(),
{
    if sizes.len() > 0 {
        let rest = sizes.drop_last();
        sweep_runs_only_usable_sizes(m, rest, size);
        let rr = mode_runs(m, rest, true);
        if sizes.contains(size) && size >= m.spec_min_msg_size() {
            let k = choose|k: int| 0 <= k < sizes.len() && sizes[k] == size;
            if k < sizes.len() - 1 {
                assert(rest[k] == size);
                let q = choose|q: int| 0 <= q < rr.len() && rr[q] == (m, size);
                if !(sizes.last() < m.spec_min_msg_size()) {
                    assert(rr.push((m, sizes.last()))[q] == (m, size));
                }
            } else {
                assert(mode_runs(m, sizes, true) == rr.push((m, size)));
                assert(rr.push((m, size))[rr.len() as int] == (m, size));
            }
        }
        if mode_runs(m, sizes, true).contains((m, size)) {
            let full = mode_runs(m, sizes, true);
            let q = choose|q: int| 0 <= q < full.len() && full[q] == (m, size);
            if sizes.last() < m.spec_min_msg_size() {
                assert(rr.contains((m, size)));
                let k = choose|k: int| 0 <= k < rest.len() && rest[k] == size;
                assert(sizes[k] == size);
            } else if q < rr.len() {
                assert(rr[q] == (m, size));
                assert(rr.contains((m, size)));
                let k = choose|k: int| 0 <= k < rest.len() && rest[k] == size;
                assert(sizes[k] == size);
            } else {
                assert(sizes[sizes.len() - 1] == size);
            }
        }
    }
}

proof fn lemma_mode_runs_members(m: Mode, sizes: Seq<usize>, skip: bool, x: (Mode, usize))
    ensures
        mode_runs(m, sizes, skip).contains(x) <==> (x.0 == m && sizes.contains(x.1) && (!skip
            || x.1 >= m.spec_min_msg_size())),
    decreases sizes.len(),
{
    if sizes.len() > 0 {
        let rest = sizes.drop_last();
        lemma_mode_runs_members(m, rest, skip, x);
        let rr = mode_runs(m, rest, skip);
        let full = mode_runs(m, sizes, skip);
        if full.contains(x) {
            let q = choose|q: int| 0 <= q < full.len() && full[q] == x;
            if skip && sizes.last() < m.spec_min_msg_size() {
                assert(rr.contains(x));
            } else if q < rr.len() {
                assert(rr[q] == x);
                assert(rr.contains(x));
            } else {
                assert(x == (m, sizes.last()));
                assert(sizes[sizes.len() - 1] == x.1);
            }
            if rr.contains(x) {
                let k = choose|k: int| 0 <= k < rest.len() && rest[k] == x.1;
                assert(sizes[k] == x.1);
            }
        }
        if x.0 == m && sizes.contains(x.1) && (!skip || x.1 >= m.spec_min_msg_size()) {
            let k = choose|k: int| 0 <= k < sizes.len() && sizes[k] == x.1;
            if k < sizes.len() - 1 {
                assert(rest[k] == x.1);
                let q = choose|q: int| 0 <= q < rr.len() && rr[q] == x;
                if !(skip && sizes.last() < m.spec_min_msg_size()) {
                    assert(rr.push((m, sizes.last()))[q] == x);
                }
            } else {
                assert(full == rr.push(x));
                assert(rr.push(x)[rr.len() as int] == x);
            }
        }
    }
}

/// Adding a mode to a plan adds exactly that mode's runs after the others, whatever the number
/// of modes already there.
pub proof fn plan_runs_extend(modes: Seq<Mode>, m: Mode, sizes: Seq<usize>, skip: bool)
    ensures
        plan_runs(modes.push(m), sizes, skip) == plan_runs(modes, sizes, skip) + mode_runs(
            m,
            sizes,
            skip,
        ),
{
    assert(modes.push(m).drop_last() =~= modes);
}

/// A plan runs exactly the pairs of one of its modes with one of its sizes: all of them for a
/// single run, and in a sweep those whose size the mode can use. No mode of the plan is left
/// out, and nothing outside the plan is run.
pub proof fn plan_runs_every_mode_at_every_size(
    modes: Seq<Mode>,
    sizes: Seq<usize>,
    skip: bool,
    x: (Mode, usize),
)
    ensures
        plan_runs(modes, sizes, skip).contains(x) <==> (modes.contains(x.0) && sizes.contains(
            x.1,
        ) && (!skip || x.1 >= x.0.spec_min_msg_size())),
    decreases modes.len(),
{
    if modes.len() > 0 {
        let rest = modes.drop_last();
        let m = modes.last();
        plan_runs_every_mode_at_every_size(rest, sizes, skip, x);
        lemma_mode_runs_members(m, sizes, skip, x);
        let a = plan_runs(rest, sizes, skip);
        let b = mode_runs(m, sizes, skip);
        let all = plan_runs(modes, sizes, skip);
        assert(all == a + b);
        if all.contains(x) {
            let q = choose|q: int| 0 <= q < all.len() && all[q] == x;
            if q < a.len() {
                assert(a[q] == x);
                assert(a.contains(x));
                let k = choose|k: int| 0 <= k < rest.len() && rest[k] == x.0;
                assert(modes[k] == x.0);
            } else {
                assert(b[q - a.len()] == x);
                assert(b.contains(x));
                assert(modes[modes.len() - 1] == x.0);
            }
        }
        if modes.contains(x.0) && sizes.contains(x.1) && (!skip || x.1 >= x.0.spec_min_msg_size()) {
            let k = choose|k: int| 0 <= k < modes.len() && modes[k] == x.0;
            if k < modes.len() - 1 {
                assert(rest[k] == x.0);
                let q = choose|q: int| 0 <= q < a.len() && a[q] == x;
                assert(all[q] == x);
            } else {
                let q = choose|q: int| 0 <= q < b.len() && b[q] == x;
                assert(all[a.len() + q] == x);
            }
        }
    }
}

/// Within a mode, a plan without skipping runs every size once, in the order of the sizes.
pub proof fn mode_runs_follow_sizes(m: Mode, sizes: Seq<usize>)
    ensures
        mode_runs(m, sizes, false).len() == sizes.len(),
        forall|i: int| 0 <= i < sizes.len() ==> #[trigger] mode_runs(m, sizes, false)[i] == (
        m,
        sizes[i],
        ),
    decreases sizes.len(),
{
    if sizes.len() > 0 {
        mode_runs_follow_sizes(m, sizes.drop_last());
        let rr = mode_runs(m, sizes.drop_last(), false);
        assert forall|i: int| 0 <= i < sizes.len() implies #[trigger] mode_runs(m, sizes, false)[i]
            == (m, sizes[i]) by {
            if i < sizes.len() - 1 {
                assert(rr[i] == (m, sizes.drop_last()[i]));
            }
        }
    }
}

} // verus!
