//! Messages of the out-of-band protocol and the decisions each side takes on them.

use vstd::prelude::*;
use vstd::string::*;
use crate::bench::{spec_supported, supported};
use crate::cli::{ClientArgs, Mode, Transport};

verus! {

/// What the receiving side of an accuracy run counted, sent back to the client at the end.
#[derive(Copy, Clone, Debug, PartialEq, Eq, Structural)]
pub struct AccuracyReport {
    pub msg_size: usize,
    /// Messages the client sent.
    pub sent: usize,
    /// Completions the server saw, duplicates and unidentifiable ones included.
    pub received: usize,
    /// Sequence numbers that never arrived.
    pub lost: usize,
    pub duplicated: usize,
    /// Identified messages with at least one wrong or missing byte.
    pub corrupted: usize,
    /// Messages too short to carry a header, or whose header names no message of this run.
    pub unidentifiable: usize,
    /// Identified messages shorter than `msg_size`.
    pub truncated: usize,
    pub correct_bytes: u64,
    pub correct_bits: u64,
}

impl AccuracyReport {
    /// An empty report for a run of `sent` messages of `msg_size` bytes.
    pub open spec fn new_spec(msg_size: usize, sent: usize) -> AccuracyReport {
        AccuracyReport {
            msg_size,
            sent,
            received: 0,
            lost: 0,
            duplicated: 0,
            corrupted: 0,
            unidentifiable: 0,
            truncated: 0,
            correct_bytes: 0,
            correct_bits: 0,
        }
    }

    /// An empty report for a run of `sent` messages of `msg_size` bytes.
    pub fn new(msg_size: usize, sent: usize) -> (r: AccuracyReport)
        ensures
            r == AccuracyReport::new_spec(msg_size, sent),
    {
        AccuracyReport {
            msg_size,
            sent,
            received: 0,
            lost: 0,
            duplicated: 0,
            corrupted: 0,
            unidentifiable: 0,
            truncated: 0,
            correct_bytes: 0,
            correct_bits: 0,
        }
    }
}


/// Declares the benchmark a client wants to run. Sent by the client as the first message on a
/// new connection, before either side has built any RDMA resources for that connection.
#[derive(Copy, Clone, Debug, PartialEq, Eq, Structural)]
pub struct BenchmarkRequest {
    pub transport: Transport,
    pub mode: Mode,
    pub msg_size: usize,
    pub iterations: usize,
    pub tx_depth: usize,
}

/// The network endpoint of a queue pair: its number, the port's local identifier and, for
/// global routing, its GID.
#[derive(Copy, Clone, Debug, PartialEq, Eq)]
pub struct Endpoint {
    pub num: u32,
    pub lid: u16,
    pub gid: Option<[u8; 16]>,
}

/// The server's reply to a `BenchmarkRequest`.
#[derive(Debug)]
pub enum HandshakeAck {
    Accept { endpoint: Endpoint },
    Unsupported(String),
}

/// The client's queue pair endpoint, sent back to the server after the client has consumed the
/// server's `HandshakeAck::Accept`.
#[derive(Copy, Clone, Debug)]
pub struct ClientEndpoint {
    pub endpoint: Endpoint,
}

impl BenchmarkRequest {
    /// The request a client sends for one run of `mode` at `msg_size` bytes.
    pub fn for_run(args: &ClientArgs, mode: Mode, msg_size: usize) -> (r: BenchmarkRequest)
        ensures
            r == (BenchmarkRequest {
                transport: args.transport,
                mode,
                msg_size,
                iterations: args.iterations,
                tx_depth: args.tx_depth,
            }),
    {
        BenchmarkRequest {
            transport: args.transport,
            mode,
            msg_size,
            iterations: args.iterations,
            tx_depth: args.tx_depth,
        }
    }
}

/// The name a transport is shown with.
pub open spec fn transport_label(t: Transport) -> Seq<char> {
    match t {
        Transport::Rc => "Rc"@,
        Transport::Uc => "Uc"@,
        Transport::Ud => "Ud"@,
    }
}

/// The name a mode is shown with.
pub open spec fn mode_label(m: Mode) -> Seq<char> {
    match m {
        Mode::Bandwidth => "Bandwidth"@,
        Mode::Latency => "Latency"@,
        Mode::Accuracy => "Accuracy"@,
        Mode::RdmaWrite => "RdmaWrite"@,
        Mode::RdmaRead => "RdmaRead"@,
    }
}

fn transport_label_str(t: Transport) -> (r: &'static str)
    ensures
        r@ == transport_label(t),
{
    match t {
        Transport::Rc => "Rc",
        Transport::Uc => "Uc",
        Transport::Ud => "Ud",
    }
}

fn mode_label_str(m: Mode) -> (r: &'static str)
    ensures
        r@ == mode_label(m),
{
    match m {
        Mode::Bandwidth => "Bandwidth",
        Mode::Latency => "Latency",
        Mode::Accuracy => "Accuracy",
        Mode::RdmaWrite => "RdmaWrite",
        Mode::RdmaRead => "RdmaRead",
    }
}

/// The reason the server gives for turning down `req`.
pub open spec fn rejection_reason(req: BenchmarkRequest) -> Seq<char> {
    transport_label(req.transport) + "/"@ + mode_label(req.mode) + " is not implemented yet"@
}

/// The error a client ends a run with when the server answers `reason`.
pub open spec fn rejected_request_error(reason: Seq<char>) -> Seq<char> {
    "server rejected benchmark request: "@ + reason
}

/// Why the server turns `req` down, or `None` when it serves it: a request for a
/// transport/mode combination that has no implementation is answered
/// `HandshakeAck::Unsupported` with this reason before any RDMA resources are built.
pub fn rejection(req: &BenchmarkRequest) -> (r: Option<String>)
    ensures
        spec_supported(req.transport, req.mode) ==> r is None,
        !spec_supported(req.transport, req.mode) ==> (r matches Some(reason) && reason@
            == rejection_reason(*req)),
{
    if supported(req.transport, req.mode) {
        return None;
    }
    let mut reason = String::from_str(transport_label_str(req.transport));
    reason.append("/");
    reason.append(mode_label_str(req.mode));
    reason.append(" is not implemented yet");
    Some(reason)
}

/// What the client makes of the server's reply: the server's endpoint to handshake with, or
/// the error that ends the run.
pub fn accept_ack(ack: HandshakeAck) -> (r: Result<Endpoint, String>)
    ensures
        ack matches HandshakeAck::Accept { endpoint } ==> r == Ok::<Endpoint, String>(endpoint),
        ack matches HandshakeAck::Unsupported(reason) ==> (r matches Err(e) && e@
            == rejected_request_error(reason@)),
{
    match ack {
        HandshakeAck::Accept { endpoint } => Ok(endpoint),
        HandshakeAck::Unsupported(reason) => {
            let mut e = String::from_str("server rejected benchmark request: ");
            e.append(reason.as_str());
            Err(e)
        },
    }
}

/// Capacity of the completion queue of a connection whose queues are `tx_depth` deep: twice
/// the depth, so a burst of completions never overflows it; `None` when that does not fit the
/// verbs interface's `i32`.
pub fn cq_capacity(tx_depth: usize) -> (r: Option<i32>)
    ensures
        2 * tx_depth <= i32::MAX ==> r == Some((2 * tx_depth) as i32),
        2 * tx_depth > i32::MAX ==> r is None,
{
    if tx_depth > (i32::MAX as usize) / 2 {
        return None;
    }
    Some((2 * tx_depth) as i32)
}

/// Whether a line read from the peer carries a message: an empty read means the peer closed
/// the connection while a message was awaited.
pub fn line_is_message(line: &str) -> (r: bool)
    ensures
        r == (line@.len() > 0),
{
    line.unicode_len() > 0
}


/// A request for a combination without an implementation is refused before any RDMA resource
/// is built, and the client's run ends with an error naming the transport and the mode.
pub proof fn refused_request_reaches_client(req: BenchmarkRequest)
    requires
        !spec_supported(req.transport, req.mode),
    ensures
        rejected_request_error(rejection_reason(req)) == "server rejected benchmark request: "@
            + transport_label(req.transport) + "/"@ + mode_label(req.mode)
            + " is not implemented yet"@,
{
    assert(rejected_request_error(rejection_reason(req)) =~= "server rejected benchmark request: "@
        + transport_label(req.transport) + "/"@ + mode_label(req.mode)
        + " is not implemented yet"@);
}

} // verus!
