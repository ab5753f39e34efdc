//! Verified core of an RDMA benchmark tool: the command-line plan, the wire messages, the
//! accuracy payload and its checker, the windowed streaming state machines and the report header.

pub mod bench;
pub mod cli;
pub mod comm;
pub mod device;
pub mod report;
pub mod text;
