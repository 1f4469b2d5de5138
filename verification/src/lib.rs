//! Host-resident network intrusion detection core.
//!
//! The library verifies the flow-tracking logic that normally runs inside a
//! packet hook on an interface's receive path, together with the userspace
//! pipeline that consumes its telemetry: parsing of Ethernet/IPv4/TCP/UDP
//! headers as a straight-line decision sequence over a byte view, bidirectional
//! flow keying, a bounded least-recently-used flow cache, a lossy bounded event
//! channel toward userspace, the poller that drains and decodes that channel,
//! and the attacker-deduplication gate in front of the external classifier.
//!
//! Attachment to an interface, asynchronous task plumbing and the numeric
//! classifier itself are collaborators outside this library; they exchange
//! plain values with the functions here.

pub mod cache;
pub mod channel;
pub mod flow;
pub mod packet;
pub mod pipeline;
pub mod poller;
pub mod wire;
pub mod xdp;
