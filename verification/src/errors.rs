//! Fatal configuration and protocol errors.
//!
//! The simulator treats its topology as statically correct input: an
//! unattached endpoint, a table entry on a foreign port, an incomplete
//! forwarding table, or a frame arriving on a port its source address is
//! not bound to all end the run immediately with a diagnostic value
//! identifying the offending node, port or address. Nothing is retried.

use crate::packet::MacAddress;
use vstd::prelude::*;

verus! {

/// The diagnostic carried out of an aborted run.
///
/// Every variant is terminal for the run in which it arises.
#[derive(Clone, Copy, Debug, PartialEq, Eq)]
pub enum SimError {
    /// A node was asked to install a table entry on, or send out of, a
    /// port that is not in its own port set.
    PortMissing { node: u8, port: u8 },
    /// A frame arrived whose source address is not bound to the ingress
    /// port in the receiving node's static table; the design has no
    /// dynamic learning, so this is a configuration bug, not a
    /// recoverable condition.
    UnknownSource { node: u8, port: u8, mac: MacAddress },
    /// A frame addressed to a destination the receiving node's static
    /// table cannot resolve; static tables must be complete for all
    /// traffic the topology carries.
    UnknownDestination { node: u8, mac: MacAddress },
    /// A send event named an endpoint with no attached link.
    MissingLink { node: u8, port: u8 },
    /// A receive event named a node absent from the node table.
    MissingNode { node: u8 },
    /// The run loop's defensive re-emission budget was exhausted before
    /// the pending-event store emptied; a topology with a zero-delay
    /// cycle can re-emit forever at one timestamp, and the budget turns
    /// that into a reported halt instead of an endless loop.
    StepLimitExceeded,
}

} // verus!
