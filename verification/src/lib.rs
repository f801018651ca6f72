#![verifier::loop_isolation(false)]
//! A discrete-event simulator of link-layer packet exchange over fixed
//! network topologies (point-to-point, chain, star, arbitrary graphs).
//!
//! The core is the event-scheduling kernel together with the packet-relay
//! state machine over static node and link tables: frames are injected as
//! timed send events, carried across links that may delay, periodically drop
//! or periodically corrupt them, and delivered to nodes that either consume
//! them or re-emit them out of a statically configured forwarding table.
//! All forwarding tables are pre-installed; there is no dynamic learning,
//! and a frame arriving in a way the static configuration cannot explain is
//! a fatal configuration error, reported rather than silently misrouted.

pub mod errors;
pub mod link;
pub mod nodes;
pub mod packet;
pub mod simulator;
