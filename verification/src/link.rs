//! Links: directed channel models between two attachment points.
//!
//! A physical connection is stored as two mirror-image directed [`Link`]s.
//! Each directed link applies a configured delivery delay and, keyed off a
//! per-link packet counter, periodic drop and periodic corruption of the
//! frames it carries.

use crate::nodes::NodeId;
use crate::packet::{EthernetFrame, FrameModel};
use crate::simulator::SimTime;
use vstd::prelude::*;

verus! {

/// A port number, unique within one node (not globally).
pub type PortId = u8;

/// A globally unique attachment point: one port of one node.
pub type LinkEndId = (NodeId, PortId);

/// Static configuration of one directed link.
#[derive(Clone, Copy, Debug)]
pub struct LinkConfig {
    pub end_a: LinkEndId,
    pub end_b: LinkEndId,
    pub delay: Option<u32>,
    pub corrupt_every: Option<u32>,
    pub drop_every: Option<u32>,
}

impl LinkConfig {
    /// A link from `(a_id, a_port)` to `(b_id, b_port)` with no delay and
    /// no impairments.
    pub fn new(a_id: NodeId, a_port: PortId, b_id: NodeId, b_port: PortId) -> (r: Self)
        ensures
            r == (LinkConfig {
                end_a: (a_id, a_port),
                end_b: (b_id, b_port),
                delay: None,
                corrupt_every: None,
                drop_every: None,
            }),
    {
        let end_a = (a_id, a_port);
        let end_b = (b_id, b_port);
        Self { end_a, end_b, delay: None, corrupt_every: None, drop_every: None }
    }

    pub fn with_delay(self, delay: u32) -> (r: Self)
        ensures
            r == (LinkConfig { delay: Some(delay), ..self }),
    {
        Self { delay: Some(delay), ..self }
    }

    pub fn with_corrupt(self, corrupt_every: u32) -> (r: Self)
        ensures
            r == (LinkConfig { corrupt_every: Some(corrupt_every), ..self }),
    {
        Self { corrupt_every: Some(corrupt_every), ..self }
    }

    pub fn with_drop(self, drop_every: u32) -> (r: Self)
        ensures
            r == (LinkConfig { drop_every: Some(drop_every), ..self }),
    {
        Self { drop_every: Some(drop_every), ..self }
    }

    /// Spec-level image of [`LinkConfig::swap_ends`].
    pub open spec fn swap_ends_spec(&self) -> LinkConfig {
        LinkConfig { end_a: self.end_b, end_b: self.end_a, ..*self }
    }

    /// The mirror image of this configuration: same channel, seen from
    /// the other attachment point.
    pub fn swap_ends(&self) -> (r: Self)
        ensures
            r == (LinkConfig { end_a: self.end_b, end_b: self.end_a, ..*self }),
    {
        Self { end_a: self.end_b, end_b: self.end_a, ..*self }
    }
}

/// One directed hop of one physical connection: its static configuration
/// plus the packet counter that triggers periodic impairments.
#[derive(Clone, Copy, Debug)]
pub struct Link {
    pub config: LinkConfig,
    pub packet_count: u32,
}

/// Whether the periodic trigger `every` fires on the `count`-th packet.
pub open spec fn spec_trigger(every: Option<u32>, count: u32) -> bool {
    every matches Some(n) && n > 0 && count % n == 0
}

/// The frame a directed link delivers for an incoming frame, given the
/// packet counter value assigned to that frame: dropped frames vanish,
/// corrupted frames have every payload byte inverted, all others pass
/// unchanged. Drop takes precedence when both triggers fire at once.
pub open spec fn spec_link_deliver(l: Link, count: u32, fm: FrameModel) -> Option<FrameModel> {
    if spec_trigger(l.config.drop_every, count) {
        None
    } else if spec_trigger(l.config.corrupt_every, count) {
        Some(FrameModel { payload: fm.payload.map_values(|b: u8| !b), ..fm })
    } else {
        Some(fm)
    }
}

/// The logical time a frame entering the link at `t` leaves it: the
/// configured delay is added with wrapping 64-bit arithmetic.
pub open spec fn spec_delivery_time(l: Link, t: SimTime) -> SimTime {
    match l.config.delay {
        Some(d) => t.wrapping_add(d as u64),
        None => t,
    }
}

/// View of an optional delivered frame.
pub open spec fn opt_frame_view(o: Option<EthernetFrame>) -> Option<FrameModel> {
    match o {
        Some(f) => Some(f@),
        None => None,
    }
}

impl Link {
    pub fn new(config: LinkConfig) -> (r: Self)
        ensures
            r == (Link { config, packet_count: 0 }),
    {
        Self { config, packet_count: 0 }
    }

    /// The mirror image of this link, with the same packet counter.
    pub fn swap_ends(&self) -> (r: Self)
        ensures
            r == (Link { config: self.config.swap_ends_spec(), ..*self }),
    {
        Self { config: self.config.swap_ends(), ..*self }
    }

    /// The attachment point at the other end of the link from `end`.
    /// Calling this with an endpoint that matches neither configured end
    /// is a contract violation.
    pub fn get_peer(&self, end: LinkEndId) -> (r: LinkEndId)
        requires
            end == self.config.end_a || end == self.config.end_b,
        ensures
            r == self.spec_peer(end),
    {
        if self.config.end_a.0 == end.0 && self.config.end_a.1 == end.1 {
            self.config.end_b
        } else {
            self.config.end_a
        }
    }

    /// The other configured end: `end_b` when asked about `end_a`, and
    /// `end_a` otherwise.
    pub open spec fn spec_peer(&self, end: LinkEndId) -> LinkEndId {
        if end == self.config.end_a {
            self.config.end_b
        } else {
            self.config.end_a
        }
    }

    pub fn get_ends(&self) -> (r: (LinkEndId, LinkEndId))
        ensures
            r == (self.config.end_a, self.config.end_b),
    {
        (self.config.end_a, self.config.end_b)
    }

    /// Carry one frame across the link at `current_time`: count it, apply
    /// the periodic drop/corrupt triggers, and compute its delivery time.
    pub fn handle_pkt(&mut self, pkt: EthernetFrame, current_time: SimTime) -> (r: (
        Option<EthernetFrame>,
        SimTime,
    ))
        ensures
            final(self).config == old(self).config,
            final(self).packet_count == old(self).packet_count.wrapping_add(1),
            opt_frame_view(r.0) == spec_link_deliver(
                *old(self),
                old(self).packet_count.wrapping_add(1),
                pkt@,
            ),
            r.1 == spec_delivery_time(*old(self), current_time),
    {
        self.packet_count = self.packet_count.wrapping_add(1);

        let delivery_time = if let Some(delay) = self.config.delay {
            current_time.wrapping_add(delay as u64)
        } else {
            current_time
        };

        if let Some(drop_every) = self.config.drop_every {
            if drop_every > 0 && self.packet_count % drop_every == 0 {
                return (None, delivery_time);
            }
        }

        if let Some(corrupt_every) = self.config.corrupt_every {
            if corrupt_every > 0 && self.packet_count % corrupt_every == 0 {
                let corrupted = corrupt_frame(pkt);
                return (Some(corrupted), delivery_time);
            }
        }

        (Some(pkt), delivery_time)
    }
}

/// The corruption transform applied when a link's periodic corruption
/// trigger fires: every payload byte is inverted, addresses and type tag
/// are left intact. The frame handed in is consumed; the result is an
/// independent value.
fn corrupt_frame(pkt: EthernetFrame) -> (r: EthernetFrame)
    ensures
        r@ == (FrameModel { payload: pkt@.payload.map_values(|b: u8| !b), ..pkt@ }),
{
    let mut flipped: Vec<u8> = Vec::new();
    let mut i: usize = 0;
    while i < pkt.payload.len()
        invariant
            i <= pkt.payload.len(),
            flipped@ =~= pkt.payload@.take(i as int).map_values(|b: u8| !b),
        decreases pkt.payload.len() - i,
    {
        flipped.push(!pkt.payload[i]);
        proof {
            assert(pkt.payload@.take(i + 1) =~= pkt.payload@.take(i as int).push(
                pkt.payload@[i as int],
            ));
            assert(pkt.payload@.take(i + 1).map_values(|b: u8| !b) =~= pkt.payload@.take(
                i as int,
            ).map_values(|b: u8| !b).push(!pkt.payload@[i as int]));
        }
        i += 1;
    }
    proof {
        assert(pkt.payload@.take(pkt.payload@.len() as int) =~= pkt.payload@);
    }
    EthernetFrame {
        src_mac: pkt.src_mac,
        dst_mac: pkt.dst_mac,
        ethertype: pkt.ethertype,
        payload: flipped,
    }
}

} // verus!
