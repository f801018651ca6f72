//! Forwarding nodes: two-port bridges with a static table.

use crate::errors::SimError;
use crate::link::{LinkEndId, PortId};
use crate::nodes::{
    act_res_view, mac_insert, node_send, table_put, table_rcv, NodeAction, NodeHandler, NodeId,
    NodeModel,
};
use crate::packet::{EthernetFrame, MacAddress};
use vstd::prelude::*;

verus! {

/// A two-port bridge. Frames are relayed between its left port
/// (`ports[0]`) and its right port (`ports[1]`) according to a static
/// table installed at construction time.
pub struct ForwardingNode {
    pub id: NodeId,
    pub ports: [PortId; 2],
    pub mac: MacAddress,
    pub mac_address_table: Vec<(MacAddress, PortId)>,
}

/// Mathematical image of a [`ForwardingNode`].
#[verifier::ext_equal]
pub ghost struct FwdModel {
    pub id: NodeId,
    pub left: PortId,
    pub right: PortId,
    pub mac: MacAddress,
    pub table: Seq<(MacAddress, PortId)>,
}

impl View for ForwardingNode {
    type V = FwdModel;

    open spec fn view(&self) -> FwdModel {
        FwdModel {
            id: self.id,
            left: self.ports[0],
            right: self.ports[1],
            mac: self.mac,
            table: self.mac_address_table@,
        }
    }
}

impl Clone for ForwardingNode {
    fn clone(&self) -> (r: Self)
        ensures
            r@ == self@,
    {
        let t = crate::nodes::copy_table(&self.mac_address_table);
        ForwardingNode { id: self.id, ports: self.ports, mac: self.mac, mac_address_table: t }
    }
}

impl ForwardingNode {
    pub fn new(id: NodeId, ports: &[PortId; 2], mac: &MacAddress) -> (r: Self)
        ensures
            r@ == (FwdModel {
                id,
                left: ports[0],
                right: ports[1],
                mac: *mac,
                table: Seq::empty(),
            }),
    {
        let r = Self { id, ports: *ports, mac: *mac, mac_address_table: Vec::new() };
        proof {
            assert(r@ =~~= (FwdModel {
                id,
                left: ports[0],
                right: ports[1],
                mac: *mac,
                table: Seq::empty(),
            }));
        }
        r
    }

    /// Install `mac -> port` in the static table. A port outside the
    /// node's own pair is a fatal configuration error, rejected at
    /// install time.
    pub fn install_mac_entry(&mut self, port: PortId, mac: &MacAddress) -> (r: Result<
        (),
        SimError,
    >)
        ensures
            match r {
                Ok(_) => (old(self).ports[0] == port || old(self).ports[1] == port) && final(self)@
                    == (FwdModel { table: mac_insert(old(self)@.table, *mac, port), ..old(self)@ }),
                Err(e) => !(old(self).ports[0] == port || old(self).ports[1] == port)
                    && final(self)@ == old(self)@
                    && e == (SimError::PortMissing { node: old(self).id, port }),
            },
    {
        if self.ports[0] == port || self.ports[1] == port {
            table_put(&mut self.mac_address_table, mac, port);
            Ok(())
        } else {
            Err(SimError::PortMissing { node: self.id, port })
        }
    }

    /// The left-side port of the bridge.
    pub fn left_port(&self) -> (r: PortId)
        ensures
            r == self.ports[0],
    {
        self.ports[0]
    }

    /// The right-side port of the bridge; always distinct from the
    /// left-side accessor's result when the two configured ports differ.
    pub fn right_port(&self) -> (r: PortId)
        ensures
            r == self.ports[1],
    {
        self.ports[1]
    }

    /// The left-side attachment point.
    pub fn left_link_id(&self) -> (r: LinkEndId)
        ensures
            r == (self.id, self.ports[0]),
    {
        (self.id, self.ports[0])
    }

    /// The right-side attachment point.
    pub fn right_link_id(&self) -> (r: LinkEndId)
        ensures
            r == (self.id, self.ports[1]),
    {
        (self.id, self.ports[1])
    }
}

impl NodeHandler for ForwardingNode {
    open spec fn node_model(&self) -> NodeModel {
        NodeModel::Forwarding(self@)
    }

    fn send_pkt(&self, dst_mac: &MacAddress, out_port: PortId, payload: Vec<u8>) -> (r: Result<
        Option<NodeAction>,
        SimError,
    >) {
        let ghost payload0 = payload@;
        let r = if self.ports[0] == out_port || self.ports[1] == out_port {
            let frame = EthernetFrame::new(
                self.mac,
                *dst_mac,
                crate::packet::DEFAULT_ETHERTYPE,
                payload,
            );
            Ok(Some(NodeAction::Send { from: (self.id, out_port), frame }))
        } else {
            Err(SimError::PortMissing { node: self.id, port: out_port })
        };
        proof {
            assert(act_res_view(r) =~~= node_send(self.node_model(), *dst_mac, out_port, payload0));
        }
        r
    }

    fn rcv_pkt(&self, frame: &EthernetFrame, port: PortId) -> (r: Result<
        Option<NodeAction>,
        SimError,
    >) {
        table_rcv(self.id, &self.mac, &self.mac_address_table, frame, port)
    }
}

} // verus!
