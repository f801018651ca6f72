//! Simple nodes: single-port originators and sinks.

use crate::errors::SimError;
use crate::link::{LinkEndId, PortId};
use crate::nodes::{act_res_view, node_rcv, node_send, NodeAction, NodeHandler, NodeId, NodeModel};
use crate::packet::{EthernetFrame, MacAddress, DEFAULT_ETHERTYPE};
use vstd::prelude::*;

verus! {

/// A single-port endpoint: it originates frames on request and silently
/// consumes every frame delivered to it — in this model a Simple node is
/// always the addressed destination.
#[derive(Clone, Copy, Debug)]
pub struct SimpleNode {
    pub id: NodeId,
    pub mac: MacAddress,
    pub port: PortId,
}

impl SimpleNode {
    pub fn new(id: NodeId, mac: MacAddress, port: PortId) -> (r: Self)
        ensures
            r == (SimpleNode { id, mac, port }),
    {
        Self { id, mac, port }
    }

    /// The one attachment point this node owns.
    pub fn get_link_id(&self) -> (r: LinkEndId)
        ensures
            r == (self.id, self.port),
    {
        (self.id, self.port)
    }
}

impl NodeHandler for SimpleNode {
    open spec fn node_model(&self) -> NodeModel {
        NodeModel::Simple(*self)
    }

    fn send_pkt(&self, dst_mac: &MacAddress, out_port: PortId, payload: Vec<u8>) -> (r: Result<
        Option<NodeAction>,
        SimError,
    >) {
        let ghost payload0 = payload@;
        let frame = EthernetFrame::new(self.mac, *dst_mac, DEFAULT_ETHERTYPE, payload);
        let r = Ok(Some(NodeAction::Send { from: (self.id, out_port), frame }));
        proof {
            assert(act_res_view(r) =~~= node_send(self.node_model(), *dst_mac, out_port, payload0));
        }
        r
    }

    fn rcv_pkt(&self, _frame: &EthernetFrame, _port: PortId) -> (r: Result<
        Option<NodeAction>,
        SimError,
    >) {
        Ok(None)
    }
}

} // verus!
