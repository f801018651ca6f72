//! Switching nodes: N-port switches with a static table.

use crate::errors::SimError;
use crate::nodes::{
    mac_insert, port_member, table_put, table_rcv, NodeAction, NodeHandler, NodeId, NodeModel,
};
use crate::link::PortId;
use crate::packet::{EthernetFrame, MacAddress};
use vstd::prelude::*;

verus! {

/// An N-port switch. Switches never originate traffic; they only relay
/// frames between their ports according to a static table installed at
/// construction time.
pub struct SwitchingNode {
    pub id: NodeId,
    pub ports: Vec<PortId>,
    pub mac: MacAddress,
    pub mac_address_table: Vec<(MacAddress, PortId)>,
}

/// Mathematical image of a [`SwitchingNode`].
#[verifier::ext_equal]
pub ghost struct SwitchModel {
    pub id: NodeId,
    pub ports: Seq<PortId>,
    pub mac: MacAddress,
    pub table: Seq<(MacAddress, PortId)>,
}

impl View for SwitchingNode {
    type V = SwitchModel;

    open spec fn view(&self) -> SwitchModel {
        SwitchModel {
            id: self.id,
            ports: self.ports@,
            mac: self.mac,
            table: self.mac_address_table@,
        }
    }
}

impl Clone for SwitchingNode {
    fn clone(&self) -> (r: Self)
        ensures
            r@ == self@,
    {
        let ports = self.ports.clone();
        let t = crate::nodes::copy_table(&self.mac_address_table);
        proof {
            assert(ports@ =~= self.ports@);
        }
        SwitchingNode { id: self.id, ports, mac: self.mac, mac_address_table: t }
    }
}

impl SwitchingNode {
    pub fn new(id: NodeId, ports: &Vec<PortId>, mac: &MacAddress) -> (r: Self)
        ensures
            r@ == (SwitchModel { id, ports: ports@, mac: *mac, table: Seq::empty() }),
    {
        let p = ports.clone();
        proof {
            assert(p@ =~= ports@);
        }
        let r = Self { id, ports: p, mac: *mac, mac_address_table: Vec::new() };
        proof {
            assert(r@ =~~= (SwitchModel { id, ports: ports@, mac: *mac, table: Seq::empty() }));
        }
        r
    }

    /// Install `mac -> port` in the static table. A port outside the
    /// switch's own port set is a fatal configuration error, rejected at
    /// install time.
    pub fn install_mac_entry(&mut self, mac: &MacAddress, port: PortId) -> (r: Result<
        (),
        SimError,
    >)
        ensures
            match r {
                Ok(_) => old(self)@.ports.contains(port) && final(self)@ == (SwitchModel {
                    table: mac_insert(old(self)@.table, *mac, port),
                    ..old(self)@
                }),
                Err(e) => !old(self)@.ports.contains(port)
                    && final(self)@ == old(self)@
                    && e == (SimError::PortMissing { node: old(self).id, port }),
            },
    {
        if port_member(&self.ports, port) {
            table_put(&mut self.mac_address_table, mac, port);
            Ok(())
        } else {
            Err(SimError::PortMissing { node: self.id, port })
        }
    }
}

impl NodeHandler for SwitchingNode {
    open spec fn node_model(&self) -> NodeModel {
        NodeModel::Switch(self@)
    }

    /// Switches are intermediate-only by design and decline to originate.
    fn send_pkt(&self, _dst_mac: &MacAddress, _out_port: PortId, _payload: Vec<u8>) -> (r: Result<
        Option<NodeAction>,
        SimError,
    >) {
        Ok(None)
    }

    fn rcv_pkt(&self, frame: &EthernetFrame, port: PortId) -> (r: Result<
        Option<NodeAction>,
        SimError,
    >) {
        table_rcv(self.id, &self.mac, &self.mac_address_table, frame, port)
    }
}

} // verus!
