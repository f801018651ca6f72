//! Declarative node descriptions, as handed over by external
//! configuration loaders.

use crate::link::PortId;
use crate::nodes::NodeId;
use crate::packet::MacAddress;
use vstd::prelude::*;

verus! {

/// One node of a declaratively described topology. Deserializing such
/// descriptions from text is a collaborator's concern; the simulator
/// only consumes the finished values.
pub enum NodeConfig {
    Simple { id: NodeId, port: PortId, mac: MacAddress },
    Forwarding { id: NodeId, ports: [PortId; 2], mac: MacAddress },
    Switch { id: NodeId, ports: Vec<PortId>, mac: MacAddress },
}

/// Mathematical image of a [`NodeConfig`].
#[verifier::ext_equal]
pub ghost enum ConfigModel {
    Simple { id: NodeId, port: PortId, mac: MacAddress },
    Forwarding { id: NodeId, ports: [PortId; 2], mac: MacAddress },
    Switch { id: NodeId, ports: Seq<PortId>, mac: MacAddress },
}

impl View for NodeConfig {
    type V = ConfigModel;

    open spec fn view(&self) -> ConfigModel {
        match self {
            NodeConfig::Simple { id, port, mac } => ConfigModel::Simple {
                id: *id,
                port: *port,
                mac: *mac,
            },
            NodeConfig::Forwarding { id, ports, mac } => ConfigModel::Forwarding {
                id: *id,
                ports: *ports,
                mac: *mac,
            },
            NodeConfig::Switch { id, ports, mac } => ConfigModel::Switch {
                id: *id,
                ports: ports@,
                mac: *mac,
            },
        }
    }
}

} // verus!
