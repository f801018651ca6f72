//! Point-to-point topologies: two simple nodes joined by one physical
//! connection.

use crate::errors::SimError;
use crate::link::{Link, LinkConfig, LinkEndId, PortId};
use crate::nodes::simple::SimpleNode;
use crate::nodes::{Node, NodeId, NodeModel};
use crate::simulator::event::Event;
use crate::simulator::topology::{
    link_lookup, nodes_view, relay_event, swapped_link, Topology,
};
use vstd::prelude::*;

verus! {

/// Two simple nodes wired directly together: each stored directed link
/// is one orientation of the single physical connection.
pub struct P2PConnection {
    pub nodes: Vec<Node>,
    pub links: Vec<Link>,
}

impl P2PConnection {
    /// Join two nodes with a fresh unimpaired connection.
    pub fn with_nodes(node_a: &SimpleNode, node_b: &SimpleNode) -> (r: Self)
        ensures
            nodes_view(r.nodes@) == seq![NodeModel::Simple(*node_a), NodeModel::Simple(*node_b)],
            r.links@ == seq![
                Link {
                    config: LinkConfig {
                        end_a: (node_a.id, node_a.port),
                        end_b: (node_b.id, node_b.port),
                        delay: None,
                        corrupt_every: None,
                        drop_every: None,
                    },
                    packet_count: 0,
                },
                Link {
                    config: LinkConfig {
                        end_a: (node_b.id, node_b.port),
                        end_b: (node_a.id, node_a.port),
                        delay: None,
                        corrupt_every: None,
                        drop_every: None,
                    },
                    packet_count: 0,
                },
            ],
    {
        let link = Link::new(LinkConfig::new(node_a.id, node_a.port, node_b.id, node_b.port));
        let rev = link.swap_ends();
        let r = Self {
            nodes: vec![Node::Simple(*node_a), Node::Simple(*node_b)],
            links: vec![link, rev],
        };
        proof {
            assert(nodes_view(r.nodes@) =~= seq![
                NodeModel::Simple(*node_a),
                NodeModel::Simple(*node_b),
            ]);
        }
        r
    }

    /// Join two nodes with a fully specified connection: the given link
    /// and its mirror image.
    pub fn full_specification(node_a: &SimpleNode, node_b: &SimpleNode, link: &Link) -> (r: Self)
        ensures
            nodes_view(r.nodes@) == seq![NodeModel::Simple(*node_a), NodeModel::Simple(*node_b)],
            r.links@ == seq![*link, swapped_link(*link)],
    {
        let rev = link.swap_ends();
        let r = Self {
            nodes: vec![Node::Simple(*node_a), Node::Simple(*node_b)],
            links: vec![*link, rev],
        };
        proof {
            assert(nodes_view(r.nodes@) =~= seq![
                NodeModel::Simple(*node_a),
                NodeModel::Simple(*node_b),
            ]);
            assert(r.links@ =~= seq![*link, swapped_link(*link)]);
        }
        r
    }

    /// The stored node at the *other* end from the attachment point
    /// `(id, port)`, when that point matches one of the two stored
    /// nodes exactly.
    pub fn get_peer_from_id<'a>(&'a self, id: NodeId, port: PortId) -> (r: Option<&'a Node>)
        ensures
            match r {
                Some(n) => self.nodes@.len() == 2 && (simple_end(nodes_view(self.nodes@)[0], id,
                    port,
                ) && n@ == nodes_view(self.nodes@)[1] || !simple_end(
                    nodes_view(self.nodes@)[0],
                    id,
                    port,
                ) && n@ == nodes_view(self.nodes@)[0]),
                None => true,
            },
    {
        if self.nodes.len() != 2 {
            return None;
        }
        match end_matches(&self.nodes[0], id, port) {
            true => Some(&self.nodes[1]),
            false => Some(&self.nodes[0]),
        }
    }

    /// The stored node at the attachment point `(id, port)` itself.
    pub fn get_node_from_id<'a>(&'a self, id: NodeId, port: PortId) -> (r: Option<&'a Node>)
        ensures
            match r {
                Some(n) => self.nodes@.len() == 2 && (simple_end(nodes_view(self.nodes@)[0], id,
                    port,
                ) && n@ == nodes_view(self.nodes@)[0] || !simple_end(
                    nodes_view(self.nodes@)[0],
                    id,
                    port,
                ) && n@ == nodes_view(self.nodes@)[1]),
                None => true,
            },
    {
        if self.nodes.len() != 2 {
            return None;
        }
        match end_matches(&self.nodes[0], id, port) {
            true => Some(&self.nodes[0]),
            false => Some(&self.nodes[1]),
        }
    }

    /// The stored directed link leaving the attachment point
    /// `(id, port)`, if one is stored under that key.
    pub fn get_link_from_id(&self, id: NodeId, port: PortId) -> (r: Option<Link>)
        ensures
            r == link_lookup(self.links@, (id, port)),
    {
        let idx = crate::simulator::topology::find_link_idx(&self.links, (id, port));
        match idx {
            Some(i) => Some(self.links[i]),
            None => None,
        }
    }
}

/// Whether a node model is a simple node attached exactly at
/// `(id, port)`.
pub open spec fn simple_end(n: NodeModel, id: NodeId, port: PortId) -> bool {
    n matches NodeModel::Simple(s) && s.id == id && s.port == port
}

/// Whether a stored node is a simple node attached exactly at
/// `(id, port)`.
fn end_matches(n: &Node, id: NodeId, port: PortId) -> (r: bool)
    ensures
        r == simple_end(n@, id, port),
{
    match n {
        Node::Simple(s) => s.id == id && s.port == port,
        _ => false,
    }
}

impl Topology for P2PConnection {
    open spec fn nodes_model(&self) -> Seq<NodeModel> {
        nodes_view(self.nodes@)
    }

    open spec fn links_model(&self) -> Seq<Link> {
        self.links@
    }

    fn handle_pkt(&mut self, event: Event) -> (r: Result<Option<Event>, SimError>) {
        relay_event(&self.nodes, &mut self.links, event)
    }
}

} // verus!
