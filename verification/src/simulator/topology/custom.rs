//! Custom topologies: an arbitrary graph populated from declarative
//! node and link descriptions.

use crate::link::{Link, LinkConfig};
use crate::nodes::builder::NodeConfig;
use crate::nodes::{node_from_config, Node, NodeBuilder, NodeId, NodeModel};
use crate::simulator::topology::{
    find_node, fold_link_pairs, fold_node_inserts, insert_link, insert_node, node_lookup,
    nodes_view, relay_event, Topology,
};
use crate::simulator::event::Event;
use crate::errors::SimError;
use vstd::prelude::*;

verus! {

/// The configuration of one whole custom topology, as an external
/// loader hands it over: every node and every physical connection.
pub struct TopologyConfig {
    pub nodes: Vec<NodeConfig>,
    pub links: Vec<LinkConfig>,
}

/// An arbitrary network shape: whatever the declarative description
/// populated the node and link tables with.
pub struct CustomTopology {
    pub nodes: Vec<Node>,
    pub links: Vec<Link>,
}

/// The link a declarative link description denotes, with a fresh
/// packet counter.
pub open spec fn link_from_config(c: LinkConfig) -> Link {
    Link { config: c, packet_count: 0 }
}

impl CustomTopology {
    pub fn new() -> (r: Self)
        ensures
            nodes_view(r.nodes@) == Seq::<NodeModel>::empty(),
            r.links@ == Seq::<Link>::empty(),
    {
        let r = Self { nodes: Vec::new(), links: Vec::new() };
        proof {
            assert(nodes_view(r.nodes@) =~= Seq::<NodeModel>::empty());
        }
        r
    }

    /// Build and register every described node, in order (a later
    /// duplicate identifier wins).
    pub fn with_nodes(self, node_cfg: Vec<NodeConfig>) -> (r: Self)
        ensures
            nodes_view(r.nodes@) == fold_node_inserts(
                nodes_view(self.nodes@),
                node_cfg@.map_values(|c: NodeConfig| node_from_config(c@)),
            ),
            r.links@ == self.links@,
    {
        let ghost acc0 = nodes_view(self.nodes@);
        let ghost all = node_cfg@.map_values(|c: NodeConfig| node_from_config(c@));
        let mut r = self;
        let mut rest = node_cfg;
        while rest.len() > 0
            invariant
                fold_node_inserts(acc0, all) == fold_node_inserts(
                    nodes_view(r.nodes@),
                    rest@.map_values(|c: NodeConfig| node_from_config(c@)),
                ),
                r.links@ == self.links@,
            decreases rest.len(),
        {
            let ghost rest0 = rest@.map_values(|c: NodeConfig| node_from_config(c@));
            let cfg = rest.remove(0);
            let node = NodeBuilder::consume(cfg);
            insert_node(&mut r.nodes, node);
            proof {
                assert(rest@.map_values(|c: NodeConfig| node_from_config(c@)) =~= rest0.drop_first());
            }
        }
        proof {
            assert(rest@.map_values(|c: NodeConfig| node_from_config(c@)) =~= Seq::<
                NodeModel,
            >::empty());
        }
        r
    }

    /// Build and store every described link together with its mirror
    /// image, so each physical connection is visible from both ends.
    pub fn with_links(self, link_cfg: Vec<LinkConfig>) -> (r: Self)
        ensures
            r.links@ == fold_link_pairs(
                self.links@,
                link_cfg@.map_values(|c: LinkConfig| link_from_config(c)),
            ),
            nodes_view(r.nodes@) == nodes_view(self.nodes@),
    {
        let ghost acc0 = self.links@;
        let ghost all = link_cfg@.map_values(|c: LinkConfig| link_from_config(c));
        let mut r = self;
        let mut rest = link_cfg;
        while rest.len() > 0
            invariant
                fold_link_pairs(acc0, all) == fold_link_pairs(
                    r.links@,
                    rest@.map_values(|c: LinkConfig| link_from_config(c)),
                ),
                nodes_view(r.nodes@) == nodes_view(self.nodes@),
            decreases rest.len(),
        {
            let ghost rest0 = rest@.map_values(|c: LinkConfig| link_from_config(c));
            let cfg = rest.remove(0);
            let link = Link::new(cfg);
            let rev = link.swap_ends();
            insert_link(&mut r.links, link);
            insert_link(&mut r.links, rev);
            proof {
                assert(rest@.map_values(|c: LinkConfig| link_from_config(c)) =~= rest0.drop_first());
            }
        }
        proof {
            assert(rest@.map_values(|c: LinkConfig| link_from_config(c)) =~= Seq::<Link>::empty());
        }
        r
    }

    /// The node registered under `id`, if any.
    pub fn get_node<'a>(&'a self, id: NodeId) -> (r: Option<&'a Node>)
        ensures
            match r {
                Some(n) => node_lookup(nodes_view(self.nodes@), id) == Some(n@),
                None => node_lookup(nodes_view(self.nodes@), id) is None,
            },
    {
        find_node(&self.nodes, id)
    }
}

impl Topology for CustomTopology {
    open spec fn nodes_model(&self) -> Seq<NodeModel> {
        nodes_view(self.nodes@)
    }

    open spec fn links_model(&self) -> Seq<Link> {
        self.links@
    }

    fn handle_pkt(&mut self, event: Event) -> (r: Result<Option<Event>, SimError>) {
        relay_event(&self.nodes, &mut self.links, event)
    }
}

} // verus!
