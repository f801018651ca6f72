//! Chain topologies: two simple end nodes joined through a line of
//! forwarding bridges.

use crate::errors::SimError;
use crate::link::{Link, LinkConfig, PortId};
use crate::nodes::bridging::{ForwardingNode, FwdModel};
use crate::nodes::simple::SimpleNode;
use crate::nodes::{
    lemma_mac_insert_lookup, mac_insert, mac_lookup, Node, NodeModel,
};
use crate::packet::MacAddress;
use crate::simulator::event::Event;
use crate::simulator::topology::{
    fold_link_pairs, fold_node_inserts, insert_link, insert_node, nodes_view, relay_event,
    Topology,
};
use crate::simulator::topology::star::{lemma_fold_links_snoc, lemma_fold_nodes_snoc};
use vstd::prelude::*;

verus! {

/// A line of `num_nodes` nodes: a simple node at each end and
/// forwarding bridges in between, each bridge relaying every other
/// node's address out of its left or right port.
pub struct ChainTopology {
    pub num_nodes: u8,
    pub nodes: Vec<Node>,
    pub links: Vec<Link>,
}

/// The port out of which bridge `i` relays traffic for node `k`:
/// its left port for nodes before it, its right port for nodes after.
pub open spec fn chain_side_port(i: int, k: int, ports: Seq<PortId>) -> PortId {
    if k < i {
        ports[2 * i - 1]
    } else {
        ports[2 * i]
    }
}

/// The static table of bridge `i` after binding the first `j` node
/// addresses (skipping its own).
pub open spec fn chain_table(
    i: int,
    macs: Seq<MacAddress>,
    ports: Seq<PortId>,
    j: int,
) -> Seq<(MacAddress, PortId)>
    decreases j,
{
    if j <= 0 {
        Seq::empty()
    } else if j - 1 == i {
        chain_table(i, macs, ports, j - 1)
    } else {
        mac_insert(chain_table(i, macs, ports, j - 1), macs[j - 1], chain_side_port(i, j - 1, ports))
    }
}

/// Node `i` of a chain of `n` nodes over the given addresses and port
/// plan: simple ends, fully tabled bridges in between.
pub open spec fn chain_node_model(
    i: int,
    n: int,
    macs: Seq<MacAddress>,
    ports: Seq<PortId>,
) -> NodeModel {
    if i == 0 {
        NodeModel::Simple(SimpleNode { id: 0, mac: macs[0], port: ports[0] })
    } else if i == n - 1 {
        NodeModel::Simple(SimpleNode { id: i as u8, mac: macs[i], port: ports[2 * (n - 1) - 1] })
    } else {
        NodeModel::Forwarding(
            FwdModel {
                id: i as u8,
                left: ports[2 * i - 1],
                right: ports[2 * i],
                mac: macs[i],
                table: chain_table(i, macs, ports, n),
            },
        )
    }
}

/// The link joining node `i`'s right-facing port to node `i + 1`'s
/// left-facing port.
pub open spec fn chain_link(i: int, ports: Seq<PortId>) -> Link {
    Link {
        config: LinkConfig {
            end_a: (i as u8, ports[2 * i]),
            end_b: ((i + 1) as u8, ports[2 * i + 1]),
            delay: None,
            corrupt_every: None,
            drop_every: None,
        },
        packet_count: 0,
    }
}

/// Static-table completeness of a chain bridge: with pairwise distinct
/// addresses, every other node's address resolves through bridge `i`'s
/// built table to the side port facing that node — no destination a
/// built chain carries is silently unresolvable.
pub proof fn lemma_chain_table_complete(
    i: int,
    macs: Seq<MacAddress>,
    ports: Seq<PortId>,
    j: int,
    k: int,
)
    requires
        0 <= k < j <= macs.len(),
        k != i,
        forall|a: int, b: int| 0 <= a < b < macs.len() ==> macs[a] != macs[b],
    ensures
        mac_lookup(chain_table(i, macs, ports, j), macs[k]) == Some(chain_side_port(i, k, ports)),
    decreases j,
{
    if j - 1 == i {
        lemma_chain_table_complete(i, macs, ports, j - 1, k);
    } else if k == j - 1 {
        lemma_mac_insert_lookup(
            chain_table(i, macs, ports, j - 1),
            macs[j - 1],
            chain_side_port(i, j - 1, ports),
            macs[k],
        );
    } else {
        lemma_chain_table_complete(i, macs, ports, j - 1, k);
        lemma_mac_insert_lookup(
            chain_table(i, macs, ports, j - 1),
            macs[j - 1],
            chain_side_port(i, j - 1, ports),
            macs[k],
        );
    }
}

impl ChainTopology {
    /// An empty chain of `num_nodes` nodes; anything shorter than two
    /// ends and one bridge is no chain at all.
    pub fn new(num_nodes: u8) -> (r: Self)
        requires
            num_nodes >= 3,
        ensures
            r.num_nodes == num_nodes,
            nodes_view(r.nodes@) == Seq::<NodeModel>::empty(),
            r.links@ == Seq::<Link>::empty(),
    {
        let r = Self { num_nodes, nodes: Vec::new(), links: Vec::new() };
        proof {
            assert(nodes_view(r.nodes@) =~= Seq::<NodeModel>::empty());
        }
        r
    }

    /// Populate the whole chain: `macs` gives one address per node and
    /// `ports` the port plan — node 0's single port, then each bridge's
    /// left and right port, then the last node's single port.
    pub fn build(self, macs: &Vec<MacAddress>, ports: &Vec<PortId>) -> (r: Self)
        requires
            self.num_nodes >= 3,
            macs@.len() == self.num_nodes,
            ports@.len() == 2 * self.num_nodes - 2,
        ensures
            r.num_nodes == self.num_nodes,
            nodes_view(r.nodes@) == fold_node_inserts(
                nodes_view(self.nodes@),
                Seq::new(
                    self.num_nodes as nat,
                    |i: int| chain_node_model(i, self.num_nodes as int, macs@, ports@),
                ),
            ),
            r.links@ == fold_link_pairs(
                self.links@,
                Seq::new((self.num_nodes - 1) as nat, |i: int| chain_link(i, ports@)),
            ),
    {
        let mut r = self;
        r.create_nodes(macs, ports);
        r.create_links(ports);
        r
    }

    /// Build and register every node of the chain, bridges complete
    /// with their static tables.
    fn create_nodes(&mut self, macs: &Vec<MacAddress>, ports: &Vec<PortId>)
        requires
            old(self).num_nodes >= 3,
            macs@.len() == old(self).num_nodes,
            ports@.len() == 2 * old(self).num_nodes - 2,
        ensures
            nodes_view(final(self).nodes@) == fold_node_inserts(
                nodes_view(old(self).nodes@),
                Seq::new(
                    old(self).num_nodes as nat,
                    |i: int| chain_node_model(i, old(self).num_nodes as int, macs@, ports@),
                ),
            ),
            final(self).links@ == old(self).links@,
            final(self).num_nodes == old(self).num_nodes,
    {
        let ghost ns0 = nodes_view(old(self).nodes@);
        let ghost n = self.num_nodes as int;
        let ghost models = Seq::new(
            self.num_nodes as nat,
            |i: int| chain_node_model(i, n, macs@, ports@),
        );
        let count = self.num_nodes;
        let last = (count - 1) as usize;
        let mut i: usize = 0;
        while i < count as usize
            invariant
                i <= count,
                count == self.num_nodes,
                last == count - 1,
                self.num_nodes == old(self).num_nodes,
                macs@.len() == count,
                ports@.len() == 2 * count - 2,
                count >= 3,
                nodes_view(self.nodes@) == fold_node_inserts(ns0, models.take(i as int)),
                self.links@ == old(self).links@,
            decreases count - i,
        {
            let ghost before = nodes_view(self.nodes@);
            let node = if i == 0 {
                Node::Simple(SimpleNode::new(0, macs[0], ports[0]))
            } else if i == last {
                Node::Simple(SimpleNode::new(i as u8, macs[i], ports[2 * last - 1]))
            } else {
                let f = self.build_bridge(i, macs, ports);
                Node::Forwarding(f)
            };
            proof {
                assert(node@ == models[i as int]);
            }
            insert_node(&mut self.nodes, node);
            proof {
                lemma_fold_nodes_snoc(ns0, models.take(i as int), models[i as int]);
                assert(models.take(i + 1) =~= models.take(i as int).push(models[i as int]));
            }
            i += 1;
        }
        proof {
            assert(models.take(count as int) =~= models);
        }
    }

    /// Build bridge `i` with its two side ports and its complete static
    /// table: every other node's address bound to the side facing it.
    fn build_bridge(&self, i: usize, macs: &Vec<MacAddress>, ports: &Vec<PortId>) -> (f:
        ForwardingNode)
        requires
            self.num_nodes >= 3,
            0 < i < self.num_nodes - 1,
            macs@.len() == self.num_nodes,
            ports@.len() == 2 * self.num_nodes - 2,
        ensures
            NodeModel::Forwarding(f@) == chain_node_model(
                i as int,
                self.num_nodes as int,
                macs@,
                ports@,
            ),
    {
        let left = ports[2 * i - 1];
        let right = ports[2 * i];
        let mut f = ForwardingNode::new(i as u8, &[left, right], &macs[i]);
        let mut j: usize = 0;
        while j < macs.len()
            invariant
                j <= macs@.len(),
                0 < i < self.num_nodes - 1,
                macs@.len() == self.num_nodes,
                ports@.len() == 2 * self.num_nodes - 2,
                left == ports@[2 * i - 1],
                right == ports@[2 * i],
                f@ == (FwdModel {
                    id: i as u8,
                    left,
                    right,
                    mac: macs@[i as int],
                    table: chain_table(i as int, macs@, ports@, j as int),
                }),
            decreases macs@.len() - j,
        {
            if j != i {
                let port = if j < i {
                    left
                } else {
                    right
                };
                match f.install_mac_entry(port, &macs[j]) {
                    Ok(_) => {},
                    Err(_) => {},
                }
            }
            j += 1;
        }
        f
    }

    /// Store every hop of the chain, both orientations of each.
    fn create_links(&mut self, ports: &Vec<PortId>)
        requires
            old(self).num_nodes >= 3,
            ports@.len() == 2 * old(self).num_nodes - 2,
        ensures
            final(self).links@ == fold_link_pairs(
                old(self).links@,
                Seq::new((old(self).num_nodes - 1) as nat, |i: int| chain_link(i, ports@)),
            ),
            nodes_view(final(self).nodes@) == nodes_view(old(self).nodes@),
            final(self).num_nodes == old(self).num_nodes,
    {
        let ghost ls0 = old(self).links@;
        let ghost hops = Seq::new((self.num_nodes - 1) as nat, |i: int| chain_link(i, ports@));
        let last = (self.num_nodes - 1) as usize;
        let mut i: usize = 0;
        while i < last
            invariant
                i <= last,
                last == self.num_nodes - 1,
                self.num_nodes == old(self).num_nodes,
                self.num_nodes >= 3,
                ports@.len() == 2 * self.num_nodes - 2,
                self.links@ == fold_link_pairs(ls0, hops.take(i as int)),
                nodes_view(self.nodes@) == nodes_view(old(self).nodes@),
            decreases last - i,
        {
            let link = Link::new(
                LinkConfig::new(i as u8, ports[2 * i], (i + 1) as u8, ports[2 * i + 1]),
            );
            let rev = link.swap_ends();
            insert_link(&mut self.links, link);
            insert_link(&mut self.links, rev);
            proof {
                lemma_fold_links_snoc(ls0, hops.take(i as int), hops[i as int]);
                assert(hops.take(i + 1) =~= hops.take(i as int).push(hops[i as int]));
            }
            i += 1;
        }
        proof {
            assert(hops.take(last as int) =~= hops);
        }
    }
}

impl Topology for ChainTopology {
    open spec fn nodes_model(&self) -> Seq<NodeModel> {
        nodes_view(self.nodes@)
    }

    open spec fn links_model(&self) -> Seq<Link> {
        self.links@
    }

    fn handle_pkt(&mut self, event: Event) -> (r: Result<Option<Event>, SimError>) {
        relay_event(&self.nodes, &mut self.links, event)
    }
}

} // verus!
