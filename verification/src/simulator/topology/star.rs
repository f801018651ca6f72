//! Star topologies: one switch in the middle, leaf nodes around it.

use crate::errors::SimError;
use crate::link::{Link, LinkConfig, PortId};
use crate::nodes::simple::SimpleNode;
use crate::nodes::switch::{SwitchModel, SwitchingNode};
use crate::nodes::{
    mac_insert, mac_lookup, lemma_mac_insert_lookup, Node, NodeId, NodeModel,
};
use crate::packet::MacAddress;
use crate::simulator::event::Event;
use crate::simulator::topology::{
    find_node, fold_link_pairs, fold_node_inserts, insert_link, insert_node,
    lemma_node_insert_lookup, node_insert, node_lookup, nodes_view, relay_event, Topology,
};
use vstd::prelude::*;

verus! {

/// One switch joined to `num_nodes - 1` leaf nodes, one leaf per switch
/// port. The switch's static table binds each leaf's address to the
/// switch port that leaf hangs off.
pub struct StarTopology {
    pub num_nodes: u8,
    pub nodes: Vec<Node>,
    pub links: Vec<Link>,
    pub switch_id: NodeId,
    pub switch_ports: Vec<PortId>,
}

/// The switch table after binding the first `j` leaf addresses to their
/// switch ports, starting from `t0`.
pub open spec fn star_table(
    t0: Seq<(MacAddress, PortId)>,
    macs: Seq<MacAddress>,
    ports: Seq<PortId>,
    j: int,
) -> Seq<(MacAddress, PortId)>
    decreases j,
{
    if j <= 0 {
        t0
    } else {
        mac_insert(star_table(t0, macs, ports, j - 1), macs[j - 1], ports[j - 1])
    }
}

/// The leaf node hanging off switch port `i`: identifier `i + 1`,
/// address `macs[i]`, its own single port numbered zero.
pub open spec fn star_leaf(i: int, macs: Seq<MacAddress>) -> NodeModel {
    NodeModel::Simple(SimpleNode { id: (i + 1) as u8, mac: macs[i], port: 0 })
}

/// The link joining switch port `i` to leaf `i + 1`.
pub open spec fn star_link(switch_id: NodeId, i: int, ports: Seq<PortId>) -> Link {
    Link {
        config: LinkConfig {
            end_a: (switch_id, ports[i]),
            end_b: ((i + 1) as u8, 0),
            delay: None,
            corrupt_every: None,
            drop_every: None,
        },
        packet_count: 0,
    }
}

/// Static-table completeness of a star switch: with pairwise distinct
/// leaf addresses, every leaf address resolves through the built table
/// to exactly the switch port its leaf hangs off — no destination in
/// the topology is silently unresolvable.
pub proof fn lemma_star_table_complete(
    t0: Seq<(MacAddress, PortId)>,
    macs: Seq<MacAddress>,
    ports: Seq<PortId>,
    j: int,
    k: int,
)
    requires
        0 <= k < j <= macs.len(),
        forall|a: int, b: int| 0 <= a < b < macs.len() ==> macs[a] != macs[b],
    ensures
        mac_lookup(star_table(t0, macs, ports, j), macs[k]) == Some(ports[k]),
    decreases j,
{
    if k == j - 1 {
        lemma_mac_insert_lookup(star_table(t0, macs, ports, j - 1), macs[j - 1], ports[j - 1], macs[k]);
    } else {
        lemma_star_table_complete(t0, macs, ports, j - 1, k);
        lemma_mac_insert_lookup(star_table(t0, macs, ports, j - 1), macs[j - 1], ports[j - 1], macs[k]);
    }
}

impl StarTopology {
    /// An empty star of `num_nodes` nodes (one switch plus leaves);
    /// fewer than two nodes is no star at all.
    pub fn new(num_nodes: u8) -> (r: Self)
        requires
            num_nodes >= 2,
        ensures
            r.num_nodes == num_nodes,
            nodes_view(r.nodes@) == Seq::<NodeModel>::empty(),
            r.links@ == Seq::<Link>::empty(),
            r.switch_id == 0,
            r.switch_ports@ == Seq::<PortId>::empty(),
    {
        let r = Self {
            num_nodes,
            nodes: Vec::new(),
            links: Vec::new(),
            switch_id: 0,
            switch_ports: Vec::new(),
        };
        proof {
            assert(nodes_view(r.nodes@) =~= Seq::<NodeModel>::empty());
        }
        r
    }

    /// Register a ready-made switch and remember its identity and ports.
    pub fn with_switch(self, n: SwitchingNode) -> (r: Self)
        ensures
            nodes_view(r.nodes@) == node_insert(nodes_view(self.nodes@), NodeModel::Switch(n@)),
            r.switch_id == n.id,
            r.switch_ports@ == n@.ports,
            r.links@ == self.links@,
            r.num_nodes == self.num_nodes,
    {
        let mut r = self;
        r.switch_id = n.id;
        r.switch_ports = n.ports.clone();
        proof {
            assert(r.switch_ports@ =~= n.ports@);
        }
        insert_node(&mut r.nodes, Node::Switch(n));
        r
    }

    /// Register ready-made leaf nodes, in order.
    pub fn with_nodes(self, nodes: Vec<Node>) -> (r: Self)
        requires
            nodes@.len() == self.num_nodes - 1,
        ensures
            nodes_view(r.nodes@) == fold_node_inserts(nodes_view(self.nodes@), nodes_view(nodes@)),
            r.links@ == self.links@,
            r.switch_id == self.switch_id,
            r.switch_ports@ == self.switch_ports@,
            r.num_nodes == self.num_nodes,
    {
        let ghost acc0 = nodes_view(self.nodes@);
        let ghost all = nodes_view(nodes@);
        let mut r = self;
        let mut rest = nodes;
        while rest.len() > 0
            invariant
                fold_node_inserts(acc0, all) == fold_node_inserts(
                    nodes_view(r.nodes@),
                    nodes_view(rest@),
                ),
                r.links@ == self.links@,
                r.switch_id == self.switch_id,
                r.switch_ports@ == self.switch_ports@,
                r.num_nodes == self.num_nodes,
            decreases rest.len(),
        {
            let ghost rest0 = nodes_view(rest@);
            let n = rest.remove(0);
            insert_node(&mut r.nodes, n);
            proof {
                assert(nodes_view(rest@) =~= rest0.drop_first());
            }
        }
        proof {
            assert(nodes_view(rest@) =~= Seq::<NodeModel>::empty());
        }
        r
    }

    /// Store ready-made links, each together with its mirror image.
    pub fn with_links(self, links: Vec<Link>) -> (r: Self)
        requires
            links@.len() == self.num_nodes - 1,
        ensures
            r.links@ == fold_link_pairs(self.links@, links@),
            nodes_view(r.nodes@) == nodes_view(self.nodes@),
            r.switch_id == self.switch_id,
            r.switch_ports@ == self.switch_ports@,
            r.num_nodes == self.num_nodes,
    {
        let ghost acc0 = self.links@;
        let ghost all = links@;
        let mut r = self;
        let mut rest = links;
        while rest.len() > 0
            invariant
                fold_link_pairs(acc0, all) == fold_link_pairs(r.links@, rest@),
                nodes_view(r.nodes@) == nodes_view(self.nodes@),
                r.switch_id == self.switch_id,
                r.switch_ports@ == self.switch_ports@,
                r.num_nodes == self.num_nodes,
            decreases rest.len(),
        {
            let ghost rest0 = rest@;
            let link = rest.remove(0);
            let rev = link.swap_ends();
            insert_link(&mut r.links, link);
            insert_link(&mut r.links, rev);
            proof {
                assert(rest@ =~= rest0.drop_first());
            }
        }
        r
    }

    /// Build the central switch with identifier zero over the given
    /// ports, one port per leaf.
    pub fn add_switch(self, mac: &MacAddress, ports: &Vec<PortId>) -> (r: Self)
        requires
            ports@.len() == self.num_nodes - 1,
        ensures
            nodes_view(r.nodes@) == node_insert(
                nodes_view(self.nodes@),
                NodeModel::Switch(SwitchModel { id: 0, ports: ports@, mac: *mac, table: Seq::empty() }),
            ),
            r.switch_ports@ == ports@,
            r.switch_id == self.switch_id,
            r.links@ == self.links@,
            r.num_nodes == self.num_nodes,
    {
        let mut r = self;
        let n = SwitchingNode::new(0, ports, mac);
        r.switch_ports = ports.clone();
        proof {
            assert(r.switch_ports@ =~= ports@);
        }
        insert_node(&mut r.nodes, Node::Switch(n));
        r
    }

    /// Build one leaf per address, hanging off the switch ports in
    /// order, and bind every leaf address in the switch's static table.
    pub fn add_nodes(self, macs: &Vec<MacAddress>) -> (r: Self)
        requires
            macs@.len() == self.num_nodes - 1,
            self.switch_ports@.len() == macs@.len(),
            self.switch_id == 0 || self.switch_id >= self.num_nodes,
            node_lookup(nodes_view(self.nodes@), self.switch_id) matches Some(
                NodeModel::Switch(s),
            ) && forall|i: int|
                0 <= i < macs@.len() ==> s.ports.contains(#[trigger] self.switch_ports@[i]),
        ensures
            ({
                let with_leaves = fold_node_inserts(
                    nodes_view(self.nodes@),
                    Seq::new(macs@.len(), |i: int| star_leaf(i, macs@)),
                );
                node_lookup(nodes_view(self.nodes@), self.switch_id) matches Some(
                    NodeModel::Switch(s),
                ) && nodes_view(r.nodes@) == node_insert(
                    with_leaves,
                    NodeModel::Switch(
                        SwitchModel {
                            table: star_table(s.table, macs@, self.switch_ports@, macs@.len() as int),
                            ..s
                        },
                    ),
                )
            }),
            r.links@ == self.links@,
            r.switch_id == self.switch_id,
            r.switch_ports@ == self.switch_ports@,
            r.num_nodes == self.num_nodes,
    {
        let ghost ns0 = nodes_view(self.nodes@);
        let ghost leaves = Seq::new(macs@.len(), |i: int| star_leaf(i, macs@));
        let mut r = self;
        let mut i: usize = 0;
        while i < macs.len()
            invariant
                i <= macs@.len(),
                nodes_view(r.nodes@) == fold_node_inserts(ns0, leaves.take(i as int)),
                node_lookup(nodes_view(r.nodes@), r.switch_id) == node_lookup(ns0, r.switch_id),
                r.links@ == self.links@,
                r.switch_id == self.switch_id,
                r.switch_ports@ == self.switch_ports@,
                r.num_nodes == self.num_nodes,
            decreases macs@.len() - i,
        {
            let ghost before = nodes_view(r.nodes@);
            let id = (i + 1) as u8;
            let n = SimpleNode::new(id, macs[i], 0);
            insert_node(&mut r.nodes, Node::Simple(n));
            proof {
                lemma_fold_nodes_snoc(ns0, leaves.take(i as int), leaves[i as int]);
                assert(leaves.take(i + 1) =~= leaves.take(i as int).push(leaves[i as int]));
                lemma_node_insert_lookup(before, Node::Simple(n)@, r.switch_id);
            }
            i += 1;
        }
        proof {
            assert(leaves.take(macs@.len() as int) =~= leaves);
        }
        r.update_switch(macs);
        r
    }

    /// Store the spoke links: switch port `i` to leaf `i + 1`, both
    /// orientations of each.
    pub fn add_links(self) -> (r: Self)
        requires
            self.switch_ports@.len() <= 254,
        ensures
            r.links@ == fold_link_pairs(
                self.links@,
                Seq::new(
                    self.switch_ports@.len(),
                    |i: int| star_link(self.switch_id, i, self.switch_ports@),
                ),
            ),
            nodes_view(r.nodes@) == nodes_view(self.nodes@),
            r.switch_id == self.switch_id,
            r.switch_ports@ == self.switch_ports@,
            r.num_nodes == self.num_nodes,
    {
        let ghost ls0 = self.links@;
        let ghost spokes = Seq::new(
            self.switch_ports@.len(),
            |i: int| star_link(self.switch_id, i, self.switch_ports@),
        );
        let mut r = self;
        let mut i: usize = 0;
        while i < r.switch_ports.len()
            invariant
                i <= r.switch_ports@.len(),
                r.links@ == fold_link_pairs(ls0, spokes.take(i as int)),
                nodes_view(r.nodes@) == nodes_view(self.nodes@),
                r.switch_id == self.switch_id,
                r.switch_ports@ == self.switch_ports@,
                r.num_nodes == self.num_nodes,
            decreases r.switch_ports@.len() - i,
        {
            let port = r.switch_ports[i];
            let node_id = (i + 1) as u8;
            let link = Link::new(LinkConfig::new(r.switch_id, port, node_id, 0));
            let rev = link.swap_ends();
            insert_link(&mut r.links, link);
            insert_link(&mut r.links, rev);
            proof {
                lemma_fold_links_snoc(ls0, spokes.take(i as int), spokes[i as int]);
                assert(spokes.take(i + 1) =~= spokes.take(i as int).push(spokes[i as int]));
            }
            i += 1;
        }
        proof {
            assert(spokes.take(r.switch_ports@.len() as int) =~= spokes);
        }
        r
    }

    /// Bind each leaf address to its switch port in the stored switch's
    /// static table.
    fn update_switch(&mut self, macs: &Vec<MacAddress>)
        requires
            old(self).switch_ports@.len() == macs@.len(),
            node_lookup(nodes_view(old(self).nodes@), old(self).switch_id) matches Some(
                NodeModel::Switch(s),
            ) && forall|i: int|
                0 <= i < macs@.len() ==> s.ports.contains(#[trigger] old(self).switch_ports@[i]),
        ensures
            ({
                let looked = node_lookup(nodes_view(old(self).nodes@), old(self).switch_id);
                looked matches Some(NodeModel::Switch(s)) && nodes_view(final(self).nodes@)
                    == node_insert(
                    nodes_view(old(self).nodes@),
                    NodeModel::Switch(
                        SwitchModel {
                            table: star_table(
                                s.table,
                                macs@,
                                old(self).switch_ports@,
                                macs@.len() as int,
                            ),
                            ..s
                        },
                    ),
                )
            }),
            final(self).links@ == old(self).links@,
            final(self).switch_id == old(self).switch_id,
            final(self).switch_ports@ == old(self).switch_ports@,
            final(self).num_nodes == old(self).num_nodes,
    {
        let ghost s = choose|sm: SwitchModel|
            node_lookup(nodes_view(old(self).nodes@), old(self).switch_id) == Some(
                NodeModel::Switch(sm),
            );
        proof {
            assert(node_lookup(nodes_view(old(self).nodes@), old(self).switch_id) == Some(
                NodeModel::Switch(s),
            ));
        }
        let found = find_node(&self.nodes, self.switch_id);
        let mut sw: SwitchingNode = match found {
            Some(node) => match node {
                Node::Switch(swr) => swr.clone(),
                _ => {
                    proof {
                        assert(false);
                    }
                    SwitchingNode::new(0, &Vec::new(), &[0u8, 0, 0, 0, 0, 0])
                },
            },
            None => {
                proof {
                    assert(false);
                }
                SwitchingNode::new(0, &Vec::new(), &[0u8, 0, 0, 0, 0, 0])
            },
        };
        let mut j: usize = 0;
        while j < macs.len()
            invariant
                j <= macs@.len(),
                sw@ == (SwitchModel {
                    table: star_table(s.table, macs@, self.switch_ports@, j as int),
                    ..s
                }),
            decreases macs@.len() - j,
        {
            let port = self.switch_ports[j];
            match sw.install_mac_entry(&macs[j], port) {
                Ok(_) => {},
                Err(_) => {},
            }
            j += 1;
        }
        insert_node(&mut self.nodes, Node::Switch(sw));
    }

    /// The node registered under `id`, if any.
    pub fn get_node<'a>(&'a self, id: NodeId) -> (r: Option<&'a Node>)
        ensures
            match r {
                Some(n) => node_lookup(nodes_view(self.nodes@), id) == Some(n@),
                None => node_lookup(nodes_view(self.nodes@), id) is None,
            },
    {
        find_node(&self.nodes, id)
    }
}

/// Registering one more node at the back of the list folds through.
pub proof fn lemma_fold_nodes_snoc(acc: Seq<NodeModel>, s: Seq<NodeModel>, x: NodeModel)
    ensures
        fold_node_inserts(acc, s.push(x)) == node_insert(fold_node_inserts(acc, s), x),
    decreases s.len(),
{
    if s.len() == 0 {
        assert(s.push(x)[0] == x);
        assert(s.push(x).drop_first() =~= Seq::<NodeModel>::empty());
        assert(fold_node_inserts(acc, s.push(x)) == fold_node_inserts(
            node_insert(acc, x),
            Seq::<NodeModel>::empty(),
        ));
        assert(fold_node_inserts(acc, s) == acc);
    } else {
        let acc1 = node_insert(acc, s[0]);
        assert(s.push(x)[0] == s[0]);
        assert(s.push(x).drop_first() =~= s.drop_first().push(x));
        assert(fold_node_inserts(acc, s.push(x)) == fold_node_inserts(
            acc1,
            s.drop_first().push(x),
        ));
        lemma_fold_nodes_snoc(acc1, s.drop_first(), x);
        assert(fold_node_inserts(acc, s) == fold_node_inserts(acc1, s.drop_first()));
    }
}

/// Storing one more link pair at the back of the list folds through.
pub proof fn lemma_fold_links_snoc(acc: Seq<Link>, s: Seq<Link>, x: Link)
    ensures
        fold_link_pairs(acc, s.push(x)) == crate::simulator::topology::link_insert(
            crate::simulator::topology::link_insert(fold_link_pairs(acc, s), x),
            crate::simulator::topology::swapped_link(x),
        ),
    decreases s.len(),
{
    if s.len() == 0 {
        assert(s.push(x)[0] == x);
        assert(s.push(x).drop_first() =~= Seq::<Link>::empty());
        assert(fold_link_pairs(acc, s.push(x)) == fold_link_pairs(
            crate::simulator::topology::link_insert(
                crate::simulator::topology::link_insert(acc, x),
                crate::simulator::topology::swapped_link(x),
            ),
            Seq::<Link>::empty(),
        ));
        assert(fold_link_pairs(acc, s) == acc);
    } else {
        let acc1 = crate::simulator::topology::link_insert(
            crate::simulator::topology::link_insert(acc, s[0]),
            crate::simulator::topology::swapped_link(s[0]),
        );
        assert(s.push(x)[0] == s[0]);
        assert(s.push(x).drop_first() =~= s.drop_first().push(x));
        assert(fold_link_pairs(acc, s.push(x)) == fold_link_pairs(acc1, s.drop_first().push(x)));
        lemma_fold_links_snoc(acc1, s.drop_first(), x);
        assert(fold_link_pairs(acc, s) == fold_link_pairs(acc1, s.drop_first()));
    }
}

impl Topology for StarTopology {
    open spec fn nodes_model(&self) -> Seq<NodeModel> {
        nodes_view(self.nodes@)
    }

    open spec fn links_model(&self) -> Seq<Link> {
        self.links@
    }

    fn handle_pkt(&mut self, event: Event) -> (r: Result<Option<Event>, SimError>) {
        relay_event(&self.nodes, &mut self.links, event)
    }
}

} // verus!
