//! Nodes: polymorphic endpoint behavior over a closed set of variants.
//!
//! A node is *Simple* (single-port originator and sink), *Forwarding*
//! (two-port bridge with a static table) or *Switching* (N-port switch
//! with a static table). Tables map a destination address to an egress
//! port, are installed once at construction time, and are never learned.

use crate::errors::SimError;
use crate::link::{LinkEndId, PortId};
use crate::nodes::bridging::{ForwardingNode, FwdModel};
use crate::nodes::builder::NodeConfig;
use crate::nodes::simple::SimpleNode;
use crate::nodes::switch::{SwitchModel, SwitchingNode};
use crate::packet::{EthernetFrame, FrameModel, MacAddress, DEFAULT_ETHERTYPE};
use vstd::prelude::*;

pub mod bridging;
pub mod builder;
pub mod simple;
pub mod switch;

verus! {

/// A node identifier, unique within one topology.
pub type NodeId = u8;

/// What a node asks the topology to do next with a frame.
#[derive(Debug, PartialEq, Eq)]
pub enum NodeAction {
    Send { from: LinkEndId, frame: EthernetFrame },
    Rcv { to: LinkEndId, frame: EthernetFrame },
}

/// Mathematical image of a [`NodeAction`].
#[verifier::ext_equal]
pub ghost enum ActionModel {
    Send { from: LinkEndId, frame: FrameModel },
    Rcv { to: LinkEndId, frame: FrameModel },
}

impl View for NodeAction {
    type V = ActionModel;

    open spec fn view(&self) -> ActionModel {
        match self {
            NodeAction::Send { from, frame } => ActionModel::Send { from: *from, frame: frame@ },
            NodeAction::Rcv { to, frame } => ActionModel::Rcv { to: *to, frame: frame@ },
        }
    }
}

/// View of the result a node handler hands back.
pub open spec fn act_res_view(r: Result<Option<NodeAction>, SimError>) -> Result<
    Option<ActionModel>,
    SimError,
> {
    match r {
        Ok(Some(a)) => Ok(Some(a@)),
        Ok(None) => Ok(None),
        Err(e) => Err(e),
    }
}

/// Mathematical image of a [`Node`]: one of the three variant models.
#[verifier::ext_equal]
pub ghost enum NodeModel {
    Simple(SimpleNode),
    Forwarding(FwdModel),
    Switch(SwitchModel),
}

/// The first port bound to `m` in a static table, scanning front to back.
pub open spec fn mac_lookup(t: Seq<(MacAddress, PortId)>, m: MacAddress) -> Option<PortId>
    decreases t.len(),
{
    if t.len() == 0 {
        None
    } else if t[0].0 == m {
        Some(t[0].1)
    } else {
        mac_lookup(t.drop_first(), m)
    }
}

/// Install `m -> p` in a static table: the first entry keyed by `m` is
/// replaced in place, and a fresh key is appended at the back.
pub open spec fn mac_insert(
    t: Seq<(MacAddress, PortId)>,
    m: MacAddress,
    p: PortId,
) -> Seq<(MacAddress, PortId)>
    decreases t.len(),
{
    if t.len() == 0 {
        seq![(m, p)]
    } else if t[0].0 == m {
        seq![(m, p)] + t.drop_first()
    } else {
        seq![t[0]] + mac_insert(t.drop_first(), m, p)
    }
}

/// Installing an entry changes exactly the binding of its own key.
pub proof fn lemma_mac_insert_lookup(
    t: Seq<(MacAddress, PortId)>,
    m: MacAddress,
    p: PortId,
    x: MacAddress,
)
    ensures
        mac_lookup(mac_insert(t, m, p), x) == if x == m {
            Some(p)
        } else {
            mac_lookup(t, x)
        },
    decreases t.len(),
{
    if t.len() == 0 {
        let u = seq![(m, p)];
        assert(mac_insert(t, m, p) == u);
        if x != m {
            assert(u.drop_first() =~= Seq::<(MacAddress, PortId)>::empty());
            assert(mac_lookup(u, x) == mac_lookup(u.drop_first(), x));
        }
    } else if t[0].0 == m {
        let u = seq![(m, p)] + t.drop_first();
        assert(mac_insert(t, m, p) == u);
        assert(u[0] == (m, p));
        assert(u.drop_first() =~= t.drop_first());
        if x == m {
            assert(mac_lookup(u, x) == Some(p));
        } else {
            assert(mac_lookup(u, x) == mac_lookup(t.drop_first(), x));
            assert(mac_lookup(t, x) == mac_lookup(t.drop_first(), x));
        }
    } else {
        let u = seq![t[0]] + mac_insert(t.drop_first(), m, p);
        assert(mac_insert(t, m, p) == u);
        assert(u[0] == t[0]);
        assert(u.len() > 0);
        assert(u.drop_first() =~= mac_insert(t.drop_first(), m, p));
        lemma_mac_insert_lookup(t.drop_first(), m, p, x);
        if x == t[0].0 {
            assert(mac_lookup(u, x) == Some(t[0].1));
            assert(mac_lookup(t, x) == Some(t[0].1));
        } else {
            assert(mac_lookup(u, x) == mac_lookup(u.drop_first(), x));
            assert(mac_lookup(t, x) == mac_lookup(t.drop_first(), x));
        }
    }
}

/// A table entry found at index `i`, with no earlier entry for the same
/// key, is what front-to-back lookup returns.
pub proof fn lemma_mac_lookup_at(t: Seq<(MacAddress, PortId)>, m: MacAddress, i: int)
    requires
        0 <= i < t.len(),
        t[i].0 == m,
        forall|j: int| 0 <= j < i ==> t[j].0 != m,
    ensures
        mac_lookup(t, m) == Some(t[i].1),
    decreases i,
{
    if i > 0 {
        lemma_mac_lookup_at(t.drop_first(), m, i - 1);
    }
}

/// A key bound by no entry is not found.
pub proof fn lemma_mac_lookup_absent(t: Seq<(MacAddress, PortId)>, m: MacAddress)
    requires
        forall|j: int| 0 <= j < t.len() ==> t[j].0 != m,
    ensures
        mac_lookup(t, m) is None,
    decreases t.len(),
{
    if t.len() > 0 {
        lemma_mac_lookup_absent(t.drop_first(), m);
    }
}

/// Replacing the first entry for a key in place realizes [`mac_insert`].
pub proof fn lemma_mac_insert_found(t: Seq<(MacAddress, PortId)>, m: MacAddress, p: PortId, i: int)
    requires
        0 <= i < t.len(),
        t[i].0 == m,
        forall|j: int| 0 <= j < i ==> t[j].0 != m,
    ensures
        mac_insert(t, m, p) =~= t.update(i, (m, p)),
    decreases i,
{
    if i == 0 {
        assert(mac_insert(t, m, p) =~= seq![(m, p)] + t.drop_first());
    } else {
        lemma_mac_insert_found(t.drop_first(), m, p, i - 1);
        assert(mac_insert(t, m, p) =~= seq![t[0]] + mac_insert(t.drop_first(), m, p));
        assert(t.update(i, (m, p)).drop_first() =~= t.drop_first().update(i - 1, (m, p)));
        assert(mac_insert(t, m, p) =~= t.update(i, (m, p)));
    }
}

/// Appending a fresh key realizes [`mac_insert`].
pub proof fn lemma_mac_insert_absent(t: Seq<(MacAddress, PortId)>, m: MacAddress, p: PortId)
    requires
        forall|j: int| 0 <= j < t.len() ==> t[j].0 != m,
    ensures
        mac_insert(t, m, p) =~= t.push((m, p)),
    decreases t.len(),
{
    if t.len() == 0 {
        assert(mac_insert(t, m, p) =~= t.push((m, p)));
    } else {
        lemma_mac_insert_absent(t.drop_first(), m, p);
        assert(t.push((m, p)).drop_first() =~= t.drop_first().push((m, p)));
        assert(mac_insert(t, m, p) =~= seq![t[0]] + mac_insert(t.drop_first(), m, p));
        assert(mac_insert(t, m, p) =~= t.push((m, p)));
    }
}

/// An independent copy of an executable static table.
pub fn copy_table(t: &Vec<(MacAddress, PortId)>) -> (r: Vec<(MacAddress, PortId)>)
    ensures
        r@ == t@,
{
    let mut r: Vec<(MacAddress, PortId)> = Vec::new();
    let mut i: usize = 0;
    while i < t.len()
        invariant
            i <= t@.len(),
            r@ =~= t@.take(i as int),
        decreases t@.len() - i,
    {
        r.push(t[i]);
        proof {
            assert(t@.take(i + 1) =~= t@.take(i as int).push(t@[i as int]));
        }
        i += 1;
    }
    proof {
        assert(t@.take(t@.len() as int) =~= t@);
    }
    r
}

/// Look a hardware address up in an executable static table.
pub fn table_get(t: &Vec<(MacAddress, PortId)>, m: &MacAddress) -> (r: Option<PortId>)
    ensures
        r == mac_lookup(t@, *m),
{
    let mut i: usize = 0;
    while i < t.len()
        invariant
            i <= t@.len(),
            forall|j: int| 0 <= j < i ==> t@[j].0 != *m,
        decreases t@.len() - i,
    {
        if crate::packet::mac_eq(&t[i].0, m) {
            proof {
                lemma_mac_lookup_at(t@, *m, i as int);
            }
            return Some(t[i].1);
        }
        i += 1;
    }
    proof {
        lemma_mac_lookup_absent(t@, *m);
    }
    None
}

/// Install a binding in an executable static table.
pub fn table_put(t: &mut Vec<(MacAddress, PortId)>, m: &MacAddress, p: PortId)
    ensures
        final(t)@ == mac_insert(old(t)@, *m, p),
{
    let mut i: usize = 0;
    while i < t.len()
        invariant
            i <= t@.len(),
            t@ == old(t)@,
            forall|j: int| 0 <= j < i ==> t@[j].0 != *m,
        decreases t@.len() - i,
    {
        if crate::packet::mac_eq(&t[i].0, m) {
            t.set(i, (*m, p));
            proof {
                lemma_mac_insert_found(old(t)@, *m, p, i as int);
            }
            return;
        }
        i += 1;
    }
    t.push((*m, p));
    proof {
        lemma_mac_insert_absent(old(t)@, *m, p);
    }
}

/// Whether a port list contains `p`.
pub fn port_member(ports: &Vec<PortId>, p: PortId) -> (r: bool)
    ensures
        r <==> ports@.contains(p),
{
    let mut i: usize = 0;
    while i < ports.len()
        invariant
            i <= ports@.len(),
            forall|j: int| 0 <= j < i ==> ports@[j] != p,
        decreases ports@.len() - i,
    {
        if ports[i] == p {
            return true;
        }
        i += 1;
    }
    false
}

/// What a node does when asked to originate a frame to `dst` out of
/// `out_port`: a Simple node always builds the frame, a Forwarding node
/// first checks that the port is one of its own two, and a Switching
/// node declines — switches are intermediate-only by design.
pub open spec fn node_send(
    n: NodeModel,
    dst: MacAddress,
    out_port: PortId,
    payload: Seq<u8>,
) -> Result<Option<ActionModel>, SimError> {
    match n {
        NodeModel::Simple(s) => Ok(
            Some(
                ActionModel::Send {
                    from: (s.id, out_port),
                    frame: FrameModel {
                        src_mac: s.mac,
                        dst_mac: dst,
                        ethertype: DEFAULT_ETHERTYPE,
                        payload,
                    },
                },
            ),
        ),
        NodeModel::Forwarding(f) => if f.left == out_port || f.right == out_port {
            Ok(
                Some(
                    ActionModel::Send {
                        from: (f.id, out_port),
                        frame: FrameModel {
                            src_mac: f.mac,
                            dst_mac: dst,
                            ethertype: DEFAULT_ETHERTYPE,
                            payload,
                        },
                    },
                ),
            )
        } else {
            Err(SimError::PortMissing { node: f.id, port: out_port })
        },
        NodeModel::Switch(_) => Ok(None),
    }
}

/// The shared receive discipline of the two table-driven variants: the
/// frame's source must be bound to the ingress port (no learning), a
/// frame for the node's own address is consumed, and anything else is
/// re-emitted out of the port its destination is bound to — or is a
/// fatal incomplete-table error when no binding exists.
pub open spec fn spec_table_rcv(
    id: NodeId,
    mac: MacAddress,
    table: Seq<(MacAddress, PortId)>,
    fm: FrameModel,
    port: PortId,
) -> Result<Option<ActionModel>, SimError> {
    if mac_lookup(table, fm.src_mac) != Some(port) {
        Err(SimError::UnknownSource { node: id, port, mac: fm.src_mac })
    } else if fm.dst_mac == mac {
        Ok(None)
    } else {
        match mac_lookup(table, fm.dst_mac) {
            None => Err(SimError::UnknownDestination { node: id, mac: fm.dst_mac }),
            Some(p) => Ok(Some(ActionModel::Send { from: (id, p), frame: fm })),
        }
    }
}

/// What a node does with a frame arriving on `port`: a Simple node
/// consumes it silently; the table-driven variants follow
/// [`spec_table_rcv`].
pub open spec fn node_rcv(n: NodeModel, fm: FrameModel, port: PortId) -> Result<
    Option<ActionModel>,
    SimError,
> {
    match n {
        NodeModel::Simple(_) => Ok(None),
        NodeModel::Forwarding(f) => spec_table_rcv(f.id, f.mac, f.table, fm, port),
        NodeModel::Switch(s) => spec_table_rcv(s.id, s.mac, s.table, fm, port),
    }
}

/// Static-table completeness law, abort half: a table-driven node
/// handed a frame whose destination its static table cannot resolve
/// reports a fatal incomplete-table error — it never quietly drops the
/// frame, and never quietly consumes a frame addressed elsewhere.
pub proof fn lemma_no_silent_drop(
    id: NodeId,
    mac: MacAddress,
    table: Seq<(MacAddress, PortId)>,
    fm: FrameModel,
    port: PortId,
)
    requires
        mac_lookup(table, fm.src_mac) == Some(port),
        fm.dst_mac != mac,
        mac_lookup(table, fm.dst_mac) is None,
    ensures
        spec_table_rcv(id, mac, table, fm, port) == Err::<Option<ActionModel>, SimError>(
            SimError::UnknownDestination { node: id, mac: fm.dst_mac },
        ),
{
}

/// The identity (id) of a node model.
pub open spec fn node_model_id(n: NodeModel) -> NodeId {
    match n {
        NodeModel::Simple(s) => s.id,
        NodeModel::Forwarding(f) => f.id,
        NodeModel::Switch(s) => s.id,
    }
}

/// The hardware address of a node model.
pub open spec fn node_model_mac(n: NodeModel) -> MacAddress {
    match n {
        NodeModel::Simple(s) => s.mac,
        NodeModel::Forwarding(f) => f.mac,
        NodeModel::Switch(s) => s.mac,
    }
}

/// The common capability interface of every node variant.
pub trait NodeHandler {
    /// The mathematical image this handler behaves as.
    spec fn node_model(&self) -> NodeModel;

    /// Originate a frame addressed from this node to `dst_mac`, to leave
    /// through `out_port`.
    fn send_pkt(&self, dst_mac: &MacAddress, out_port: PortId, payload: Vec<u8>) -> (r: Result<
        Option<NodeAction>,
        SimError,
    >)
        ensures
            act_res_view(r) == node_send(self.node_model(), *dst_mac, out_port, payload@),
    ;

    /// Accept a frame arriving on `port` and decide its fate.
    fn rcv_pkt(&self, frame: &EthernetFrame, port: PortId) -> (r: Result<
        Option<NodeAction>,
        SimError,
    >)
        ensures
            act_res_view(r) == node_rcv(self.node_model(), frame@, port),
    ;
}

/// The shared executable receive path of the table-driven variants.
pub fn table_rcv(
    id: NodeId,
    mac: &MacAddress,
    table: &Vec<(MacAddress, PortId)>,
    frame: &EthernetFrame,
    port: PortId,
) -> (r: Result<Option<NodeAction>, SimError>)
    ensures
        act_res_view(r) == spec_table_rcv(id, *mac, table@, frame@, port),
{
    let src_bound = match table_get(table, &frame.src_mac) {
        Some(p) => p == port,
        None => false,
    };
    let r = if !src_bound {
        Err(SimError::UnknownSource { node: id, port, mac: frame.src_mac })
    } else if crate::packet::mac_eq(&frame.dst_mac, mac) {
        Ok(None)
    } else {
        match table_get(table, &frame.dst_mac) {
            None => Err(SimError::UnknownDestination { node: id, mac: frame.dst_mac }),
            Some(p) => Ok(Some(NodeAction::Send { from: (id, p), frame: frame.clone() })),
        }
    };
    proof {
        assert(act_res_view(r) =~~= spec_table_rcv(id, *mac, table@, frame@, port));
    }
    r
}

/// A closed variant type over the three node behaviors.
pub enum Node {
    Simple(SimpleNode),
    Forwarding(ForwardingNode),
    Switch(SwitchingNode),
}

impl View for Node {
    type V = NodeModel;

    open spec fn view(&self) -> NodeModel {
        match self {
            Node::Simple(s) => NodeModel::Simple(*s),
            Node::Forwarding(f) => NodeModel::Forwarding(f@),
            Node::Switch(sw) => NodeModel::Switch(sw@),
        }
    }
}

impl Clone for Node {
    fn clone(&self) -> (r: Self)
        ensures
            r@ == self@,
    {
        match self {
            Node::Simple(s) => Node::Simple(*s),
            Node::Forwarding(f) => Node::Forwarding(f.clone()),
            Node::Switch(sw) => Node::Switch(sw.clone()),
        }
    }
}

impl NodeHandler for Node {
    open spec fn node_model(&self) -> NodeModel {
        self@
    }

    fn send_pkt(&self, dst_mac: &MacAddress, out_port: PortId, payload: Vec<u8>) -> (r: Result<
        Option<NodeAction>,
        SimError,
    >) {
        match self {
            Node::Simple(s) => s.send_pkt(dst_mac, out_port, payload),
            Node::Forwarding(f) => f.send_pkt(dst_mac, out_port, payload),
            Node::Switch(sw) => sw.send_pkt(dst_mac, out_port, payload),
        }
    }

    fn rcv_pkt(&self, frame: &EthernetFrame, port: PortId) -> (r: Result<
        Option<NodeAction>,
        SimError,
    >) {
        match self {
            Node::Simple(s) => s.rcv_pkt(frame, port),
            Node::Forwarding(f) => f.rcv_pkt(frame, port),
            Node::Switch(sw) => sw.rcv_pkt(frame, port),
        }
    }
}

impl Node {
    pub fn id(&self) -> (r: NodeId)
        ensures
            r == node_model_id(self@),
    {
        match self {
            Node::Simple(s) => s.id,
            Node::Forwarding(f) => f.id,
            Node::Switch(sw) => sw.id,
        }
    }

    pub fn mac(&self) -> (r: MacAddress)
        ensures
            r == node_model_mac(self@),
    {
        match self {
            Node::Simple(s) => s.mac,
            Node::Forwarding(f) => f.mac,
            Node::Switch(sw) => sw.mac,
        }
    }
}

/// Turns declarative node descriptions into nodes.
pub struct NodeBuilder;

/// The node a configuration describes, with an empty table.
pub open spec fn node_from_config(c: crate::nodes::builder::ConfigModel) -> NodeModel {
    match c {
        crate::nodes::builder::ConfigModel::Simple { id, port, mac } => NodeModel::Simple(
            SimpleNode { id, mac, port },
        ),
        crate::nodes::builder::ConfigModel::Forwarding { id, ports, mac } => NodeModel::Forwarding(
            FwdModel { id, left: ports[0], right: ports[1], mac, table: Seq::empty() },
        ),
        crate::nodes::builder::ConfigModel::Switch { id, ports, mac } => NodeModel::Switch(
            SwitchModel { id, ports, mac, table: Seq::empty() },
        ),
    }
}

impl NodeBuilder {
    /// Build a node from a configuration, consuming it.
    pub fn consume(cfg: NodeConfig) -> (r: Node)
        ensures
            r@ == node_from_config(cfg@),
    {
        let r = match cfg {
            NodeConfig::Simple { id, port, mac } => Node::Simple(SimpleNode::new(id, mac, port)),
            NodeConfig::Forwarding { id, ports, mac } => Node::Forwarding(
                ForwardingNode::new(id, &ports, &mac),
            ),
            NodeConfig::Switch { id, ports, mac } => Node::Switch(
                SwitchingNode::new(id, &ports, &mac),
            ),
        };
        proof {
            assert(r@ =~~= node_from_config(cfg@));
        }
        r
    }

    /// Build a node from a borrowed configuration.
    pub fn build(cfg: &NodeConfig) -> (r: Node)
        ensures
            r@ == node_from_config(cfg@),
    {
        let r = match cfg {
            NodeConfig::Simple { id, port, mac } => Node::Simple(SimpleNode::new(*id, *mac, *port)),
            NodeConfig::Forwarding { id, ports, mac } => Node::Forwarding(
                ForwardingNode::new(*id, ports, mac),
            ),
            NodeConfig::Switch { id, ports, mac } => Node::Switch(SwitchingNode::new(*id, ports, mac)),
        };
        proof {
            assert(r@ =~~= node_from_config(cfg@));
        }
        r
    }
}

} // verus!
