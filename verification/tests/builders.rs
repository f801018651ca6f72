//! Construction paths: wiring helpers, the alternate star builders,
//! the point-to-point accessors, and the low-level table utilities.

use linksim::link::{Link, LinkConfig};
use linksim::nodes::simple::SimpleNode;
use linksim::nodes::switch::SwitchingNode;
use linksim::nodes::{port_member, table_get, table_put, Node};
use linksim::packet::mac_eq;
use linksim::simulator::event::EventHandler;
use linksim::simulator::topology::p2p::P2PConnection;
use linksim::simulator::topology::star::StarTopology;
use linksim::simulator::topology::Topology;
use linksim::simulator::{ReportKind, Simulator};

const M1: [u8; 6] = [0x0a, 0, 0, 0, 0, 1];
const M2: [u8; 6] = [0x0a, 0, 0, 0, 0, 2];
const M3: [u8; 6] = [0x0a, 0, 0, 0, 0, 3];

#[test]
fn connect_wires_both_directions() {
    let a = Node::Simple(SimpleNode::new(0, M1, 10));
    let b = Node::Simple(SimpleNode::new(1, M2, 20));
    let mut sim = Simulator::new();
    sim.add_node(&a);
    sim.add_node(&b);
    sim.connect(0, 10, 1, 20);
    assert!(sim.links.iter().any(|l| l.config.end_a == (0, 10) && l.config.end_b == (1, 20)));
    assert!(sim.links.iter().any(|l| l.config.end_a == (1, 20) && l.config.end_b == (0, 10)));

    assert!(sim.schedule_send(1, &a, 10, &M2, Vec::new()).is_ok());
    assert!(sim.run().is_ok());
    let recvs: Vec<_> = sim.reports.iter().filter(|r| r.kind == ReportKind::Recv).collect();
    assert_eq!(recvs.len(), 1);
    assert_eq!(recvs[0].at, (1, 20));
}

#[test]
fn add_node_replaces_by_identifier() {
    let mut sim = Simulator::new();
    sim.add_node(&Node::Simple(SimpleNode::new(3, M1, 1)));
    sim.add_node(&Node::Simple(SimpleNode::new(3, M2, 2)));
    assert_eq!(sim.nodes.len(), 1);
    assert!(matches!(&sim.nodes[0], Node::Simple(s) if s.mac == M2 && s.port == 2));
}

#[test]
fn star_alternate_builders_route_between_leaves() {
    let switch_mac = [0x0a, 0, 0, 0, 0, 0xff];
    let mut sw = SwitchingNode::new(0, &vec![1, 2, 3], &switch_mac);
    assert!(sw.install_mac_entry(&M1, 1).is_ok());
    assert!(sw.install_mac_entry(&M2, 2).is_ok());
    assert!(sw.install_mac_entry(&M3, 3).is_ok());

    let leaves = vec![
        Node::Simple(SimpleNode::new(1, M1, 0)),
        Node::Simple(SimpleNode::new(2, M2, 0)),
        Node::Simple(SimpleNode::new(3, M3, 0)),
    ];
    let spokes = vec![
        Link::new(LinkConfig::new(0, 1, 1, 0)),
        Link::new(LinkConfig::new(0, 2, 2, 0)),
        Link::new(LinkConfig::new(0, 3, 3, 0)),
    ];
    let mut star = StarTopology::new(4).with_switch(sw).with_nodes(leaves).with_links(spokes);
    assert!(star.get_node(0).is_some());
    assert!(star.get_node(2).is_some());
    assert!(star.get_node(9).is_none());

    let leaf3 = SimpleNode::new(3, M3, 0);
    let mut handler = EventHandler::new();
    assert!(handler.schedule_send(1, &leaf3, 0, &M1, Vec::new()).is_ok());
    let mut delivered: Vec<u8> = Vec::new();
    while let Some(events) = handler.next_events() {
        for event in events {
            if let linksim::simulator::Event::RcvPkt { at, .. } = &event {
                if at.0 != 0 {
                    delivered.push(at.0);
                }
            }
            match star.handle_pkt(event) {
                Ok(Some(follow)) => handler.schedule(follow),
                Ok(None) => {}
                Err(e) => panic!("star relay failed: {:?}", e),
            }
        }
    }
    assert_eq!(delivered, vec![1]);
}

#[test]
fn p2p_accessors_resolve_both_ends() {
    let a = SimpleNode::new(0, M1, 10);
    let b = SimpleNode::new(1, M2, 20);
    let template = Link::new(LinkConfig::new(0, 10, 1, 20).with_delay(4));
    let p2p = P2PConnection::full_specification(&a, &b, &template);

    assert!(matches!(p2p.get_node_from_id(0, 10), Some(Node::Simple(s)) if s.mac == M1));
    assert!(matches!(p2p.get_peer_from_id(0, 10), Some(Node::Simple(s)) if s.mac == M2));
    assert!(matches!(p2p.get_node_from_id(9, 9), Some(Node::Simple(s)) if s.mac == M2));

    let fwd = p2p.get_link_from_id(0, 10).expect("forward link stored");
    assert_eq!(fwd.config.end_b, (1, 20));
    assert_eq!(fwd.config.delay, Some(4));
    let rev = p2p.get_link_from_id(1, 20).expect("reverse link stored");
    assert_eq!(rev.config.end_b, (0, 10));
    assert_eq!(rev.config.delay, Some(4));
    assert!(p2p.get_link_from_id(5, 5).is_none());
}

#[test]
fn table_utilities_bind_and_replace() {
    let mut table: Vec<([u8; 6], u8)> = Vec::new();
    table_put(&mut table, &M1, 4);
    table_put(&mut table, &M2, 5);
    assert_eq!(table_get(&table, &M1), Some(4));
    assert_eq!(table_get(&table, &M2), Some(5));
    assert_eq!(table_get(&table, &M3), None);

    table_put(&mut table, &M1, 9);
    assert_eq!(table_get(&table, &M1), Some(9));
    assert_eq!(table.len(), 2);
}

#[test]
fn mac_comparison_and_port_membership() {
    assert!(mac_eq(&M1, &[0x0a, 0, 0, 0, 0, 1]));
    assert!(!mac_eq(&M1, &M2));
    let ports: Vec<u8> = vec![1, 5, 7];
    assert!(port_member(&ports, 5));
    assert!(!port_member(&ports, 2));
}
