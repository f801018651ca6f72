//! End-to-end runs over the stock topology shapes.

use linksim::errors::SimError;
use linksim::link::{Link, LinkConfig};
use linksim::nodes::builder::NodeConfig;
use linksim::nodes::simple::SimpleNode;
use linksim::nodes::Node;
use linksim::simulator::event::{Event, EventHandler};
use linksim::simulator::topology::chain::ChainTopology;
use linksim::simulator::topology::custom::CustomTopology;
use linksim::simulator::topology::p2p::P2PConnection;
use linksim::simulator::topology::star::StarTopology;
use linksim::simulator::topology::Topology;
use linksim::simulator::{ReportKind, Simulator};

const MAC_A: [u8; 6] = [0x00, 0x1a, 0x2b, 0x3c, 0x4d, 0x5e];
const MAC_B: [u8; 6] = [0x01, 0x1b, 0x2c, 0x3d, 0x4e, 0x5f];

fn p2p_simulator(link: Link) -> (Simulator, Node, Node) {
    let a = Node::Simple(SimpleNode::new(0, MAC_A, 10));
    let b = Node::Simple(SimpleNode::new(1, MAC_B, 20));
    let sim = Simulator::new()
        .with_nodes(vec![a.clone(), b.clone()])
        .with_links(vec![link]);
    (sim, a, b)
}

#[test]
fn point_to_point_no_delay() {
    let link = Link::new(LinkConfig::new(0, 10, 1, 20));
    let (mut sim, a, b) = p2p_simulator(link);
    assert!(sim.schedule_send(1, &a, 10, &MAC_B, b"hello".to_vec()).is_ok());
    assert!(sim.schedule_send(2, &b, 20, &MAC_A, b"reply".to_vec()).is_ok());
    assert!(sim.run().is_ok());

    let recvs: Vec<_> = sim.reports.iter().filter(|r| r.kind == ReportKind::Recv).collect();
    assert_eq!(recvs.len(), 2);
    assert_eq!(recvs[0].time, 1);
    assert_eq!(recvs[0].at, (1, 20));
    assert_eq!(recvs[0].frame.src_mac, MAC_A);
    assert_eq!(recvs[0].frame.dst_mac, MAC_B);
    assert_eq!(recvs[0].frame.payload, b"hello".to_vec());
    assert_eq!(recvs[1].time, 2);
    assert_eq!(recvs[1].at, (0, 10));
    assert_eq!(recvs[1].frame.src_mac, MAC_B);
    assert_eq!(recvs[1].frame.dst_mac, MAC_A);
}

#[test]
fn point_to_point_with_delay() {
    let link = Link::new(LinkConfig::new(0, 10, 1, 20).with_delay(2));
    let (mut sim, a, _b) = p2p_simulator(link);
    assert!(sim.schedule_send(1, &a, 10, &MAC_B, Vec::new()).is_ok());
    assert!(sim.run().is_ok());

    let recvs: Vec<_> = sim.reports.iter().filter(|r| r.kind == ReportKind::Recv).collect();
    assert_eq!(recvs.len(), 1);
    assert_eq!(recvs[0].time, 3);
    assert_eq!(recvs[0].at, (1, 20));
}

#[test]
fn chain_reemits_exactly_once_at_bridge() {
    let macs = vec![MAC_A, [0x02, 0, 0, 0, 0, 1], MAC_B];
    let ports: Vec<u8> = vec![10, 11, 12, 13];
    let mut chain = ChainTopology::new(3).build(&macs, &ports);

    let a = SimpleNode::new(0, MAC_A, 10);
    let mut handler = EventHandler::new();
    assert!(handler.schedule_send(1, &a, 10, &MAC_B, b"x".to_vec()).is_ok());

    let mut bridge_sends = 0;
    let mut final_recv: Option<(u64, (u8, u8))> = None;
    while let Some(events) = handler.next_events() {
        for event in events {
            match &event {
                Event::SendPkt { from, .. } => {
                    if from.0 == 1 {
                        bridge_sends += 1;
                    }
                }
                Event::RcvPkt { time, at, .. } => {
                    if at.0 == 2 {
                        final_recv = Some((*time, *at));
                    }
                }
            }
            match chain.handle_pkt(event) {
                Ok(Some(follow)) => handler.schedule(follow),
                Ok(None) => {}
                Err(e) => panic!("chain relay failed: {:?}", e),
            }
        }
    }
    assert_eq!(bridge_sends, 1);
    assert_eq!(final_recv, Some((1, (2, 13))));
}

#[test]
fn star_delivers_only_to_addressed_leaf() {
    let m1 = [0x0a, 0, 0, 0, 0, 1];
    let m2 = [0x0a, 0, 0, 0, 0, 2];
    let m3 = [0x0a, 0, 0, 0, 0, 3];
    let switch_mac = [0x0a, 0, 0, 0, 0, 0xff];
    let mut star = StarTopology::new(4)
        .add_switch(&switch_mac, &vec![1, 2, 3])
        .add_nodes(&vec![m1, m2, m3])
        .add_links();

    let leaf1 = SimpleNode::new(1, m1, 0);
    let mut handler = EventHandler::new();
    assert!(handler.schedule_send(5, &leaf1, 0, &m2, b"to-two".to_vec()).is_ok());

    let mut deliveries: Vec<u8> = Vec::new();
    while let Some(events) = handler.next_events() {
        for event in events {
            if let Event::RcvPkt { at, .. } = &event {
                if at.0 != 0 {
                    deliveries.push(at.0);
                }
            }
            match star.handle_pkt(event) {
                Ok(Some(follow)) => handler.schedule(follow),
                Ok(None) => {}
                Err(e) => panic!("star relay failed: {:?}", e),
            }
        }
    }
    assert_eq!(deliveries, vec![2]);
}

#[test]
fn misconfigured_ingress_port_aborts_run() {
    // The bridge's table binds the source address to port 1, but the
    // frame arrives over the link attached to port 2: the run must end
    // in the protocol-violation diagnostic, not a silent misroute.
    let bridge_mac = [0x0b, 0, 0, 0, 0, 1];
    let mut bridge = linksim::nodes::bridging::ForwardingNode::new(1, &[1, 2], &bridge_mac);
    assert!(bridge.install_mac_entry(1, &MAC_A).is_ok());
    assert!(bridge.install_mac_entry(2, &MAC_B).is_ok());

    let a = Node::Simple(SimpleNode::new(0, MAC_A, 10));
    let mut sim = Simulator::new()
        .with_nodes(vec![a.clone(), Node::Forwarding(bridge)])
        // the sender is wired to the bridge's *right* port...
        .with_links(vec![Link::new(LinkConfig::new(0, 10, 1, 2))]);
    assert!(sim.schedule_send(1, &a, 10, &MAC_B, Vec::new()).is_ok());
    let outcome = sim.run();
    assert!(
        matches!(outcome, Err(SimError::UnknownSource { node: 1, port: 2, mac }) if mac == MAC_A)
    );
}

#[test]
fn exhaustion_run_with_no_sends_terminates_silently() {
    let mut sim = Simulator::new();
    assert!(sim.run().is_ok());
    assert!(sim.reports.is_empty());
}

#[test]
fn batches_drain_in_time_order_not_call_order() {
    // Scheduled late-first: the run must still process the earlier
    // timestamp's whole chain before the later one.
    let link = Link::new(LinkConfig::new(0, 10, 1, 20));
    let (mut sim, a, b) = p2p_simulator(link);
    assert!(sim.schedule_send(9, &b, 20, &MAC_A, Vec::new()).is_ok());
    assert!(sim.schedule_send(4, &a, 10, &MAC_B, Vec::new()).is_ok());
    assert!(sim.run().is_ok());

    let times: Vec<u64> = sim.reports.iter().map(|r| r.time).collect();
    assert_eq!(times, vec![4, 4, 9, 9]);
    assert_eq!(sim.reports[1].kind, ReportKind::Recv);
    assert_eq!(sim.reports[1].at, (1, 20));
}

#[test]
fn same_timestamp_ties_break_by_insertion_order() {
    let link = Link::new(LinkConfig::new(0, 10, 1, 20));
    let (mut sim, a, b) = p2p_simulator(link);
    assert!(sim.schedule_send(7, &a, 10, &MAC_B, b"first".to_vec()).is_ok());
    assert!(sim.schedule_send(7, &b, 20, &MAC_A, b"second".to_vec()).is_ok());
    assert!(sim.run().is_ok());

    let sends: Vec<_> = sim.reports.iter().filter(|r| r.kind == ReportKind::Send).collect();
    assert_eq!(sends.len(), 2);
    assert_eq!(sends[0].frame.payload, b"first".to_vec());
    assert_eq!(sends[1].frame.payload, b"second".to_vec());
}

#[test]
fn identical_runs_observe_identical_reports() {
    let build = || {
        let link = Link::new(LinkConfig::new(0, 10, 1, 20).with_delay(1));
        let (mut sim, a, b) = p2p_simulator(link);
        sim.schedule_send(3, &a, 10, &MAC_B, b"p".to_vec()).unwrap();
        sim.schedule_send(3, &b, 20, &MAC_A, b"q".to_vec()).unwrap();
        sim.schedule_send(1, &b, 20, &MAC_A, b"r".to_vec()).unwrap();
        sim
    };
    let mut one = build();
    let mut two = build();
    assert!(one.run().is_ok());
    assert!(two.run().is_ok());
    assert_eq!(one.reports, two.reports);
    assert!(!one.reports.is_empty());
}

#[test]
fn unattached_endpoint_aborts_run() {
    let a = Node::Simple(SimpleNode::new(0, MAC_A, 10));
    let mut sim = Simulator::new().with_nodes(vec![a.clone()]);
    assert!(sim.schedule_send(1, &a, 10, &MAC_B, Vec::new()).is_ok());
    assert_eq!(sim.run(), Err(SimError::MissingLink { node: 0, port: 10 }));
}

#[test]
fn receive_at_absent_node_is_fatal() {
    let mut topo = CustomTopology::new();
    let frame = linksim::packet::EthernetFrame::new(MAC_A, MAC_B, 0x0800, Vec::new());
    let outcome = topo.handle_pkt(Event::RcvPkt { time: 0, at: (9, 1), frame });
    assert_eq!(outcome, Err(SimError::MissingNode { node: 9 }));
}

#[test]
fn custom_topology_builds_from_configs_and_routes() {
    let bridge_mac = [0x0c, 0, 0, 0, 0, 9];
    let mut topo = CustomTopology::new()
        .with_nodes(vec![
            NodeConfig::Simple { id: 0, port: 10, mac: MAC_A },
            NodeConfig::Forwarding { id: 1, ports: [1, 2], mac: bridge_mac },
            NodeConfig::Simple { id: 2, port: 20, mac: MAC_B },
        ])
        .with_links(vec![LinkConfig::new(0, 10, 1, 1), LinkConfig::new(1, 2, 2, 20)]);
    assert!(matches!(topo.get_node(0), Some(Node::Simple(s)) if s.mac == MAC_A && s.port == 10));
    assert!(matches!(topo.get_node(2), Some(Node::Simple(s)) if s.mac == MAC_B));
    assert!(topo.get_node(7).is_none());

    // configured bridges start with an empty table: install entries and
    // re-register the node, then one frame crosses the whole graph
    let mut bridge = match topo.get_node(1) {
        Some(Node::Forwarding(f)) => f.clone(),
        other => panic!("bridge missing or wrong variant: {:?}", other.is_some()),
    };
    assert!(bridge.install_mac_entry(1, &MAC_A).is_ok());
    assert!(bridge.install_mac_entry(2, &MAC_B).is_ok());
    linksim::simulator::topology::insert_node(&mut topo.nodes, Node::Forwarding(bridge));

    let a = SimpleNode::new(0, MAC_A, 10);
    let mut handler = EventHandler::new();
    assert!(handler.schedule_send(2, &a, 10, &MAC_B, b"via".to_vec()).is_ok());
    let mut reached_b = false;
    while let Some(events) = handler.next_events() {
        for event in events {
            if let Event::RcvPkt { at, .. } = &event {
                if at.0 == 2 {
                    reached_b = true;
                }
            }
            match topo.handle_pkt(event) {
                Ok(Some(follow)) => handler.schedule(follow),
                Ok(None) => {}
                Err(e) => panic!("custom relay failed: {:?}", e),
            }
        }
    }
    assert!(reached_b);
}

#[test]
fn p2p_topology_carries_one_frame() {
    let a = SimpleNode::new(0, MAC_A, 10);
    let b = SimpleNode::new(1, MAC_B, 20);
    let mut p2p = P2PConnection::with_nodes(&a, &b);
    let mut handler = EventHandler::new();
    assert!(handler.schedule_send(1, &a, 10, &MAC_B, Vec::new()).is_ok());
    let mut delivered_at: Option<(u8, u8)> = None;
    while let Some(events) = handler.next_events() {
        for event in events {
            if let Event::RcvPkt { at, .. } = &event {
                delivered_at = Some(*at);
            }
            match p2p.handle_pkt(event) {
                Ok(Some(follow)) => handler.schedule(follow),
                Ok(None) => {}
                Err(e) => panic!("p2p relay failed: {:?}", e),
            }
        }
    }
    assert_eq!(delivered_at, Some((1, 20)));
}

#[test]
fn zero_delay_cycle_hits_the_step_budget() {
    let x = [0x0d, 0, 0, 0, 0, 1];
    let y = [0x0d, 0, 0, 0, 0, 0xee];
    let mut n0 = linksim::nodes::bridging::ForwardingNode::new(0, &[1, 2], &x);
    assert!(n0.install_mac_entry(1, &x).is_ok());
    assert!(n0.install_mac_entry(2, &y).is_ok());
    let other = [0x0d, 0, 0, 0, 0, 2];
    let mut n1 = linksim::nodes::bridging::ForwardingNode::new(1, &[1, 2], &other);
    assert!(n1.install_mac_entry(1, &x).is_ok());
    assert!(n1.install_mac_entry(2, &y).is_ok());

    let n0 = Node::Forwarding(n0);
    let mut sim = Simulator::new()
        .with_nodes(vec![n0.clone(), Node::Forwarding(n1)])
        .with_links(vec![
            Link::new(LinkConfig::new(0, 2, 1, 1)),
            Link::new(LinkConfig::new(1, 2, 0, 1)),
        ]);
    assert!(sim.schedule_send(0, &n0, 2, &y, Vec::new()).is_ok());
    assert_eq!(sim.run(), Err(SimError::StepLimitExceeded));
}
