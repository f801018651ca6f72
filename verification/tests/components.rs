//! Unit checks of the individual components: links, nodes, the
//! scheduler, and the address formatter.

use linksim::errors::SimError;
use linksim::link::{Link, LinkConfig};
use linksim::nodes::bridging::ForwardingNode;
use linksim::nodes::builder::NodeConfig;
use linksim::nodes::simple::SimpleNode;
use linksim::nodes::switch::SwitchingNode;
use linksim::nodes::{Node, NodeAction, NodeBuilder, NodeHandler};
use linksim::packet::EthernetFrame;
use linksim::simulator::event::{Event, EventHandler};
use linksim::simulator::format_mac;

const SRC: [u8; 6] = [0x00, 0x1a, 0x2b, 0x3c, 0x4d, 0x5e];
const DST: [u8; 6] = [0x01, 0x1b, 0x2c, 0x3d, 0x4e, 0x5f];

fn frame(payload: &[u8]) -> EthernetFrame {
    EthernetFrame::new(SRC, DST, 0x0800, payload.to_vec())
}

#[test]
fn format_mac_renders_colon_separated_hex() {
    assert_eq!(format_mac(&SRC), "00:1a:2b:3c:4d:5e");
    assert_eq!(format_mac(&[0xff, 0x00, 0x0f, 0xf0, 0x7a, 0x05]), "ff:00:0f:f0:7a:05");
}

#[test]
fn link_without_delay_delivers_at_send_time() {
    let mut link = Link::new(LinkConfig::new(0, 1, 1, 2));
    let (out, at) = link.handle_pkt(frame(b"p"), 41);
    assert_eq!(at, 41);
    assert_eq!(out.unwrap().payload, b"p".to_vec());
}

#[test]
fn link_delay_adds_with_wraparound() {
    let mut link = Link::new(LinkConfig::new(0, 1, 1, 2).with_delay(3));
    let (_, at) = link.handle_pkt(frame(b""), 10);
    assert_eq!(at, 13);
    let (_, wrapped) = link.handle_pkt(frame(b""), u64::MAX);
    assert_eq!(wrapped, 2);
}

#[test]
fn link_drops_every_nth_frame() {
    let mut link = Link::new(LinkConfig::new(0, 1, 1, 2).with_drop(2));
    let (first, _) = link.handle_pkt(frame(b"1"), 0);
    let (second, _) = link.handle_pkt(frame(b"2"), 0);
    let (third, _) = link.handle_pkt(frame(b"3"), 0);
    assert!(first.is_some());
    assert!(second.is_none());
    assert!(third.is_some());
}

#[test]
fn link_corruption_inverts_every_payload_byte() {
    let mut link = Link::new(LinkConfig::new(0, 1, 1, 2).with_corrupt(1));
    let (out, _) = link.handle_pkt(frame(&[0x00, 0xff, 0x5a]), 0);
    let delivered = out.unwrap();
    assert_eq!(delivered.payload, vec![0xff, 0x00, 0xa5]);
    assert_eq!(delivered.src_mac, SRC);
    assert_eq!(delivered.dst_mac, DST);
    assert_eq!(delivered.ethertype, 0x0800);
}

#[test]
fn drop_takes_precedence_over_corruption() {
    let mut link = Link::new(LinkConfig::new(0, 1, 1, 2).with_corrupt(1).with_drop(1));
    let (out, _) = link.handle_pkt(frame(b"z"), 0);
    assert!(out.is_none());
}

#[test]
fn peer_is_the_other_configured_end() {
    let link = Link::new(LinkConfig::new(3, 7, 4, 8));
    assert_eq!(link.get_peer((3, 7)), (4, 8));
    assert_eq!(link.get_peer((4, 8)), (3, 7));
    assert_eq!(link.get_ends(), ((3, 7), (4, 8)));
}

#[test]
fn stored_links_mirror_each_other() {
    let sim = linksim::simulator::Simulator::new()
        .with_links(vec![Link::new(LinkConfig::new(0, 10, 1, 20).with_delay(5))]);
    let fwd = sim.links.iter().find(|l| l.config.end_a == (0, 10)).expect("forward missing");
    let rev = sim.links.iter().find(|l| l.config.end_a == (1, 20)).expect("reverse missing");
    assert_eq!(fwd.config.end_b, (1, 20));
    assert_eq!(rev.config.end_b, (0, 10));
    assert_eq!(rev.config.delay, Some(5));
    assert_eq!(rev.get_peer((1, 20)), (0, 10));
}

#[test]
fn simple_node_always_sends_and_silently_consumes() {
    let n = SimpleNode::new(7, SRC, 9);
    assert_eq!(n.get_link_id(), (7, 9));
    match n.send_pkt(&DST, 9, b"pay".to_vec()) {
        Ok(Some(NodeAction::Send { from, frame })) => {
            assert_eq!(from, (7, 9));
            assert_eq!(frame.src_mac, SRC);
            assert_eq!(frame.dst_mac, DST);
            assert_eq!(frame.ethertype, 0x0800);
            assert_eq!(frame.payload, b"pay".to_vec());
        }
        other => panic!("unexpected send outcome: {:?}", other.is_ok()),
    }
    assert!(matches!(n.rcv_pkt(&frame(b"x"), 9), Ok(None)));
}

#[test]
fn forwarding_node_rejects_foreign_ports() {
    let mut f = ForwardingNode::new(4, &[1, 2], &SRC);
    assert_eq!(
        f.install_mac_entry(3, &DST),
        Err(SimError::PortMissing { node: 4, port: 3 })
    );
    assert_eq!(
        f.send_pkt(&DST, 5, Vec::new()),
        Err(SimError::PortMissing { node: 4, port: 5 })
    );
    assert!(f.send_pkt(&DST, 2, Vec::new()).is_ok());
}

#[test]
fn bridge_side_accessors_expose_distinct_ports() {
    let f = ForwardingNode::new(4, &[1, 2], &SRC);
    assert_eq!(f.left_port(), 1);
    assert_eq!(f.right_port(), 2);
    assert_eq!(f.left_link_id(), (4, 1));
    assert_eq!(f.right_link_id(), (4, 2));
    assert_ne!(f.left_link_id(), f.right_link_id());
}

#[test]
fn bridge_consumes_own_frames_and_forwards_others() {
    let own = [0x10, 0, 0, 0, 0, 1];
    let mut f = ForwardingNode::new(4, &[1, 2], &own);
    assert!(f.install_mac_entry(1, &SRC).is_ok());
    assert!(f.install_mac_entry(2, &DST).is_ok());

    // addressed to the bridge itself: consumed
    let own_frame = EthernetFrame::new(SRC, own, 0x0800, Vec::new());
    assert!(matches!(f.rcv_pkt(&own_frame, 1), Ok(None)));

    // addressed beyond: re-emitted out of the table's port
    match f.rcv_pkt(&frame(b"fwd"), 1) {
        Ok(Some(NodeAction::Send { from, frame })) => {
            assert_eq!(from, (4, 2));
            assert_eq!(frame.payload, b"fwd".to_vec());
            assert_eq!(frame.src_mac, SRC);
        }
        other => panic!("unexpected relay outcome: {:?}", other.is_ok()),
    }

    // unknown source binding: fatal
    assert_eq!(
        f.rcv_pkt(&frame(b"x"), 2),
        Err(SimError::UnknownSource { node: 4, port: 2, mac: SRC })
    );

    // unknown destination: fatal, never a silent drop
    let stranger = [0x77, 7, 7, 7, 7, 7];
    let missing = EthernetFrame::new(SRC, stranger, 0x0800, Vec::new());
    assert_eq!(
        f.rcv_pkt(&missing, 1),
        Err(SimError::UnknownDestination { node: 4, mac: stranger })
    );
}

#[test]
fn switch_declines_to_originate() {
    let sw = SwitchingNode::new(0, &vec![1, 2, 3], &SRC);
    assert!(matches!(sw.send_pkt(&DST, 1, Vec::new()), Ok(None)));
}

#[test]
fn switch_table_install_checks_port_ownership() {
    let mut sw = SwitchingNode::new(0, &vec![1, 2, 3], &SRC);
    assert!(sw.install_mac_entry(&DST, 2).is_ok());
    assert_eq!(
        sw.install_mac_entry(&DST, 9),
        Err(SimError::PortMissing { node: 0, port: 9 })
    );
}

#[test]
fn node_builder_realizes_each_variant() {
    let simple = NodeBuilder::consume(NodeConfig::Simple { id: 1, port: 5, mac: SRC });
    assert!(matches!(simple, Node::Simple(s) if s.id == 1 && s.port == 5 && s.mac == SRC));

    let fwd_cfg = NodeConfig::Forwarding { id: 2, ports: [1, 2], mac: DST };
    let fwd = NodeBuilder::build(&fwd_cfg);
    assert!(matches!(fwd, Node::Forwarding(f) if f.id == 2 && f.ports == [1, 2]));

    let sw = NodeBuilder::consume(NodeConfig::Switch { id: 3, ports: vec![1, 2, 3], mac: SRC });
    assert!(matches!(&sw, Node::Switch(s) if s.id == 3 && s.ports == vec![1, 2, 3]));
    assert_eq!(sw.id(), 3);
    assert_eq!(sw.mac(), SRC);
}

#[test]
fn scheduler_returns_earliest_bucket_whole() {
    let mut h = EventHandler::new();
    h.schedule(Event::SendPkt { time: 9, from: (0, 1), frame: frame(b"late") });
    h.schedule(Event::SendPkt { time: 2, from: (0, 1), frame: frame(b"early-1") });
    h.schedule(Event::RcvPkt { time: 2, at: (1, 1), frame: frame(b"early-2") });
    assert!(!h.is_idle());

    let first = h.next_events().expect("a bucket is pending");
    assert_eq!(h.time, 2);
    assert_eq!(first.len(), 2);
    assert!(matches!(&first[0], Event::SendPkt { frame, .. } if frame.payload == b"early-1".to_vec()));
    assert!(matches!(&first[1], Event::RcvPkt { frame, .. } if frame.payload == b"early-2".to_vec()));

    let second = h.next_events().expect("the late bucket remains");
    assert_eq!(h.time, 9);
    assert_eq!(second.len(), 1);
    assert!(h.next_events().is_none());
    assert!(h.is_idle());
}

#[test]
fn scheduler_ignores_declined_sends() {
    let sw = SwitchingNode::new(0, &vec![1], &SRC);
    let mut h = EventHandler::new();
    assert!(h.schedule_send(1, &sw, 1, &DST, Vec::new()).is_ok());
    assert!(h.is_idle());
}

#[test]
fn event_reports_its_own_time() {
    let e = Event::SendPkt { time: 17, from: (0, 1), frame: frame(b"") };
    assert_eq!(e.time(), 17);
    let r = Event::RcvPkt { time: 18, at: (1, 1), frame: frame(b"") };
    assert_eq!(r.time(), 18);
}

#[test]
fn frames_copy_independently() {
    let original = frame(b"payload");
    let copy = original.clone();
    assert_eq!(original, copy);
    drop(original);
    assert_eq!(copy.payload, b"payload".to_vec());
}

#[test]
fn packet_counter_wraps_instead_of_overflowing() {
    let mut link = Link::new(LinkConfig::new(0, 1, 1, 2));
    link.packet_count = u32::MAX;
    let (out, _) = link.handle_pkt(frame(b""), 0);
    assert!(out.is_some());
    assert_eq!(link.packet_count, 0);
}

#[test]
fn builder_configs_round_trip_through_links() {
    let cfg = LinkConfig::new(1, 2, 3, 4).with_delay(7).with_corrupt(8).with_drop(9);
    let link = Link::new(cfg);
    assert_eq!(link.config.delay, Some(7));
    assert_eq!(link.config.corrupt_every, Some(8));
    assert_eq!(link.config.drop_every, Some(9));
    let swapped = link.swap_ends();
    assert_eq!(swapped.config.end_a, (3, 4));
    assert_eq!(swapped.config.end_b, (1, 2));
    assert_eq!(swapped.config.delay, Some(7));
}
