//! The simulation driver: fixed node and link tables composed with the
//! time-ordered event scheduler, plus the run loop that drives events to
//! quiescence and records an observable report for each handled event.

use crate::errors::SimError;
use crate::link::{Link, LinkConfig, LinkEndId, PortId};
use crate::nodes::{node_send, Node, NodeHandler, NodeId, NodeModel};
use crate::packet::{EthernetFrame, FrameModel, MacAddress};
use crate::simulator::event::{event_model_time, events_view, spec_sched, EventHandler, EventModel};
use crate::simulator::topology::{
    fold_link_pairs, insert_link, insert_node, link_insert, node_insert, nodes_view, relay_event,
    spec_relay,
};
use vstd::prelude::*;
use vstd::string::StringExecFns;

pub mod event;
pub mod topology;

pub use event::Event;

verus! {

/// The logical clock: a monotonic 64-bit value used purely for event
/// ordering. Adding a delay wraps rather than overflowing.
pub type SimTime = u64;

/// The defensive re-emission budget of one run: how many time buckets a
/// single [`Simulator::run`] call will drain before giving up. A custom
/// topology with a zero-delay cycle re-emits forever at one timestamp;
/// the budget turns that into a reported halt.
pub const STEP_LIMIT: u64 = 1000000;

/// Which side of a hop a report describes.
#[derive(Clone, Copy, Debug, PartialEq, Eq)]
pub enum ReportKind {
    Send,
    Recv,
}

/// One observable fact about a run: a frame left, or arrived at, an
/// attachment point at a logical time. Formatting or transporting these
/// is a collaborator's concern; the core only exposes the data.
#[derive(Debug, PartialEq, Eq)]
pub struct Report {
    pub kind: ReportKind,
    pub time: SimTime,
    pub at: LinkEndId,
    pub frame: EthernetFrame,
}

/// Mathematical image of a [`Report`].
#[verifier::ext_equal]
pub ghost struct ReportModel {
    pub kind: ReportKind,
    pub time: SimTime,
    pub at: LinkEndId,
    pub frame: FrameModel,
}

impl View for Report {
    type V = ReportModel;

    open spec fn view(&self) -> ReportModel {
        ReportModel { kind: self.kind, time: self.time, at: self.at, frame: self.frame@ }
    }
}

/// View of a report list.
pub open spec fn reports_view(s: Seq<Report>) -> Seq<ReportModel> {
    s.map_values(|r: Report| r@)
}

/// Mathematical image of a [`Simulator`]: the whole mutable state a run
/// evolves.
#[verifier::ext_equal]
pub ghost struct SimModel {
    pub time: SimTime,
    pub nodes: Seq<NodeModel>,
    pub links: Seq<Link>,
    pub queue: Seq<(SimTime, Seq<EventModel>)>,
    pub reports: Seq<ReportModel>,
}

/// The report a handled event leaves behind.
pub open spec fn report_of(e: EventModel) -> ReportModel {
    match e {
        EventModel::Send { time, from, frame } => ReportModel {
            kind: ReportKind::Send,
            time,
            at: from,
            frame,
        },
        EventModel::Rcv { time, at, frame } => ReportModel {
            kind: ReportKind::Recv,
            time,
            at,
            frame,
        },
    }
}

/// Handle one event against the whole state: relay it over the tables,
/// record its report when the relay succeeds, and schedule the at most
/// one follow-up event it produces. A fatal relay error leaves the
/// state as the relay left it and surfaces the diagnostic.
pub open spec fn spec_process_one(s: SimModel, e: EventModel) -> (SimModel, Option<SimError>) {
    let (ls2, res) = spec_relay(s.nodes, s.links, e);
    match res {
        Err(err) => (SimModel { links: ls2, ..s }, Some(err)),
        Ok(follow) => {
            let s2 = SimModel { links: ls2, reports: s.reports.push(report_of(e)), ..s };
            match follow {
                None => (s2, None),
                Some(e2) => (
                    SimModel { queue: spec_sched(s2.queue, event_model_time(e2), e2), ..s2 },
                    None,
                ),
            }
        },
    }
}

/// Handle one dequeued bucket of events, in stored order, stopping at
/// the first fatal error.
pub open spec fn spec_process_batch(s: SimModel, evs: Seq<EventModel>) -> (
    SimModel,
    Option<SimError>,
)
    decreases evs.len(),
{
    if evs.len() == 0 {
        (s, None)
    } else {
        let (s1, f) = spec_process_one(s, evs[0]);
        if f is Some {
            (s1, f)
        } else {
            spec_process_batch(s1, evs.drop_first())
        }
    }
}

/// One tick of the run loop: dequeue the earliest-stored bucket, advance
/// the clock to its timestamp, and handle the whole bucket before any
/// later bucket is looked at. On an empty store nothing happens.
pub open spec fn spec_sim_step(s: SimModel) -> (SimModel, Option<SimError>) {
    if s.queue.len() == 0 {
        (s, None)
    } else {
        let t = s.queue[0].0;
        let evs = s.queue[0].1;
        spec_process_batch(SimModel { time: t, queue: s.queue.drop_first(), ..s }, evs)
    }
}

/// The whole run: tick until the pending-event store empties, a fatal
/// error surfaces, or the defensive budget runs out.
pub open spec fn spec_run(s: SimModel, fuel: nat) -> (SimModel, Result<(), SimError>)
    decreases fuel,
{
    if s.queue.len() == 0 {
        (s, Ok(()))
    } else if fuel == 0 {
        (s, Err(SimError::StepLimitExceeded))
    } else {
        let (s1, f) = spec_sim_step(s);
        match f {
            Some(err) => (s1, Err(err)),
            None => spec_run(s1, (fuel - 1) as nat),
        }
    }
}

/// Ordering law, run half: handling one event only ever schedules into
/// sorted position, so a sorted pending-event store stays sorted.
pub proof fn lemma_process_one_keeps_sorted(s: SimModel, e: EventModel)
    requires
        crate::simulator::event::queue_sorted(s.queue),
    ensures
        crate::simulator::event::queue_sorted(spec_process_one(s, e).0.queue),
{
    let (ls2, res) = spec_relay(s.nodes, s.links, e);
    match res {
        Err(_) => {},
        Ok(follow) => match follow {
            None => {},
            Some(e2) => {
                crate::simulator::event::lemma_sched_keeps_sorted(
                    s.queue,
                    event_model_time(e2),
                    e2,
                );
            },
        },
    }
}

/// Ordering law, batch half: draining one whole bucket keeps the
/// pending-event store sorted.
pub proof fn lemma_process_batch_keeps_sorted(s: SimModel, evs: Seq<EventModel>)
    requires
        crate::simulator::event::queue_sorted(s.queue),
    ensures
        crate::simulator::event::queue_sorted(spec_process_batch(s, evs).0.queue),
    decreases evs.len(),
{
    if evs.len() > 0 {
        lemma_process_one_keeps_sorted(s, evs[0]);
        let (s1, f) = spec_process_one(s, evs[0]);
        if f is None {
            lemma_process_batch_keeps_sorted(s1, evs.drop_first());
        }
    }
}

/// Ordering law, whole-run half: starting from a sorted pending-event
/// store — and a fresh simulator's empty store is sorted, as is any
/// store filled through `schedule_send` — every tick of the run pops
/// the strictly earliest pending bucket and drains it whole before any
/// later timestamp is examined.
pub proof fn lemma_run_keeps_sorted(s: SimModel, fuel: nat)
    requires
        crate::simulator::event::queue_sorted(s.queue),
    ensures
        crate::simulator::event::queue_sorted(spec_run(s, fuel).0.queue),
        s.queue.len() > 0 ==> forall|j: int|
            1 <= j < s.queue.len() ==> s.queue[0].0 < #[trigger] s.queue[j].0,
    decreases fuel,
{
    if s.queue.len() > 0 && fuel > 0 {
        assert(crate::simulator::event::queue_sorted(s.queue.drop_first()));
        lemma_process_batch_keeps_sorted(
            SimModel { time: s.queue[0].0, queue: s.queue.drop_first(), ..s },
            s.queue[0].1,
        );
        let (s1, f) = spec_sim_step(s);
        if f is None {
            lemma_run_keeps_sorted(s1, (fuel - 1) as nat);
        }
    }
}

/// The top-level driver: one topology's node and link tables, the
/// scheduler, and the reports observed so far.
pub struct Simulator {
    pub nodes: Vec<Node>,
    pub links: Vec<Link>,
    pub handler: EventHandler,
    pub reports: Vec<Report>,
}

impl View for Simulator {
    type V = SimModel;

    open spec fn view(&self) -> SimModel {
        SimModel {
            time: self.handler.time,
            nodes: nodes_view(self.nodes@),
            links: self.links@,
            queue: self.handler@.queue,
            reports: reports_view(self.reports@),
        }
    }
}

impl Simulator {
    pub fn new() -> (r: Self)
        ensures
            r@ == (SimModel {
                time: 0,
                nodes: Seq::empty(),
                links: Seq::empty(),
                queue: Seq::empty(),
                reports: Seq::empty(),
            }),
    {
        let r = Self {
            nodes: Vec::new(),
            links: Vec::new(),
            handler: EventHandler::new(),
            reports: Vec::new(),
        };
        proof {
            assert(r@ =~~= (SimModel {
                time: 0,
                nodes: Seq::empty(),
                links: Seq::empty(),
                queue: Seq::empty(),
                reports: Seq::empty(),
            }));
        }
        r
    }

    /// Replace the node table with the given population, registering the
    /// nodes in order (a later duplicate identifier wins).
    pub fn with_nodes(self, node_list: Vec<Node>) -> (r: Self)
        ensures
            r@ == (SimModel {
                nodes: crate::simulator::topology::fold_node_inserts(
                    Seq::empty(),
                    nodes_view(node_list@),
                ),
                ..self@
            }),
    {
        let ghost sm0 = self@;
        let ghost all = nodes_view(node_list@);
        let mut r = self;
        r.nodes = Vec::new();
        let mut rest = node_list;
        proof {
            assert(nodes_view(r.nodes@) =~= Seq::<NodeModel>::empty());
        }
        while rest.len() > 0
            invariant
                crate::simulator::topology::fold_node_inserts(Seq::empty(), all)
                    == crate::simulator::topology::fold_node_inserts(
                    nodes_view(r.nodes@),
                    nodes_view(rest@),
                ),
                r.links@ == sm0.links,
                r.handler.time == sm0.time,
                r.handler@.queue == sm0.queue,
                reports_view(r.reports@) == sm0.reports,
            decreases rest.len(),
        {
            let ghost acc0 = nodes_view(r.nodes@);
            let ghost rest0 = nodes_view(rest@);
            let n = rest.remove(0);
            insert_node(&mut r.nodes, n);
            proof {
                assert(nodes_view(rest@) =~= rest0.drop_first());
            }
        }
        proof {
            assert(nodes_view(rest@) =~= Seq::<NodeModel>::empty());
            assert(r@ =~~= (SimModel {
                nodes: crate::simulator::topology::fold_node_inserts(Seq::empty(), all),
                ..sm0
            }));
        }
        r
    }

    /// Register one node, replacing any node with the same identifier.
    pub fn add_node(&mut self, node: &Node)
        ensures
            final(self)@ == (SimModel { nodes: node_insert(old(self)@.nodes, node@), ..old(self)@ }),
    {
        let ghost pre = self@;
        insert_node(&mut self.nodes, node.clone());
        proof {
            assert(self@ =~~= (SimModel { nodes: node_insert(pre.nodes, node@), ..pre }));
        }
    }

    /// Store every given link together with its mirror image, so the
    /// link table stays symmetric: each physical connection is visible
    /// from both of its attachment points.
    pub fn with_links(self, links: Vec<Link>) -> (r: Self)
        ensures
            r@ == (SimModel { links: fold_link_pairs(self@.links, links@), ..self@ }),
    {
        let ghost sm0 = self@;
        let ghost all = links@;
        let mut r = self;
        let mut rest = links;
        while rest.len() > 0
            invariant
                fold_link_pairs(sm0.links, all) == fold_link_pairs(r.links@, rest@),
                nodes_view(r.nodes@) == sm0.nodes,
                r.handler.time == sm0.time,
                r.handler@.queue == sm0.queue,
                reports_view(r.reports@) == sm0.reports,
            decreases rest.len(),
        {
            let ghost rest0 = rest@;
            let link = rest.remove(0);
            let rev = link.swap_ends();
            insert_link(&mut r.links, link);
            insert_link(&mut r.links, rev);
            proof {
                assert(rest@ =~= rest0.drop_first());
            }
        }
        proof {
            assert(r@ =~~= (SimModel { links: fold_link_pairs(sm0.links, all), ..sm0 }));
        }
        r
    }

    /// Wire two attachment points together: a fresh unimpaired link and
    /// its mirror image are stored under the two endpoints.
    pub fn connect(&mut self, a: NodeId, port_a: PortId, b: NodeId, port_b: PortId)
        ensures
            final(self)@ == (SimModel {
                links: link_insert(
                    link_insert(
                        old(self)@.links,
                        Link {
                            config: LinkConfig {
                                end_a: (a, port_a),
                                end_b: (b, port_b),
                                delay: None,
                                corrupt_every: None,
                                drop_every: None,
                            },
                            packet_count: 0,
                        },
                    ),
                    Link {
                        config: LinkConfig {
                            end_a: (b, port_b),
                            end_b: (a, port_a),
                            delay: None,
                            corrupt_every: None,
                            drop_every: None,
                        },
                        packet_count: 0,
                    },
                ),
                ..old(self)@
            }),
    {
        let ghost pre = self@;
        let link = Link::new(LinkConfig::new(a, port_a, b, port_b));
        let rev = Link::new(LinkConfig::new(b, port_b, a, port_a));
        insert_link(&mut self.links, link);
        insert_link(&mut self.links, rev);
        proof {
            assert(self@ =~~= (SimModel {
                links: link_insert(link_insert(pre.links, link), rev),
                ..pre
            }));
        }
    }

    /// Ask `n` to originate a frame for `dst` out of `port` and, when it
    /// does, place the send event at `time`. A node that declines
    /// schedules nothing; an illegal port is a fatal configuration
    /// error.
    pub fn schedule_send(
        &mut self,
        time: SimTime,
        n: &Node,
        port: PortId,
        dst: &MacAddress,
        payload: Vec<u8>,
    ) -> (r: Result<(), SimError>)
        ensures
            match node_send(n@, *dst, port, payload@) {
                Err(e) => r == Err::<(), SimError>(e) && final(self)@ == old(self)@,
                Ok(None) => r == Ok::<(), SimError>(()) && final(self)@ == old(self)@,
                Ok(Some(a)) => r == Ok::<(), SimError>(()) && match a {
                    crate::nodes::ActionModel::Send { from, frame } => final(self)@ == (SimModel {
                        queue: spec_sched(
                            old(self)@.queue,
                            time,
                            EventModel::Send { time, from, frame },
                        ),
                        ..old(self)@
                    }),
                    crate::nodes::ActionModel::Rcv { .. } => final(self)@ == old(self)@,
                },
            },
    {
        let ghost pre = self@;
        let r = self.handler.schedule_send(time, n, port, dst, payload);
        proof {
            match node_send(n@, *dst, port, payload@) {
                Ok(Some(a)) => {
                    if a is Send {
                        assert(self@ =~~= (SimModel {
                            queue: spec_sched(
                                pre.queue,
                                time,
                                EventModel::Send {
                                    time,
                                    from: a->Send_from,
                                    frame: a->Send_frame,
                                },
                            ),
                            ..pre
                        }));
                    } else {
                        assert(self@ =~~= pre);
                    }
                },
                _ => {
                    assert(self@ =~~= pre);
                },
            }
        }
        r
    }

    /// Place one ready event into the bucket for its own timestamp.
    fn schedule(&mut self, event: Event)
        ensures
            final(self)@ == (SimModel {
                queue: spec_sched(old(self)@.queue, event_model_time(event@), event@),
                ..old(self)@
            }),
    {
        let ghost pre = self@;
        let ghost ev0 = event@;
        self.handler.schedule(event);
        proof {
            assert(self@ =~~= (SimModel {
                queue: spec_sched(pre.queue, event_model_time(ev0), ev0),
                ..pre
            }));
        }
    }

    /// Handle one event: relay it, record its report on success, and
    /// schedule its at most one follow-up event.
    fn process_event(&mut self, event: Event) -> (r: Result<(), SimError>)
        ensures
            final(self)@ == spec_process_one(old(self)@, event@).0,
            match spec_process_one(old(self)@, event@).1 {
                None => r == Ok::<(), SimError>(()),
                Some(e) => r == Err::<(), SimError>(e),
            },
    {
        let ghost pre = self@;
        let ghost ev0 = event@;
        let (kind, time, at) = match &event {
            Event::SendPkt { time, from, .. } => (ReportKind::Send, *time, *from),
            Event::RcvPkt { time, at, .. } => (ReportKind::Recv, *time, *at),
        };
        let frame_copy = match &event {
            Event::SendPkt { frame, .. } => frame.clone(),
            Event::RcvPkt { frame, .. } => frame.clone(),
        };
        match relay_event(&self.nodes, &mut self.links, event) {
            Err(e) => {
                proof {
                    assert(self@ =~~= spec_process_one(pre, ev0).0);
                }
                Err(e)
            },
            Ok(follow) => {
                self.reports.push(Report { kind, time, at, frame: frame_copy });
                proof {
                    assert(reports_view(self.reports@) =~= pre.reports.push(report_of(ev0)));
                }
                match follow {
                    Some(e2) => {
                        self.schedule(e2);
                    },
                    None => {},
                }
                proof {
                    assert(self@ =~~= spec_process_one(pre, ev0).0);
                }
                Ok(())
            },
        }
    }

    /// Handle one dequeued bucket in stored order, stopping at the first
    /// fatal error.
    fn process_events(&mut self, events: Vec<Event>) -> (r: Result<(), SimError>)
        ensures
            final(self)@ == spec_process_batch(old(self)@, events_view(events@)).0,
            match spec_process_batch(old(self)@, events_view(events@)).1 {
                None => r == Ok::<(), SimError>(()),
                Some(e) => r == Err::<(), SimError>(e),
            },
    {
        let ghost s0 = self@;
        let ghost evs0 = events_view(events@);
        let mut rest = events;
        while rest.len() > 0
            invariant
                spec_process_batch(s0, evs0) == spec_process_batch(self@, events_view(rest@)),
            decreases rest.len(),
        {
            let ghost rest0 = events_view(rest@);
            let e = rest.remove(0);
            proof {
                assert(events_view(rest@) =~= rest0.drop_first());
            }
            match self.process_event(e) {
                Err(err) => {
                    return Err(err);
                },
                Ok(()) => {},
            }
        }
        proof {
            assert(events_view(rest@) =~= Seq::<EventModel>::empty());
        }
        Ok(())
    }

    /// Drain the pending-event store: repeatedly dequeue the earliest
    /// bucket and handle all of its events before any later bucket is
    /// looked at, until the store empties, a fatal error surfaces, or
    /// the defensive budget of [`STEP_LIMIT`] buckets runs out.
    pub fn run(&mut self) -> (r: Result<(), SimError>)
        ensures
            final(self)@ == spec_run(old(self)@, STEP_LIMIT as nat).0,
            r == spec_run(old(self)@, STEP_LIMIT as nat).1,
    {
        let ghost s0 = self@;
        let mut fuel: u64 = STEP_LIMIT;
        while fuel > 0
            invariant
                spec_run(s0, STEP_LIMIT as nat) == spec_run(self@, fuel as nat),
            decreases fuel,
        {
            let ghost pre = self@;
            match self.handler.next_events() {
                None => {
                    return Ok(());
                },
                Some(evs) => {
                    proof {
                        assert(self@ =~~= (SimModel {
                            time: pre.queue[0].0,
                            queue: pre.queue.drop_first(),
                            ..pre
                        }));
                    }
                    match self.process_events(evs) {
                        Err(err) => {
                            proof {
                                assert(spec_sim_step(pre) == (self@, Some(err)));
                            }
                            return Err(err);
                        },
                        Ok(()) => {
                            proof {
                                assert(spec_sim_step(pre) == (self@, None::<SimError>));
                            }
                        },
                    }
                },
            }
            fuel -= 1;
        }
        if self.handler.is_idle() {
            Ok(())
        } else {
            Err(SimError::StepLimitExceeded)
        }
    }
}

/// Determinism law: the whole run is a function of the starting state
/// alone — running the same scheduled sends against the same topology
/// twice yields the same final state, the same outcome, and in
/// particular an identical sequence of observed send/receive reports.
/// [`Simulator::run`] pins its result to [`spec_run`], so two
/// simulators with equal views cannot diverge.
pub proof fn lemma_run_deterministic(s1: SimModel, s2: SimModel, fuel: nat)
    requires
        s1 == s2,
    ensures
        spec_run(s1, fuel) == spec_run(s2, fuel),
        spec_run(s1, fuel).0.reports == spec_run(s2, fuel).0.reports,
        spec_run(s1, fuel).1 == spec_run(s2, fuel).1,
{
}

/// The character for one hexadecimal digit value.
pub open spec fn hex_digit(n: int) -> char {
    if n == 0 {
        '0'
    } else if n == 1 {
        '1'
    } else if n == 2 {
        '2'
    } else if n == 3 {
        '3'
    } else if n == 4 {
        '4'
    } else if n == 5 {
        '5'
    } else if n == 6 {
        '6'
    } else if n == 7 {
        '7'
    } else if n == 8 {
        '8'
    } else if n == 9 {
        '9'
    } else if n == 10 {
        'a'
    } else if n == 11 {
        'b'
    } else if n == 12 {
        'c'
    } else if n == 13 {
        'd'
    } else if n == 14 {
        'e'
    } else {
        'f'
    }
}

/// The two lower-case hexadecimal digits of one byte.
pub open spec fn byte_hex(b: u8) -> Seq<char> {
    seq![hex_digit(b as int / 16), hex_digit(b as int % 16)]
}

/// The canonical textual form of a hardware address: six two-digit
/// lower-case hexadecimal groups separated by colons.
pub open spec fn mac_formatted(m: Seq<u8>) -> Seq<char> {
    byte_hex(m[0]) + seq![':'] + byte_hex(m[1]) + seq![':'] + byte_hex(m[2]) + seq![':'] + byte_hex(
        m[3],
    ) + seq![':'] + byte_hex(m[4]) + seq![':'] + byte_hex(m[5])
}

/// The one-character string for a hexadecimal digit value.
fn hex_str(n: u8) -> (r: &'static str)
    requires
        n < 16,
    ensures
        r@ == seq![hex_digit(n as int)],
{
    proof {
        reveal_strlit("0");
        reveal_strlit("1");
        reveal_strlit("2");
        reveal_strlit("3");
        reveal_strlit("4");
        reveal_strlit("5");
        reveal_strlit("6");
        reveal_strlit("7");
        reveal_strlit("8");
        reveal_strlit("9");
        reveal_strlit("a");
        reveal_strlit("b");
        reveal_strlit("c");
        reveal_strlit("d");
        reveal_strlit("e");
        reveal_strlit("f");
    }
    match n {
        0 => "0",
        1 => "1",
        2 => "2",
        3 => "3",
        4 => "4",
        5 => "5",
        6 => "6",
        7 => "7",
        8 => "8",
        9 => "9",
        10 => "a",
        11 => "b",
        12 => "c",
        13 => "d",
        14 => "e",
        _ => "f",
    }
}

/// Render a hardware address as six colon-separated two-digit
/// lower-case hexadecimal groups, for an external observability sink.
pub fn format_mac(mac: &MacAddress) -> (r: String)
    ensures
        r@ == mac_formatted(mac@),
{
    let mut s = String::new();
    let mut i: usize = 0;
    while i < 6
        invariant
            i <= 6,
            s@ =~= mac_prefix(mac@, i as int),
        decreases 6 - i,
    {
        if i > 0 {
            proof {
                reveal_strlit(":");
            }
            s.append(":");
        }
        let b = mac[i];
        s.append(hex_str(b / 16));
        s.append(hex_str(b % 16));
        proof {
            assert(s@ =~= mac_prefix(mac@, i + 1));
        }
        i += 1;
    }
    proof {
        reveal_with_fuel(mac_prefix, 7);
        assert(mac_prefix(mac@, 6) =~= mac_formatted(mac@));
    }
    s
}

/// The first `n` colon-separated groups of a formatted address.
pub open spec fn mac_prefix(m: Seq<u8>, n: int) -> Seq<char>
    decreases n,
{
    if n <= 0 {
        Seq::empty()
    } else if n == 1 {
        byte_hex(m[0])
    } else {
        mac_prefix(m, n - 1) + seq![':'] + byte_hex(m[n - 1])
    }
}

} // verus!
