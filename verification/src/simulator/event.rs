//! Events and the scheduler: the time-ordered pending-event store.

use crate::errors::SimError;
use crate::link::{LinkEndId, PortId};
use crate::nodes::{act_res_view, node_send, ActionModel, NodeAction, NodeHandler};
use crate::packet::{EthernetFrame, FrameModel, MacAddress};
use crate::simulator::SimTime;
use vstd::prelude::*;

verus! {

/// One pending unit of work: a frame leaving an attachment point, or a
/// frame arriving at one. Events are immutable once scheduled and are
/// consumed exactly once.
#[derive(Debug, PartialEq, Eq)]
pub enum Event {
    SendPkt { time: SimTime, from: LinkEndId, frame: EthernetFrame },
    RcvPkt { time: SimTime, at: LinkEndId, frame: EthernetFrame },
}

/// Mathematical image of an [`Event`].
#[verifier::ext_equal]
pub ghost enum EventModel {
    Send { time: SimTime, from: LinkEndId, frame: FrameModel },
    Rcv { time: SimTime, at: LinkEndId, frame: FrameModel },
}

impl View for Event {
    type V = EventModel;

    open spec fn view(&self) -> EventModel {
        match self {
            Event::SendPkt { time, from, frame } => EventModel::Send {
                time: *time,
                from: *from,
                frame: frame@,
            },
            Event::RcvPkt { time, at, frame } => EventModel::Rcv {
                time: *time,
                at: *at,
                frame: frame@,
            },
        }
    }
}

/// The timestamp an event is due at.
pub open spec fn event_model_time(e: EventModel) -> SimTime {
    match e {
        EventModel::Send { time, .. } => time,
        EventModel::Rcv { time, .. } => time,
    }
}

/// View of a list of events.
pub open spec fn events_view(s: Seq<Event>) -> Seq<EventModel> {
    s.map_values(|e: Event| e@)
}

impl Event {
    pub fn time(&self) -> (r: SimTime)
        ensures
            r == event_model_time(self@),
    {
        match self {
            Event::SendPkt { time, .. } => *time,
            Event::RcvPkt { time, .. } => *time,
        }
    }
}

/// The pending-event store: buckets of events keyed by timestamp.
/// Within one bucket, insertion order is arrival order and defines the
/// tie-break between same-timestamp events.
pub type QueueModel = Seq<(SimTime, Seq<EventModel>)>;

/// Insert an event into the bucket for time `t`, appended after the
/// bucket's existing entries; a missing bucket is created at its sorted
/// position, before the first strictly later bucket.
pub open spec fn spec_sched(q: QueueModel, t: SimTime, e: EventModel) -> QueueModel
    decreases q.len(),
{
    if q.len() == 0 {
        seq![(t, seq![e])]
    } else if q[0].0 == t {
        seq![(t, q[0].1.push(e))] + q.drop_first()
    } else if q[0].0 > t {
        seq![(t, seq![e])] + q
    } else {
        seq![q[0]] + spec_sched(q.drop_first(), t, e)
    }
}

/// Strictly ascending bucket times: each timestamp appears at most once
/// and buckets are stored earliest first.
pub open spec fn queue_sorted(q: QueueModel) -> bool {
    forall|i: int, j: int| 0 <= i < j < q.len() ==> q[i].0 < q[j].0
}

/// Scheduling preserves the strictly ascending bucket order.
pub proof fn lemma_sched_keeps_sorted(q: QueueModel, t: SimTime, e: EventModel)
    requires
        queue_sorted(q),
    ensures
        queue_sorted(spec_sched(q, t, e)),
    decreases q.len(),
{
    if q.len() == 0 {
    } else if q[0].0 == t {
        let r = seq![(t, q[0].1.push(e))] + q.drop_first();
        assert forall|i: int, j: int| 0 <= i < j < r.len() implies r[i].0 < r[j].0 by {
            if i == 0 {
                assert(r[j].0 == q[j].0);
            } else {
                assert(r[i].0 == q[i].0 && r[j].0 == q[j].0);
            }
        }
    } else if q[0].0 > t {
        let r = seq![(t, seq![e])] + q;
        assert forall|i: int, j: int| 0 <= i < j < r.len() implies r[i].0 < r[j].0 by {
            if i == 0 {
                if j > 1 {
                    assert(q[0].0 < q[j - 1].0);
                }
            }
        }
    } else {
        lemma_sched_keeps_sorted(q.drop_first(), t, e);
        let s = spec_sched(q.drop_first(), t, e);
        let r = seq![q[0]] + s;
        lemma_sched_times(q.drop_first(), t, e);
        assert forall|i: int, j: int| 0 <= i < j < r.len() implies r[i].0 < r[j].0 by {
            if i == 0 {
                assert(r[j].0 == s[j - 1].0);
                assert(s[j - 1].0 == t || exists|k: int|
                    0 <= k < q.drop_first().len() && q.drop_first()[k].0 == s[j - 1].0);
                if s[j - 1].0 != t {
                    let k = choose|k: int|
                        0 <= k < q.drop_first().len() && q.drop_first()[k].0 == s[j - 1].0;
                    assert(q[0].0 < q[k + 1].0);
                }
            }
        }
    }
}

/// Every bucket time of a scheduled queue is an old bucket time or the
/// newly scheduled time.
pub proof fn lemma_sched_times(q: QueueModel, t: SimTime, e: EventModel)
    ensures
        forall|i: int|
            0 <= i < spec_sched(q, t, e).len() ==> (#[trigger] spec_sched(q, t, e)[i].0 == t
                || exists|k: int| 0 <= k < q.len() && q[k].0 == spec_sched(q, t, e)[i].0),
    decreases q.len(),
{
    if q.len() == 0 {
    } else if q[0].0 == t {
        assert forall|i: int| 0 <= i < spec_sched(q, t, e).len() implies (#[trigger] spec_sched(
            q,
            t,
            e,
        )[i].0 == t || exists|k: int| 0 <= k < q.len() && q[k].0 == spec_sched(q, t, e)[i].0) by {
            if i > 0 {
                assert(q[i].0 == spec_sched(q, t, e)[i].0);
            }
        }
    } else if q[0].0 > t {
        assert forall|i: int| 0 <= i < spec_sched(q, t, e).len() implies (#[trigger] spec_sched(
            q,
            t,
            e,
        )[i].0 == t || exists|k: int| 0 <= k < q.len() && q[k].0 == spec_sched(q, t, e)[i].0) by {
            if i > 0 {
                assert(q[i - 1].0 == spec_sched(q, t, e)[i].0);
            }
        }
    } else {
        lemma_sched_times(q.drop_first(), t, e);
        let s = spec_sched(q.drop_first(), t, e);
        assert forall|i: int| 0 <= i < spec_sched(q, t, e).len() implies (#[trigger] spec_sched(
            q,
            t,
            e,
        )[i].0 == t || exists|k: int| 0 <= k < q.len() && q[k].0 == spec_sched(q, t, e)[i].0) by {
            if i == 0 {
                assert(q[0].0 == spec_sched(q, t, e)[0].0);
            } else {
                assert(spec_sched(q, t, e)[i].0 == s[i - 1].0);
                if s[i - 1].0 != t {
                    let k = choose|k: int|
                        0 <= k < q.drop_first().len() && q.drop_first()[k].0 == s[i - 1].0;
                    assert(q[k + 1].0 == s[i - 1].0);
                }
            }
        }
    }
}

/// Mathematical image of an [`EventHandler`].
#[verifier::ext_equal]
pub ghost struct HandlerModel {
    pub time: SimTime,
    pub queue: QueueModel,
}

/// The scheduler: the pending-event store plus the logical clock, which
/// tracks the most recently dequeued bucket and serves observability
/// only — it never influences a scheduling decision.
pub struct EventHandler {
    pub time: SimTime,
    pub event_queue: Vec<(SimTime, Vec<Event>)>,
}

impl View for EventHandler {
    type V = HandlerModel;

    open spec fn view(&self) -> HandlerModel {
        HandlerModel {
            time: self.time,
            queue: self.event_queue@.map_values(|b: (SimTime, Vec<Event>)| (b.0, events_view(b.1@))),
        }
    }
}

impl EventHandler {
    pub fn new() -> (r: Self)
        ensures
            r@.time == 0,
            r@.queue == Seq::<(SimTime, Seq<EventModel>)>::empty(),
    {
        let r = Self { time: 0, event_queue: Vec::new() };
        proof {
            assert(r@.queue =~= Seq::<(SimTime, Seq<EventModel>)>::empty());
        }
        r
    }

    /// Whether nothing is pending.
    pub fn is_idle(&self) -> (r: bool)
        ensures
            r <==> self@.queue.len() == 0,
    {
        self.event_queue.is_empty()
    }

    /// Insert an event into the bucket for its own timestamp, after that
    /// bucket's existing entries.
    pub fn schedule(&mut self, event: Event)
        ensures
            final(self)@.time == old(self)@.time,
            final(self)@.queue == spec_sched(old(self)@.queue, event_model_time(event@), event@),
    {
        let t = event.time();
        let ghost q0 = self@.queue;
        let ghost v0 = self.event_queue@;
        let mut i: usize = 0;
        while i < self.event_queue.len()
            invariant
                i <= v0.len(),
                *self == *old(self),
                self.event_queue@ == v0,
                q0 == old(self)@.queue,
                t == event_model_time(event@),
                forall|j: int| 0 <= j < i ==> q0[j].0 < t,
            decreases v0.len() - i,
        {
            proof {
                assert(q0.len() == v0.len());
                assert(q0[i as int].0 == v0[i as int].0);
            }
            let bucket_time = self.event_queue[i].0;
            if bucket_time == t {
                let (bt, mut bevs) = self.event_queue.remove(i);
                bevs.push(event);
                self.event_queue.insert(i, (bt, bevs));
                proof {
                    lemma_sched_at(q0, t, event@, i as int);
                    assert(self.event_queue@ =~= v0.update(i as int, (bt, bevs)));
                    assert(self@.queue =~~= q0.update(i as int, (t, q0[i as int].1.push(event@))));
                    assert(self@.queue =~~= spec_sched(q0, t, event@));
                }
                return;
            }
            if bucket_time > t {
                self.event_queue.insert(i, (t, vec![event]));
                proof {
                    lemma_sched_before(q0, t, event@, i as int);
                    assert(self@.queue =~~= q0.insert(i as int, (t, seq![event@])));
                    assert(self@.queue =~~= spec_sched(q0, t, event@));
                }
                return;
            }
            i += 1;
        }
        self.event_queue.push((t, vec![event]));
        proof {
            lemma_sched_append(q0, t, event@);
            assert(self@.queue =~~= q0.push((t, seq![event@])));
            assert(self@.queue =~~= spec_sched(q0, t, event@));
        }
    }

    /// Ask `n` to originate a frame and, when it does, place the send
    /// event at `time`; a node that declines schedules nothing.
    pub fn schedule_send<T: NodeHandler>(
        &mut self,
        time: SimTime,
        n: &T,
        port: PortId,
        dst: &MacAddress,
        payload: Vec<u8>,
    ) -> (r: Result<(), SimError>)
        ensures
            match node_send(n.node_model(), *dst, port, payload@) {
                Err(e) => r == Err::<(), SimError>(e) && final(self)@ == old(self)@,
                Ok(None) => r == Ok::<(), SimError>(()) && final(self)@ == old(self)@,
                Ok(Some(a)) => r == Ok::<(), SimError>(()) && match a {
                    ActionModel::Send { from, frame } => final(self)@.time == old(self)@.time
                        && final(self)@.queue == spec_sched(
                        old(self)@.queue,
                        time,
                        EventModel::Send { time, from, frame },
                    ),
                    ActionModel::Rcv { .. } => final(self)@ == old(self)@,
                },
            },
    {
        let ghost pre = self@;
        match n.send_pkt(dst, port, payload) {
            Err(e) => Err(e),
            Ok(None) => Ok(()),
            Ok(Some(action)) => {
                match action {
                    NodeAction::Send { from, frame } => {
                        self.schedule(Event::SendPkt { time, from, frame });
                        Ok(())
                    },
                    NodeAction::Rcv { .. } => Ok(()),
                }
            },
        }
    }

    /// Remove and return the entire earliest-stored bucket, advancing
    /// the logical clock to its timestamp; `None` when nothing is
    /// pending. With a sorted queue this is the batch-atomic tick: all
    /// events at the smallest pending time come out together.
    pub fn next_events(&mut self) -> (r: Option<Vec<Event>>)
        ensures
            old(self)@.queue.len() == 0 ==> r is None && final(self)@ == old(self)@,
            old(self)@.queue.len() > 0 ==> match r {
                Some(evs) => events_view(evs@) == old(self)@.queue[0].1 && final(self)@.queue == old(
                    self,
                )@.queue.drop_first() && final(self)@.time == old(self)@.queue[0].0,
                None => false,
            },
    {
        let ghost pre = self@;
        if self.event_queue.is_empty() {
            return None;
        }
        let (t, evs) = self.event_queue.remove(0);
        self.time = t;
        proof {
            assert(self@.queue =~~= pre.queue.drop_first());
            assert(events_view(evs@) =~~= pre.queue[0].1);
        }
        Some(evs)
    }
}

/// Ordering law, draining half: in a sorted pending-event store the
/// dequeued bucket — the front one, which comes out whole — is
/// strictly earlier than every other pending bucket, so all events at
/// the smallest pending time are handled before any later timestamp is
/// examined.
pub proof fn lemma_batch_atomic_tick(q: QueueModel)
    requires
        queue_sorted(q),
        q.len() > 0,
    ensures
        forall|j: int| 1 <= j < q.len() ==> q[0].0 < #[trigger] q[j].0,
{
}

/// Ordering law, re-emission half: an event scheduled at time `t` —
/// such as a same-time re-emission out of a bridge — lands in a bucket
/// that still precedes every bucket with a strictly later timestamp,
/// so the whole chain started at `t` is processed before any event
/// after `t` is examined, whatever the wall-clock order of the
/// scheduling calls was.
pub proof fn lemma_reemission_precedes_later(
    q: QueueModel,
    t: SimTime,
    e: EventModel,
    i: int,
    j: int,
)
    requires
        queue_sorted(q),
        0 <= i < spec_sched(q, t, e).len(),
        0 <= j < spec_sched(q, t, e).len(),
        spec_sched(q, t, e)[i].0 == t,
        spec_sched(q, t, e)[j].0 > t,
    ensures
        i < j,
{
    lemma_sched_keeps_sorted(q, t, e);
}

/// Appending to the bucket at index `i`, when every earlier bucket is
/// strictly earlier than `t` and bucket `i` is at `t`, realizes
/// [`spec_sched`].
pub proof fn lemma_sched_at(q: QueueModel, t: SimTime, e: EventModel, i: int)
    requires
        0 <= i < q.len(),
        q[i].0 == t,
        forall|j: int| 0 <= j < i ==> q[j].0 < t,
    ensures
        spec_sched(q, t, e) =~= q.update(i, (t, q[i].1.push(e))),
    decreases i,
{
    if i == 0 {
        assert(spec_sched(q, t, e) =~= seq![(t, q[0].1.push(e))] + q.drop_first());
    } else {
        lemma_sched_at(q.drop_first(), t, e, i - 1);
        assert(q.update(i, (t, q[i].1.push(e))).drop_first() =~= q.drop_first().update(
            i - 1,
            (t, q[i].1.push(e)),
        ));
    }
}

/// Creating a new bucket at index `i`, when every earlier bucket is
/// strictly earlier than `t` and bucket `i` is strictly later, realizes
/// [`spec_sched`].
pub proof fn lemma_sched_before(q: QueueModel, t: SimTime, e: EventModel, i: int)
    requires
        0 <= i < q.len(),
        q[i].0 > t,
        forall|j: int| 0 <= j < i ==> q[j].0 < t,
    ensures
        spec_sched(q, t, e) =~= q.insert(i, (t, seq![e])),
    decreases i,
{
    if i == 0 {
        assert(spec_sched(q, t, e) =~= seq![(t, seq![e])] + q);
        assert(q.insert(0, (t, seq![e])) =~= seq![(t, seq![e])] + q);
    } else {
        lemma_sched_before(q.drop_first(), t, e, i - 1);
        assert(q.insert(i, (t, seq![e])).drop_first() =~= q.drop_first().insert(
            i - 1,
            (t, seq![e]),
        ));
    }
}

/// Creating a new bucket at the back, when every stored bucket is
/// strictly earlier than `t`, realizes [`spec_sched`].
pub proof fn lemma_sched_append(q: QueueModel, t: SimTime, e: EventModel)
    requires
        forall|j: int| 0 <= j < q.len() ==> q[j].0 < t,
    ensures
        spec_sched(q, t, e) =~= q.push((t, seq![e])),
    decreases q.len(),
{
    if q.len() == 0 {
        assert(spec_sched(q, t, e) =~= q.push((t, seq![e])));
    } else {
        lemma_sched_append(q.drop_first(), t, e);
        assert(q.push((t, seq![e])).drop_first() =~= q.drop_first().push((t, seq![e])));
        assert(spec_sched(q, t, e) =~= q.push((t, seq![e])));
    }
}

} // verus!
