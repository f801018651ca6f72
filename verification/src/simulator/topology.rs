//! The packet-relay state machine shared by every topology shape.
//!
//! A topology is a fixed population of a node table and a link table;
//! relaying turns one event into at most one follow-up event over those
//! tables. Every topology variant — point-to-point, chain, star,
//! arbitrary custom graphs — is a different population driving the same
//! two-case dispatch.

use crate::errors::SimError;
use crate::link::{Link, LinkEndId};
use crate::nodes::{node_model_id, node_rcv, ActionModel, Node, NodeAction, NodeHandler, NodeId};
use crate::simulator::event::{Event, EventModel};
use vstd::prelude::*;

pub mod chain;
pub mod custom;
pub mod p2p;
pub mod star;

verus! {

/// View of a node list: the sequence of node models.
pub open spec fn nodes_view(s: Seq<Node>) -> Seq<crate::nodes::NodeModel> {
    s.map_values(|n: Node| n@)
}

/// The first node with identifier `id`, scanning front to back.
pub open spec fn node_lookup(ns: Seq<crate::nodes::NodeModel>, id: NodeId) -> Option<
    crate::nodes::NodeModel,
>
    decreases ns.len(),
{
    if ns.len() == 0 {
        None
    } else if node_model_id(ns[0]) == id {
        Some(ns[0])
    } else {
        node_lookup(ns.drop_first(), id)
    }
}

/// Register a node: the first entry with the same identifier is
/// replaced in place, and a fresh identifier is appended at the back.
pub open spec fn node_insert(
    ns: Seq<crate::nodes::NodeModel>,
    n: crate::nodes::NodeModel,
) -> Seq<crate::nodes::NodeModel>
    decreases ns.len(),
{
    if ns.len() == 0 {
        seq![n]
    } else if node_model_id(ns[0]) == node_model_id(n) {
        seq![n] + ns.drop_first()
    } else {
        seq![ns[0]] + node_insert(ns.drop_first(), n)
    }
}

/// Registering a node changes exactly the binding of its own identifier.
pub proof fn lemma_node_insert_lookup(
    ns: Seq<crate::nodes::NodeModel>,
    n: crate::nodes::NodeModel,
    id: NodeId,
)
    ensures
        node_lookup(node_insert(ns, n), id) == if id == node_model_id(n) {
            Some(n)
        } else {
            node_lookup(ns, id)
        },
    decreases ns.len(),
{
    if ns.len() == 0 {
        let u = seq![n];
        assert(node_insert(ns, n) == u);
        if id != node_model_id(n) {
            assert(u.drop_first() =~= Seq::<crate::nodes::NodeModel>::empty());
            assert(node_lookup(u, id) == node_lookup(u.drop_first(), id));
        }
    } else if node_model_id(ns[0]) == node_model_id(n) {
        let u = seq![n] + ns.drop_first();
        assert(node_insert(ns, n) == u);
        assert(u[0] == n);
        assert(u.drop_first() =~= ns.drop_first());
        if id != node_model_id(n) {
            assert(node_lookup(u, id) == node_lookup(ns.drop_first(), id));
            assert(node_lookup(ns, id) == node_lookup(ns.drop_first(), id));
        }
    } else {
        let u = seq![ns[0]] + node_insert(ns.drop_first(), n);
        assert(node_insert(ns, n) == u);
        assert(u[0] == ns[0]);
        assert(u.drop_first() =~= node_insert(ns.drop_first(), n));
        lemma_node_insert_lookup(ns.drop_first(), n, id);
        if id == node_model_id(ns[0]) {
            assert(node_lookup(u, id) == Some(ns[0]));
        } else {
            assert(node_lookup(u, id) == node_lookup(u.drop_first(), id));
            assert(node_lookup(ns, id) == node_lookup(ns.drop_first(), id));
        }
    }
}

/// A node found at index `i`, with no earlier entry under the same
/// identifier, is what front-to-back lookup returns.
pub proof fn lemma_node_lookup_at(ns: Seq<crate::nodes::NodeModel>, id: NodeId, i: int)
    requires
        0 <= i < ns.len(),
        node_model_id(ns[i]) == id,
        forall|j: int| 0 <= j < i ==> node_model_id(ns[j]) != id,
    ensures
        node_lookup(ns, id) == Some(ns[i]),
    decreases i,
{
    if i > 0 {
        lemma_node_lookup_at(ns.drop_first(), id, i - 1);
    }
}

/// An identifier borne by no node is not found.
pub proof fn lemma_node_lookup_absent(ns: Seq<crate::nodes::NodeModel>, id: NodeId)
    requires
        forall|j: int| 0 <= j < ns.len() ==> node_model_id(ns[j]) != id,
    ensures
        node_lookup(ns, id) is None,
    decreases ns.len(),
{
    if ns.len() > 0 {
        lemma_node_lookup_absent(ns.drop_first(), id);
    }
}

/// Replacing the first entry under an identifier in place realizes
/// [`node_insert`].
pub proof fn lemma_node_insert_found(
    ns: Seq<crate::nodes::NodeModel>,
    n: crate::nodes::NodeModel,
    i: int,
)
    requires
        0 <= i < ns.len(),
        node_model_id(ns[i]) == node_model_id(n),
        forall|j: int| 0 <= j < i ==> node_model_id(ns[j]) != node_model_id(n),
    ensures
        node_insert(ns, n) =~= ns.update(i, n),
    decreases i,
{
    if i == 0 {
        assert(node_insert(ns, n) =~= seq![n] + ns.drop_first());
    } else {
        lemma_node_insert_found(ns.drop_first(), n, i - 1);
        assert(ns.update(i, n).drop_first() =~= ns.drop_first().update(i - 1, n));
        assert(node_insert(ns, n) =~= seq![ns[0]] + node_insert(ns.drop_first(), n));
    }
}

/// Appending a node under a fresh identifier realizes [`node_insert`].
pub proof fn lemma_node_insert_absent(ns: Seq<crate::nodes::NodeModel>, n: crate::nodes::NodeModel)
    requires
        forall|j: int| 0 <= j < ns.len() ==> node_model_id(ns[j]) != node_model_id(n),
    ensures
        node_insert(ns, n) =~= ns.push(n),
    decreases ns.len(),
{
    if ns.len() == 0 {
        assert(node_insert(ns, n) =~= ns.push(n));
    } else {
        lemma_node_insert_absent(ns.drop_first(), n);
        assert(ns.push(n).drop_first() =~= ns.drop_first().push(n));
        assert(node_insert(ns, n) =~= seq![ns[0]] + node_insert(ns.drop_first(), n));
    }
}

/// Find a node by identifier in an executable node list.
pub fn find_node<'a>(nodes: &'a Vec<Node>, id: NodeId) -> (r: Option<&'a Node>)
    ensures
        match r {
            Some(n) => node_lookup(nodes_view(nodes@), id) == Some(n@),
            None => node_lookup(nodes_view(nodes@), id) is None,
        },
{
    let mut i: usize = 0;
    while i < nodes.len()
        invariant
            i <= nodes@.len(),
            forall|j: int| 0 <= j < i ==> node_model_id(nodes_view(nodes@)[j]) != id,
        decreases nodes@.len() - i,
    {
        if nodes[i].id() == id {
            proof {
                lemma_node_lookup_at(nodes_view(nodes@), id, i as int);
            }
            return Some(&nodes[i]);
        }
        i += 1;
    }
    proof {
        lemma_node_lookup_absent(nodes_view(nodes@), id);
    }
    None
}

/// Register a node in an executable node list.
pub fn insert_node(nodes: &mut Vec<Node>, node: Node)
    ensures
        nodes_view(final(nodes)@) == node_insert(nodes_view(old(nodes)@), node@),
{
    let id = node.id();
    let ghost ns0 = nodes_view(nodes@);
    let mut i: usize = 0;
    while i < nodes.len()
        invariant
            i <= nodes@.len(),
            *nodes == *old(nodes),
            ns0 == nodes_view(old(nodes)@),
            id == node_model_id(node@),
            forall|j: int| 0 <= j < i ==> node_model_id(ns0[j]) != id,
        decreases nodes@.len() - i,
    {
        if nodes[i].id() == id {
            nodes.set(i, node);
            proof {
                lemma_node_insert_found(ns0, node@, i as int);
                assert(nodes_view(nodes@) =~~= node_insert(ns0, node@));
            }
            return;
        }
        i += 1;
    }
    nodes.push(node);
    proof {
        lemma_node_insert_absent(ns0, node@);
        assert(nodes_view(nodes@) =~~= node_insert(ns0, node@));
    }
}

/// The first link keyed by attachment point `end` (its `end_a`),
/// scanning front to back.
pub open spec fn link_lookup(ls: Seq<Link>, end: LinkEndId) -> Option<Link>
    decreases ls.len(),
{
    if ls.len() == 0 {
        None
    } else if ls[0].config.end_a == end {
        Some(ls[0])
    } else {
        link_lookup(ls.drop_first(), end)
    }
}

/// Store a link under its own `end_a` key: the first entry with the
/// same key is replaced in place, a fresh key is appended at the back.
pub open spec fn link_insert(ls: Seq<Link>, l: Link) -> Seq<Link>
    decreases ls.len(),
{
    if ls.len() == 0 {
        seq![l]
    } else if ls[0].config.end_a == l.config.end_a {
        seq![l] + ls.drop_first()
    } else {
        seq![ls[0]] + link_insert(ls.drop_first(), l)
    }
}

/// Storing a link changes exactly the binding of its own key.
pub proof fn lemma_link_insert_lookup(ls: Seq<Link>, l: Link, end: LinkEndId)
    ensures
        link_lookup(link_insert(ls, l), end) == if end == l.config.end_a {
            Some(l)
        } else {
            link_lookup(ls, end)
        },
    decreases ls.len(),
{
    if ls.len() == 0 {
        let u = seq![l];
        assert(link_insert(ls, l) == u);
        if end != l.config.end_a {
            assert(u.drop_first() =~= Seq::<Link>::empty());
            assert(link_lookup(u, end) == link_lookup(u.drop_first(), end));
        }
    } else if ls[0].config.end_a == l.config.end_a {
        let u = seq![l] + ls.drop_first();
        assert(link_insert(ls, l) == u);
        assert(u[0] == l);
        assert(u.drop_first() =~= ls.drop_first());
        if end != l.config.end_a {
            assert(link_lookup(u, end) == link_lookup(ls.drop_first(), end));
            assert(link_lookup(ls, end) == link_lookup(ls.drop_first(), end));
        }
    } else {
        let u = seq![ls[0]] + link_insert(ls.drop_first(), l);
        assert(link_insert(ls, l) == u);
        assert(u[0] == ls[0]);
        assert(u.drop_first() =~= link_insert(ls.drop_first(), l));
        lemma_link_insert_lookup(ls.drop_first(), l, end);
        if end == ls[0].config.end_a {
            assert(link_lookup(u, end) == Some(ls[0]));
        } else {
            assert(link_lookup(u, end) == link_lookup(u.drop_first(), end));
            assert(link_lookup(ls, end) == link_lookup(ls.drop_first(), end));
        }
    }
}

/// A link found at index `i`, with no earlier entry under the same key,
/// is what front-to-back lookup returns.
pub proof fn lemma_link_lookup_at(ls: Seq<Link>, end: LinkEndId, i: int)
    requires
        0 <= i < ls.len(),
        ls[i].config.end_a == end,
        forall|j: int| 0 <= j < i ==> ls[j].config.end_a != end,
    ensures
        link_lookup(ls, end) == Some(ls[i]),
    decreases i,
{
    if i > 0 {
        lemma_link_lookup_at(ls.drop_first(), end, i - 1);
    }
}

/// A key under which no link is stored is not found.
pub proof fn lemma_link_lookup_absent(ls: Seq<Link>, end: LinkEndId)
    requires
        forall|j: int| 0 <= j < ls.len() ==> ls[j].config.end_a != end,
    ensures
        link_lookup(ls, end) is None,
    decreases ls.len(),
{
    if ls.len() > 0 {
        lemma_link_lookup_absent(ls.drop_first(), end);
    }
}

/// Replacing the first entry under a key in place realizes
/// [`link_insert`].
pub proof fn lemma_link_insert_found(ls: Seq<Link>, l: Link, i: int)
    requires
        0 <= i < ls.len(),
        ls[i].config.end_a == l.config.end_a,
        forall|j: int| 0 <= j < i ==> ls[j].config.end_a != l.config.end_a,
    ensures
        link_insert(ls, l) =~= ls.update(i, l),
    decreases i,
{
    if i == 0 {
        assert(link_insert(ls, l) =~= seq![l] + ls.drop_first());
    } else {
        lemma_link_insert_found(ls.drop_first(), l, i - 1);
        assert(ls.update(i, l).drop_first() =~= ls.drop_first().update(i - 1, l));
        assert(link_insert(ls, l) =~= seq![ls[0]] + link_insert(ls.drop_first(), l));
    }
}

/// Appending a link under a fresh key realizes [`link_insert`].
pub proof fn lemma_link_insert_absent(ls: Seq<Link>, l: Link)
    requires
        forall|j: int| 0 <= j < ls.len() ==> ls[j].config.end_a != l.config.end_a,
    ensures
        link_insert(ls, l) =~= ls.push(l),
    decreases ls.len(),
{
    if ls.len() == 0 {
        assert(link_insert(ls, l) =~= ls.push(l));
    } else {
        lemma_link_insert_absent(ls.drop_first(), l);
        assert(ls.push(l).drop_first() =~= ls.drop_first().push(l));
        assert(link_insert(ls, l) =~= seq![ls[0]] + link_insert(ls.drop_first(), l));
    }
}

/// Find the index of the link keyed by `end` in an executable link list.
pub fn find_link_idx(links: &Vec<Link>, end: LinkEndId) -> (r: Option<usize>)
    ensures
        match r {
            Some(i) => i < links@.len() && links@[i as int].config.end_a == end && link_lookup(
                links@,
                end,
            ) == Some(links@[i as int]) && forall|j: int|
                0 <= j < i ==> links@[j].config.end_a != end,
            None => link_lookup(links@, end) is None,
        },
{
    let mut i: usize = 0;
    while i < links.len()
        invariant
            i <= links@.len(),
            forall|j: int| 0 <= j < i ==> links@[j].config.end_a != end,
        decreases links@.len() - i,
    {
        let key = links[i].config.end_a;
        if key.0 == end.0 && key.1 == end.1 {
            proof {
                lemma_link_lookup_at(links@, end, i as int);
            }
            return Some(i);
        }
        i += 1;
    }
    proof {
        lemma_link_lookup_absent(links@, end);
    }
    None
}

/// Store a link in an executable link list, keyed by its `end_a`.
pub fn insert_link(links: &mut Vec<Link>, l: Link)
    ensures
        final(links)@ == link_insert(old(links)@, l),
{
    let ghost ls0 = links@;
    let mut i: usize = 0;
    while i < links.len()
        invariant
            i <= links@.len(),
            links@ == ls0,
            forall|j: int| 0 <= j < i ==> ls0[j].config.end_a != l.config.end_a,
        decreases links@.len() - i,
    {
        let key = links[i].config.end_a;
        if key.0 == l.config.end_a.0 && key.1 == l.config.end_a.1 {
            links.set(i, l);
            proof {
                lemma_link_insert_found(ls0, l, i as int);
                assert(links@ =~= link_insert(ls0, l));
            }
            return;
        }
        i += 1;
    }
    links.push(l);
    proof {
        lemma_link_insert_absent(ls0, l);
        assert(links@ =~= link_insert(ls0, l));
    }
}

/// Register a list of nodes in order, starting from `acc` (a later
/// duplicate identifier wins).
pub open spec fn fold_node_inserts(
    acc: Seq<crate::nodes::NodeModel>,
    rest: Seq<crate::nodes::NodeModel>,
) -> Seq<crate::nodes::NodeModel>
    decreases rest.len(),
{
    if rest.len() == 0 {
        acc
    } else {
        fold_node_inserts(node_insert(acc, rest[0]), rest.drop_first())
    }
}

/// The mirror image of a link, with the same packet counter.
pub open spec fn swapped_link(l: Link) -> Link {
    Link { config: l.config.swap_ends_spec(), ..l }
}

/// Store a list of links in order, each together with its mirror image,
/// starting from `acc`.
pub open spec fn fold_link_pairs(acc: Seq<Link>, rest: Seq<Link>) -> Seq<Link>
    decreases rest.len(),
{
    if rest.len() == 0 {
        acc
    } else {
        fold_link_pairs(
            link_insert(link_insert(acc, rest[0]), swapped_link(rest[0])),
            rest.drop_first(),
        )
    }
}

/// View of a relay result.
pub open spec fn ev_res_view(r: Result<Option<Event>, SimError>) -> Result<
    Option<EventModel>,
    SimError,
> {
    match r {
        Ok(Some(e)) => Ok(Some(e@)),
        Ok(None) => Ok(None),
        Err(e) => Err(e),
    }
}

/// The single authority turning one event into at most one follow-up
/// event over fixed node and link tables.
///
/// A send event looks up the link keyed by its origin (absence is
/// fatal), counts the frame, applies the link's drop/corrupt/delay
/// model, and becomes a receive event at the peer — or nothing, when
/// the link drops the frame. A receive event looks up the addressed
/// node (absence is fatal) and hands it the frame; a re-emission comes
/// back as a send event at the *same* logical time — only link
/// traversal consumes simulated time.
pub open spec fn spec_relay(
    ns: Seq<crate::nodes::NodeModel>,
    ls: Seq<Link>,
    e: EventModel,
) -> (Seq<Link>, Result<Option<EventModel>, SimError>) {
    match e {
        EventModel::Send { time, from, frame } => match link_lookup(ls, from) {
            None => (ls, Err(SimError::MissingLink { node: from.0, port: from.1 })),
            Some(l) => {
                let stepped = Link { packet_count: l.packet_count.wrapping_add(1), ..l };
                let ls2 = link_insert(ls, stepped);
                let out = crate::link::spec_link_deliver(l, l.packet_count.wrapping_add(1), frame);
                let dt = crate::link::spec_delivery_time(l, time);
                let follow = match out {
                    None => None,
                    Some(f2) => Some(EventModel::Rcv { time: dt, at: l.config.end_b, frame: f2 }),
                };
                (ls2, Ok(follow))
            },
        },
        EventModel::Rcv { time, at, frame } => match node_lookup(ns, at.0) {
            None => (ls, Err(SimError::MissingNode { node: at.0 })),
            Some(n) => match node_rcv(n, frame, at.1) {
                Err(e2) => (ls, Err(e2)),
                Ok(None) => (ls, Ok(None)),
                Ok(Some(ActionModel::Send { from, frame: f2 })) => (
                    ls,
                    Ok(Some(EventModel::Send { time, from, frame: f2 })),
                ),
                Ok(Some(ActionModel::Rcv { .. })) => (ls, Ok(None)),
            },
        },
    }
}

/// Relay one event over the given tables, mutating the link whose
/// packet counter the event advanced.
pub fn relay_event(nodes: &Vec<Node>, links: &mut Vec<Link>, event: Event) -> (r: Result<
    Option<Event>,
    SimError,
>)
    ensures
        final(links)@ == spec_relay(nodes_view(nodes@), old(links)@, event@).0,
        ev_res_view(r) == spec_relay(nodes_view(nodes@), old(links)@, event@).1,
{
    let ghost ls0 = links@;
    match event {
        Event::SendPkt { time, from, frame } => {
            match find_link_idx(links, from) {
                None => Err(SimError::MissingLink { node: from.0, port: from.1 }),
                Some(i) => {
                    let mut l = links[i];
                    let ghost l0 = l;
                    let peer = l.get_peer(from);
                    let (out, dt) = l.handle_pkt(frame, time);
                    links.set(i, l);
                    proof {
                        lemma_link_insert_found(ls0, l, i as int);
                        assert(links@ =~= link_insert(
                            ls0,
                            Link { packet_count: l0.packet_count.wrapping_add(1), ..l0 },
                        ));
                        assert(peer == l0.config.end_b);
                    }
                    let r = match out {
                        None => Ok(None),
                        Some(pkt) => Ok(
                            Some(Event::RcvPkt { time: dt, at: peer, frame: pkt }),
                        ),
                    };
                    proof {
                        assert(ev_res_view(r) =~~= spec_relay(
                            nodes_view(nodes@),
                            ls0,
                            event@,
                        ).1);
                    }
                    r
                },
            }
        },
        Event::RcvPkt { time, at, frame } => {
            match find_node(nodes, at.0) {
                None => Err(SimError::MissingNode { node: at.0 }),
                Some(node) => {
                    let r = match node.rcv_pkt(&frame, at.1) {
                        Err(e) => Err(e),
                        Ok(None) => Ok(None),
                        Ok(Some(NodeAction::Send { from, frame: f2 })) => Ok(
                            Some(Event::SendPkt { time, from, frame: f2 }),
                        ),
                        Ok(Some(NodeAction::Rcv { .. })) => Ok(None),
                    };
                    proof {
                        assert(ev_res_view(r) =~~= spec_relay(
                            nodes_view(nodes@),
                            ls0,
                            event@,
                        ).1);
                    }
                    r
                },
            }
        },
    }
}

/// A looked-up link is stored under its own `end_a`.
pub proof fn lemma_link_lookup_key(ls: Seq<Link>, e: LinkEndId)
    ensures
        link_lookup(ls, e) matches Some(l) ==> l.config.end_a == e,
    decreases ls.len(),
{
    if ls.len() > 0 && ls[0].config.end_a != e {
        lemma_link_lookup_key(ls.drop_first(), e);
    }
}

/// Symmetric storage: every stored link keyed by an endpoint `e` with
/// peer `p` has a reverse link stored under `p` whose configuration is
/// its mirror image and which reports `e` as its peer.
pub open spec fn links_symmetric(ls: Seq<Link>) -> bool {
    forall|e: LinkEndId|
        match #[trigger] link_lookup(ls, e) {
            Some(l) => l.config.end_a == e && match link_lookup(ls, l.config.end_b) {
                Some(m) => m.config == l.config.swap_ends_spec() && m.spec_peer(l.config.end_b)
                    == e,
                None => false,
            },
            None => true,
        }
}

/// No two physical connections in the list share an attachment point,
/// and none loops an attachment point back to itself.
pub open spec fn pair_keys_distinct(ls: Seq<Link>) -> bool {
    &&& forall|i: int| 0 <= i < ls.len() ==> (#[trigger] ls[i]).config.end_a != ls[i].config.end_b
    &&& forall|i: int, j: int|
        0 <= i < j < ls.len() ==> (#[trigger] ls[i]).config.end_a != (#[trigger] ls[j]).config.end_a
            && ls[i].config.end_a != ls[j].config.end_b && ls[i].config.end_b
            != ls[j].config.end_a && ls[i].config.end_b != ls[j].config.end_b
}

/// Storing each connection together with its mirror image, starting
/// from a symmetric table holding none of the new attachment points,
/// keeps the table symmetric.
proof fn lemma_fold_pairs_symmetric(acc: Seq<Link>, ls: Seq<Link>)
    requires
        links_symmetric(acc),
        pair_keys_distinct(ls),
        forall|i: int|
            0 <= i < ls.len() ==> link_lookup(acc, (#[trigger] ls[i]).config.end_a) is None
                && link_lookup(acc, ls[i].config.end_b) is None,
    ensures
        links_symmetric(fold_link_pairs(acc, ls)),
    decreases ls.len(),
{
    if ls.len() == 0 {
        return ;
    }
    let l0 = ls[0];
    let acc1 = link_insert(link_insert(acc, l0), swapped_link(l0));
    assert forall|e: LinkEndId|
        match #[trigger] link_lookup(acc1, e) {
            Some(l) => l.config.end_a == e && match link_lookup(acc1, l.config.end_b) {
                Some(m) => m.config == l.config.swap_ends_spec() && m.spec_peer(l.config.end_b)
                    == e,
                None => false,
            },
            None => true,
        } by {
        lemma_link_insert_lookup(link_insert(acc, l0), swapped_link(l0), e);
        lemma_link_insert_lookup(acc, l0, e);
        if e == l0.config.end_b {
            // the mirror image itself: its reverse is the stored original
            lemma_link_insert_lookup(link_insert(acc, l0), swapped_link(l0), l0.config.end_a);
            lemma_link_insert_lookup(acc, l0, l0.config.end_a);
        } else if e == l0.config.end_a {
            lemma_link_insert_lookup(link_insert(acc, l0), swapped_link(l0), l0.config.end_b);
            lemma_link_insert_lookup(acc, l0, l0.config.end_b);
        } else {
            match link_lookup(acc, e) {
                Some(m) => {
                    // the old mirror key is already bound in acc, so the
                    // new pair cannot have displaced it
                    lemma_link_insert_lookup(
                        link_insert(acc, l0),
                        swapped_link(l0),
                        m.config.end_b,
                    );
                    lemma_link_insert_lookup(acc, l0, m.config.end_b);
                },
                None => {},
            }
        }
    }
    assert forall|i: int|
        0 <= i < ls.drop_first().len() implies link_lookup(
        acc1,
        (#[trigger] ls.drop_first()[i]).config.end_a,
    ) is None && link_lookup(acc1, ls.drop_first()[i].config.end_b) is None by {
        let ka = ls.drop_first()[i].config.end_a;
        let kb = ls.drop_first()[i].config.end_b;
        assert(ls.drop_first()[i] == ls[i + 1]);
        lemma_link_insert_lookup(link_insert(acc, l0), swapped_link(l0), ka);
        lemma_link_insert_lookup(acc, l0, ka);
        lemma_link_insert_lookup(link_insert(acc, l0), swapped_link(l0), kb);
        lemma_link_insert_lookup(acc, l0, kb);
    }
    lemma_fold_pairs_symmetric(acc1, ls.drop_first());
}

/// Symmetry law: a link table built by storing each physical
/// connection together with its mirror image — the way every builder
/// in this crate stores links — is symmetric: for every stored link
/// keyed by endpoint `E` with peer `P`, the reverse link keyed by `P`
/// exists, mirrors its configuration, and reports `E` as its peer.
/// Connections must not share attachment points; colliding keys would
/// overwrite one direction of an earlier connection.
pub proof fn lemma_link_pairs_symmetric(ls: Seq<Link>)
    requires
        pair_keys_distinct(ls),
    ensures
        links_symmetric(fold_link_pairs(Seq::empty(), ls)),
{
    assert forall|e: LinkEndId|
        match #[trigger] link_lookup(Seq::<Link>::empty(), e) {
            Some(l) => l.config.end_a == e && match link_lookup(
                Seq::<Link>::empty(),
                l.config.end_b,
            ) {
                Some(m) => m.config == l.config.swap_ends_spec() && m.spec_peer(l.config.end_b)
                    == e,
                None => false,
            },
            None => true,
        } by {}
    lemma_fold_pairs_symmetric(Seq::empty(), ls);
}

/// Symmetry law, preservation half: relaying events never disturbs the
/// symmetry of the link table — only a packet counter advances, never
/// a configuration.
pub proof fn lemma_relay_preserves_symmetry(
    ns: Seq<crate::nodes::NodeModel>,
    ls: Seq<Link>,
    e: EventModel,
)
    requires
        links_symmetric(ls),
    ensures
        links_symmetric(spec_relay(ns, ls, e).0),
{
    match e {
        EventModel::Send { time, from, frame } => {
            match link_lookup(ls, from) {
                None => {},
                Some(l) => {
                    lemma_link_lookup_key(ls, from);
                    let stepped = Link { packet_count: l.packet_count.wrapping_add(1), ..l };
                    let ls2 = link_insert(ls, stepped);
                    assert forall|x: LinkEndId|
                        match #[trigger] link_lookup(ls2, x) {
                            Some(l2) => l2.config.end_a == x && match link_lookup(
                                ls2,
                                l2.config.end_b,
                            ) {
                                Some(m) => m.config == l2.config.swap_ends_spec() && m.spec_peer(
                                    l2.config.end_b,
                                ) == x,
                                None => false,
                            },
                            None => true,
                        } by {
                        lemma_link_insert_lookup(ls, stepped, x);
                        if x == from {
                            lemma_link_insert_lookup(ls, stepped, l.config.end_b);
                        } else {
                            match link_lookup(ls, x) {
                                Some(m) => {
                                    lemma_link_insert_lookup(ls, stepped, m.config.end_b);
                                },
                                None => {},
                            }
                        }
                    }
                },
            }
        },
        EventModel::Rcv { .. } => {},
    }
}

/// Delay law: a link configured with a delay delivers a frame sent at
/// time `t` as a receive event at `t` plus the delay, wrapping on the
/// 64-bit clock; an undelayed link delivers at `t` itself. Holds for
/// every frame the link does not drop.
pub proof fn lemma_delay_correct(
    ns: Seq<crate::nodes::NodeModel>,
    ls: Seq<Link>,
    time: crate::simulator::SimTime,
    from: LinkEndId,
    frame: crate::packet::FrameModel,
)
    requires
        link_lookup(ls, from) is Some,
        crate::link::spec_link_deliver(
            link_lookup(ls, from).unwrap(),
            link_lookup(ls, from).unwrap().packet_count.wrapping_add(1),
            frame,
        ) is Some,
    ensures
        ({
            let l = link_lookup(ls, from).unwrap();
            let r = spec_relay(ns, ls, EventModel::Send { time, from, frame }).1;
            &&& r matches Ok(f) && f is Some
            &&& crate::simulator::event::event_model_time(r.unwrap().unwrap())
                == crate::link::spec_delivery_time(l, time)
            &&& l.config.delay matches Some(d) ==> crate::simulator::event::event_model_time(
                r.unwrap().unwrap(),
            ) == time.wrapping_add(d as u64)
            &&& l.config.delay is None ==> crate::simulator::event::event_model_time(
                r.unwrap().unwrap(),
            ) == time
        }),
{
}

/// The shared capability of every topology shape: turn one event into
/// at most one follow-up event, exactly as [`spec_relay`] over the
/// topology's own node and link tables says.
pub trait Topology: Sized {
    /// The node table this topology relays over.
    spec fn nodes_model(&self) -> Seq<crate::nodes::NodeModel>;

    /// The link table this topology relays over.
    spec fn links_model(&self) -> Seq<Link>;

    /// Handle one event: the node table is read-only, the touched
    /// link's packet counter advances, and the outcome — follow-up
    /// event, quiet consumption or fatal error — is the one
    /// [`spec_relay`] prescribes.
    fn handle_pkt(&mut self, event: Event) -> (r: Result<Option<Event>, SimError>)
        ensures
            final(self).nodes_model() == old(self).nodes_model(),
            final(self).links_model() == spec_relay(
                old(self).nodes_model(),
                old(self).links_model(),
                event@,
            ).0,
            ev_res_view(r) == spec_relay(
                old(self).nodes_model(),
                old(self).links_model(),
                event@,
            ).1,
    ;
}

} // verus!
