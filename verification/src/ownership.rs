//! Who owns which half: the invariant behind take-once.
//!
//! A half is free while it sits in its bridge, and owned once the routes or a
//! planned task hold it. The statements of this file say that wiring never
//! gives one half to two owners, and never leaves an owned half free.

use vstd::prelude::*;
use crate::topology::apply;
use crate::topology::apply_all;
use crate::topology::free_receivers;
use crate::topology::shovels;
use crate::topology::take_rx;
use crate::topology::take_tx;
use crate::topology::without_receivers;
use crate::topology::HalfState;
use crate::topology::PipeView;
use crate::topology::Routes;
use crate::topology::Topology;
use crate::topology::Wiring;

verus! {

/// Channel `c` is the subscriber number `i` of `topic` in `r`.
pub open spec fn listed(r: Routes, topic: Seq<char>, i: int, c: u64) -> bool {
    r.contains_key(topic) && 0 <= i < r[topic].len() && r[topic][i] == c
}

/// The sender of channel `c` is subscribed to some topic of `r`.
pub open spec fn in_routes(r: Routes, c: u64) -> bool {
    exists|topic: Seq<char>, i: int| listed(r, topic, i, c)
}

/// No sender is listed twice in `r`, under one topic or under two.
pub open spec fn listed_once(r: Routes) -> bool {
    forall|t1: Seq<char>, i: int, t2: Seq<char>, j: int, c: u64|
        #[trigger] listed(r, t1, i, c) && #[trigger] listed(r, t2, j, c) ==> t1 == t2 && i == j
}

/// The task `p` owns the sender of channel `c`.
pub open spec fn holds_tx(p: PipeView, c: u64) -> bool {
    match p {
        PipeView::Direct { tx, .. } => tx == c,
        PipeView::ForwardTx { tx } => tx == c,
        PipeView::Router { routes, .. } => in_routes(routes, c),
        PipeView::Dispatcher { routes } => in_routes(routes, c),
        _ => false,
    }
}

/// The task `p` owns the receiver of channel `c`.
pub open spec fn holds_rx(p: PipeView, c: u64) -> bool {
    match p {
        PipeView::Direct { rx, .. } => rx == c,
        PipeView::ForwardRx { rx, .. } => rx == c,
        PipeView::Shovel { rx } => rx == c,
        PipeView::Router { receivers, .. } => receivers.contains(c),
        _ => false,
    }
}

/// The task `p` owns no half twice.
pub open spec fn holds_once(p: PipeView) -> bool {
    match p {
        PipeView::Router { receivers, routes } => receivers.no_duplicates() && listed_once(routes),
        PipeView::Dispatcher { routes } => listed_once(routes),
        _ => true,
    }
}

/// The sender of channel `c` still sits in a bridge.
pub open spec fn tx_free(bridges: Map<Seq<char>, HalfState>, c: u64) -> bool {
    exists|name: Seq<char>|
        #[trigger] bridges.contains_key(name) && bridges[name].chan == c && bridges[name].has_tx
}

/// The receiver of channel `c` still sits in a bridge.
pub open spec fn rx_free(bridges: Map<Seq<char>, HalfState>, c: u64) -> bool {
    exists|name: Seq<char>|
        #[trigger] bridges.contains_key(name) && bridges[name].chan == c && bridges[name].has_rx
}

/// The bridges are those of the started children, and no two of them share a
/// channel.
pub open spec fn bridges_sound(t: Topology) -> bool {
    &&& t.order.no_duplicates()
    &&& forall|name: Seq<char>| #[trigger] t.bridges.contains_key(name) <==> t.order.contains(name)
    &&& forall|n1: Seq<char>, n2: Seq<char>|
        #[trigger] t.bridges.contains_key(n1) && #[trigger] t.bridges.contains_key(n2)
            && t.bridges[n1].chan == t.bridges[n2].chan ==> n1 == n2
}

/// Every sender has at most one owner, and an owned sender is not free.
pub open spec fn senders_exclusive(t: Topology) -> bool {
    &&& forall|i: int| 0 <= i < t.pipes.len() ==> holds_once(#[trigger] t.pipes[i])
    &&& forall|i: int, c: u64|
        0 <= i < t.pipes.len() && #[trigger] holds_tx(t.pipes[i], c) ==> !tx_free(t.bridges, c)
    &&& forall|i: int, j: int, c: u64|
        0 <= i < j < t.pipes.len() && #[trigger] holds_tx(t.pipes[i], c) ==> !#[trigger] holds_tx(
            t.pipes[j],
            c,
        )
    &&& t.routes matches Some(r) ==> {
        &&& listed_once(r)
        &&& forall|c: u64| #[trigger] in_routes(r, c) ==> !tx_free(t.bridges, c)
        &&& forall|i: int, c: u64|
            0 <= i < t.pipes.len() && #[trigger] holds_tx(t.pipes[i], c) ==> !in_routes(r, c)
    }
}

/// Every receiver has at most one owner, and an owned receiver is not free.
pub open spec fn receivers_exclusive(t: Topology) -> bool {
    &&& forall|i: int, c: u64|
        0 <= i < t.pipes.len() && #[trigger] holds_rx(t.pipes[i], c) ==> !rx_free(t.bridges, c)
    &&& forall|i: int, j: int, c: u64|
        0 <= i < j < t.pipes.len() && #[trigger] holds_rx(t.pipes[i], c) ==> !#[trigger] holds_rx(
            t.pipes[j],
            c,
        )
}

/// The ownership invariant of a topology.
pub open spec fn exclusive(t: Topology) -> bool {
    &&& bridges_sound(t)
    &&& senders_exclusive(t)
    &&& receivers_exclusive(t)
}

/// Taking a sender that was free: it is free no more, and nothing else
/// changes its freedom.
proof fn take_tx_effect(t: Topology, name: Seq<char>)
    requires
        bridges_sound(t),
        take_tx(t.bridges, name).1 is Ok,
    ensures
        ({
            let after = take_tx(t.bridges, name).0;
            let c = take_tx(t.bridges, name).1->Ok_0;
            &&& tx_free(t.bridges, c)
            &&& !tx_free(after, c)
            &&& forall|d: u64| tx_free(after, d) ==> tx_free(t.bridges, d)
            &&& forall|d: u64| rx_free(after, d) <==> rx_free(t.bridges, d)
            &&& bridges_sound(Topology { bridges: after, ..t })
        }),
{
    let after = take_tx(t.bridges, name).0;
    let c = take_tx(t.bridges, name).1->Ok_0;
    assert(t.bridges.contains_key(name));
    assert forall|d: u64| tx_free(after, d) implies tx_free(t.bridges, d) by {
        let n = choose|n: Seq<char>|
            #[trigger] after.contains_key(n) && after[n].chan == d && after[n].has_tx;
        assert(t.bridges.contains_key(n));
    }
    assert forall|d: u64| rx_free(after, d) <==> rx_free(t.bridges, d) by {
        if rx_free(after, d) {
            let n = choose|n: Seq<char>|
                #[trigger] after.contains_key(n) && after[n].chan == d && after[n].has_rx;
            assert(t.bridges.contains_key(n));
        }
        if rx_free(t.bridges, d) {
            let n = choose|n: Seq<char>|
                #[trigger] t.bridges.contains_key(n) && t.bridges[n].chan == d
                    && t.bridges[n].has_rx;
            assert(after.contains_key(n));
        }
    }
    if tx_free(after, c) {
        let n = choose|n: Seq<char>|
            #[trigger] after.contains_key(n) && after[n].chan == c && after[n].has_tx;
        assert(t.bridges.contains_key(n));
        assert(n == name);
    }
    let t1 = Topology { bridges: after, ..t };
    assert forall|n: Seq<char>| #[trigger] t1.bridges.contains_key(n) <==> t1.order.contains(
        n,
    ) by {
        assert(t.bridges.contains_key(n) <==> t.order.contains(n));
    }
    assert forall|n1: Seq<char>, n2: Seq<char>|
        #[trigger] t1.bridges.contains_key(n1) && #[trigger] t1.bridges.contains_key(n2)
            && t1.bridges[n1].chan == t1.bridges[n2].chan implies n1 == n2 by {
        assert(t.bridges.contains_key(n1) && t.bridges.contains_key(n2));
    }
}

/// Taking a receiver that was free: it is free no more, and nothing else
/// changes its freedom.
proof fn take_rx_effect(t: Topology, name: Seq<char>)
    requires
        bridges_sound(t),
        take_rx(t.bridges, name).1 is Ok,
    ensures
        ({
            let after = take_rx(t.bridges, name).0;
            let c = take_rx(t.bridges, name).1->Ok_0;
            &&& rx_free(t.bridges, c)
            &&& !rx_free(after, c)
            &&& forall|d: u64| rx_free(after, d) ==> rx_free(t.bridges, d)
            &&& forall|d: u64| tx_free(after, d) <==> tx_free(t.bridges, d)
            &&& bridges_sound(Topology { bridges: after, ..t })
        }),
{
    let after = take_rx(t.bridges, name).0;
    let c = take_rx(t.bridges, name).1->Ok_0;
    assert(t.bridges.contains_key(name));
    assert forall|d: u64| rx_free(after, d) implies rx_free(t.bridges, d) by {
        let n = choose|n: Seq<char>|
            #[trigger] after.contains_key(n) && after[n].chan == d && after[n].has_rx;
        assert(t.bridges.contains_key(n));
    }
    assert forall|d: u64| tx_free(after, d) <==> tx_free(t.bridges, d) by {
        if tx_free(after, d) {
            let n = choose|n: Seq<char>|
                #[trigger] after.contains_key(n) && after[n].chan == d && after[n].has_tx;
            assert(t.bridges.contains_key(n));
        }
        if tx_free(t.bridges, d) {
            let n = choose|n: Seq<char>|
                #[trigger] t.bridges.contains_key(n) && t.bridges[n].chan == d
                    && t.bridges[n].has_tx;
            assert(after.contains_key(n));
        }
    }
    if rx_free(after, c) {
        let n = choose|n: Seq<char>|
            #[trigger] after.contains_key(n) && after[n].chan == c && after[n].has_rx;
        assert(t.bridges.contains_key(n));
        assert(n == name);
    }
    let t1 = Topology { bridges: after, ..t };
    assert forall|n: Seq<char>| #[trigger] t1.bridges.contains_key(n) <==> t1.order.contains(
        n,
    ) by {
        assert(t.bridges.contains_key(n) <==> t.order.contains(n));
    }
    assert forall|n1: Seq<char>, n2: Seq<char>|
        #[trigger] t1.bridges.contains_key(n1) && #[trigger] t1.bridges.contains_key(n2)
            && t1.bridges[n1].chan == t1.bridges[n2].chan implies n1 == n2 by {
        assert(t.bridges.contains_key(n1) && t.bridges.contains_key(n2));
    }
}

/// A topology stays exclusive when its bridges change without losing
/// soundness and without setting any half free.
proof fn fewer_free_halves_keep(t: Topology, after: Map<Seq<char>, HalfState>)
    requires
        exclusive(t),
        bridges_sound(Topology { bridges: after, ..t }),
        forall|d: u64| tx_free(after, d) ==> tx_free(t.bridges, d),
        forall|d: u64| rx_free(after, d) ==> rx_free(t.bridges, d),
    ensures
        exclusive(Topology { bridges: after, ..t }),
{
}

/// A topology stays exclusive when a task is planned that owns nothing
/// twice, nothing that is free and nothing that has an owner. The routes
/// stay, or go where the task takes them over.
proof fn planning_keeps(t: Topology, p: PipeView, keep_routes: bool)
    requires
        exclusive(t),
        holds_once(p),
        forall|c: u64| #[trigger] holds_rx(p, c) ==> !rx_free(t.bridges, c),
        forall|i: int, c: u64|
            0 <= i < t.pipes.len() && #[trigger] holds_rx(t.pipes[i], c) ==> !holds_rx(p, c),
        forall|c: u64| #[trigger] holds_tx(p, c) ==> !tx_free(t.bridges, c),
        forall|i: int, c: u64|
            0 <= i < t.pipes.len() && #[trigger] holds_tx(t.pipes[i], c) ==> !holds_tx(p, c),
        keep_routes && t.routes is Some ==> forall|c: u64|
            #[trigger] holds_tx(p, c) ==> !in_routes(t.routes->0, c),
    ensures
        exclusive(
            Topology {
                pipes: t.pipes.push(p),
                routes: if keep_routes {
                    t.routes
                } else {
                    None
                },
                ..t
            },
        ),
{
    let after = Topology {
        pipes: t.pipes.push(p),
        routes: if keep_routes {
            t.routes
        } else {
            None
        },
        ..t
    };
    let n = t.pipes.len() as int;
    assert forall|i: int| 0 <= i < after.pipes.len() implies holds_once(
        #[trigger] after.pipes[i],
    ) by {
        if i < n {
            assert(after.pipes[i] == t.pipes[i]);
        }
    }
    assert forall|i: int, c: u64|
        0 <= i < after.pipes.len() && #[trigger] holds_tx(after.pipes[i], c) implies !tx_free(
        after.bridges,
        c,
    ) by {
        if i < n {
            assert(after.pipes[i] == t.pipes[i]);
        }
    }
    assert forall|i: int, j: int, c: u64|
        0 <= i < j < after.pipes.len() && #[trigger] holds_tx(
            after.pipes[i],
            c,
        ) implies !#[trigger] holds_tx(after.pipes[j], c) by {
        assert(after.pipes[i] == t.pipes[i]);
        if j < n {
            assert(after.pipes[j] == t.pipes[j]);
        }
    }
    if after.routes is Some {
        let r = after.routes->0;
        assert forall|i: int, c: u64|
            0 <= i < after.pipes.len() && #[trigger] holds_tx(
                after.pipes[i],
                c,
            ) implies !in_routes(r, c) by {
            if i < n {
                assert(after.pipes[i] == t.pipes[i]);
            }
        }
    }
    assert forall|i: int, c: u64|
        0 <= i < after.pipes.len() && #[trigger] holds_rx(after.pipes[i], c) implies !rx_free(
        after.bridges,
        c,
    ) by {
        if i < n {
            assert(after.pipes[i] == t.pipes[i]);
        }
    }
    assert forall|i: int, j: int, c: u64|
        0 <= i < j < after.pipes.len() && #[trigger] holds_rx(
            after.pipes[i],
            c,
        ) implies !#[trigger] holds_rx(after.pipes[j], c) by {
        assert(after.pipes[i] == t.pipes[i]);
        if j < n {
            assert(after.pipes[j] == t.pipes[j]);
        }
    }
}

/// A topology stays exclusive when a sender that is neither free nor owned
/// is subscribed to a topic.
proof fn subscribing_keeps(t: Topology, topic: Seq<char>, c: u64)
    requires
        exclusive(t),
        t.routes is Some,
        !tx_free(t.bridges, c),
        !in_routes(t.routes->0, c),
        forall|i: int| 0 <= i < t.pipes.len() ==> !holds_tx(#[trigger] t.pipes[i], c),
    ensures
        exclusive(
            Topology {
                routes: Some(
                    t.routes->0.insert(
                        topic,
                        crate::topology::subscribers_in(t.routes->0, topic).push(c),
                    ),
                ),
                ..t
            },
        ),
{
    let r = t.routes->0;
    let subs = crate::topology::subscribers_in(r, topic);
    let r2 = r.insert(topic, subs.push(c));
    assert forall|t1: Seq<char>, i: int, d: u64| #[trigger] listed(r2, t1, i, d) implies listed(
        r,
        t1,
        i,
        d,
    ) || (t1 == topic && i == subs.len() && d == c) by {
        if t1 == topic {
            if i < subs.len() {
                assert(r.contains_key(topic));
                assert(r[topic][i] == d);
            }
        } else {
            assert(r.contains_key(t1));
        }
    }
    assert forall|d: u64| #[trigger] in_routes(r2, d) implies in_routes(r, d) || d == c by {
        let (t1, i) = choose|t1: Seq<char>, i: int| listed(r2, t1, i, d);
        assert(listed(r2, t1, i, d));
    }
    assert forall|t1: Seq<char>, i: int, t2: Seq<char>, j: int, d: u64|
        #[trigger] listed(r2, t1, i, d) && #[trigger] listed(r2, t2, j, d) implies t1 == t2 && i
        == j by {
        if listed(r, t1, i, d) && listed(r, t2, j, d) {
        } else if listed(r, t1, i, d) {
            assert(in_routes(r, c));
        } else if listed(r, t2, j, d) {
            assert(in_routes(r, c));
        }
    }
}

/// Every channel among the free receivers is the channel of a bridge in
/// `order` whose receiver is free.
proof fn free_receivers_are_free(
    order: Seq<Seq<char>>,
    bridges: Map<Seq<char>, HalfState>,
    c: u64,
)
    requires
        free_receivers(order, bridges).contains(c),
    ensures
        exists|k: int|
            0 <= k < order.len() && bridges.contains_key(#[trigger] order[k])
                && bridges[order[k]].chan == c && bridges[order[k]].has_rx,
    decreases order.len(),
{
    if order.len() > 0 {
        let rest = free_receivers(order.drop_last(), bridges);
        let name = order.last();
        let all = free_receivers(order, bridges);
        let i = choose|i: int| 0 <= i < all.len() && all[i] == c;
        if bridges.contains_key(name) && bridges[name].has_rx && i == rest.len() {
            assert(order[order.len() - 1] == name);
        } else {
            assert(rest[i] == c);
            free_receivers_are_free(order.drop_last(), bridges, c);
            let k = choose|k: int|
                0 <= k < order.drop_last().len() && bridges.contains_key(
                    #[trigger] order.drop_last()[k],
                ) && bridges[order.drop_last()[k]].chan == c && bridges[order.drop_last()[k]].has_rx;
            assert(order[k] == order.drop_last()[k]);
        }
    }
}

/// Among bridges with distinct names and distinct channels, no channel
/// occurs twice among the free receivers.
proof fn free_receivers_are_distinct(order: Seq<Seq<char>>, bridges: Map<Seq<char>, HalfState>)
    requires
        order.no_duplicates(),
        forall|n1: Seq<char>, n2: Seq<char>|
            #[trigger] bridges.contains_key(n1) && #[trigger] bridges.contains_key(n2)
                && bridges[n1].chan == bridges[n2].chan ==> n1 == n2,
    ensures
        free_receivers(order, bridges).no_duplicates(),
    decreases order.len(),
{
    if order.len() > 0 {
        let front = order.drop_last();
        let rest = free_receivers(front, bridges);
        let name = order.last();
        assert forall|i: int, j: int| 0 <= i < j < front.len() implies front[i] != front[j] by {
            assert(order[i] != order[j]);
        }
        free_receivers_are_distinct(front, bridges);
        if bridges.contains_key(name) && bridges[name].has_rx {
            let c = bridges[name].chan;
            if rest.contains(c) {
                free_receivers_are_free(front, bridges, c);
                let k = choose|k: int|
                    0 <= k < front.len() && bridges.contains_key(#[trigger] front[k])
                        && bridges[front[k]].chan == c && bridges[front[k]].has_rx;
                assert(front[k] == name);
                assert(order[k] == order[order.len() - 1]);
            }
            assert forall|i: int, j: int|
                0 <= i < j < rest.push(c).len() implies rest.push(c)[i] != rest.push(c)[j] by {
                if j == rest.len() {
                    assert(rest[i] == rest.push(c)[i]);
                }
            }
        }
    }
}

/// Taking every free receiver: no receiver is free afterwards, and the
/// senders are as free as before.
proof fn without_receivers_effect(t: Topology)
    requires
        bridges_sound(t),
    ensures
        ({
            let after = without_receivers(t.bridges);
            &&& forall|d: u64| !rx_free(after, d)
            &&& forall|d: u64| tx_free(after, d) <==> tx_free(t.bridges, d)
            &&& bridges_sound(Topology { bridges: after, ..t })
        }),
{
    let after = without_receivers(t.bridges);
    assert forall|d: u64| !rx_free(after, d) by {
        if rx_free(after, d) {
            let n = choose|n: Seq<char>|
                #[trigger] after.contains_key(n) && after[n].chan == d && after[n].has_rx;
            assert(!after[n].has_rx);
        }
    }
    assert forall|d: u64| tx_free(after, d) <==> tx_free(t.bridges, d) by {
        if tx_free(after, d) {
            let n = choose|n: Seq<char>|
                #[trigger] after.contains_key(n) && after[n].chan == d && after[n].has_tx;
            assert(t.bridges.contains_key(n));
        }
        if tx_free(t.bridges, d) {
            let n = choose|n: Seq<char>|
                #[trigger] t.bridges.contains_key(n) && t.bridges[n].chan == d
                    && t.bridges[n].has_tx;
            assert(after.contains_key(n));
        }
    }
    let t1 = Topology { bridges: after, ..t };
    assert forall|n: Seq<char>| #[trigger] t1.bridges.contains_key(n) <==> t1.order.contains(
        n,
    ) by {
        assert(t.bridges.contains_key(n) <==> t.order.contains(n));
    }
    assert forall|n1: Seq<char>, n2: Seq<char>|
        #[trigger] t1.bridges.contains_key(n1) && #[trigger] t1.bridges.contains_key(n2)
            && t1.bridges[n1].chan == t1.bridges[n2].chan implies n1 == n2 by {
        assert(t.bridges.contains_key(n1) && t.bridges.contains_key(n2));
    }
}

/// A free receiver of a sound topology is a receiver that is free.
proof fn free_receivers_are_rx_free(t: Topology, c: u64)
    requires
        free_receivers(t.order, t.bridges).contains(c),
    ensures
        rx_free(t.bridges, c),
{
    free_receivers_are_free(t.order, t.bridges, c);
    let k = choose|k: int|
        0 <= k < t.order.len() && t.bridges.contains_key(#[trigger] t.order[k])
            && t.bridges[t.order[k]].chan == c && t.bridges[t.order[k]].has_rx;
    assert(t.bridges.contains_key(t.order[k]));
}

proof fn pipe_bridges_keeps(t: Topology, b_in: Seq<char>, b_out: Seq<char>)
    requires
        exclusive(t),
    ensures
        exclusive(crate::topology::pipe_bridges(t, b_in, b_out).0),
{
    let (b1, rx) = take_rx(t.bridges, b_in);
    if rx is Ok {
        take_rx_effect(t, b_in);
        let t1 = Topology { bridges: b1, ..t };
        fewer_free_halves_keep(t, b1);
        let (b2, tx) = take_tx(b1, b_out);
        if tx is Ok {
            take_tx_effect(t1, b_out);
            let t2 = Topology { bridges: b2, ..t1 };
            fewer_free_halves_keep(t1, b2);
            let p = PipeView::Direct { rx: rx->Ok_0, tx: tx->Ok_0 };
            planning_keeps(t2, p, true);
        }
    }
}

proof fn forward_bridge_rx_keeps(t: Topology, b_in: Seq<char>, topics: Seq<Seq<char>>)
    requires
        exclusive(t),
    ensures
        exclusive(crate::topology::forward_bridge_rx(t, b_in, topics).0),
{
    let (b1, rx) = take_rx(t.bridges, b_in);
    if topics.len() > 0 && rx is Ok {
        take_rx_effect(t, b_in);
        let t1 = Topology { bridges: b1, ..t };
        fewer_free_halves_keep(t, b1);
        let p = PipeView::ForwardRx { rx: rx->Ok_0, topics };
        planning_keeps(t1, p, true);
    }
}

proof fn forward_bridge_tx_keeps(t: Topology, b_out: Seq<char>)
    requires
        exclusive(t),
    ensures
        exclusive(crate::topology::forward_bridge_tx(t, b_out).0),
{
    let (b1, tx) = take_tx(t.bridges, b_out);
    if tx is Ok {
        take_tx_effect(t, b_out);
        let t1 = Topology { bridges: b1, ..t };
        fewer_free_halves_keep(t, b1);
        let p = PipeView::ForwardTx { tx: tx->Ok_0 };
        planning_keeps(t1, p, true);
    }
}

proof fn route_topic_to_bridge_keeps(t: Topology, topic: Seq<char>, b_out: Seq<char>)
    requires
        exclusive(t),
    ensures
        exclusive(crate::topology::route_topic_to_bridge(t, topic, b_out).0),
{
    let (b1, tx) = take_tx(t.bridges, b_out);
    if tx is Ok {
        take_tx_effect(t, b_out);
        let t1 = Topology { bridges: b1, ..t };
        fewer_free_halves_keep(t, b1);
        if t.routes is Some {
            subscribing_keeps(t1, topic, tx->Ok_0);
        }
    }
}

proof fn pipe_routes_keeps(t: Topology)
    requires
        exclusive(t),
    ensures
        exclusive(crate::topology::pipe_routes(t).0),
{
    let taken = without_receivers(t.bridges);
    without_receivers_effect(t);
    fewer_free_halves_keep(t, taken);
    let t1 = Topology { bridges: taken, ..t };
    if t.routes is Some {
        let receivers = free_receivers(t.order, t.bridges);
        let p = PipeView::Router { receivers, routes: t.routes->0 };
        free_receivers_are_distinct(t.order, t.bridges);
        assert forall|i: int, c: u64|
            0 <= i < t1.pipes.len() && #[trigger] holds_rx(t1.pipes[i], c) implies !holds_rx(
            p,
            c,
        ) by {
            if receivers.contains(c) {
                free_receivers_are_rx_free(t, c);
            }
        }
        planning_keeps(t1, p, false);
    }
}

/// A topology stays exclusive when shovels are planned for receivers that
/// are distinct, not free and without an owner.
proof fn shovels_keep(t: Topology, receivers: Seq<u64>)
    requires
        exclusive(t),
        receivers.no_duplicates(),
        forall|k: int| 0 <= k < receivers.len() ==> !rx_free(t.bridges, #[trigger] receivers[k]),
        forall|i: int, k: int|
            0 <= i < t.pipes.len() && 0 <= k < receivers.len() ==> !holds_rx(
                #[trigger] t.pipes[i],
                #[trigger] receivers[k],
            ),
    ensures
        exclusive(Topology { pipes: t.pipes + shovels(receivers), ..t }),
    decreases receivers.len(),
{
    if receivers.len() == 0 {
        assert(t.pipes + shovels(receivers) =~= t.pipes);
    } else {
        let front = receivers.drop_last();
        let last = receivers.last();
        assert forall|i: int, j: int| 0 <= i < j < front.len() implies front[i] != front[j] by {
            assert(receivers[i] != receivers[j]);
        }
        assert forall|k: int| 0 <= k < front.len() implies !rx_free(
            t.bridges,
            #[trigger] front[k],
        ) by {
            assert(front[k] == receivers[k]);
        }
        assert forall|i: int, k: int|
            0 <= i < t.pipes.len() && 0 <= k < front.len() implies !holds_rx(
            #[trigger] t.pipes[i],
            #[trigger] front[k],
        ) by {
            assert(front[k] == receivers[k]);
        }
        shovels_keep(t, front);
        let mid = Topology { pipes: t.pipes + shovels(front), ..t };
        let p = PipeView::Shovel { rx: last };
        assert(last == receivers[receivers.len() - 1]);
        assert forall|i: int, c: u64|
            0 <= i < mid.pipes.len() && #[trigger] holds_rx(mid.pipes[i], c) implies !holds_rx(
            p,
            c,
        ) by {
            if i < t.pipes.len() {
                assert(mid.pipes[i] == t.pipes[i]);
            } else {
                let k = i - t.pipes.len();
                assert(mid.pipes[i] == PipeView::Shovel { rx: front[k] });
                assert(receivers[k] != receivers[receivers.len() - 1]);
            }
        }
        planning_keeps(mid, p, true);
        assert(mid.pipes.push(p) =~= t.pipes + shovels(receivers));
    }
}

proof fn pipe_routes_via_crossbeam_keeps(t: Topology)
    requires
        exclusive(t),
    ensures
        exclusive(crate::topology::pipe_routes_via_crossbeam(t).0),
{
    if t.routes is Some {
        let taken = without_receivers(t.bridges);
        without_receivers_effect(t);
        fewer_free_halves_keep(t, taken);
        let t1 = Topology { bridges: taken, ..t };
        let receivers = free_receivers(t.order, t.bridges);
        free_receivers_are_distinct(t.order, t.bridges);
        assert forall|i: int, k: int|
            0 <= i < t1.pipes.len() && 0 <= k < receivers.len() implies !holds_rx(
            #[trigger] t1.pipes[i],
            #[trigger] receivers[k],
        ) by {
            free_receivers_are_rx_free(t, receivers[k]);
        }
        shovels_keep(t1, receivers);
        let t2 = Topology { pipes: t1.pipes + shovels(receivers), ..t1 };
        let p = PipeView::Dispatcher { routes: t.routes->0 };
        planning_keeps(t2, p, false);
    }
}

/// Ownership is kept by every wiring call: whatever is wired, and whether
/// the call succeeds or fails, no half gets a second owner and no owned half
/// is left free.
pub proof fn wiring_keeps_exclusive(t: Topology, w: Wiring)
    requires
        exclusive(t),
    ensures
        exclusive(apply(t, w).0),
{
    match w {
        Wiring::PipeBridges { b_in, b_out } => pipe_bridges_keeps(t, b_in, b_out),
        Wiring::ForwardBridgeRx { b_in, topics } => forward_bridge_rx_keeps(t, b_in, topics),
        Wiring::ForwardBridgeTx { b_out } => forward_bridge_tx_keeps(t, b_out),
        Wiring::RouteTopicToBridge { topic, b_out } => route_topic_to_bridge_keeps(
            t,
            topic,
            b_out,
        ),
        Wiring::PipeRoutes => pipe_routes_keeps(t),
        Wiring::PipeRoutesViaCrossbeam => pipe_routes_via_crossbeam_keeps(t),
    }
}

/// Ownership is kept by any number of wiring calls.
pub proof fn wirings_keep_exclusive(t: Topology, ws: Seq<Wiring>)
    requires
        exclusive(t),
    ensures
        exclusive(apply_all(t, ws)),
    decreases ws.len(),
{
    if ws.len() > 0 {
        wirings_keep_exclusive(t, ws.drop_last());
        wiring_keeps_exclusive(apply_all(t, ws.drop_last()), ws.last());
    }
}

/// In an exclusive topology no channel is subscribed twice to the topics of
/// a planned router or dispatcher.
pub proof fn routers_list_each_sender_once(t: Topology, i: int)
    requires
        exclusive(t),
        0 <= i < t.pipes.len(),
    ensures
        t.pipes[i] matches PipeView::Router { routes, .. } ==> listed_once(routes),
        t.pipes[i] matches PipeView::Dispatcher { routes } ==> listed_once(routes),
{
    assert(holds_once(t.pipes[i]));
}

/// The topology of freshly connected children: every half free, the routes
/// empty, nothing planned.
pub open spec fn fresh(names: Seq<Seq<char>>) -> Topology {
    Topology {
        bridges: crate::orchestrator::fresh_bridges(names),
        order: names,
        routes: Some(Map::empty()),
        pipes: Seq::empty(),
    }
}

/// Freshly connected children under distinct names start out exclusive.
pub proof fn fresh_is_exclusive(names: Seq<Seq<char>>)
    requires
        names.no_duplicates(),
        names.len() <= u64::MAX,
    ensures
        exclusive(fresh(names)),
{
    let t = fresh(names);
    assert forall|n1: Seq<char>, n2: Seq<char>|
        #[trigger] t.bridges.contains_key(n1) && #[trigger] t.bridges.contains_key(n2)
            && t.bridges[n1].chan == t.bridges[n2].chan implies n1 == n2 by {
        let i = names.index_of(n1);
        let j = names.index_of(n2);
        assert(names[i] == n1 && names[j] == n2);
    }
    let r = t.routes->0;
    assert forall|c: u64| !#[trigger] in_routes(r, c) by {
        if in_routes(r, c) {
            let (topic, i) = choose|topic: Seq<char>, i: int| listed(r, topic, i, c);
            assert(r.contains_key(topic));
        }
    }
}

} // verus!
