//! The wiring of an orchestrator as a mathematical state machine.
//!
//! A [`Topology`] records which halves of which bridges are still free, the
//! route table while it can still be edited, and the tasks that were planned
//! so far. Each wiring primitive is a function from a topology and its
//! arguments to the next topology and an answer.

use vstd::prelude::*;
use crate::error::ConfigFault;
use crate::message::MessageView;

verus! {

/// What is left of one bridge.
pub struct HalfState {
    /// Number of the bridge's channel.
    pub chan: u64,
    /// The receiving half was not taken yet.
    pub has_rx: bool,
    /// The sending half was not taken yet.
    pub has_tx: bool,
}

/// Routes as a value: the topics that have subscribers, each with the
/// channels subscribed to it in declaration order.
pub type Routes = Map<Seq<char>, Seq<u64>>;

/// A planned task, by the channels whose halves it owns.
pub enum PipeView {
    /// Forwards from one bridge's receiver to another bridge's sender.
    Direct { rx: u64, tx: u64 },
    /// Forwards from a bridge's receiver into one in-process queue per topic;
    /// `topics` lists them in the order in which they are searched.
    ForwardRx { rx: u64, topics: Seq<Seq<char>> },
    /// Drains an in-process queue into a bridge's sender.
    ForwardTx { tx: u64 },
    /// Selects over `receivers` and fans each message out by `routes`.
    Router { receivers: Seq<u64>, routes: Routes },
    /// First stage of the buffered router: moves the messages of one bridge's
    /// receiver into the router's queue.
    Shovel { rx: u64 },
    /// Second stage of the buffered router: fans the messages of the queue
    /// out by `routes`.
    Dispatcher { routes: Routes },
}

/// The state of the wiring.
pub struct Topology {
    /// What is left of each bridge, by name.
    pub bridges: Map<Seq<char>, HalfState>,
    /// The bridge names in the order in which the children were started.
    pub order: Seq<Seq<char>>,
    /// The routes, until a router is spawned.
    pub routes: Option<Routes>,
    /// The tasks planned so far, oldest first.
    pub pipes: Seq<PipeView>,
}

/// One message on its way to the sending half of one channel.
pub struct Parcel {
    pub to: u64,
    pub message: MessageView,
}

/// The fan-out of one message: a parcel for each subscriber, in their order.
pub open spec fn fan_out(subs: Seq<u64>, m: MessageView) -> Seq<Parcel> {
    Seq::new(subs.len(), |i: int| Parcel { to: subs[i], message: m })
}

/// The subscribers of `topic` in `routes`: none where the topic is unknown.
pub open spec fn subscribers_in(routes: Routes, topic: Seq<char>) -> Seq<u64> {
    if routes.contains_key(topic) {
        routes[topic]
    } else {
        Seq::empty()
    }
}

/// Taking the receiver of `name`: the bridges afterwards, and the channel
/// whose receiver came out.
pub open spec fn take_rx(bridges: Map<Seq<char>, HalfState>, name: Seq<char>) -> (
    Map<Seq<char>, HalfState>,
    Result<u64, ConfigFault>,
) {
    if !bridges.contains_key(name) {
        (bridges, Err(ConfigFault::BridgeNotFound { name }))
    } else if !bridges[name].has_rx {
        (bridges, Err(ConfigFault::ReceiverTaken { name }))
    } else {
        (
            bridges.insert(name, HalfState { has_rx: false, ..bridges[name] }),
            Ok(bridges[name].chan),
        )
    }
}

/// Taking the sender of `name`: the bridges afterwards, and the channel whose
/// sender came out.
pub open spec fn take_tx(bridges: Map<Seq<char>, HalfState>, name: Seq<char>) -> (
    Map<Seq<char>, HalfState>,
    Result<u64, ConfigFault>,
) {
    if !bridges.contains_key(name) {
        (bridges, Err(ConfigFault::BridgeNotFound { name }))
    } else if !bridges[name].has_tx {
        (bridges, Err(ConfigFault::SenderTaken { name }))
    } else {
        (
            bridges.insert(name, HalfState { has_tx: false, ..bridges[name] }),
            Ok(bridges[name].chan),
        )
    }
}

/// A direct pipe from `b_in` to `b_out`. The receiver is taken first; where
/// the sender then cannot be had, the receiver stays taken.
pub open spec fn pipe_bridges(t: Topology, b_in: Seq<char>, b_out: Seq<char>) -> (
    Topology,
    Result<(), ConfigFault>,
) {
    let (b1, rx) = take_rx(t.bridges, b_in);
    match rx {
        Err(e) => (t, Err(e)),
        Ok(rx) => {
            let (b2, tx) = take_tx(b1, b_out);
            match tx {
                Err(e) => (Topology { bridges: b1, ..t }, Err(e)),
                Ok(tx) => (
                    Topology { bridges: b2, pipes: t.pipes.push(PipeView::Direct { rx, tx }), ..t },
                    Ok(()),
                ),
            }
        },
    }
}

/// Subscribing the sender of `b_out` to `topic`. The sender is taken first;
/// where the routes are sealed, it stays taken.
pub open spec fn route_topic_to_bridge(t: Topology, topic: Seq<char>, b_out: Seq<char>) -> (
    Topology,
    Result<(), ConfigFault>,
) {
    let (b1, tx) = take_tx(t.bridges, b_out);
    match tx {
        Err(e) => (t, Err(e)),
        Ok(tx) => match t.routes {
            None => (Topology { bridges: b1, ..t }, Err(ConfigFault::RoutesSealed)),
            Some(r) => (
                Topology {
                    bridges: b1,
                    routes: Some(r.insert(topic, subscribers_in(r, topic).push(tx))),
                    ..t
                },
                Ok(()),
            ),
        },
    }
}

/// The channels of the bridges in `order` whose receiver is still free, in
/// that order.
pub open spec fn free_receivers(order: Seq<Seq<char>>, bridges: Map<Seq<char>, HalfState>) -> Seq<
    u64,
>
    decreases order.len(),
{
    if order.len() == 0 {
        Seq::empty()
    } else {
        let rest = free_receivers(order.drop_last(), bridges);
        let name = order.last();
        if bridges.contains_key(name) && bridges[name].has_rx {
            rest.push(bridges[name].chan)
        } else {
            rest
        }
    }
}

/// The bridges after every receiver that was still free has been taken.
pub open spec fn without_receivers(bridges: Map<Seq<char>, HalfState>) -> Map<
    Seq<char>,
    HalfState,
> {
    Map::new(
        |name: Seq<char>| bridges.contains_key(name),
        |name: Seq<char>| HalfState { has_rx: false, ..bridges[name] },
    )
}

/// Spawning the synchronous router. Every free receiver is taken first; where
/// the routes were sealed before, the receivers stay taken and no task is
/// planned.
pub open spec fn pipe_routes(t: Topology) -> (Topology, Result<(), ConfigFault>) {
    let taken = without_receivers(t.bridges);
    match t.routes {
        None => (Topology { bridges: taken, ..t }, Err(ConfigFault::RoutesSealed)),
        Some(r) => (
            Topology {
                bridges: taken,
                routes: None,
                pipes: t.pipes.push(
                    PipeView::Router { receivers: free_receivers(t.order, t.bridges), routes: r },
                ),
                ..t
            },
            Ok(()),
        ),
    }
}

/// Forwarding the messages of `b_in` into the queues of `topics`. An empty
/// list is refused before anything is taken.
pub open spec fn forward_bridge_rx(t: Topology, b_in: Seq<char>, topics: Seq<Seq<char>>) -> (
    Topology,
    Result<(), ConfigFault>,
) {
    if topics.len() == 0 {
        (t, Err(ConfigFault::EmptyTopicMap))
    } else {
        let (b1, rx) = take_rx(t.bridges, b_in);
        match rx {
            Err(e) => (t, Err(e)),
            Ok(rx) => (
                Topology {
                    bridges: b1,
                    pipes: t.pipes.push(PipeView::ForwardRx { rx, topics }),
                    ..t
                },
                Ok(()),
            ),
        }
    }
}

/// Draining a queue into the sender of `b_out`.
pub open spec fn forward_bridge_tx(t: Topology, b_out: Seq<char>) -> (
    Topology,
    Result<(), ConfigFault>,
) {
    let (b1, tx) = take_tx(t.bridges, b_out);
    match tx {
        Err(e) => (t, Err(e)),
        Ok(tx) => (
            Topology { bridges: b1, pipes: t.pipes.push(PipeView::ForwardTx { tx }), ..t },
            Ok(()),
        ),
    }
}

/// One shovel for each of `receivers`, in their order.
pub open spec fn shovels(receivers: Seq<u64>) -> Seq<PipeView> {
    Seq::new(receivers.len(), |i: int| PipeView::Shovel { rx: receivers[i] })
}

/// Spawning the buffered router. The routes are looked at first: where they
/// were sealed before, nothing changes. Otherwise every free receiver gets a
/// shovel, and one dispatcher follows them.
pub open spec fn pipe_routes_via_crossbeam(t: Topology) -> (Topology, Result<(), ConfigFault>) {
    match t.routes {
        None => (t, Err(ConfigFault::RoutesSealed)),
        Some(r) => (
            Topology {
                bridges: without_receivers(t.bridges),
                routes: None,
                pipes: (t.pipes + shovels(free_receivers(t.order, t.bridges))).push(
                    PipeView::Dispatcher { routes: r },
                ),
                ..t
            },
            Ok(()),
        ),
    }
}

/// Starting a child called `name` after the children `started`: a name that
/// was used before is refused, a new one is recorded last.
pub open spec fn start(started: Seq<Seq<char>>, name: Seq<char>) -> (
    Seq<Seq<char>>,
    Result<(), ConfigFault>,
) {
    if started.contains(name) {
        (started, Err(ConfigFault::DuplicateBridge { name }))
    } else {
        (started.push(name), Ok(()))
    }
}

/// A call of one of the wiring primitives, with its arguments.
pub enum Wiring {
    PipeBridges { b_in: Seq<char>, b_out: Seq<char> },
    ForwardBridgeRx { b_in: Seq<char>, topics: Seq<Seq<char>> },
    ForwardBridgeTx { b_out: Seq<char> },
    RouteTopicToBridge { topic: Seq<char>, b_out: Seq<char> },
    PipeRoutes,
    PipeRoutesViaCrossbeam,
}

/// The topology after the call `w`, and the call's answer.
pub open spec fn apply(t: Topology, w: Wiring) -> (Topology, Result<(), ConfigFault>) {
    match w {
        Wiring::PipeBridges { b_in, b_out } => pipe_bridges(t, b_in, b_out),
        Wiring::ForwardBridgeRx { b_in, topics } => forward_bridge_rx(t, b_in, topics),
        Wiring::ForwardBridgeTx { b_out } => forward_bridge_tx(t, b_out),
        Wiring::RouteTopicToBridge { topic, b_out } => route_topic_to_bridge(t, topic, b_out),
        Wiring::PipeRoutes => pipe_routes(t),
        Wiring::PipeRoutesViaCrossbeam => pipe_routes_via_crossbeam(t),
    }
}

/// The topology after the calls `ws`, made in order, whatever they answered.
pub open spec fn apply_all(t: Topology, ws: Seq<Wiring>) -> Topology
    decreases ws.len(),
{
    if ws.len() == 0 {
        t
    } else {
        apply(apply_all(t, ws.drop_last()), ws.last()).0
    }
}

/// What a direct pipe into channel `tx` sends for the messages `msgs`: each
/// of them, in order.
pub open spec fn piped(tx: u64, msgs: Seq<MessageView>) -> Seq<Parcel> {
    Seq::new(msgs.len(), |i: int| Parcel { to: tx, message: msgs[i] })
}

/// What a router with `routes` sends for the messages `msgs`, all of known
/// topics: the fan-out of each, in order.
pub open spec fn routed(routes: Routes, msgs: Seq<MessageView>) -> Seq<Parcel>
    decreases msgs.len(),
{
    if msgs.len() == 0 {
        Seq::empty()
    } else {
        routed(routes, msgs.drop_last()) + fan_out(
            subscribers_in(routes, msgs.last().topic),
            msgs.last(),
        )
    }
}

/// The messages that `parcels` bring to channel `c`, in order.
pub open spec fn received_by(c: u64, parcels: Seq<Parcel>) -> Seq<MessageView>
    decreases parcels.len(),
{
    if parcels.len() == 0 {
        Seq::empty()
    } else {
        let rest = received_by(c, parcels.drop_last());
        if parcels.last().to == c {
            rest.push(parcels.last().message)
        } else {
            rest
        }
    }
}

/// Those of `msgs` whose topic channel `c` is subscribed to, in order.
pub open spec fn subscribed(c: u64, routes: Routes, msgs: Seq<MessageView>) -> Seq<MessageView>
    decreases msgs.len(),
{
    if msgs.len() == 0 {
        Seq::empty()
    } else {
        let rest = subscribed(c, routes, msgs.drop_last());
        if subscribers_in(routes, msgs.last().topic).contains(c) {
            rest.push(msgs.last())
        } else {
            rest
        }
    }
}

} // verus!
