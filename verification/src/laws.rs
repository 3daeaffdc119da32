//! What holds of the wiring, the routing and the supervisor as a whole.
//!
//! Each statement speaks of the mathematical functions that the contracts of
//! the executable functions are written in, so it holds of every run of them.

use vstd::prelude::*;
use crate::error::ConfigFault;
use crate::message::MessageView;
use crate::ownership::listed;
use crate::ownership::listed_once;
use crate::supervisor::run_outcome;
use crate::supervisor::verdict;
use crate::supervisor::Arm;
use crate::supervisor::Completion;
use crate::supervisor::VerdictView;
use crate::topology::apply;
use crate::topology::apply_all;
use crate::topology::fan_out;
use crate::topology::pipe_bridges;
use crate::topology::pipe_routes;
use crate::topology::pipe_routes_via_crossbeam;
use crate::topology::piped;
use crate::topology::received_by;
use crate::topology::route_topic_to_bridge;
use crate::topology::routed;
use crate::topology::start;
use crate::topology::subscribed;
use crate::topology::subscribers_in;
use crate::topology::take_tx;
use crate::topology::HalfState;
use crate::topology::Parcel;
use crate::topology::PipeView;
use crate::topology::Routes;
use crate::topology::Topology;
use crate::topology::Wiring;

verus! {

/// From `before` to `after` the bridges are the same, with the same channels,
/// and no half that was taken is back.
pub open spec fn no_half_restored(
    before: Map<Seq<char>, HalfState>,
    after: Map<Seq<char>, HalfState>,
) -> bool {
    forall|name: Seq<char>|
        (#[trigger] before.contains_key(name) <==> after.contains_key(name)) && (
        before.contains_key(name) ==> {
            &&& after[name].chan == before[name].chan
            &&& after[name].has_rx ==> before[name].has_rx
            &&& after[name].has_tx ==> before[name].has_tx
        })
}

/// Every task planned in `before` is still planned in `after`, at its place.
pub open spec fn keeps_pipes(before: Seq<PipeView>, after: Seq<PipeView>) -> bool {
    &&& before.len() <= after.len()
    &&& forall|i: int| 0 <= i < before.len() ==> after[i] == before[i]
}

/// Starting a second child under a name that was started before fails, and
/// names the duplicate.
pub proof fn second_start_fails(started: Seq<Seq<char>>, name: Seq<char>)
    ensures
        start(start(started, name).0, name).1 == Err::<(), ConfigFault>(
            ConfigFault::DuplicateBridge { name },
        ),
        start(start(started, name).0, name).0 == start(started, name).0,
{
    if !started.contains(name) {
        let pushed = started.push(name);
        assert(pushed[pushed.len() - 1] == name);
    }
}

/// No wiring call loses a bridge, renumbers a channel or puts a taken half
/// back; every task planned before the call stays planned; sealed routes
/// stay sealed.
pub proof fn wiring_is_monotone(t: Topology, w: Wiring)
    ensures
        no_half_restored(t.bridges, apply(t, w).0.bridges),
        keeps_pipes(t.pipes, apply(t, w).0.pipes),
        t.routes is None ==> apply(t, w).0.routes is None,
        apply(t, w).0.order == t.order,
{
}

/// What [`wiring_is_monotone`] says of one call holds of any number of calls.
pub proof fn wirings_are_monotone(t: Topology, ws: Seq<Wiring>)
    ensures
        no_half_restored(t.bridges, apply_all(t, ws).bridges),
        keeps_pipes(t.pipes, apply_all(t, ws).pipes),
        t.routes is None ==> apply_all(t, ws).routes is None,
        apply_all(t, ws).order == t.order,
    decreases ws.len(),
{
    if ws.len() > 0 {
        wirings_are_monotone(t, ws.drop_last());
        wiring_is_monotone(apply_all(t, ws.drop_last()), ws.last());
    }
}

/// Take-once for receivers: after a pipe out of the bridge `b_in` was
/// planned, and whatever was wired since, the receiver of `b_in` cannot be
/// had again: a second pipe out of `b_in`, to any bridge, is refused because
/// the receiver was taken. The first pipe is still planned.
pub proof fn receiver_is_taken_once(
    t: Topology,
    b_in: Seq<char>,
    b_out: Seq<char>,
    later: Seq<Wiring>,
    other: Seq<char>,
)
    requires
        pipe_bridges(t, b_in, b_out).1 is Ok,
    ensures
        pipe_bridges(apply_all(pipe_bridges(t, b_in, b_out).0, later), b_in, other).1 == Err::<
            (),
            ConfigFault,
        >(ConfigFault::ReceiverTaken { name: b_in }),
        keeps_pipes(
            pipe_bridges(t, b_in, b_out).0.pipes,
            pipe_bridges(apply_all(pipe_bridges(t, b_in, b_out).0, later), b_in, other).0.pipes,
        ),
{
    let first = pipe_bridges(t, b_in, b_out).0;
    assert(first.bridges.contains_key(b_in) && !first.bridges[b_in].has_rx);
    wirings_are_monotone(first, later);
}

/// Take-once for senders: after a pipe into the bridge `b_out` was planned,
/// and whatever was wired since, the sender of `b_out` cannot be had again.
pub proof fn sender_is_taken_once(
    t: Topology,
    b_in: Seq<char>,
    b_out: Seq<char>,
    later: Seq<Wiring>,
)
    requires
        pipe_bridges(t, b_in, b_out).1 is Ok,
    ensures
        take_tx(apply_all(pipe_bridges(t, b_in, b_out).0, later).bridges, b_out).1 == Err::<
            u64,
            ConfigFault,
        >(ConfigFault::SenderTaken { name: b_out }),
{
    let first = pipe_bridges(t, b_in, b_out).0;
    assert(first.bridges.contains_key(b_out) && !first.bridges[b_out].has_tx);
    wirings_are_monotone(first, later);
}

/// Route sealing: once a router of either kind was asked for, whether it was
/// planned or refused, and whatever was wired since, no topic can be routed
/// to a bridge any more.
pub proof fn no_route_after_router(
    t: Topology,
    buffered: bool,
    later: Seq<Wiring>,
    topic: Seq<char>,
    b_out: Seq<char>,
)
    ensures
        route_topic_to_bridge(
            apply_all(
                if buffered {
                    pipe_routes_via_crossbeam(t).0
                } else {
                    pipe_routes(t).0
                },
                later,
            ),
            topic,
            b_out,
        ).1 is Err,
{
    let sealed = if buffered {
        pipe_routes_via_crossbeam(t).0
    } else {
        pipe_routes(t).0
    };
    assert(sealed.routes is None);
    wirings_are_monotone(sealed, later);
}

/// Two bridges subscribed to one topic, one after the other, are its last two
/// subscribers, in that order, in the router that is planned next; so the
/// fan-out of a message on that topic ends with one parcel for the first and
/// one for the second.
pub proof fn two_subscribers_get_one_each(
    t: Topology,
    topic: Seq<char>,
    b1: Seq<char>,
    b2: Seq<char>,
    m: MessageView,
)
    requires
        route_topic_to_bridge(t, topic, b1).1 is Ok,
        route_topic_to_bridge(route_topic_to_bridge(t, topic, b1).0, topic, b2).1 is Ok,
        m.topic == topic,
    ensures
        ({
            let wired = route_topic_to_bridge(route_topic_to_bridge(t, topic, b1).0, topic, b2).0;
            let c1 = t.bridges[b1].chan;
            let c2 = t.bridges[b2].chan;
            &&& b1 != b2
            &&& pipe_routes(wired).1 is Ok
            &&& pipe_routes(wired).0.pipes.last() matches PipeView::Router { routes, .. }
                && routes == wired.routes->0 && fan_out(subscribers_in(routes, topic), m)
                == fan_out(subscribers_in(t.routes->0, topic), m).push(
                Parcel { to: c1, message: m },
            ).push(Parcel { to: c2, message: m })
        }),
{
    let wired = route_topic_to_bridge(route_topic_to_bridge(t, topic, b1).0, topic, b2).0;
    let c1 = t.bridges[b1].chan;
    let c2 = t.bridges[b2].chan;
    let old_subs = subscribers_in(t.routes->0, topic);
    let routes = wired.routes->0;
    assert(subscribers_in(routes, topic) == old_subs.push(c1).push(c2));
    assert(fan_out(old_subs.push(c1).push(c2), m) =~= fan_out(old_subs, m).push(
        Parcel { to: c1, message: m },
    ).push(Parcel { to: c2, message: m }));
}

/// What reaches a channel from two runs of parcels is what reaches it from
/// the first, followed by what reaches it from the second.
proof fn received_by_concat(c: u64, a: Seq<Parcel>, b: Seq<Parcel>)
    ensures
        received_by(c, a + b) == received_by(c, a) + received_by(c, b),
    decreases b.len(),
{
    if b.len() == 0 {
        assert(a + b =~= a);
        assert(received_by(c, a) + received_by(c, b) =~= received_by(c, a));
    } else {
        received_by_concat(c, a, b.drop_last());
        assert((a + b).drop_last() =~= a + b.drop_last());
        assert((a + b).last() == b.last());
        if b.last().to == c {
            assert(received_by(c, a + b) =~= received_by(c, a) + received_by(c, b));
        }
    }
}

/// The fan-out of one message reaches each subscriber exactly once, and
/// nobody else.
pub proof fn fan_out_reaches_each_once(c: u64, subs: Seq<u64>, m: MessageView)
    requires
        subs.no_duplicates(),
    ensures
        received_by(c, fan_out(subs, m)) == if subs.contains(c) {
            seq![m]
        } else {
            Seq::<MessageView>::empty()
        },
    decreases subs.len(),
{
    if subs.len() > 0 {
        let front = subs.drop_last();
        fan_out_reaches_each_once(c, front, m);
        assert(fan_out(subs, m).drop_last() =~= fan_out(front, m));
        assert(fan_out(subs, m).last() == Parcel { to: subs.last(), message: m });
        if subs.last() == c {
            assert(subs[subs.len() - 1] == c);
            assert(!front.contains(c)) by {
                if front.contains(c) {
                    let k = choose|k: int| 0 <= k < front.len() && front[k] == c;
                    assert(subs[k] == subs[subs.len() - 1]);
                }
            }
            assert(Seq::<MessageView>::empty().push(m) =~= seq![m]);
        } else {
            if subs.contains(c) {
                let k = choose|k: int| 0 <= k < subs.len() && subs[k] == c;
                assert(front[k] == c);
            }
            if front.contains(c) {
                let k = choose|k: int| 0 <= k < front.len() && front[k] == c;
                assert(subs[k] == c);
            }
        }
    }
}

/// Fan-out multiplicity and order: a router whose routes list no sender
/// twice, as the routes of every exclusive topology do, brings to each
/// channel exactly the messages of the topics it is subscribed to, each once,
/// in the order in which they came.
pub proof fn router_delivers_once_in_order(c: u64, routes: Routes, msgs: Seq<MessageView>)
    requires
        listed_once(routes),
    ensures
        received_by(c, routed(routes, msgs)) == subscribed(c, routes, msgs),
    decreases msgs.len(),
{
    if msgs.len() > 0 {
        let m = msgs.last();
        let subs = subscribers_in(routes, m.topic);
        router_delivers_once_in_order(c, routes, msgs.drop_last());
        received_by_concat(c, routed(routes, msgs.drop_last()), fan_out(subs, m));
        if routes.contains_key(m.topic) {
            assert forall|i: int, j: int| 0 <= i < j < subs.len() implies subs[i] != subs[j] by {
                assert(listed(routes, m.topic, i, subs[i]));
                assert(listed(routes, m.topic, j, subs[j]));
            }
        }
        fan_out_reaches_each_once(c, subs, m);
        if subs.contains(c) {
            assert(subscribed(c, routes, msgs.drop_last()) + seq![m] =~= subscribed(
                c,
                routes,
                msgs.drop_last(),
            ).push(m));
        } else {
            assert(subscribed(c, routes, msgs.drop_last()) + Seq::<MessageView>::empty()
                =~= subscribed(c, routes, msgs.drop_last()));
        }
    }
}

/// Pass-through identity: what a direct pipe brings to its sender's channel
/// is every message that came in, unchanged and in the same order, and it
/// brings nothing to any other channel.
pub proof fn pipe_passes_everything_through(tx: u64, c: u64, msgs: Seq<MessageView>)
    ensures
        received_by(tx, piped(tx, msgs)) == msgs,
        c != tx ==> received_by(c, piped(tx, msgs)) == Seq::<MessageView>::empty(),
    decreases msgs.len(),
{
    if msgs.len() > 0 {
        pipe_passes_everything_through(tx, c, msgs.drop_last());
        assert(piped(tx, msgs).drop_last() =~= piped(tx, msgs.drop_last()));
        assert(piped(tx, msgs).last().message == msgs.last());
        assert(msgs.drop_last().push(msgs.last()) =~= msgs);
    } else {
        assert(msgs =~= Seq::<MessageView>::empty());
    }
}

/// The policy matrix with tasks planned: children that end cleanly end the
/// run with success; tasks that end, in whatever way, end it with an error;
/// so do children that fail; log drains that end change nothing.
pub proof fn policy_with_pipes(res: Result<(), Seq<char>>)
    ensures
        verdict(true, Arm::Processes, Ok(())) == VerdictView::Exit(Ok(())),
        verdict(true, Arm::Processes, res) matches VerdictView::Exit(r) && (r is Err <==> res
            is Err),
        verdict(true, Arm::Pipes, res) matches VerdictView::Exit(Err(_)),
        verdict(true, Arm::Loggers, res) == VerdictView::Continue,
{
}

/// The policy matrix without tasks: whatever ends, and however, the run ends
/// with an error.
pub proof fn policy_without_pipes(arm: Arm, res: Result<(), Seq<char>>)
    ensures
        verdict(false, arm, res) matches VerdictView::Exit(Err(_)),
{
}

/// With tasks planned, a run goes on past the end of the log drains: its
/// result is that of the arms that end afterwards.
pub proof fn run_outlives_loggers(res: Result<(), Seq<char>>, rest: Seq<Completion>)
    ensures
        run_outcome(true, seq![Completion { arm: Arm::Loggers, res }] + rest) == run_outcome(
            true,
            rest,
        ),
{
    let all = seq![Completion { arm: Arm::Loggers, res }] + rest;
    assert(all.first() == Completion { arm: Arm::Loggers, res });
    assert(all.drop_first() =~= rest);
}

} // verus!
