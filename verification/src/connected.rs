//! The connected orchestrator: bridges to the started children, and the
//! primitives that wire them into a dataflow topology.
//!
//! Wiring plans tasks, it does not run them. Each primitive takes the channel
//! halves it needs out of the bridges, so a half can be wired only once, and
//! appends a [`Pipe`] that says what the task owns. The embedding program runs
//! one worker per planned pipe.

use vstd::prelude::*;
use crate::channel::Channel;
use crate::channel::ReceiverHalf;
use crate::channel::SenderHalf;
use crate::error::outcome;
use crate::forward::sink_topics;
use crate::forward::TopicSink;
use crate::message::Message;
use crate::queue::queue_sender_clone;
use crate::queue::queue_unbounded;
use crate::topology::shovels;
use crate::error::ConfigError;
use crate::error::ConfigFault;
use crate::routing::RouteTable;
use crate::supervisor::ending_views;
use crate::supervisor::run_answer;
use crate::supervisor::run_outcome;
use crate::supervisor::run_until_exit;
use crate::supervisor::Ending;
use crate::supervisor::SupervisorError;
use crate::topology::free_receivers;
use crate::topology::without_receivers;
use crate::topology::HalfState;
use crate::topology::PipeView;
use crate::topology::Topology;

verus! {

/// Communication channel to the child `name`.
#[derive(Debug)]
pub struct Bridge {
    pub channel: Channel,
    pub name: String,
}

impl Bridge {
    /// What is left of this bridge.
    pub open spec fn state(&self) -> HalfState {
        HalfState {
            chan: self.channel.chan(),
            has_rx: self.channel.has_rx(),
            has_tx: self.channel.has_tx(),
        }
    }
}

/// A planned task together with the channel halves it owns.
#[derive(Debug)]
pub enum Pipe {
    /// Forward every message from `rx` to `tx`, unchanged and in order.
    Direct { rx: ReceiverHalf, tx: SenderHalf },
    /// Forward every message from `rx` into the queue of its topic in `out`.
    ForwardRx { rx: ReceiverHalf, out: Vec<TopicSink> },
    /// Forward every message of the queue `input` to `tx`, in order.
    ForwardTx { input: crossbeam::channel::Receiver<Message>, tx: SenderHalf },
    /// Wait on all of `receivers` at once and fan each message out by `routes`.
    Router { receivers: Vec<ReceiverHalf>, routes: RouteTable },
    /// Move every message from `rx` into the queue behind `sink`.
    Shovel { rx: ReceiverHalf, sink: crossbeam::channel::Sender<Message> },
    /// Fan every message of `queue` out by `routes`.
    Dispatcher { queue: crossbeam::channel::Receiver<Message>, routes: RouteTable },
}

/// The channel numbers of a list of receiving halves.
pub open spec fn receiver_channels(receivers: Seq<ReceiverHalf>) -> Seq<u64> {
    Seq::new(receivers.len(), |i: int| receivers[i].chan())
}

impl View for Pipe {
    type V = PipeView;

    open spec fn view(&self) -> PipeView {
        match self {
            Pipe::Direct { rx, tx } => PipeView::Direct { rx: rx.chan(), tx: tx.chan() },
            Pipe::ForwardRx { rx, out } => PipeView::ForwardRx {
                rx: rx.chan(),
                topics: sink_topics(out@),
            },
            Pipe::ForwardTx { input, tx } => PipeView::ForwardTx { tx: tx.chan() },
            Pipe::Router { receivers, routes } => PipeView::Router {
                receivers: receiver_channels(receivers@),
                routes: routes@,
            },
            Pipe::Shovel { rx, sink } => PipeView::Shovel { rx: rx.chan() },
            Pipe::Dispatcher { queue, routes } => PipeView::Dispatcher { routes: routes@ },
        }
    }
}

/// The names of a list of bridges, in order.
pub open spec fn bridge_names(bridges: Seq<Bridge>) -> Seq<Seq<char>> {
    Seq::new(bridges.len(), |i: int| bridges[i].name@)
}

/// Whether the bridge at position `i` is called `name`.
pub open spec fn named_at(bridges: Seq<Bridge>, name: Seq<char>, i: int) -> bool {
    0 <= i < bridges.len() && bridges[i].name@ == name
}

/// The bridges by name. Where a name occurs more than once, one of its bridges
/// stands for it.
pub open spec fn bridge_map(bridges: Seq<Bridge>) -> Map<Seq<char>, HalfState> {
    Map::new(
        |name: Seq<char>| exists|i: int| named_at(bridges, name, i),
        |name: Seq<char>| bridges[choose|i: int| named_at(bridges, name, i)].state(),
    )
}

/// No two bridges share a name.
pub open spec fn distinct_names(bridges: Seq<Bridge>) -> bool {
    forall|i: int, j: int| 0 <= i < j < bridges.len() ==> bridges[i].name@ != bridges[j].name@
}

/// The views of a list of pipes.
pub open spec fn pipe_views(pipes: Seq<Pipe>) -> Seq<PipeView> {
    Seq::new(pipes.len(), |i: int| pipes[i]@)
}

/// With distinct names, the bridge at a position is the one its name maps to.
pub proof fn bridge_map_at(bridges: Seq<Bridge>, i: int)
    requires
        distinct_names(bridges),
        0 <= i < bridges.len(),
    ensures
        bridge_map(bridges).contains_key(bridges[i].name@),
        bridge_map(bridges)[bridges[i].name@] == bridges[i].state(),
{
    let name = bridges[i].name@;
    assert(named_at(bridges, name, i));
    let k = choose|k: int| named_at(bridges, name, k);
    if k < i {
        assert(bridges[k].name@ != bridges[i].name@);
    } else if i < k {
        assert(bridges[i].name@ != bridges[k].name@);
    }
}

/// A name that no bridge carries is not in the map.
pub proof fn bridge_map_absent(bridges: Seq<Bridge>, name: Seq<char>)
    requires
        forall|i: int| 0 <= i < bridges.len() ==> bridges[i].name@ != name,
    ensures
        !bridge_map(bridges).contains_key(name),
{
    assert(!exists|i: int| named_at(bridges, name, i));
}

/// Replacing the state of the bridge at position `i`, names untouched,
/// replaces the entry of its name.
proof fn bridge_map_update(before: Seq<Bridge>, after: Seq<Bridge>, i: int)
    requires
        distinct_names(before),
        0 <= i < before.len(),
        after.len() == before.len(),
        forall|j: int| 0 <= j < before.len() ==> after[j].name@ == before[j].name@,
        forall|j: int| 0 <= j < before.len() && j != i ==> after[j].state() == before[j].state(),
    ensures
        distinct_names(after),
        bridge_names(after) == bridge_names(before),
        bridge_map(after) == bridge_map(before).insert(before[i].name@, after[i].state()),
{
    let target = bridge_map(before).insert(before[i].name@, after[i].state());
    assert(bridge_names(after) =~= bridge_names(before));
    assert forall|name: Seq<char>|
        (#[trigger] bridge_map(after).dom().contains(name) <==> target.dom().contains(name)) && (
        bridge_map(after).dom().contains(name) ==> bridge_map(after)[name] == target[name]) by {
        if exists|k: int| named_at(before, name, k) {
            let k = choose|k: int| named_at(before, name, k);
            assert(named_at(after, name, k));
            bridge_map_at(before, k);
            bridge_map_at(after, k);
        } else {
            assert forall|k: int| 0 <= k < after.len() implies after[k].name@ != name by {
                assert(!named_at(before, name, k));
            }
            bridge_map_absent(after, name);
        }
    }
    assert(bridge_map(after) =~= target);
}

/// Clearing the receiver flag of every bridge, names untouched, clears it in
/// every entry of the map.
proof fn bridge_map_without_receivers(before: Seq<Bridge>, after: Seq<Bridge>)
    requires
        distinct_names(before),
        after.len() == before.len(),
        forall|j: int| 0 <= j < before.len() ==> after[j].name@ == before[j].name@,
        forall|j: int|
            0 <= j < before.len() ==> after[j].state() == (HalfState {
                has_rx: false,
                ..before[j].state()
            }),
    ensures
        distinct_names(after),
        bridge_names(after) == bridge_names(before),
        bridge_map(after) == without_receivers(bridge_map(before)),
{
    let target = without_receivers(bridge_map(before));
    assert(bridge_names(after) =~= bridge_names(before));
    assert forall|name: Seq<char>|
        (#[trigger] bridge_map(after).dom().contains(name) <==> target.dom().contains(name)) && (
        bridge_map(after).dom().contains(name) ==> bridge_map(after)[name] == target[name]) by {
        if exists|k: int| named_at(before, name, k) {
            let k = choose|k: int| named_at(before, name, k);
            assert(named_at(after, name, k));
            bridge_map_at(before, k);
            bridge_map_at(after, k);
        } else {
            assert forall|k: int| 0 <= k < after.len() implies after[k].name@ != name by {
                assert(!named_at(before, name, k));
            }
            bridge_map_absent(after, name);
        }
    }
    assert(bridge_map(after) =~= target);
}

/// Orchestrator whose children are started and connected, ready to be wired.
#[derive(Debug)]
pub struct ConnectedOrchestrator {
    bridges: Vec<Bridge>,
    routes: Option<RouteTable>,
    pipes: Vec<Pipe>,
}

impl View for ConnectedOrchestrator {
    type V = Topology;

    closed spec fn view(&self) -> Topology {
        Topology {
            bridges: bridge_map(self.bridges@),
            order: bridge_names(self.bridges@),
            routes: match self.routes {
                Some(r) => Some(r@),
                None => None,
            },
            pipes: pipe_views(self.pipes@),
        }
    }
}

impl ConnectedOrchestrator {
    /// Bridge names are unique, and the route table, while it is there, is
    /// well formed.
    pub closed spec fn wf(&self) -> bool {
        &&& distinct_names(self.bridges@)
        &&& self.routes is Some ==> self.routes->0.wf()
    }

    /// An orchestrator over `bridges`, with empty routes and no task planned.
    /// Two bridges of one name are refused.
    pub fn new(bridges: Vec<Bridge>) -> (r: Result<ConnectedOrchestrator, ConfigError>)
        ensures
            match r {
                Ok(o) => distinct_names(bridges@) && o.wf() && o@ == (Topology {
                    bridges: bridge_map(bridges@),
                    order: bridge_names(bridges@),
                    routes: Some(Map::empty()),
                    pipes: Seq::empty(),
                }),
                Err(e) => exists|i: int, j: int|
                    0 <= i < j < bridges@.len() && bridges@[i].name@ == bridges@[j].name@ && e@
                        == (ConfigFault::DuplicateBridge { name: bridges@[j].name@ }),
            },
    {
        let n: usize = bridges.len();
        let mut j: usize = 0;
        while j < n
            invariant
                j <= n,
                n == bridges@.len(),
                forall|a: int, b: int| 0 <= a < b < j ==> bridges@[a].name@ != bridges@[b].name@,
            decreases n - j,
        {
            let mut i: usize = 0;
            while i < j
                invariant
                    i <= j,
                    j < n,
                    n == bridges@.len(),
                    forall|a: int| 0 <= a < i ==> bridges@[a].name@ != bridges@[j as int].name@,
                decreases j - i,
            {
                if bridges[i].name == bridges[j].name {
                    return Err(ConfigError::DuplicateBridge { name: bridges[j].name.clone() });
                }
                i += 1;
            }
            j += 1;
        }
        let o = ConnectedOrchestrator {
            bridges,
            routes: Some(RouteTable::new()),
            pipes: Vec::new(),
        };
        proof {
            assert(pipe_views(o.pipes@) =~= Seq::<PipeView>::empty());
        }
        Ok(o)
    }

    /// The bridge called `name`, if there is one.
    pub fn bridge(&self, name: &str) -> (r: Option<&Bridge>)
        requires
            self.wf(),
        ensures
            match r {
                Some(b) => self@.bridges.contains_key(name@) && b.name@ == name@ && b.state()
                    == self@.bridges[name@],
                None => !self@.bridges.contains_key(name@),
            },
    {
        let key = name.to_owned();
        match self.position(&key) {
            Some(i) => {
                proof {
                    bridge_map_at(self.bridges@, i as int);
                }
                Some(&self.bridges[i])
            },
            None => {
                proof {
                    bridge_map_absent(self.bridges@, name@);
                }
                None
            },
        }
    }

    /// Number of bridges.
    pub fn bridge_count(&self) -> (n: usize)
        ensures
            n == self@.order.len(),
    {
        self.bridges.len()
    }

    /// Whether a router was spawned, which closed the routes to further edits.
    pub fn is_sealed(&self) -> (r: bool)
        ensures
            r == (self@.routes is None),
    {
        self.routes.is_none()
    }

    /// Whether any task was planned.
    pub fn has_pipes(&self) -> (r: bool)
        ensures
            r == (self@.pipes.len() > 0),
    {
        self.pipes.len() > 0
    }

    /// The tasks planned so far, with everything they own.
    pub closed spec fn planned(&self) -> Seq<Pipe> {
        self.pipes@
    }

    /// The tasks planned so far, oldest first.
    pub fn pipes(&self) -> (r: &Vec<Pipe>)
        ensures
            r@ == self.planned(),
            pipe_views(r@) == self@.pipes,
    {
        &self.pipes
    }

    /// Gives up the orchestrator for the tasks it planned, oldest first.
    pub fn into_pipes(self) -> (r: Vec<Pipe>)
        ensures
            r@ == self.planned(),
            pipe_views(r@) == self@.pipes,
    {
        self.pipes
    }

    /// Position of the bridge called `name`, if there is one.
    fn position(&self, name: &String) -> (r: Option<usize>)
        ensures
            match r {
                Some(i) => named_at(self.bridges@, name@, i as int),
                None => forall|i: int|
                    0 <= i < self.bridges@.len() ==> self.bridges@[i].name@ != name@,
            },
    {
        let mut i: usize = 0;
        while i < self.bridges.len()
            invariant
                i <= self.bridges@.len(),
                forall|j: int| 0 <= j < i ==> self.bridges@[j].name@ != name@,
            decreases self.bridges@.len() - i,
        {
            if self.bridges[i].name == *name {
                return Some(i);
            }
            i += 1;
        }
        None
    }

    /// Takes the receiving half of the bridge called `name`.
    fn take_bridge_rx(&mut self, name: &str) -> (r: Result<ReceiverHalf, ConfigError>)
        requires
            old(self).wf(),
        ensures
            final(self).wf(),
            final(self)@ == (Topology { bridges: final(self)@.bridges, ..old(self)@ }),
            (final(self)@.bridges, taken_channel_rx(r)) == crate::topology::take_rx(
                old(self)@.bridges,
                name@,
            ),
    {
        let key = name.to_owned();
        let ghost before = self.bridges@;
        match self.position(&key) {
            None => {
                proof {
                    bridge_map_absent(before, name@);
                }
                Err(ConfigError::BridgeNotFound { name: key })
            },
            Some(i) => {
                proof {
                    bridge_map_at(before, i as int);
                }
                let taken = self.bridges[i].channel.rx_take();
                proof {
                    bridge_map_update(before, self.bridges@, i as int);
                }
                match taken {
                    Some(rx) => Ok(rx),
                    None => {
                        assert(self.bridges@[i as int].state() == before[i as int].state());
                        assert(bridge_map(before).insert(name@, before[i as int].state())
                            =~= bridge_map(before));
                        Err(ConfigError::ReceiverTaken { name: key })
                    },
                }
            },
        }
    }

    /// Takes the sending half of the bridge called `name`.
    fn take_bridge_tx(&mut self, name: &str) -> (r: Result<SenderHalf, ConfigError>)
        requires
            old(self).wf(),
        ensures
            final(self).wf(),
            final(self)@ == (Topology { bridges: final(self)@.bridges, ..old(self)@ }),
            (final(self)@.bridges, taken_channel_tx(r)) == crate::topology::take_tx(
                old(self)@.bridges,
                name@,
            ),
    {
        let key = name.to_owned();
        let ghost before = self.bridges@;
        match self.position(&key) {
            None => {
                proof {
                    bridge_map_absent(before, name@);
                }
                Err(ConfigError::BridgeNotFound { name: key })
            },
            Some(i) => {
                proof {
                    bridge_map_at(before, i as int);
                }
                let taken = self.bridges[i].channel.tx_take();
                proof {
                    bridge_map_update(before, self.bridges@, i as int);
                }
                match taken {
                    Some(tx) => Ok(tx),
                    None => {
                        assert(self.bridges@[i as int].state() == before[i as int].state());
                        assert(bridge_map(before).insert(name@, before[i as int].state())
                            =~= bridge_map(before));
                        Err(ConfigError::SenderTaken { name: key })
                    },
                }
            },
        }
    }

    /// Plans a pipe from the bridge `b_in` to the bridge `b_out`: every message
    /// that `b_in`'s child sends goes to `b_out`'s child, unchanged and in order.
    ///
    /// Takes the receiver of `b_in`, then the sender of `b_out`. Fails where a
    /// bridge is missing or the half was taken before; a receiver that was
    /// taken before the failure stays taken.
    pub fn pipe_bridges(&mut self, b_in: &str, b_out: &str) -> (r: Result<(), ConfigError>)
        requires
            old(self).wf(),
        ensures
            final(self).wf(),
            (final(self)@, outcome(r)) == crate::topology::pipe_bridges(old(self)@, b_in@, b_out@),
    {
        let rx = match self.take_bridge_rx(b_in) {
            Ok(rx) => rx,
            Err(e) => {
                return Err(e);
            },
        };
        let tx = match self.take_bridge_tx(b_out) {
            Ok(tx) => tx,
            Err(e) => {
                return Err(e);
            },
        };
        let ghost pipes = self.pipes@;
        self.pipes.push(Pipe::Direct { rx, tx });
        proof {
            assert(pipe_views(self.pipes@) =~= pipe_views(pipes).push(
                PipeView::Direct { rx: rx.chan(), tx: tx.chan() },
            ));
        }
        Ok(())
    }

    /// Subscribes the bridge `b_out` to `topic`: once a router runs, every
    /// message on that topic is delivered to `b_out`'s child, after the
    /// subscribers declared before. Plans no task by itself.
    ///
    /// Takes the sender of `b_out`, then edits the routes. Fails where the
    /// bridge is missing, its sender was taken before, or a router was spawned
    /// already; in the last case the sender stays taken.
    pub fn route_topic_to_bridge(&mut self, topic: &str, b_out: &str) -> (r: Result<
        (),
        ConfigError,
    >)
        requires
            old(self).wf(),
        ensures
            final(self).wf(),
            (final(self)@, outcome(r)) == crate::topology::route_topic_to_bridge(
                old(self)@,
                topic@,
                b_out@,
            ),
    {
        let tx = match self.take_bridge_tx(b_out) {
            Ok(tx) => tx,
            Err(e) => {
                return Err(e);
            },
        };
        match self.routes.take() {
            Some(mut table) => {
                table.add(topic.to_owned(), tx);
                self.routes = Some(table);
                Ok(())
            },
            None => Err(ConfigError::RoutesSealed),
        }
    }

    /// Takes every receiver that is still free, in the order in which the
    /// children were started.
    fn take_free_receivers(&mut self) -> (receivers: Vec<ReceiverHalf>)
        requires
            old(self).wf(),
        ensures
            final(self).wf(),
            final(self)@ == (Topology {
                bridges: without_receivers(old(self)@.bridges),
                ..old(self)@
            }),
            receiver_channels(receivers@) == free_receivers(old(self)@.order, old(self)@.bridges),
    {
        let ghost before = self.bridges@;
        let ghost names = bridge_names(before);
        let ghost map = bridge_map(before);
        let mut receivers: Vec<ReceiverHalf> = Vec::new();
        let n: usize = self.bridges.len();
        let mut i: usize = 0;
        proof {
            assert(names.take(0) =~= Seq::<Seq<char>>::empty());
            assert(receiver_channels(receivers@) =~= Seq::<u64>::empty());
        }
        while i < n
            invariant
                i <= n,
                n == before.len(),
                self.bridges@.len() == n,
                distinct_names(before),
                names == bridge_names(before),
                map == bridge_map(before),
                self.routes == old(self).routes,
                self.pipes == old(self).pipes,
                forall|j: int| 0 <= j < n ==> self.bridges@[j].name@ == before[j].name@,
                forall|j: int|
                    0 <= j < i ==> self.bridges@[j].state() == (HalfState {
                        has_rx: false,
                        ..before[j].state()
                    }),
                forall|j: int| i <= j < n ==> self.bridges@[j].state() == before[j].state(),
                receiver_channels(receivers@) == free_receivers(names.take(i as int), map),
            decreases n - i,
        {
            let ghost got = receiver_channels(receivers@);
            let taken = self.bridges[i].channel.rx_take();
            match taken {
                Some(rx) => {
                    receivers.push(rx);
                    proof {
                        assert(receiver_channels(receivers@) =~= got.push(rx.chan()));
                    }
                },
                None => {},
            }
            proof {
                bridge_map_at(before, i as int);
                assert(names.take(i + 1).drop_last() =~= names.take(i as int));
                assert(names.take(i + 1).last() == before[i as int].name@);
            }
            i += 1;
        }
        proof {
            assert(names.take(n as int) =~= names);
            bridge_map_without_receivers(before, self.bridges@);
        }
        receivers
    }

    /// Seals the routes and plans the synchronous router: one task that waits
    /// on every receiver that was still free and fans each message out to the
    /// subscribers of its topic.
    ///
    /// The free receivers are taken first. Fails where a router was spawned
    /// before; the receivers then stay taken and no task is planned.
    pub fn pipe_routes(&mut self) -> (r: Result<(), ConfigError>)
        requires
            old(self).wf(),
        ensures
            final(self).wf(),
            (final(self)@, outcome(r)) == crate::topology::pipe_routes(old(self)@),
    {
        let receivers = self.take_free_receivers();
        match self.routes.take() {
            None => Err(ConfigError::RoutesSealed),
            Some(routes) => {
                let ghost pipes = self.pipes@;
                let ghost planned = PipeView::Router {
                    receivers: receiver_channels(receivers@),
                    routes: routes@,
                };
                self.pipes.push(Pipe::Router { receivers, routes });
                proof {
                    assert(pipe_views(self.pipes@) =~= pipe_views(pipes).push(planned));
                }
                Ok(())
            },
        }
    }

    /// Plans a task that forwards every message of the bridge `b_in` into the
    /// queue that `out` holds for the message's topic.
    ///
    /// An empty `out` is refused before anything is taken. Otherwise takes the
    /// receiver of `b_in`, and fails where the bridge is missing or its
    /// receiver was taken before. The planned task owns `out` as it was given.
    pub fn forward_bridge_rx(&mut self, b_in: &str, out: Vec<TopicSink>) -> (r: Result<
        (),
        ConfigError,
    >)
        requires
            old(self).wf(),
        ensures
            final(self).wf(),
            (final(self)@, outcome(r)) == crate::topology::forward_bridge_rx(
                old(self)@,
                b_in@,
                sink_topics(out@),
            ),
            r is Ok ==> (final(self).planned().last() matches Pipe::ForwardRx { out: owned, .. }
                && owned == out),
    {
        if out.len() == 0 {
            return Err(ConfigError::EmptyTopicMap);
        }
        let rx = match self.take_bridge_rx(b_in) {
            Ok(rx) => rx,
            Err(e) => {
                return Err(e);
            },
        };
        let ghost pipes = self.pipes@;
        let ghost planned = PipeView::ForwardRx { rx: rx.chan(), topics: sink_topics(out@) };
        self.pipes.push(Pipe::ForwardRx { rx, out });
        proof {
            assert(pipe_views(self.pipes@) =~= pipe_views(pipes).push(planned));
        }
        Ok(())
    }

    /// Plans a task that forwards every message of the queue `input` to the
    /// bridge `b_out`, in order.
    ///
    /// Takes the sender of `b_out`, and fails where the bridge is missing or
    /// its sender was taken before. The planned task owns `input`.
    pub fn forward_bridge_tx(
        &mut self,
        b_out: &str,
        input: crossbeam::channel::Receiver<Message>,
    ) -> (r: Result<(), ConfigError>)
        requires
            old(self).wf(),
        ensures
            final(self).wf(),
            (final(self)@, outcome(r)) == crate::topology::forward_bridge_tx(old(self)@, b_out@),
            r is Ok ==> (final(self).planned().last() matches Pipe::ForwardTx {
                input: owned,
                ..
            } && owned == input),
    {
        let tx = match self.take_bridge_tx(b_out) {
            Ok(tx) => tx,
            Err(e) => {
                return Err(e);
            },
        };
        let ghost pipes = self.pipes@;
        let ghost planned = PipeView::ForwardTx { tx: tx.chan() };
        self.pipes.push(Pipe::ForwardTx { input, tx });
        proof {
            assert(pipe_views(self.pipes@) =~= pipe_views(pipes).push(planned));
        }
        Ok(())
    }

    /// Seals the routes and plans the buffered router: one shovel for every
    /// receiver that was still free, each moving its bridge's messages into a
    /// queue without a capacity limit, and one dispatcher that fans the
    /// messages of that queue out to the subscribers of their topics.
    ///
    /// The routes are looked at first. Fails where a router was spawned
    /// before, and changes nothing then.
    pub fn pipe_routes_via_crossbeam(&mut self) -> (r: Result<(), ConfigError>)
        requires
            old(self).wf(),
        ensures
            final(self).wf(),
            (final(self)@, outcome(r)) == crate::topology::pipe_routes_via_crossbeam(old(self)@),
    {
        let routes = match self.routes.take() {
            Some(routes) => routes,
            None => {
                return Err(ConfigError::RoutesSealed);
            },
        };
        let (tx, rx) = queue_unbounded();
        let ghost before = self.bridges@;
        let ghost names = bridge_names(before);
        let ghost map = bridge_map(before);
        let ghost pipes = pipe_views(self.pipes@);
        let n: usize = self.bridges.len();
        let mut i: usize = 0;
        proof {
            assert(names.take(0) =~= Seq::<Seq<char>>::empty());
            assert(pipes + shovels(Seq::<u64>::empty()) =~= pipes);
        }
        while i < n
            invariant
                i <= n,
                n == before.len(),
                self.bridges@.len() == n,
                distinct_names(before),
                names == bridge_names(before),
                map == bridge_map(before),
                self.routes is None,
                forall|j: int| 0 <= j < n ==> self.bridges@[j].name@ == before[j].name@,
                forall|j: int|
                    0 <= j < i ==> self.bridges@[j].state() == (HalfState {
                        has_rx: false,
                        ..before[j].state()
                    }),
                forall|j: int| i <= j < n ==> self.bridges@[j].state() == before[j].state(),
                pipe_views(self.pipes@) == pipes + shovels(
                    free_receivers(names.take(i as int), map),
                ),
            decreases n - i,
        {
            let ghost got = free_receivers(names.take(i as int), map);
            let ghost planned = pipe_views(self.pipes@);
            let queue = queue_sender_clone(&tx);
            let taken = self.bridges[i].channel.rx_take();
            proof {
                bridge_map_at(before, i as int);
                assert(names.take(i + 1).drop_last() =~= names.take(i as int));
                assert(names.take(i + 1).last() == before[i as int].name@);
            }
            match taken {
                Some(rx) => {
                    self.pipes.push(Pipe::Shovel { rx, sink: queue });
                    proof {
                        assert(pipe_views(self.pipes@) =~= planned.push(
                            PipeView::Shovel { rx: rx.chan() },
                        ));
                        assert(pipes + shovels(got.push(rx.chan())) =~= (pipes + shovels(
                            got,
                        )).push(PipeView::Shovel { rx: rx.chan() }));
                    }
                },
                None => {},
            }
            i += 1;
        }
        proof {
            assert(names.take(n as int) =~= names);
            bridge_map_without_receivers(before, self.bridges@);
        }
        let ghost planned = pipe_views(self.pipes@);
        let ghost last = PipeView::Dispatcher { routes: routes@ };
        self.pipes.push(Pipe::Dispatcher { queue: rx, routes });
        proof {
            assert(pipe_views(self.pipes@) =~= planned.push(last));
        }
        Ok(())
    }

    /// The result of a run in which the arms end in the order of `endings`.
    ///
    /// The tasks planned so far decide which policy holds: with any task
    /// planned, the tasks must not end, the children may end cleanly, and the
    /// end of the log drains is passed over; without a task, nothing may end.
    /// The first ending that the policy does not pass over is the result;
    /// `None` says that the run is still waiting after all of them.
    pub fn run(self, endings: &Vec<Ending>) -> (r: Option<Result<(), SupervisorError>>)
        ensures
            run_answer(r) == run_outcome(self@.pipes.len() > 0, ending_views(endings@)),
    {
        run_until_exit(self.has_pipes(), endings)
    }
}

/// The channel whose receiver a take handed out, or the fault.
pub open spec fn taken_channel_rx(r: Result<ReceiverHalf, ConfigError>) -> Result<u64, ConfigFault> {
    match r {
        Ok(rx) => Ok(rx.chan()),
        Err(e) => Err(e@),
    }
}

/// The channel whose sender a take handed out, or the fault.
pub open spec fn taken_channel_tx(r: Result<SenderHalf, ConfigError>) -> Result<u64, ConfigFault> {
    match r {
        Ok(tx) => Ok(tx.chan()),
        Err(e) => Err(e@),
    }
}

} // verus!
