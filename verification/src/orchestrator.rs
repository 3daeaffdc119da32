//! The builder: which children were started, and what their handshakes make
//! of them.

use vstd::prelude::*;
use crate::channel::Channel;
use crate::connected::bridge_map;
use crate::connected::bridge_names;
use crate::connected::distinct_names;
use crate::connected::Bridge;
use crate::connected::ConnectedOrchestrator;
use crate::error::ConfigError;
use crate::error::ConfigFault;
use crate::ownership::exclusive;
use crate::topology::HalfState;
use crate::topology::Topology;

verus! {

/// Name of the environment variable through which a child learns the
/// rendezvous address for its channel.
pub const IPC_SERVER_ENV_VAR: &'static str = "IPC_SERVER";

/// A child did not hand over its channel.
#[derive(Debug)]
pub struct HandshakeError {
    /// The first child, in start order, whose channel is missing.
    pub name: String,
}

/// Orchestrator before its children are connected.
#[derive(Debug)]
pub struct Orchestrator {
    ipc: bool,
    names: Vec<String>,
}

/// The views of a list of names.
pub open spec fn name_views(names: Seq<String>) -> Seq<Seq<char>> {
    Seq::new(names.len(), |i: int| names[i]@)
}

/// Whether the child at position `i` handed over its channel.
pub open spec fn delivered_at(delivered: Seq<bool>, i: int) -> bool {
    0 <= i < delivered.len() && delivered[i]
}

/// Whether the child at position `i` is the first that did not hand over its
/// channel.
pub open spec fn first_missing(delivered: Seq<bool>, i: int) -> bool {
    &&& !delivered_at(delivered, i)
    &&& forall|j: int| 0 <= j < i ==> delivered_at(delivered, j)
}

/// The bridges of freshly connected children: the child started at position
/// `i` gets the intact channel number `i`.
pub open spec fn fresh_bridges(names: Seq<Seq<char>>) -> Map<Seq<char>, HalfState> {
    Map::new(
        |name: Seq<char>| names.contains(name),
        |name: Seq<char>|
            HalfState { chan: names.index_of(name) as u64, has_rx: true, has_tx: true },
    )
}

/// What a start answered, as a mathematical value.
pub open spec fn started_outcome(r: Result<bool, ConfigError>) -> Result<(), ConfigFault> {
    match r {
        Ok(_) => Ok(()),
        Err(e) => Err(e@),
    }
}

/// An empty builder with channels enabled.
pub fn orchestrator() -> (o: Orchestrator)
    ensures
        o.wf(),
        o.ipc_enabled(),
        o.started() == Seq::<Seq<char>>::empty(),
{
    Orchestrator::new(true)
}

impl Orchestrator {
    /// No two started children share a name.
    pub closed spec fn wf(&self) -> bool {
        forall|i: int, j: int|
            0 <= i < j < self.names@.len() ==> self.names@[i]@ != self.names@[j]@
    }

    /// Whether the children get a channel.
    pub closed spec fn ipc_enabled(&self) -> bool {
        self.ipc
    }

    /// The names of the children started so far, in start order.
    pub closed spec fn started(&self) -> Seq<Seq<char>> {
        name_views(self.names@)
    }

    /// An empty builder. With `ipc` off, children are started without a
    /// channel, and connecting yields no bridges.
    pub fn new(ipc: bool) -> (o: Orchestrator)
        ensures
            o.wf(),
            o.ipc_enabled() == ipc,
            o.started() == Seq::<Seq<char>>::empty(),
    {
        let o = Orchestrator { ipc, names: Vec::new() };
        proof {
            assert(o.started() =~= Seq::<Seq<char>>::empty());
        }
        o
    }

    /// Switches the children's channels on or off.
    pub fn ipc(self, ipc: bool) -> (o: Orchestrator)
        requires
            self.wf(),
        ensures
            o.wf(),
            o.ipc_enabled() == ipc,
            o.started() == self.started(),
    {
        Orchestrator { ipc, names: self.names }
    }

    /// Records the start of the child `name`. A name that was started before
    /// is refused and nothing is recorded. Otherwise the answer says whether
    /// the child needs a rendezvous address for its channel.
    pub fn start(&mut self, name: &str) -> (r: Result<bool, ConfigError>)
        requires
            old(self).wf(),
        ensures
            final(self).wf(),
            final(self).ipc_enabled() == old(self).ipc_enabled(),
            (final(self).started(), started_outcome(r)) == crate::topology::start(
                old(self).started(),
                name@,
            ),
            r matches Ok(rendezvous) ==> rendezvous == old(self).ipc_enabled(),
    {
        let key = name.to_owned();
        let mut i: usize = 0;
        while i < self.names.len()
            invariant
                i <= self.names@.len(),
                key@ == name@,
                self.wf(),
                self.ipc == old(self).ipc,
                self.names == old(self).names,
                forall|j: int| 0 <= j < i ==> self.names@[j]@ != name@,
            decreases self.names@.len() - i,
        {
            if self.names[i] == key {
                proof {
                    assert(self.started()[i as int] == name@);
                }
                return Err(ConfigError::DuplicateBridge { name: key });
            }
            i += 1;
        }
        proof {
            assert forall|j: int| 0 <= j < self.started().len() implies self.started()[j]
                != name@ by {
                assert(self.names@[j]@ != name@);
            }
        }
        let ghost before = self.started();
        self.names.push(key);
        proof {
            assert(self.started() =~= before.push(name@));
        }
        Ok(self.ipc)
    }

    /// Completes the builder once the handshakes are over. `delivered` says,
    /// for each child in start order, whether its channel arrived; a child
    /// beyond the end of the list counts as missing.
    ///
    /// With channels off, there is nothing to wait for and no bridge results.
    /// With channels on, every child must have delivered: then each gets a
    /// bridge under its name, with an intact channel numbered by its position.
    /// Otherwise the first missing child is named.
    pub fn connect(self, delivered: &Vec<bool>) -> (r: Result<
        ConnectedOrchestrator,
        HandshakeError,
    >)
        requires
            self.wf(),
        ensures
            match r {
                Ok(c) => {
                    &&& c.wf()
                    &&& exclusive(c@)
                    &&& self.ipc_enabled() ==> forall|i: int|
                        0 <= i < self.started().len() ==> delivered_at(delivered@, i)
                    &&& c@ == (Topology {
                        bridges: if self.ipc_enabled() {
                            fresh_bridges(self.started())
                        } else {
                            Map::empty()
                        },
                        order: if self.ipc_enabled() {
                            self.started()
                        } else {
                            Seq::empty()
                        },
                        routes: Some(Map::empty()),
                        pipes: Seq::empty(),
                    })
                },
                Err(e) => {
                    &&& self.ipc_enabled()
                    &&& exists|i: int|
                        0 <= i < self.started().len() && #[trigger] first_missing(delivered@, i)
                            && e.name@ == self.started()[i]
                },
            },
    {
        let mut bridges: Vec<Bridge> = Vec::new();
        if self.ipc {
            let n: usize = self.names.len();
            let mut i: usize = 0;
            while i < n
                invariant
                    i <= n,
                    n == self.names@.len(),
                    self.ipc,
                    bridges@.len() == i,
                    forall|j: int| 0 <= j < i ==> delivered_at(delivered@, j),
                    forall|j: int|
                        0 <= j < i ==> (#[trigger] bridges@[j]).name@ == self.names@[j]@
                            && bridges@[j].state() == (HalfState {
                            chan: j as u64,
                            has_rx: true,
                            has_tx: true,
                        }),
                decreases n - i,
            {
                if i >= delivered.len() || !delivered[i] {
                    proof {
                        assert(self.started()[i as int] == self.names@[i as int]@);
                        assert(first_missing(delivered@, i as int));
                    }
                    return Err(HandshakeError { name: self.names[i].clone() });
                }
                bridges.push(Bridge { channel: Channel::intact(i as u64), name: self.names[i].clone() });
                i += 1;
            }
        }
        let ghost made = bridges@;
        proof {
            if self.ipc {
                assert(bridge_names(made) =~= self.started());
                assert(distinct_names(made));
                assert forall|name: Seq<char>|
                    (#[trigger] bridge_map(made).dom().contains(name) <==> fresh_bridges(
                        self.started(),
                    ).dom().contains(name)) && (bridge_map(made).dom().contains(name)
                        ==> bridge_map(made)[name] == fresh_bridges(self.started())[name]) by {
                    if self.started().contains(name) {
                        let k = self.started().index_of(name);
                        assert(crate::connected::named_at(made, name, k));
                        crate::connected::bridge_map_at(made, k);
                    } else {
                        assert forall|k: int| 0 <= k < made.len() implies made[k].name@
                            != name by {
                            assert(self.started()[k] == made[k].name@);
                        }
                        crate::connected::bridge_map_absent(made, name);
                    }
                }
                assert(bridge_map(made) =~= fresh_bridges(self.started()));
                assert forall|i: int, j: int|
                    0 <= i < self.started().len() && 0 <= j < self.started().len() && i
                        != j implies self.started()[i] != self.started()[j] by {
                    if i < j {
                        assert(self.names@[i]@ != self.names@[j]@);
                    } else {
                        assert(self.names@[j]@ != self.names@[i]@);
                    }
                }
                crate::ownership::fresh_is_exclusive(self.started());
            } else {
                assert(fresh_bridges(Seq::<Seq<char>>::empty()) =~= Map::<
                    Seq<char>,
                    HalfState,
                >::empty());
                crate::ownership::fresh_is_exclusive(Seq::<Seq<char>>::empty());
                assert(bridge_names(made) =~= Seq::<Seq<char>>::empty());
                assert(bridge_map(made) =~= Map::<Seq<char>, HalfState>::empty());
            }
        }
        match ConnectedOrchestrator::new(bridges) {
            Ok(c) => Ok(c),
            Err(_) => {
                proof {
                    assert(false);
                }
                Err(HandshakeError { name: String::new() })
            },
        }
    }
}

} // verus!
